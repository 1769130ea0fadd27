use vstd::prelude::*;

verus! {

/// The first second of the UTC day that holds `ts`.
pub open spec fn day_start_of(ts: int) -> int {
    ts - ts % 86400
}

/// Relies on chrono's `DateTime::from_timestamp`, `date_naive` and
/// `and_time(NaiveTime::MIN)`: the midnight that opens the UTC day of `ts`.
/// `from_timestamp` gives `None` only outside chrono's range of dates
/// (years -262143 to 262142), far beyond a trillion seconds either way.
#[verifier::external_body]
fn utc_day_start(ts: i64) -> (r: Option<i64>)
    ensures
        r matches Some(d) ==> d == day_start_of(ts as int),
        -1_000_000_000_000 <= ts <= 1_000_000_000_000 ==> r is Some,
{
    match chrono::DateTime::from_timestamp(ts, 0) {
        Some(d) => Some(d.date_naive().and_time(chrono::NaiveTime::MIN).and_utc().timestamp()),
        None => None,
    }
}

/// The cutoff of a sync pass: the one given, or else the start of the UTC day
/// of `now`. `None` only where `now` lies outside the calendar's range.
pub fn cutoff_for(create_after: Option<i64>, now: i64) -> (r: Option<i64>)
    ensures
        create_after matches Some(t) ==> r == Some(t),
        create_after is None ==> (r matches Some(d) ==> d == day_start_of(now as int)),
        create_after is None && -1_000_000_000_000 <= now <= 1_000_000_000_000 ==> r is Some,
{
    match create_after {
        Some(t) => Some(t),
        None => utc_day_start(now),
    }
}

/// The smaller of a watermark and a timestamp; an unset watermark takes the timestamp.
pub open spec fn lower(oldest: Option<i64>, t: i64) -> Option<i64> {
    match oldest {
        None => Some(t),
        Some(o) => Some(if t < o { t } else { o }),
    }
}

/// The watermark after observing the creation times `ts`, in order.
pub open spec fn watermark(oldest: Option<i64>, ts: Seq<i64>) -> Option<i64>
    decreases ts.len(),
{
    if ts.len() == 0 {
        oldest
    } else {
        lower(watermark(oldest, ts.drop_last()), ts.last())
    }
}

/// Whether a pass goes on: nothing seen yet, or everything seen is newer than the cutoff.
pub open spec fn goes_on(oldest: Option<i64>, cutoff: i64) -> bool {
    match oldest {
        None => true,
        Some(o) => o > cutoff,
    }
}

/// The state of one repository's sync pass: the next page to fetch, the
/// oldest creation time seen so far, the cutoff, and whether it has ended.
pub struct SyncState {
    pub page: u64,
    pub oldest_seen: Option<i64>,
    pub cutoff: i64,
    pub done: bool,
}

/// What the driver of a pass does next.
pub enum SyncAction {
    Fetch(u64),
    Finish,
}

impl SyncState {
    /// A pass that starts at page 1 with no watermark.
    pub fn start(cutoff: i64) -> (r: SyncState)
        ensures
            r.page == 1,
            r.oldest_seen is None,
            r.cutoff == cutoff,
            !r.done,
    {
        SyncState { page: 1, oldest_seen: None, cutoff, done: false }
    }

    pub fn next_action(&self) -> (r: SyncAction)
        ensures
            self.done ==> r is Finish,
            !self.done ==> r == SyncAction::Fetch(self.page),
    {
        if self.done {
            SyncAction::Finish
        } else {
            SyncAction::Fetch(self.page)
        }
    }

    /// Takes in the creation times of the page just fetched. The pass ends on
    /// an empty page (no more pages) or once the watermark reaches the cutoff.
    pub fn on_page(&mut self, created: &Vec<i64>)
        requires
            !old(self).done,
            old(self).page < u64::MAX,
        ensures
            final(self).oldest_seen == watermark(old(self).oldest_seen, created@),
            final(self).cutoff == old(self).cutoff,
            final(self).page == old(self).page + 1,
            final(self).done == (created@.len() == 0 || !goes_on(
                final(self).oldest_seen,
                old(self).cutoff,
            )),
    {
        let mut oldest = self.oldest_seen;
        let mut i: usize = 0;
        while i < created.len()
            invariant
                i <= created.len(),
                oldest == watermark(old(self).oldest_seen, created@.subrange(0, i as int)),
            decreases created.len() - i,
        {
            let t = created[i];
            oldest = match oldest {
                None => Some(t),
                Some(o) => Some(if t < o { t } else { o }),
            };
            proof {
                let pre = created@.subrange(0, i as int + 1);
                assert(pre.drop_last() =~= created@.subrange(0, i as int));
            }
            i = i + 1;
        }
        proof {
            assert(created@.subrange(0, created.len() as int) =~= created@);
        }
        self.oldest_seen = oldest;
        self.page = self.page + 1;
        self.done = created.len() == 0 || match oldest {
            None => false,
            Some(o) => o <= self.cutoff,
        };
    }
}

} // verus!
