use vstd::prelude::*;

use crate::table::StringMap;

verus! {

/// The length of the rate-limiting window, in nanoseconds (60 seconds).
pub const WINDOW_NANOS: i128 = 60_000_000_000;

/// Whether a request made at `t` still lies in the window that ends at `now`.
pub open spec fn in_window(now: i128, t: i128) -> bool {
    now - t < WINDOW_NANOS
}

/// The requests of `times` that lie in the window that ends at `now`, in order.
pub open spec fn recent(times: Seq<i128>, now: i128) -> Seq<i128> {
    times.filter(|t: i128| in_window(now, t))
}

/// No request of `times` lies after `now`.
pub open spec fn none_after(times: Seq<i128>, now: i128) -> bool {
    forall|i: int| 0 <= i < times.len() ==> times[i] <= now
}

/// Counts the requests of each API key over the last minute.
///
/// Each key maps to the times, in nanoseconds since the UNIX epoch (negative
/// before it), of its
/// requests that were still inside the window when the key last made one.
pub struct RequestCount {
    pub counts: StringMap<Vec<i128>>,
}

impl View for RequestCount {
    type V = Map<Seq<char>, Seq<i128>>;

    open spec fn view(&self) -> Map<Seq<char>, Seq<i128>> {
        self.counts@.map_values(|v: Vec<i128>| v@)
    }
}

/// The most nanoseconds a `std::time::Duration` holds (`Duration::MAX`:
/// `u64::MAX` seconds and 999 999 999 nanoseconds).
pub open spec fn duration_max_nanos() -> int {
    18_446_744_073_709_551_615int * 1_000_000_000 + 999_999_999
}

/// `std::time::SystemTimeError`, the error of `SystemTime::elapsed` when the
/// clock reads earlier than the time asked about.
#[verifier::external_type_specification]
#[verifier::external_body]
pub struct ExSystemTimeError(std::time::SystemTimeError);

/// Reads the system clock with `std::time::SystemTime::elapsed` on
/// `UNIX_EPOCH`: `Ok` of the time since the epoch, or `Err` where the clock
/// reads earlier than the epoch. Nothing is promised of the value: it is the
/// time.
#[verifier::external_body]
fn elapsed_since_epoch() -> Result<std::time::Duration, std::time::SystemTimeError> {
    std::time::SystemTime::UNIX_EPOCH.elapsed()
}

/// `std::time::SystemTimeError::duration`: how much earlier than the epoch
/// the clock read. Nothing is promised of the value.
#[verifier::external_body]
fn error_duration(e: &std::time::SystemTimeError) -> std::time::Duration {
    e.duration()
}

/// `std::time::Duration::as_nanos`: the whole nanoseconds of the duration,
/// which no `Duration` holds more of than `Duration::MAX`. Only that bound
/// is promised.
#[verifier::external_body]
fn duration_nanos(d: std::time::Duration) -> (r: u128)
    ensures
        r <= duration_max_nanos(),
{
    d.as_nanos()
}

/// The present time, in nanoseconds since the UNIX epoch (negative before it).
pub(crate) fn clock_nanos() -> i128 {
    match elapsed_since_epoch() {
        Ok(d) => duration_nanos(d) as i128,
        Err(e) => -(duration_nanos(error_duration(&e)) as i128),
    }
}

impl RequestCount {
    /// The record's keys are distinct.
    pub open spec fn wf(&self) -> bool {
        self.counts.wf()
    }

    /// The requests recorded for `key`; none where the key is unknown.
    pub open spec fn history(&self, key: Seq<char>) -> Seq<i128> {
        if self@.contains_key(key) {
            self@[key]
        } else {
            Seq::empty()
        }
    }

    /// The record after `key` makes a request at `now`: the key keeps its
    /// requests of the last minute, then `now`; other keys are untouched.
    pub open spec fn after_request(&self, key: Seq<char>, now: i128) -> Map<Seq<char>, Seq<i128>> {
        self@.insert(key, recent(self.history(key), now).push(now))
    }

    /// An empty record.
    pub fn new() -> (r: Self)
        ensures
            r.wf(),
            r@ == Map::<Seq<char>, Seq<i128>>::empty(),
    {
        let r = RequestCount { counts: StringMap::new() };
        proof {
            assert(r@ =~= Map::<Seq<char>, Seq<i128>>::empty());
        }
        r
    }

    /// Records a request of `key` made at `now` and returns how many requests
    /// `key` has made in the minute that ends at `now`, this one included.
    /// The count is truncated to 32 bits, as `usize as u32` does.
    pub fn increment_at(&mut self, key: &str, now: i128) -> (r: u32)
        requires
            old(self).wf(),
            none_after(old(self).history(key@), now),
        ensures
            final(self).wf(),
            final(self)@ == old(self).after_request(key@, now),
            r == (recent(old(self).history(key@), now).len() + 1) as u32,
    {
        let times: Vec<i128> = match self.counts.get(key) {
            Some(v) => v.clone(),
            None => Vec::new(),
        };
        proof {
            assert(times@ =~= old(self).history(key@));
        }
        let mut kept: Vec<i128> = Vec::new();
        let mut i: usize = 0;
        while i < times.len()
            invariant
                i <= times@.len(),
                times@ == old(self).history(key@),
                none_after(times@, now),
                kept@ == recent(times@.take(i as int), now),
            decreases times@.len() - i,
        {
            let t = times[i];
            proof {
                assert(times@.take(i + 1).drop_last() =~= times@.take(i as int));
                reveal_with_fuel(Seq::filter, 1);
            }
            // `t <= now`; where `now - t` would not fit, `t` lies far before.
            let within: bool = if t >= 0 || now < 0 {
                now - t < WINDOW_NANOS
            } else {
                t > now - WINDOW_NANOS
            };
            if within {
                kept.push(t);
            }
            i = i + 1;
        }
        proof {
            assert(times@.take(times@.len() as int) =~= times@);
        }
        kept.push(now);
        let n = kept.len() as u32;
        self.counts.insert(key.to_owned(), kept);
        proof {
            assert(self@ =~= old(self).after_request(key@, now));
        }
        n
    }

    /// Records a request of `key` made at `now`, where no request recorded for
    /// `key` lies after `now`, and returns how many requests `key` has made in
    /// the minute that ends at `now`, this one included. `None`, with the
    /// record unchanged, where a recorded request lies after `now`.
    pub fn increment_checked(&mut self, key: &str, now: i128) -> (r: Option<u32>)
        requires
            old(self).wf(),
        ensures
            final(self).wf(),
            r is None <==> !none_after(old(self).history(key@), now),
            r is None ==> final(self)@ == old(self)@,
            r matches Some(n) ==> final(self)@ == old(self).after_request(key@, now) && n == (recent(
                old(self).history(key@),
                now,
            ).len() + 1) as u32,
    {
        if !self.none_after(key, now) {
            return None;
        }
        Some(self.increment_at(key, now))
    }

    /// Records a request of `key` at the present time and returns how many
    /// requests `key` has made in the last minute, this one included: the
    /// clock read, then `increment_checked` at that time.
    ///
    /// `None`, with the record unchanged, where the clock reads earlier than a
    /// request already recorded for `key`; so a key with no recorded request
    /// is always counted.
    pub fn increment(&mut self, key: &str) -> (r: Option<u32>)
        requires
            old(self).wf(),
        ensures
            final(self).wf(),
            old(self).history(key@).len() == 0 ==> r is Some,
            exists|now: i128|
                #![trigger none_after(old(self).history(key@), now)]
                {
                    &&& (r is None <==> !none_after(old(self).history(key@), now))
                    &&& (r is None ==> final(self)@ == old(self)@)
                    &&& (r matches Some(n) ==> final(self)@ == old(self).after_request(key@, now) && n == (
                    recent(old(self).history(key@), now).len() + 1) as u32)
                },
    {
        let now = clock_nanos();
        self.increment_checked(key, now)
    }

    /// Whether no request recorded for `key` lies after `now`.
    pub fn none_after(&self, key: &str, now: i128) -> (r: bool)
        requires
            self.wf(),
        ensures
            r == none_after(self.history(key@), now),
    {
        match self.counts.get(key) {
            None => true,
            Some(v) => {
                let mut i: usize = 0;
                while i < v.len()
                    invariant
                        i <= v@.len(),
                        v@ == self.history(key@),
                        forall|j: int| 0 <= j < i ==> v@[j] <= now,
                    decreases v@.len() - i,
                {
                    if v[i] > now {
                        return false;
                    }
                    i = i + 1;
                }
                true
            },
        }
    }
}


/// The times of `ts` never go back.
pub open spec fn nondecreasing(ts: Seq<i128>) -> bool {
    forall|i: int, j: int| 0 <= i <= j < ts.len() ==> ts[i] <= ts[j]
}

/// The record of a key, starting from none, after it made requests at the
/// times `ts`, one after the other.
pub open spec fn replay(ts: Seq<i128>) -> Seq<i128>
    decreases ts.len(),
{
    if ts.len() == 0 {
        Seq::empty()
    } else {
        recent(replay(ts.drop_last()), ts.last()).push(ts.last())
    }
}

/// Filtering twice, where the second test implies the first, is filtering
/// by the second test.
proof fn lemma_filter_filter(s: Seq<i128>, f: spec_fn(i128) -> bool, g: spec_fn(i128) -> bool)
    requires
        forall|i: int| 0 <= i < s.len() && g(s[i]) ==> f(s[i]),
    ensures
        s.filter(f).filter(g) == s.filter(g),
    decreases s.len(),
{
    reveal(Seq::filter);
    if s.len() > 0 {
        lemma_filter_filter(s.drop_last(), f, g);
        if f(s.last()) {
            assert(s.filter(f).drop_last() =~= s.drop_last().filter(f));
        }
    }
}

/// The record of a key whose requests came at times that never go back holds
/// exactly its requests of the minute that ends at its latest one: the rate
/// limiter counts every request of the last minute, and no older one.
pub proof fn law_record_is_last_minute(ts: Seq<i128>)
    requires
        ts.len() > 0,
        nondecreasing(ts),
    ensures
        replay(ts) == recent(ts, ts.last()),
    decreases ts.len(),
{
    reveal_with_fuel(Seq::filter, 1);
    let t = ts.last();
    let p = ts.drop_last();
    assert(in_window(t, t));
    assert(recent(ts, t) == recent(p, t).push(t));
    if p.len() == 0 {
        assert(recent(p, t) =~= Seq::<i128>::empty());
        assert(replay(p) =~= Seq::<i128>::empty());
    } else {
        law_record_is_last_minute(p);
        let u = p.last();
        assert(u <= t);
        assert forall|i: int| 0 <= i < p.len() && in_window(t, p[i]) implies in_window(u, p[i]) by {
            assert(p[i] <= u);
        }
        lemma_filter_filter(p, |x: i128| in_window(u, x), |x: i128| in_window(t, x));
    }
}

} // verus!
