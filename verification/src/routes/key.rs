use vstd::prelude::*;

use crate::routes::ratelimiter::{
    clock_nanos, in_window, law_record_is_last_minute, nondecreasing, none_after, recent, replay,
    RequestCount, WINDOW_NANOS,
};
use crate::text::str_eq;

verus! {

/// The most requests a key other than the administrator's may make in a
/// minute.
pub const REQUEST_LIMIT: u32 = 60;

/// An API key that was accepted for a request.
pub struct ApiKey(pub String);

/// Why a request's API key was refused.
#[derive(PartialEq, Eq, Structural, Clone, Copy, Debug)]
pub enum KeyRejection {
    /// No key, or one that the database does not know: 401.
    Unauthorized,
    /// The key made more than `REQUEST_LIMIT` requests in the last minute: 429.
    TooManyRequests,
}

impl KeyRejection {
    /// The HTTP status that answers the refusal.
    pub open spec fn spec_status_code(self) -> u16 {
        match self {
            KeyRejection::Unauthorized => 401,
            KeyRejection::TooManyRequests => 429,
        }
    }

    /// The HTTP status that answers the refusal.
    pub fn status_code(&self) -> (r: u16)
        ensures
            r == self.spec_status_code(),
    {
        match self {
            KeyRejection::Unauthorized => 401,
            KeyRejection::TooManyRequests => 429,
        }
    }
}

/// What the key check answers when a confirmed key other than the
/// administrator's has made `count` requests in the last minute.
pub open spec fn admission(key: Seq<char>, count: u32) -> Result<Seq<char>, KeyRejection> {
    if count > REQUEST_LIMIT {
        Err(KeyRejection::TooManyRequests)
    } else {
        Ok(key)
    }
}

/// The answer of the key check, with the accepted key taken by its view.
pub open spec fn answer_view(r: Result<ApiKey, KeyRejection>) -> Result<Seq<char>, KeyRejection> {
    match r {
        Ok(k) => Ok(k.0@),
        Err(e) => Err(e),
    }
}

impl ApiKey {
    /// The key's text.
    pub fn value(&self) -> (r: &str)
        ensures
            r@ == self.0@,
    {
        self.0.as_str()
    }

    /// Checks the `x-api-key` header of a request at time `now`.
    ///
    /// `confirmed` is whether the database knows the key; `admin_key` is the
    /// administrator's key. A missing or unknown key is refused; the
    /// administrator's key is accepted without being counted; any other key
    /// is counted, and refused once it has made more than `REQUEST_LIMIT`
    /// requests in the last minute.
    pub fn from_request_at(
        key_header: Option<&str>,
        confirmed: bool,
        admin_key: &str,
        count: &mut RequestCount,
        now: i128,
    ) -> (r: Result<ApiKey, KeyRejection>)
        requires
            old(count).wf(),
            key_header matches Some(k) ==> none_after(old(count).history(k@), now),
        ensures
            final(count).wf(),
            match key_header {
                None => r == Err::<ApiKey, KeyRejection>(KeyRejection::Unauthorized)
                    && final(count)@ == old(count)@,
                Some(k) => if !confirmed {
                    r == Err::<ApiKey, KeyRejection>(KeyRejection::Unauthorized)
                        && final(count)@ == old(count)@
                } else if k@ == admin_key@ {
                    answer_view(r) == Ok::<Seq<char>, KeyRejection>(k@)
                        && final(count)@ == old(count)@
                } else {
                    final(count)@ == old(count).after_request(k@, now)
                        && answer_view(r) == admission(
                            k@,
                            (recent(old(count).history(k@), now).len() + 1) as u32,
                        )
                },
            },
    {
        match key_header {
            None => Err(KeyRejection::Unauthorized),
            Some(key) => {
                if !confirmed {
                    return Err(KeyRejection::Unauthorized);
                }
                if str_eq(key, admin_key) {
                    return Ok(ApiKey(key.to_owned()));
                }
                let counter = count.increment_at(key, now);
                if counter > REQUEST_LIMIT {
                    Err(KeyRejection::TooManyRequests)
                } else {
                    Ok(ApiKey(key.to_owned()))
                }
            },
        }
    }

    /// Checks the `x-api-key` header of a request at the present time: the
    /// clock read, then `from_request_at` at that time.
    ///
    /// `None`, with the record unchanged, where a confirmed key other than the
    /// administrator's is to be counted and the clock reads earlier than a
    /// request already recorded for it; so such a key with no recorded request
    /// is always counted and answered.
    pub fn from_request(
        key_header: Option<&str>,
        confirmed: bool,
        admin_key: &str,
        count: &mut RequestCount,
    ) -> (r: Option<Result<ApiKey, KeyRejection>>)
        requires
            old(count).wf(),
        ensures
            final(count).wf(),
            match key_header {
                None => r == Some(Err::<ApiKey, KeyRejection>(KeyRejection::Unauthorized))
                    && final(count)@ == old(count)@,
                Some(k) => if !confirmed {
                    r == Some(Err::<ApiKey, KeyRejection>(KeyRejection::Unauthorized))
                        && final(count)@ == old(count)@
                } else if k@ == admin_key@ {
                    r is Some && answer_view(r->0) == Ok::<Seq<char>, KeyRejection>(k@)
                        && final(count)@ == old(count)@
                } else {
                    &&& (old(count).history(k@).len() == 0 ==> r is Some)
                    &&& exists|now: i128|
                        #![trigger none_after(old(count).history(k@), now)]
                        {
                            &&& (r is None <==> !none_after(old(count).history(k@), now))
                            &&& (r is None ==> final(count)@ == old(count)@)
                            &&& (r matches Some(a) ==> final(count)@ == old(count).after_request(k@, now)
                                && answer_view(a) == admission(
                                k@,
                                (recent(old(count).history(k@), now).len() + 1) as u32,
                            ))
                        }
                },
            },
    {
        match key_header {
            None => Some(Err(KeyRejection::Unauthorized)),
            Some(key) => {
                if !confirmed {
                    return Some(Err(KeyRejection::Unauthorized));
                }
                if str_eq(key, admin_key) {
                    return Some(Ok(ApiKey(key.to_owned())));
                }
                let now = clock_nanos();
                if !count.none_after(key, now) {
                    return None;
                }
                Some(Self::from_request_at(key_header, confirmed, admin_key, count, now))
            },
        }
    }
}


/// A key other than the administrator's, whose requests came at times `ts`
/// that never go back, is admitted at its latest request exactly when it made
/// at most `REQUEST_LIMIT` requests, that one included, in the minute that
/// ends at it.
pub proof fn law_admitted_iff_within_limit(key: Seq<char>, ts: Seq<i128>)
    requires
        ts.len() > 0,
        ts.len() <= u32::MAX,
        nondecreasing(ts),
    ensures
        admission(key, (recent(replay(ts.drop_last()), ts.last()).len() + 1) as u32) is Ok
            <==> recent(ts, ts.last()).len() <= REQUEST_LIMIT,
{
    law_record_is_last_minute(ts);
    assert(replay(ts).len() == recent(replay(ts.drop_last()), ts.last()).len() + 1);
    ts.lemma_filter_len(|t: i128| crate::routes::ratelimiter::in_window(ts.last(), t));
}


/// Whether the request at index `i` of a run `ts` of one key's requests is
/// admitted: the answer of the key check given the record that the earlier
/// requests left.
pub open spec fn admitted_at(key: Seq<char>, ts: Seq<i128>, i: int) -> bool {
    admission(key, (recent(replay(ts.take(i)), ts[i]).len() + 1) as u32) is Ok
}

/// `x` lies in the minute that ends at `t`: after `t` less one minute, and not
/// after `t`.
pub open spec fn in_minute_ending(t: i128, x: i128) -> bool {
    t - WINDOW_NANOS < x <= t
}

/// How many of the first `n` requests of the run lie in the minute that ends
/// at `t` and were admitted.
pub open spec fn admitted_in_minute(key: Seq<char>, ts: Seq<i128>, t: i128, n: nat) -> nat
    decreases n,
{
    if n == 0 {
        0
    } else {
        admitted_in_minute(key, ts, t, (n - 1) as nat) + if in_minute_ending(t, ts[n - 1]) && admitted_at(
            key,
            ts,
            n - 1,
        ) {
            1nat
        } else {
            0nat
        }
    }
}

/// A weaker test keeps at least as many elements.
proof fn lemma_filter_len_mono(s: Seq<i128>, f: spec_fn(i128) -> bool, g: spec_fn(i128) -> bool)
    requires
        forall|i: int| 0 <= i < s.len() && g(s[i]) ==> f(s[i]),
    ensures
        s.filter(g).len() <= s.filter(f).len(),
    decreases s.len(),
{
    reveal(Seq::filter);
    if s.len() > 0 {
        lemma_filter_len_mono(s.drop_last(), f, g);
    }
}

/// The admitted requests in a minute are among all requests in it.
proof fn lemma_admitted_below_window(key: Seq<char>, ts: Seq<i128>, t: i128, n: nat)
    requires
        n <= ts.len(),
    ensures
        admitted_in_minute(key, ts, t, n) <= ts.take(n as int).filter(|x: i128| in_minute_ending(t, x)).len(),
    decreases n,
{
    reveal_with_fuel(Seq::filter, 1);
    if n > 0 {
        lemma_admitted_below_window(key, ts, t, (n - 1) as nat);
        assert(ts.take(n as int).drop_last() =~= ts.take(n - 1));
        assert(ts.take(n as int).last() == ts[n - 1]);
    }
}

/// Before an admitted request, at most `REQUEST_LIMIT` requests, that one
/// included, lie in any minute that holds it.
proof fn lemma_admitted_bounds_window(key: Seq<char>, ts: Seq<i128>, t: i128, i: int)
    requires
        0 <= i < ts.len(),
        ts.len() <= u32::MAX,
        nondecreasing(ts),
        in_minute_ending(t, ts[i]),
        admitted_at(key, ts, i),
    ensures
        ts.take(i + 1).filter(|x: i128| in_minute_ending(t, x)).len() <= REQUEST_LIMIT,
{
    let p = ts.take(i + 1);
    assert(p.drop_last() =~= ts.take(i));
    assert(p.last() == ts[i]);
    assert(nondecreasing(p));
    law_admitted_iff_within_limit(key, p);
    assert forall|j: int| 0 <= j < p.len() && in_minute_ending(t, p[j]) implies in_window(ts[i], p[j]) by {
        assert(p[j] == ts[j]);
        assert(ts[j] <= ts[i]);
    }
    lemma_filter_len_mono(p, |x: i128| in_window(ts[i], x), |x: i128| in_minute_ending(t, x));
}

/// Of a run of one key's requests at times that never go back, at most
/// `REQUEST_LIMIT` are admitted in any one minute; refused requests count
/// toward the minute too.
pub proof fn law_at_most_limit_admitted_per_minute(key: Seq<char>, ts: Seq<i128>, t: i128)
    requires
        ts.len() <= u32::MAX,
        nondecreasing(ts),
    ensures
        admitted_in_minute(key, ts, t, ts.len()) <= REQUEST_LIMIT,
{
    lemma_admitted_in_minute_bounded(key, ts, t, ts.len());
}

proof fn lemma_admitted_in_minute_bounded(key: Seq<char>, ts: Seq<i128>, t: i128, n: nat)
    requires
        n <= ts.len(),
        ts.len() <= u32::MAX,
        nondecreasing(ts),
    ensures
        admitted_in_minute(key, ts, t, n) <= REQUEST_LIMIT,
    decreases n,
{
    if n > 0 {
        let i = n - 1;
        if in_minute_ending(t, ts[i]) && admitted_at(key, ts, i) {
            lemma_admitted_below_window(key, ts, t, n);
            lemma_admitted_bounds_window(key, ts, t, i);
        } else {
            lemma_admitted_in_minute_bounded(key, ts, t, (n - 1) as nat);
        }
    }
}

} // verus!
