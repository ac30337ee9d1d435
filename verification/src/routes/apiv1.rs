use vstd::prelude::*;

use crate::objects::database::names_view;
use crate::objects::market::market::{Market, MixedMarket};
use crate::routes::errors::has_catcher;
use crate::routes::key::{ApiKey, KeyRejection};
use crate::text::{chars_of, push_char, str_eq};

verus! {

/// The pieces joined into one text, with `sep` between each two.
pub open spec fn join(pieces: Seq<Seq<char>>, sep: char) -> Seq<char>
    decreases pieces.len(),
{
    if pieces.len() == 0 {
        Seq::empty()
    } else if pieces.len() == 1 {
        pieces[0]
    } else {
        join(pieces.drop_last(), sep).push(sep) + pieces.last()
    }
}

/// `p` holds no comma.
pub open spec fn comma_free(p: Seq<char>) -> bool {
    !p.contains(',')
}

/// Appending a character to the last piece appends it to the joined text.
proof fn lemma_join_push_last(pieces: Seq<Seq<char>>, last: Seq<char>, c: char, sep: char)
    ensures
        join(pieces.push(last.push(c)), sep) == join(pieces.push(last), sep).push(c),
{
    let a = pieces.push(last.push(c));
    let b = pieces.push(last);
    if pieces.len() == 0 {
        assert(a[0] == last.push(c));
    } else {
        assert(a.drop_last() =~= pieces);
        assert(b.drop_last() =~= pieces);
        assert(join(a, sep) =~= join(b, sep).push(c));
    }
}

/// Splits a comma-separated list of item names, as `str::split(",")` does:
/// the pieces, at least one, hold no comma and joined by commas give back
/// `items`.
pub fn split_items(items: &str) -> (r: Vec<String>)
    ensures
        r@.len() >= 1,
        join(names_view(r@), ',') == items@,
        forall|i: int| 0 <= i < r@.len() ==> comma_free(#[trigger] r@[i]@),
{
    let cs = chars_of(items);
    let mut pieces: Vec<String> = Vec::new();
    let mut cur = String::new();
    let mut i: usize = 0;
    while i < cs.len()
        invariant
            i <= cs@.len(),
            cs@ == items@,
            join(names_view(pieces@).push(cur@), ',') == cs@.take(i as int),
            comma_free(cur@),
            forall|j: int| 0 <= j < pieces@.len() ==> comma_free(#[trigger] pieces@[j]@),
        decreases cs@.len() - i,
    {
        let c = cs[i];
        let ghost p = names_view(pieces@);
        let ghost x = cur@;
        proof {
            assert(cs@.take(i + 1) =~= cs@.take(i as int).push(c));
        }
        if c == ',' {
            pieces.push(cur);
            cur = String::new();
            proof {
                let q = p.push(x).push(cur@);
                assert(names_view(pieces@) =~= p.push(x));
                assert(q.drop_last() =~= p.push(x));
                assert(join(q, ',') =~= join(p.push(x), ',').push(','));
            }
        } else {
            push_char(&mut cur, c);
            proof {
                lemma_join_push_last(p, x, c, ',');
                assert(names_view(pieces@) == p);
                assert forall|k: int| 0 <= k < cur@.len() implies cur@[k] != ',' by {
                    if k < x.len() {
                        assert(cur@[k] == x[k]);
                    }
                }
            }
        }
        i = i + 1;
    }
    let ghost p = names_view(pieces@);
    let ghost x = cur@;
    pieces.push(cur);
    proof {
        assert(names_view(pieces@) =~= p.push(x));
        assert(cs@.take(cs@.len() as int) =~= cs@);
    }
    pieces
}

/// The joined text of two or more pieces ends with a comma and the last piece.
proof fn lemma_join_last(a: Seq<Seq<char>>)
    requires
        a.len() >= 2,
    ensures
        join(a, ',') == join(a.drop_last(), ',') + seq![','] + a.last(),
{
    assert(join(a.drop_last(), ',').push(',') =~= join(a.drop_last(), ',') + seq![',']);
}

/// The joined text of comma-free pieces holds a comma exactly when there are
/// two pieces or more.
proof fn lemma_join_single(a: Seq<Seq<char>>)
    requires
        a.len() >= 1,
        forall|i: int| 0 <= i < a.len() ==> comma_free(#[trigger] a[i]),
    ensures
        comma_free(join(a, ',')) <==> a.len() == 1,
{
    if a.len() >= 2 {
        lemma_join_last(a);
        let x = join(a.drop_last(), ',');
        assert(join(a, ',')[x.len() as int] == ',');
    }
}

/// Splitting on commas has one answer: two lists of comma-free pieces, each
/// of at least one piece, that join into the same text are the same list. So
/// `split_items` returns the only list its contract allows.
pub proof fn law_split_unique(a: Seq<Seq<char>>, b: Seq<Seq<char>>)
    requires
        a.len() >= 1,
        b.len() >= 1,
        forall|i: int| 0 <= i < a.len() ==> comma_free(#[trigger] a[i]),
        forall|i: int| 0 <= i < b.len() ==> comma_free(#[trigger] b[i]),
        join(a, ',') == join(b, ','),
    ensures
        a == b,
    decreases a.len(),
{
    lemma_join_single(a);
    lemma_join_single(b);
    if a.len() == 1 {
        assert(a =~= b);
    } else {
        lemma_join_last(a);
        lemma_join_last(b);
        let x = join(a.drop_last(), ',');
        let y = join(b.drop_last(), ',');
        let p = a.last();
        let q = b.last();
        let s = join(a, ',');
        assert(s.len() == x.len() + 1 + p.len());
        assert(s.len() == y.len() + 1 + q.len());
        if p.len() < q.len() {
            assert(s[x.len() as int] == ',');
            assert(q[x.len() - y.len() - 1] == s[x.len() as int]);
            assert(false);
        }
        if q.len() < p.len() {
            assert(s[y.len() as int] == ',');
            assert(p[y.len() - x.len() - 1] == s[y.len() as int]);
            assert(false);
        }
        assert(p =~= s.subrange(x.len() + 1int, s.len() as int));
        assert(q =~= s.subrange(y.len() + 1int, s.len() as int));
        assert(x =~= s.subrange(0, x.len() as int));
        assert(y =~= s.subrange(0, y.len() as int));
        assert(forall|i: int| 0 <= i < a.drop_last().len() ==> #[trigger] a.drop_last()[i] == a[i]);
        assert(forall|i: int| 0 <= i < b.drop_last().len() ==> #[trigger] b.drop_last()[i] == b[i]);
        law_split_unique(a.drop_last(), b.drop_last());
        assert(a =~= b.drop_last().push(q));
        assert(b =~= b.drop_last().push(q));
    }
}

/// Why a request under `/v1` fails.
#[derive(PartialEq, Eq, Structural, Clone, Copy, Debug)]
pub enum RouteError {
    /// 400.
    BadRequest,
    /// 401.
    Unauthorized,
    /// 404.
    NotFound,
}

impl RouteError {
    /// The HTTP status of the failure.
    pub open spec fn spec_status_code(self) -> u16 {
        match self {
            RouteError::BadRequest => 400,
            RouteError::Unauthorized => 401,
            RouteError::NotFound => 404,
        }
    }

    /// The HTTP status of the failure.
    pub fn status_code(&self) -> (r: u16)
        ensures
            r == self.spec_status_code(),
    {
        match self {
            RouteError::BadRequest => 400,
            RouteError::Unauthorized => 401,
            RouteError::NotFound => 404,
        }
    }
}

/// The item names that `GET /market/latest?items=` asks for; a request
/// that provides no items is answered "not found".
pub fn latest_market_request(items: Option<&str>) -> (r: Result<Vec<String>, RouteError>)
    ensures
        items is None ==> r == Err::<Vec<String>, RouteError>(RouteError::NotFound),
        items matches Some(s) ==> r matches Ok(v) && join(names_view(v@), ',') == s@ && v@.len() >= 1
            && forall|i: int| 0 <= i < v@.len() ==> comma_free(#[trigger] v@[i]@),
{
    match items {
        None => Err(RouteError::NotFound),
        Some(s) => Ok(split_items(s)),
    }
}

/// The answer of `GET /market/latest` to the gathered items: not found where
/// gathering failed, whatever the failure.
pub fn latest_market_reply<E>(found: Result<MixedMarket, E>) -> (r: Result<MixedMarket, RouteError>)
    ensures
        match found {
            Ok(m) => r matches Ok(x) && x == m,
            Err(_) => r == Err::<MixedMarket, RouteError>(RouteError::NotFound),
        },
{
    match found {
        Ok(m) => Ok(m),
        Err(_) => Err(RouteError::NotFound),
    }
}

/// The item names that `GET /market/recent?items=` asks for; `None` asks for
/// the whole latest scan.
pub fn recent_market_request(items: Option<&str>) -> (r: Option<Vec<String>>)
    ensures
        items is None ==> r is None,
        items matches Some(s) ==> r matches Some(v) && join(names_view(v@), ',') == s@ && v@.len() >= 1
            && forall|i: int| 0 <= i < v@.len() ==> comma_free(#[trigger] v@[i]@),
{
    match items {
        None => None,
        Some(s) => Some(split_items(s)),
    }
}

/// The answer of `GET /market/recent` to the latest scan: not found where
/// there is none.
pub fn recent_market_reply(found: Option<Market>) -> (r: Result<Market, RouteError>)
    ensures
        match found {
            Some(m) => r matches Ok(x) && x == m,
            None => r == Err::<Market, RouteError>(RouteError::NotFound),
        },
{
    match found {
        Some(m) => Ok(m),
        None => Err(RouteError::NotFound),
    }
}

/// Whether `POST /market/insert/data` may go on: only the administrator's
/// key may insert data.
pub fn insert_data_check(key: &ApiKey, admin_key: &str) -> (r: Result<(), RouteError>)
    ensures
        key.0@ == admin_key@ ==> r is Ok,
        key.0@ != admin_key@ ==> r == Err::<(), RouteError>(RouteError::Unauthorized),
{
    if str_eq(key.value(), admin_key) {
        Ok(())
    } else {
        Err(RouteError::Unauthorized)
    }
}


/// Every status with which a route under `/v1` refuses a request is answered
/// by a catcher of `/v1`, with that status.
pub proof fn law_route_errors_caught(e: RouteError)
    ensures
        has_catcher(e.spec_status_code()),
{
}

/// Of the refusals of an API key, a missing or unknown key is answered by a
/// catcher of `/v1`; a key over its rate limit (429) is not.
pub proof fn law_key_rejections_caught(k: KeyRejection)
    ensures
        has_catcher(k.spec_status_code()) <==> k == KeyRejection::Unauthorized,
{
}

} // verus!
