use vstd::prelude::*;

use std::collections::HashMap;

use crate::objects::market::helper::{
    enrich_listing, vendor_key, StoredListing, StoredVendor,
    resolve_scan, resolve_market, StoredInt, StoredMarket,
    StoredMarketView, MarketError, law_resolution_keeps_items,
};
use crate::objects::market::market::{Item, ItemView, Market, MarketView, MixedMarket, RobloxUser};
use crate::table::StringMap;

verus! {

broadcast use vstd::std_specs::hash::group_hash_axioms;

/// The record that holds the number of the latest scan.
pub struct Count {
    pub _id: u32,
    pub count: u32,
}

/// The users of a list by account number; of two users with the same number
/// the later one stays.
pub open spec fn users_by_id(users: Seq<RobloxUser>) -> Map<u64, RobloxUser>
    decreases users.len(),
{
    if users.len() == 0 {
        Map::empty()
    } else {
        users_by_id(users.drop_last()).insert(users.last().id, users.last())
    }
}

/// Indexes the users read from the `Roblox` collection by account number.
pub fn index_users(users: Vec<RobloxUser>) -> (r: HashMap<u64, RobloxUser>)
    ensures
        r@ == users_by_id(users@),
{
    let mut r: HashMap<u64, RobloxUser> = HashMap::new();
    let mut i: usize = 0;
    while i < users.len()
        invariant
            i <= users@.len(),
            r@ == users_by_id(users@.take(i as int)),
        decreases users@.len() - i,
    {
        let u = users[i].clone();
        r.insert(u.id, u);
        proof {
            assert(users@.take(i + 1).drop_last() =~= users@.take(i as int));
        }
        i = i + 1;
    }
    proof {
        assert(users@.take(users@.len() as int) =~= users@);
    }
    r
}

/// The document path of an item inside a scan: `items.<name>`.
pub open spec fn item_path(item: Seq<char>) -> Seq<char> {
    "items."@ + item
}

/// The document path of the item called `item` inside a scan.
pub fn item_field_path(item: &str) -> (r: String)
    ensures
        r@ == item_path(item@),
{
    let mut r = "items.".to_owned();
    r.append(item);
    r
}


/// The stored scans of a list, each taken by its view.
pub open spec fn scans_view(ms: Seq<StoredMarket>) -> Seq<StoredMarketView> {
    ms.map_values(|m: StoredMarket| m@)
}

/// What a stored scan adds to an item's history: the item as it stands in
/// the scan, where the scan's `_id` is a 32-bit integer, the scan resolves and
/// it holds the item.
pub open spec fn history_entry(m: StoredMarketView, item: Seq<char>, users: Map<u64, RobloxUser>) -> Option<ItemView> {
    if m.id is Int32 {
        match resolve_market(m, users) {
            Ok(mv) => if mv.items.contains_key(item) {
                Some(mv.items[item])
            } else {
                None
            },
            Err(_) => None,
        }
    } else {
        None
    }
}

/// An item's history over a list of scans, by scan number; of two scans with
/// the same number the later one stays.
pub open spec fn history(ms: Seq<StoredMarketView>, item: Seq<char>, users: Map<u64, RobloxUser>) -> Map<u32, ItemView>
    decreases ms.len(),
{
    if ms.len() == 0 {
        Map::empty()
    } else {
        let h = history(ms.drop_last(), item, users);
        match history_entry(ms.last(), item, users) {
            Some(v) => h.insert(v.id, v),
            None => h,
        }
    }
}

/// The items of `s` come in strictly increasing order of scan number.
pub open spec fn sorted_by_id(s: Seq<Item>) -> bool {
    forall|i: int, j: int| 0 <= i < j < s.len() ==> s[i].id < s[j].id
}

/// `s` lists exactly the items of `h`, each under its scan number.
pub open spec fn lists(s: Seq<Item>, h: Map<u32, ItemView>) -> bool {
    &&& forall|j: int| 0 <= j < s.len() ==> h.contains_key(#[trigger] s[j].id) && h[s[j].id] == s[j]@
    &&& forall|k: u32| #[trigger] h.contains_key(k) ==> exists|j: int| 0 <= j < s.len() && s[j].id == k
}

/// In an item's history, every item sits under its own scan number.
pub proof fn lemma_history_ids(ms: Seq<StoredMarketView>, item: Seq<char>, users: Map<u64, RobloxUser>)
    ensures
        forall|k: u32| #[trigger] history(ms, item, users).contains_key(k) ==> history(ms, item, users)[k].id == k,
    decreases ms.len(),
{
    if ms.len() > 0 {
        lemma_history_ids(ms.drop_last(), item, users);
        let h = history(ms.drop_last(), item, users);
        assert forall|k: u32| #[trigger] history(ms, item, users).contains_key(k) implies history(
            ms,
            item,
            users,
        )[k].id == k by {
            match history_entry(ms.last(), item, users) {
                Some(v) => {
                    if k != v.id {
                        assert(h.contains_key(k));
                    }
                },
                None => {
                    assert(h.contains_key(k));
                },
            }
        }
    }
}

/// Puts `it` into the sorted list `out`, replacing the item with the same
/// scan number if there is one.
fn place_item(out: &mut Vec<Item>, it: Item, Ghost(h): Ghost<Map<u32, ItemView>>)
    requires
        sorted_by_id(old(out)@),
        lists(old(out)@, h),
    ensures
        sorted_by_id(final(out)@),
        lists(final(out)@, h.insert(it.id, it@)),
{
    let mut p: usize = 0;
    while p < out.len() && out[p].id < it.id
        invariant
            p <= out@.len(),
            forall|j: int| 0 <= j < p ==> out@[j].id < it.id,
        decreases out@.len() - p,
    {
        p = p + 1;
    }
    let ghost old_s = out@;
    let ghost h2 = h.insert(it.id, it@);
    if p < out.len() && out[p].id == it.id {
        out.set(p, it);
        proof {
            assert forall|k: u32| #[trigger] h2.contains_key(k) implies exists|j: int|
                0 <= j < out@.len() && out@[j].id == k by {
                if k != out@[p as int].id {
                    let j = choose|j: int| 0 <= j < old_s.len() && old_s[j].id == k;
                    assert(out@[j].id == k);
                }
            }
        }
    } else {
        let ghost id = it.id;
        let ghost v = it@;
        out.insert(p, it);
        proof {
            assert(out@[p as int].id == id);
            assert forall|i: int, j: int| 0 <= i < j < out@.len() implies out@[i].id < out@[j].id by {
                if j < p {
                    assert(out@[i] == old_s[i] && out@[j] == old_s[j]);
                } else if j == p {
                    assert(out@[i] == old_s[i]);
                } else if i == p {
                    assert(out@[j] == old_s[j - 1]);
                    assert(old_s[p as int].id >= id);
                    if j - 1 > p {
                        assert(old_s[p as int].id < old_s[j - 1].id);
                    }
                } else if i < p {
                    assert(out@[i] == old_s[i] && out@[j] == old_s[j - 1]);
                } else {
                    assert(out@[i] == old_s[i - 1] && out@[j] == old_s[j - 1]);
                }
            }
            assert forall|j: int| 0 <= j < out@.len() implies h2.contains_key(#[trigger] out@[j].id)
                && h2[out@[j].id] == out@[j]@ by {
                if j < p {
                    assert(out@[j] == old_s[j]);
                } else if j > p {
                    assert(out@[j] == old_s[j - 1]);
                    assert(old_s[j - 1].id != id) by {
                        if p < old_s.len() {
                            assert(old_s[p as int].id > id);
                            if j - 1 > p {
                                assert(old_s[p as int].id < old_s[j - 1].id);
                            }
                        }
                    }
                }
            }
            assert forall|k: u32| #[trigger] h2.contains_key(k) implies exists|j: int|
                0 <= j < out@.len() && out@[j].id == k by {
                if k != id {
                    let j = choose|j: int| 0 <= j < old_s.len() && old_s[j].id == k;
                    if j < p {
                        assert(out@[j].id == k);
                    } else {
                        assert(out@[j + 1].id == k);
                    }
                }
            }
        }
    }
}

/// The history of the item called `item` over the scans read for it: for each
/// scan number, the item as it stands in that scan, in increasing order of
/// scan number. Scans whose `_id` is not a 32-bit integer, that do not
/// resolve or that do not hold the item are left out.
pub fn item_history(markets: &Vec<StoredMarket>, item: &str, roblox_users: &HashMap<u64, RobloxUser>) -> (r: Vec<Item>)
    requires
        forall|i: int| 0 <= i < markets@.len() ==> (#[trigger] markets@[i]).items.wf(),
    ensures
        sorted_by_id(r@),
        lists(r@, history(scans_view(markets@), item@, roblox_users@)),
{
    let mut out: Vec<Item> = Vec::new();
    let mut i: usize = 0;
    while i < markets.len()
        invariant
            i <= markets@.len(),
            forall|i: int| 0 <= i < markets@.len() ==> (#[trigger] markets@[i]).items.wf(),
            sorted_by_id(out@),
            lists(out@, history(scans_view(markets@).take(i as int), item@, roblox_users@)),
        decreases markets@.len() - i,
    {
        let ghost ms = scans_view(markets@);
        let ghost h = history(ms.take(i as int), item@, roblox_users@);
        proof {
            assert(ms.take(i + 1).drop_last() =~= ms.take(i as int));
            assert(ms.take(i + 1).last() == markets@[i as int]@);
        }
        let m = &markets[i];
        if let StoredInt::Int32(_) = m.id {
            match resolve_scan(m, roblox_users) {
                Ok(mv) => {
                    match mv.get_item(item) {
                        Some(it) => {
                            proof {
                                assert(history_entry(markets@[i as int]@, item@, roblox_users@) == Some(it@));
                                lemma_history_ids(ms.take(i + 1), item@, roblox_users@);
                                assert(it.id == mv.d);
                            }
                            place_item(&mut out, it, Ghost(h));
                        },
                        None => {},
                    }
                },
                Err(_) => {},
            }
        }
        i = i + 1;
    }
    proof {
        assert(scans_view(markets@).take(markets@.len() as int) =~= scans_view(markets@));
    }
    out
}


/// An optional stored scan, taken by its view.
pub open spec fn found_view(o: Option<StoredMarket>) -> Option<StoredMarketView> {
    match o {
        Some(m) => Some(m@),
        None => None,
    }
}

/// The latest state of each requested item: `found[i]` is the latest scan
/// that holds `items[i]`, if there is one. Items are taken in order; the first
/// scan that does not resolve decides the error.
pub open spec fn latest(
    items: Seq<Seq<char>>,
    found: Seq<Option<StoredMarketView>>,
    users: Map<u64, RobloxUser>,
) -> Result<Map<Seq<char>, ItemView>, MarketError>
    decreases items.len(),
{
    if items.len() == 0 {
        Ok(Map::empty())
    } else {
        let n = items.len() - 1;
        match latest(items.drop_last(), found, users) {
            Err(e) => Err(e),
            Ok(acc) => match found[n] {
                None => Ok(acc),
                Some(m) => match resolve_market(m, users) {
                    Err(e) => Err(e),
                    Ok(mv) => Ok(acc.insert(items[n], mv.items[items[n]])),
                },
            },
        }
    }
}

/// Once gathering fails on a prefix of the requests, it fails with that error.
proof fn lemma_latest_err(
    items: Seq<Seq<char>>,
    found: Seq<Option<StoredMarketView>>,
    users: Map<u64, RobloxUser>,
    j: int,
)
    requires
        0 <= j <= items.len(),
        latest(items.take(j), found, users) is Err,
    ensures
        latest(items, found, users) == latest(items.take(j), found, users),
    decreases items.len(),
{
    if j < items.len() {
        assert(items.drop_last().take(j) =~= items.take(j));
        lemma_latest_err(items.drop_last(), found, users, j);
    } else {
        assert(items.take(j) =~= items);
    }
}

/// The names of a list of strings.
pub open spec fn names_view(items: Seq<String>) -> Seq<Seq<char>> {
    items.map_values(|s: String| s@)
}

/// The outcome of gathering items, with the gathered items taken by their views.
pub open spec fn mixed_view(r: Result<MixedMarket, MarketError>) -> Result<Map<Seq<char>, ItemView>, MarketError> {
    match r {
        Ok(m) => Ok(m@),
        Err(e) => Err(e),
    }
}

/// Gathers the latest state of each requested item, from the latest scan that
/// holds it (`found[i]` for `items[i]`, `None` where no scan holds it).
pub fn latest_items(
    items: &Vec<String>,
    found: &Vec<Option<StoredMarket>>,
    roblox_users: &HashMap<u64, RobloxUser>,
) -> (r: Result<MixedMarket, MarketError>)
    requires
        found@.len() == items@.len(),
        forall|i: int| 0 <= i < found@.len() ==> match #[trigger] found@[i] {
            Some(m) => m.items.wf() && m@.items.contains_key(items@[i]@),
            None => true,
        },
    ensures
        mixed_view(r) == latest(
            names_view(items@),
            found@.map_values(|o: Option<StoredMarket>| found_view(o)),
            roblox_users@,
        ),
        r matches Ok(m) ==> m.wf(),
{
    let ghost names = names_view(items@);
    let ghost fs = found@.map_values(|o: Option<StoredMarket>| found_view(o));
    let mut acc: StringMap<Item> = StringMap::new();
    proof {
        assert(crate::objects::market::market::items_view(acc@) =~= Map::empty());
    }
    let mut i: usize = 0;
    while i < items.len()
        invariant
            i <= items@.len(),
            found@.len() == items@.len(),
            names == names_view(items@),
            fs == found@.map_values(|o: Option<StoredMarket>| found_view(o)),
            forall|i: int| 0 <= i < found@.len() ==> match #[trigger] found@[i] {
                Some(m) => m.items.wf() && m@.items.contains_key(items@[i]@),
                None => true,
            },
            acc.wf(),
            latest(names.take(i as int), fs, roblox_users@) == Ok::<Map<Seq<char>, ItemView>, MarketError>(
                crate::objects::market::market::items_view(acc@),
            ),
        decreases items@.len() - i,
    {
        proof {
            assert(names.take(i + 1).drop_last() =~= names.take(i as int));
            assert(names.take(i + 1)[i as int] == items@[i as int]@);
        }
        match &found[i] {
            None => {},
            Some(m) => {
                match resolve_scan(m, roblox_users) {
                    Err(e) => {
                        proof {
                            lemma_latest_err(names, fs, roblox_users@, i + 1);
                        }
                        return Err(e);
                    },
                    Ok(mv) => {
                        match mv.get_item(items[i].as_str()) {
                            Some(it) => {
                                let ghost before = crate::objects::market::market::items_view(acc@);
                                acc.insert(items[i].clone(), it);
                                proof {
                                    assert(crate::objects::market::market::items_view(acc@) =~= before.insert(
                                        items@[i as int]@,
                                        it@,
                                    ));
                                }
                            },
                            None => {
                                proof {
                                    assert(false);
                                }
                            },
                        }
                    },
                }
            },
        }
        i = i + 1;
    }
    proof {
        assert(names.take(items@.len() as int) =~= names);
    }
    Ok(MixedMarket { items: acc })
}

/// The latest scan as a market: `None` where no scan count is recorded;
/// `found` is the scan with the recorded number.
pub fn recent_instance(
    count: Option<Count>,
    found: Option<StoredMarket>,
    roblox_users: &HashMap<u64, RobloxUser>,
) -> (r: Result<Option<Market>, MarketError>)
    requires
        count is Some ==> found is Some,
        found matches Some(m) ==> m.items.wf(),
    ensures
        count is None ==> r matches Ok(None),
        count is Some ==> match r {
            Ok(Some(m)) => m.wf() && resolve_market(found->0@, roblox_users@) == Ok::<MarketView, MarketError>(m@),
            Ok(None) => false,
            Err(e) => resolve_market(found->0@, roblox_users@) == Err::<MarketView, MarketError>(e),
        },
{
    match count {
        None => Ok(None),
        Some(_) => match found {
            Some(m) => match resolve_scan(&m, roblox_users) {
                Ok(market) => Ok(Some(market)),
                Err(e) => Err(e),
            },
            None => Ok(None),
        },
    }
}


/// The fields a scan query reads to get the requested items: the scan's
/// `_id` and `time_scanned`, then each item's path once, in order of request.
pub open spec fn projection(items: Seq<Seq<char>>) -> Seq<Seq<char>>
    decreases items.len(),
{
    if items.len() == 0 {
        seq!["_id"@, "time_scanned"@]
    } else {
        let p = projection(items.drop_last());
        let f = item_path(items.last());
        if p.contains(f) {
            p
        } else {
            p.push(f)
        }
    }
}

fn contains_str(v: &Vec<String>, s: &str) -> (r: bool)
    ensures
        r == names_view(v@).contains(s@),
{
    let mut i: usize = 0;
    while i < v.len()
        invariant
            i <= v@.len(),
            forall|j: int| 0 <= j < i ==> v@[j]@ != s@,
        decreases v@.len() - i,
    {
        if crate::text::str_eq(v[i].as_str(), s) {
            proof {
                assert(names_view(v@)[i as int] == s@);
            }
            return true;
        }
        i = i + 1;
    }
    proof {
        if names_view(v@).contains(s@) {
            let j = choose|j: int| 0 <= j < names_view(v@).len() && names_view(v@)[j] == s@;
            assert(v@[j]@ == s@);
        }
    }
    false
}

/// The fields that a scan query reads to get `items` (see `projection`).
pub fn projection_fields(items: &Vec<String>) -> (r: Vec<String>)
    ensures
        names_view(r@) == projection(names_view(items@)),
{
    let mut r: Vec<String> = Vec::new();
    r.push("_id".to_owned());
    r.push("time_scanned".to_owned());
    proof {
        assert(names_view(r@) =~= projection(names_view(items@).take(0)));
    }
    let mut i: usize = 0;
    while i < items.len()
        invariant
            i <= items@.len(),
            names_view(r@) == projection(names_view(items@).take(i as int)),
        decreases items@.len() - i,
    {
        let f = item_field_path(items[i].as_str());
        proof {
            assert(names_view(items@).take(i + 1).drop_last() =~= names_view(items@).take(i as int));
            assert(names_view(items@).take(i + 1).last() == items@[i as int]@);
        }
        if !contains_str(&r, f.as_str()) {
            let ghost before = r@;
            r.push(f);
            proof {
                assert(names_view(r@) =~= names_view(before).push(f@));
            }
        }
        i = i + 1;
    }
    proof {
        assert(names_view(items@).take(items@.len() as int) =~= names_view(items@));
    }
    r
}


/// The directory built from a list of users maps each account number to a
/// user with that number, and knows every number of the list.
pub proof fn law_directory_ids(users: Seq<RobloxUser>)
    ensures
        forall|k: u64| #[trigger] users_by_id(users).contains_key(k) ==> users_by_id(users)[k].id == k,
        forall|i: int| 0 <= i < users.len() ==> users_by_id(users).contains_key(#[trigger] users[i].id),
    decreases users.len(),
{
    if users.len() > 0 {
        law_directory_ids(users.drop_last());
        let prev = users_by_id(users.drop_last());
        assert forall|k: u64| #[trigger] users_by_id(users).contains_key(k) implies users_by_id(users)[k].id
            == k by {
            if k != users.last().id {
                assert(prev.contains_key(k));
            }
        }
        assert forall|i: int| 0 <= i < users.len() implies users_by_id(users).contains_key(
            #[trigger] users[i].id,
        ) by {
            if i < users.len() - 1 {
                assert(users.drop_last()[i] == users[i]);
            }
        }
    }
}

/// Writing the directory of a list of users into an offer puts in the user
/// whose account number the scan recorded, whenever the list has that number.
pub proof fn law_offer_names_recorded_vendor(l: StoredListing, users: Seq<RobloxUser>)
    requires
        users_by_id(users).contains_key(vendor_key(l.vendor)),
    ensures
        enrich_listing(l, users_by_id(users)).vendor matches StoredVendor::User(u) && u.id == vendor_key(l.vendor),
{
    law_directory_ids(users);
}

/// Every requested item that a scan holds comes back: where gathering
/// succeeds, the result has an entry for `items[i]` whenever `found[i]` is a
/// scan.
pub proof fn law_latest_returns_found_items(
    items: Seq<Seq<char>>,
    found: Seq<Option<StoredMarketView>>,
    users: Map<u64, RobloxUser>,
    i: int,
)
    requires
        found.len() >= items.len(),
        0 <= i < items.len(),
        found[i] is Some,
        latest(items, found, users) is Ok,
    ensures
        latest(items, found, users)->Ok_0.contains_key(items[i]),
    decreases items.len(),
{
    let n = items.len() - 1;
    if i < n {
        law_latest_returns_found_items(items.drop_last(), found, users, i);
        assert(items.drop_last()[i] == items[i]);
    }
}

/// The fields read for a list of items are `_id` and `time_scanned`, then the
/// path of each requested item, each path once and no other.
pub proof fn law_projection_fields(items: Seq<Seq<char>>)
    ensures
        projection(items).len() >= 2,
        projection(items)[0] == "_id"@,
        projection(items)[1] == "time_scanned"@,
        forall|i: int| 0 <= i < items.len() ==> projection(items).contains(item_path(#[trigger] items[i])),
        forall|j: int| 2 <= j < projection(items).len() ==> exists|i: int|
            0 <= i < items.len() && #[trigger] projection(items)[j] == item_path(items[i]),
        forall|j: int, l: int| 2 <= j < l < projection(items).len() ==> projection(items)[j] != projection(items)[l],
    decreases items.len(),
{
    reveal_strlit("_id");
    reveal_strlit("time_scanned");
    reveal_strlit("items.");
    if items.len() > 0 {
        let q = items.drop_last();
        law_projection_fields(q);
        let p = projection(q);
        let f = item_path(items.last());
        assert forall|i: int| 0 <= i < items.len() implies projection(items).contains(
            item_path(#[trigger] items[i]),
        ) by {
            if i < items.len() - 1 {
                assert(q[i] == items[i]);
                assert(p.contains(item_path(q[i])));
                let j = choose|j: int| 0 <= j < p.len() && p[j] == item_path(q[i]);
                assert(projection(items)[j] == p[j]);
            } else if !p.contains(f) {
                assert(projection(items)[p.len() as int] == f);
            }
        }
        assert forall|j: int| 2 <= j < projection(items).len() implies exists|i: int|
            0 <= i < items.len() && #[trigger] projection(items)[j] == item_path(items[i]) by {
            if j < p.len() {
                let i = choose|i: int| 0 <= i < q.len() && #[trigger] p[j] == item_path(q[i]);
                assert(q[i] == items[i]);
                assert(projection(items)[j] == p[j]);
            } else {
                assert(projection(items)[j] == item_path(items[items.len() - 1]));
            }
        }
        assert forall|j: int, l: int| 2 <= j < l < projection(items).len() implies projection(items)[j]
            != projection(items)[l] by {
            if l == p.len() && !p.contains(f) {
                assert(projection(items)[j] == p[j]);
            }
        }
    }
}


/// What an item's history takes from a scan carries the scan's number: the
/// scan's `_id` is a 32-bit integer `x`, not negative, and the item's number
/// is `x`.
pub proof fn lemma_history_entry_number(m: StoredMarketView, item: Seq<char>, users: Map<u64, RobloxUser>)
    requires
        history_entry(m, item, users) is Some,
    ensures
        m.id matches StoredInt::Int32(x) && 0 <= x && history_entry(m, item, users)->0.id == x,
{
    law_resolution_keeps_items(m, users);
    let mv = resolve_market(m, users)->Ok_0;
    assert(mv.items.contains_key(item));
}

/// The scan with number `k`: its `_id` is the 32-bit integer `k`.
pub open spec fn numbered(m: StoredMarketView, k: u32) -> bool {
    m.id matches StoredInt::Int32(x) && x == k
}

/// Every number in an item's history is the number of one of the scans.
pub proof fn lemma_history_numbers(ms: Seq<StoredMarketView>, item: Seq<char>, users: Map<u64, RobloxUser>)
    ensures
        forall|k: u32| #[trigger] history(ms, item, users).contains_key(k) ==> exists|j: int|
            0 <= j < ms.len() && numbered(#[trigger] ms[j], k),
    decreases ms.len(),
{
    if ms.len() > 0 {
        let q = ms.drop_last();
        lemma_history_numbers(q, item, users);
        lemma_history_ids(ms, item, users);
        assert forall|k: u32| #[trigger] history(ms, item, users).contains_key(k) implies exists|j: int|
            0 <= j < ms.len() && numbered(#[trigger] ms[j], k) by {
            match history_entry(ms.last(), item, users) {
                Some(v) => {
                    lemma_history_entry_number(ms.last(), item, users);
                    if k == v.id {
                        assert(numbered(ms[ms.len() - 1], k));
                    } else {
                        assert(history(q, item, users).contains_key(k));
                        let j = choose|j: int| 0 <= j < q.len() && numbered(#[trigger] q[j], k);
                        assert(q[j] == ms[j]);
                    }
                },
                None => {
                    assert(history(q, item, users).contains_key(k));
                    let j = choose|j: int| 0 <= j < q.len() && numbered(#[trigger] q[j], k);
                    assert(q[j] == ms[j]);
                },
            }
        }
    }
}

/// The history over two lists of scans read one after the other: the first
/// list's history, with the second list's entries put over it.
pub proof fn lemma_history_append(
    ms: Seq<StoredMarketView>,
    extra: Seq<StoredMarketView>,
    item: Seq<char>,
    users: Map<u64, RobloxUser>,
)
    ensures
        history(ms + extra, item, users) == history(ms, item, users).union_prefer_right(
            history(extra, item, users),
        ),
    decreases extra.len(),
{
    if extra.len() == 0 {
        assert(ms + extra =~= ms);
        assert(history(ms, item, users).union_prefer_right(history(extra, item, users)) =~= history(
            ms,
            item,
            users,
        ));
    } else {
        let e = extra.drop_last();
        lemma_history_append(ms, e, item, users);
        assert((ms + extra).drop_last() =~= ms + e);
        assert((ms + extra).last() == extra.last());
        let h1 = history(ms, item, users);
        let he = history(e, item, users);
        match history_entry(extra.last(), item, users) {
            Some(v) => {
                assert(h1.union_prefer_right(he).insert(v.id, v) =~= h1.union_prefer_right(he.insert(v.id, v)));
            },
            None => {},
        }
    }
}

/// Every number of the history `h` is below the scan's number, where the
/// scan's `_id` is a 32-bit integer.
pub open spec fn numbered_above(m: StoredMarketView, h: Map<u32, ItemView>) -> bool {
    m.id matches StoredInt::Int32(x) ==> forall|k: u32| #[trigger] h.contains_key(k) ==> k < x
}

/// Two sorted listings, the second of a history that holds the first's and
/// adds only numbers above all of the first's, agree at every position of the
/// first.
proof fn lemma_sorted_prefix(
    r1: Seq<Item>,
    r2: Seq<Item>,
    h1: Map<u32, ItemView>,
    h2: Map<u32, ItemView>,
    i: int,
)
    requires
        sorted_by_id(r1),
        lists(r1, h1),
        sorted_by_id(r2),
        lists(r2, h2),
        forall|k: u32| #[trigger] h1.contains_key(k) ==> h2.contains_key(k) && h2[k] == h1[k],
        forall|k: u32, k2: u32| #![trigger h1.contains_key(k), h2.contains_key(k2)]
            h1.contains_key(k) && h2.contains_key(k2) && !h1.contains_key(k2) ==> k < k2,
        0 <= i < r1.len(),
    ensures
        i < r2.len(),
        r2[i].id == r1[i].id,
    decreases i,
{
    assert forall|p: int| 0 <= p < i implies p < r2.len() && r2[p].id == r1[p].id by {
        lemma_sorted_prefix(r1, r2, h1, h2, p);
    }
    let k = r1[i].id;
    assert(h1.contains_key(k));
    assert(h2.contains_key(k));
    let j = choose|j: int| 0 <= j < r2.len() && r2[j].id == k;
    if j < i {
        assert(r1[j].id < r1[i].id);
    }
    let k2 = r2[i].id;
    assert(h2.contains_key(k2));
    if h1.contains_key(k2) {
        let j1 = choose|j1: int| 0 <= j1 < r1.len() && r1[j1].id == k2;
        if j1 < i {
            assert(r2[j1].id < r2[i].id);
        }
        if j1 > i {
            assert(r1[i].id < r1[j1].id);
        }
    }
}

/// Adding scans whose numbers are above every number in an item's history
/// only adds to the end of that history: listed by scan number, the history
/// before is the start of the history after, each item unchanged.
pub proof fn law_history_grows(
    ms: Seq<StoredMarketView>,
    extra: Seq<StoredMarketView>,
    item: Seq<char>,
    users: Map<u64, RobloxUser>,
    r1: Seq<Item>,
    r2: Seq<Item>,
)
    requires
        forall|j: int| 0 <= j < extra.len() ==> numbered_above(#[trigger] extra[j], history(ms, item, users)),
        sorted_by_id(r1),
        lists(r1, history(ms, item, users)),
        sorted_by_id(r2),
        lists(r2, history(ms + extra, item, users)),
    ensures
        r1.len() <= r2.len(),
        forall|i: int| 0 <= i < r1.len() ==> r2[i].id == r1[i].id && #[trigger] r2[i]@ == r1[i]@,
{
    let h1 = history(ms, item, users);
    let he = history(extra, item, users);
    let h2 = history(ms + extra, item, users);
    lemma_history_append(ms, extra, item, users);
    lemma_history_numbers(extra, item, users);
    assert forall|k: u32| #[trigger] h1.contains_key(k) implies !he.contains_key(k) && h2.contains_key(k)
        && h2[k] == h1[k] by {
        if he.contains_key(k) {
            let j = choose|j: int| 0 <= j < extra.len() && numbered(#[trigger] extra[j], k);
            assert(numbered_above(extra[j], h1));
        }
    }
    assert forall|k: u32, k2: u32| #![trigger h1.contains_key(k), h2.contains_key(k2)]
        h1.contains_key(k) && h2.contains_key(k2) && !h1.contains_key(k2) implies k < k2 by {
        assert(he.contains_key(k2));
        let j = choose|j: int| 0 <= j < extra.len() && numbered(#[trigger] extra[j], k2);
        assert(numbered_above(extra[j], h1));
    }
    assert forall|i: int| 0 <= i < r1.len() implies r2[i].id == r1[i].id && #[trigger] r2[i]@ == r1[i]@ by {
        lemma_sorted_prefix(r1, r2, h1, h2, i);
        assert(h1.contains_key(r1[i].id));
    }
    if r1.len() > 0 {
        lemma_sorted_prefix(r1, r2, h1, h2, r1.len() - 1);
    }
}

/// Every scan whose `_id` is a 32-bit integer, that resolves and whose
/// resolved form holds the item is in the item's history under its number,
/// whatever the item's offers. Where no later scan carries the same number,
/// the history holds the item exactly as that scan resolves it.
pub proof fn law_history_holds_every_scan(
    ms: Seq<StoredMarketView>,
    item: Seq<char>,
    users: Map<u64, RobloxUser>,
    j: int,
)
    requires
        0 <= j < ms.len(),
        ms[j].id is Int32,
        resolve_market(ms[j], users) matches Ok(mv) && mv.items.contains_key(item),
    ensures
        ({
            let mv = resolve_market(ms[j], users)->Ok_0;
            &&& history(ms, item, users).contains_key(mv.d)
            &&& (forall|l: int| j < l < ms.len() ==> !numbered(#[trigger] ms[l], mv.d)) ==> history(
                ms,
                item,
                users,
            )[mv.d] == mv.items[item]
        }),
    decreases ms.len(),
{
    let mv = resolve_market(ms[j], users)->Ok_0;
    let n = ms.len() - 1;
    let q = ms.drop_last();
    law_resolution_keeps_items(ms[j], users);
    assert(mv.items[item].id == mv.d);
    if j == n {
        assert(history_entry(ms.last(), item, users) == Some(mv.items[item]));
    } else {
        assert(q[j] == ms[j]);
        law_history_holds_every_scan(q, item, users, j);
        if forall|l: int| j < l < ms.len() ==> !numbered(#[trigger] ms[l], mv.d) {
            assert forall|l: int| j < l < q.len() implies !numbered(#[trigger] q[l], mv.d) by {
                assert(q[l] == ms[l]);
                assert(!numbered(ms[l], mv.d));
            }
            assert(!numbered(ms[n], mv.d));
            match history_entry(ms.last(), item, users) {
                Some(v) => {
                    lemma_history_entry_number(ms.last(), item, users);
                },
                None => {},
            }
        }
    }
}

/// Each gathered item is the item exactly as its scan is served: where
/// gathering succeeds, `found[i]` is a scan that resolves and no later
/// request of the same name found a scan, the result maps `items[i]` to that
/// scan's resolved item.
pub proof fn law_latest_item_as_served(
    items: Seq<Seq<char>>,
    found: Seq<Option<StoredMarketView>>,
    users: Map<u64, RobloxUser>,
    i: int,
)
    requires
        found.len() >= items.len(),
        0 <= i < items.len(),
        found[i] matches Some(m) && resolve_market(m, users) is Ok,
        latest(items, found, users) is Ok,
        forall|l: int| i < l < items.len() && #[trigger] items[l] == items[i] ==> found[l] is None,
    ensures
        latest(items, found, users)->Ok_0.contains_key(items[i]),
        latest(items, found, users)->Ok_0[items[i]] == resolve_market(found[i]->0, users)->Ok_0.items[items[i]],
    decreases items.len(),
{
    let n = items.len() - 1;
    if i < n {
        let q = items.drop_last();
        assert(q[i] == items[i]);
        assert forall|l: int| i < l < q.len() && #[trigger] q[l] == q[i] implies found[l] is None by {
            assert(q[l] == items[l]);
        }
        law_latest_item_as_served(q, found, users, i);
        if found[n] is Some {
            assert(items[n] != items[i]);
        }
    }
}

} // verus!
