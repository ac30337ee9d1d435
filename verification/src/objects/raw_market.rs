use vstd::prelude::*;

use crate::table::StringMap;
use crate::text::{decimal, law_decimal_injective, push_decimal};

verus! {

/// `mongodb::bson::DateTime`, carried as an opaque value: nothing in the
/// library looks inside it.
#[verifier::external_type_specification]
#[verifier::external_body]
pub struct ExBsonDateTime(mongodb::bson::DateTime);

/// Reads the current time as a BSON date, with `mongodb::bson::DateTime::now`.
/// Nothing is promised of the value: it is the time.
#[verifier::external_body]
pub(crate) fn bson_now() -> mongodb::bson::DateTime {
    mongodb::bson::DateTime::now()
}

/// A Roblox account.
pub struct RobloxUser {
    pub id: u64,
    pub name: String,
    pub display_name: String,
}

/// The address of the profile page of account `id`.
pub open spec fn profile_url(id: u64) -> Seq<char> {
    "https://rblx.name/"@ + decimal(id as nat)
}

/// Distinct accounts have distinct profile addresses.
pub proof fn law_distinct_accounts_distinct_urls(a: u64, b: u64)
    requires
        a != b,
    ensures
        profile_url(a) != profile_url(b),
{
    let p = "https://rblx.name/"@;
    if profile_url(a) == profile_url(b) {
        assert(decimal(a as nat) =~= profile_url(a).subrange(p.len() as int, profile_url(a).len() as int));
        assert(decimal(b as nat) =~= profile_url(b).subrange(p.len() as int, profile_url(b).len() as int));
        law_decimal_injective(a as nat, b as nat);
    }
}

impl RobloxUser {
    /// An account with the given number and names.
    pub fn new(id: u64, name: &String, display_name: &String) -> (r: RobloxUser)
        ensures
            r.id == id,
            r.name@ == name@,
            r.display_name@ == display_name@,
    {
        RobloxUser { id, name: name.clone(), display_name: display_name.clone() }
    }

    /// The account number.
    pub fn id(&self) -> (r: u64)
        ensures
            r == self.id,
    {
        self.id
    }

    /// A copy of the account name.
    pub fn name(&self) -> (r: String)
        ensures
            r@ == self.name@,
    {
        self.name.clone()
    }

    /// The display name.
    pub fn display_name(&self) -> (r: &String)
        ensures
            r == &self.display_name,
    {
        &self.display_name
    }

    /// The address of the account's profile page: `https://rblx.name/<id>`.
    pub fn url(&self) -> (r: String)
        ensures
            r@ == profile_url(self.id),
    {
        let mut r = "https://rblx.name/".to_owned();
        push_decimal(&mut r, self.id);
        r
    }
}

/// What an offer is, as a mathematical value.
pub struct ListingView {
    pub vendor: u64,
    pub amount: u32,
    pub price_bits: u32,
}

/// One offer: its vendor's account number, the amount and the price. The
/// price is a 32-bit float, held as its IEEE-754 bit pattern (`f32::to_bits`).
pub struct Listing {
    vendor: u64,
    amount: u32,
    price_bits: u32,
}

impl View for Listing {
    type V = ListingView;

    closed spec fn view(&self) -> ListingView {
        ListingView { vendor: self.vendor, amount: self.amount, price_bits: self.price_bits }
    }
}

impl Listing {
    /// An offer of `amount` units by `vendor` at the price with bit pattern
    /// `price_bits`.
    pub fn new(vendor: u64, amount: u32, price_bits: u32) -> (r: Listing)
        ensures
            r@ == (ListingView { vendor, amount, price_bits }),
    {
        Listing { vendor, amount, price_bits }
    }

    /// The vendor's account number.
    pub fn vendor(&self) -> (r: u64)
        ensures
            r == self@.vendor,
    {
        self.vendor
    }

    /// The number of units offered.
    pub fn amount(&self) -> (r: u32)
        ensures
            r == self@.amount,
    {
        self.amount
    }

    /// The bit pattern of the price.
    pub fn price(&self) -> (r: u32)
        ensures
            r == self@.price_bits,
    {
        self.price_bits
    }
}

/// The offers of a list, each taken by its view.
pub open spec fn listings_view(s: Seq<Listing>) -> Seq<ListingView> {
    s.map_values(|l: Listing| l@)
}

/// What an item is, as a mathematical value.
pub struct ItemView {
    pub name: Seq<char>,
    pub buy: Seq<ListingView>,
    pub sell: Seq<ListingView>,
}

/// An item being put together from a scan: its name and its offers.
pub struct Item {
    name: String,
    buy: Vec<Listing>,
    sell: Vec<Listing>,
}

impl View for Item {
    type V = ItemView;

    closed spec fn view(&self) -> ItemView {
        ItemView { name: self.name@, buy: listings_view(self.buy@), sell: listings_view(self.sell@) }
    }
}

impl Item {
    /// An item with an empty name and no offers.
    pub fn new() -> (r: Item)
        ensures
            r@ == (ItemView { name: Seq::empty(), buy: Seq::empty(), sell: Seq::empty() }),
    {
        let r = Item { name: String::new(), buy: Vec::new(), sell: Vec::new() };
        proof {
            assert(listings_view(r.buy@) =~= Seq::empty());
            assert(listings_view(r.sell@) =~= Seq::empty());
        }
        r
    }

    /// A copy of the item's name.
    pub fn name(&self) -> (r: String)
        ensures
            r@ == self@.name,
    {
        self.name.clone()
    }

    /// The buy offers.
    pub fn buy(&self) -> (r: &Vec<Listing>)
        ensures
            listings_view(r@) == self@.buy,
    {
        &self.buy
    }

    /// The sell offers.
    pub fn sell(&self) -> (r: &Vec<Listing>)
        ensures
            listings_view(r@) == self@.sell,
    {
        &self.sell
    }

    /// Adds a buy offer after the others.
    pub fn add_buy(&mut self, vendor: u64, amount: u32, price_bits: u32)
        ensures
            final(self)@ == (ItemView {
                buy: old(self)@.buy.push(ListingView { vendor, amount, price_bits }),
                ..old(self)@
            }),
    {
        self.buy.push(Listing::new(vendor, amount, price_bits));
        proof {
            assert(listings_view(self.buy@) =~= listings_view(old(self).buy@).push(
                ListingView { vendor, amount, price_bits },
            ));
        }
    }

    /// Adds a sell offer after the others.
    pub fn add_sell(&mut self, vendor: u64, amount: u32, price_bits: u32)
        ensures
            final(self)@ == (ItemView {
                sell: old(self)@.sell.push(ListingView { vendor, amount, price_bits }),
                ..old(self)@
            }),
    {
        self.sell.push(Listing::new(vendor, amount, price_bits));
        proof {
            assert(listings_view(self.sell@) =~= listings_view(old(self).sell@).push(
                ListingView { vendor, amount, price_bits },
            ));
        }
    }
}

/// What a scan being put together is, as a mathematical value; its time is
/// left out.
pub struct MarketView {
    pub id: u32,
    pub location: Seq<char>,
    pub items: Map<Seq<char>, ItemView>,
}

/// A scan being put together: its number, time, location and items.
pub struct Market {
    id: u32,
    time_scanned: mongodb::bson::DateTime,
    location: String,
    items: StringMap<Item>,
}

impl View for Market {
    type V = MarketView;

    closed spec fn view(&self) -> MarketView {
        MarketView {
            id: self.id,
            location: self.location@,
            items: self.items@.map_values(|i: Item| i@),
        }
    }
}

impl Market {
    /// Scan number 0, taken now, with an empty location and no items.
    pub fn new() -> (r: Market)
        ensures
            r@ == (MarketView { id: 0, location: Seq::empty(), items: Map::empty() }),
    {
        let r = Market { id: 0, time_scanned: bson_now(), location: String::new(), items: StringMap::new() };
        proof {
            assert(r.items@.map_values(|i: Item| i@) =~= Map::empty());
        }
        r
    }

    /// The scan number.
    pub fn id(&self) -> (r: u32)
        ensures
            r == self@.id,
    {
        self.id
    }

    /// The time of the scan, as recorded.
    pub closed spec fn scan_time(&self) -> mongodb::bson::DateTime {
        self.time_scanned
    }

    /// The time of the scan.
    pub fn time_scanned(&self) -> (r: mongodb::bson::DateTime)
        ensures
            r == self.scan_time(),
    {
        self.time_scanned
    }
}

} // verus!
