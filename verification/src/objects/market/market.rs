use vstd::prelude::*;

use crate::table::StringMap;

verus! {

/// A Roblox account that trades on the market.
pub struct RobloxUser {
    pub id: u64,
    pub name: String,
    pub display_name: String,
}

impl Clone for RobloxUser {
    fn clone(&self) -> (r: Self)
        ensures
            r == *self,
    {
        RobloxUser { id: self.id, name: self.name.clone(), display_name: self.display_name.clone() }
    }
}

/// One offer of an item: how many units, at what price, by whom.
///
/// The price is a 64-bit float, held here as its IEEE-754 bit pattern
/// (`f64::to_bits`); nothing in the library computes with it.
pub struct Listing {
    pub price_bits: u64,
    pub amount: u32,
    pub vendor: RobloxUser,
}

impl Clone for Listing {
    fn clone(&self) -> (r: Self)
        ensures
            r == *self,
    {
        Listing { price_bits: self.price_bits, amount: self.amount, vendor: self.vendor.clone() }
    }
}

/// What an item of a scan is, as a mathematical value.
pub struct ItemView {
    pub name: Seq<char>,
    pub id: u32,
    pub time_scanned: i64,
    pub buy: Seq<Listing>,
    pub sell: Seq<Listing>,
}

/// One item of a market scan: its buy and sell offers, with the number and
/// the time (milliseconds since the UNIX epoch) of the scan it belongs to.
pub struct Item {
    pub name: String,
    pub id: u32,
    pub time_scanned: i64,
    pub buy: Vec<Listing>,
    pub sell: Vec<Listing>,
}

impl View for Item {
    type V = ItemView;

    open spec fn view(&self) -> ItemView {
        ItemView {
            name: self.name@,
            id: self.id,
            time_scanned: self.time_scanned,
            buy: self.buy@,
            sell: self.sell@,
        }
    }
}

impl Clone for Item {
    fn clone(&self) -> (r: Self)
        ensures
            r@ == self@,
    {
        let buy = self.buy.clone();
        let sell = self.sell.clone();
        proof {
            assert(buy@ =~= self.buy@);
            assert(sell@ =~= self.sell@);
        }
        Item { name: self.name.clone(), id: self.id, time_scanned: self.time_scanned, buy, sell }
    }
}

/// The items of a map, each taken by its view.
pub open spec fn items_view(m: Map<Seq<char>, Item>) -> Map<Seq<char>, ItemView> {
    m.map_values(|i: Item| i@)
}

/// What a market scan is, as a mathematical value.
pub struct MarketView {
    pub d: u32,
    pub time_scanned: i64,
    pub items: Map<Seq<char>, ItemView>,
}

/// One market scan: its number, its time (milliseconds since the UNIX epoch)
/// and its items by name.
pub struct Market {
    pub d: u32,
    pub time_scanned: i64,
    pub items: StringMap<Item>,
}

impl View for Market {
    type V = MarketView;

    open spec fn view(&self) -> MarketView {
        MarketView { d: self.d, time_scanned: self.time_scanned, items: items_view(self.items@) }
    }
}

impl Market {
    /// The scan's item names are distinct.
    pub open spec fn wf(&self) -> bool {
        self.items.wf()
    }

    /// A copy of the item called `name`, if the scan has one.
    pub fn get_item(&self, name: &str) -> (r: Option<Item>)
        requires
            self.wf(),
        ensures
            match r {
                Some(i) => self@.items.contains_key(name@) && i@ == self@.items[name@],
                None => !self@.items.contains_key(name@),
            },
    {
        match self.items.get(name) {
            Some(i) => Some(i.clone()),
            None => None,
        }
    }
}

/// Items gathered from different scans, by name.
pub struct MixedMarket {
    pub items: StringMap<Item>,
}

impl View for MixedMarket {
    type V = Map<Seq<char>, ItemView>;

    open spec fn view(&self) -> Map<Seq<char>, ItemView> {
        items_view(self.items@)
    }
}

impl MixedMarket {
    /// The item names are distinct.
    pub open spec fn wf(&self) -> bool {
        self.items.wf()
    }
}

} // verus!
