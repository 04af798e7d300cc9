//! The item catalogue: what a lookup gives, the trait that a catalogue
//! implements, and the choices made on the catalogue's answers.

use crate::text::same_text;
use vstd::prelude::*;

verus! {

/// What the catalogue knows of an item.
#[derive(Debug)]
pub struct ItemData {
    pub id: u64,
    pub name: String,
    pub vendor_buy_price: u64,
    pub vendor_sell_price: u64,
    pub market_buy_price: u64,
    pub market_sell_price: u64,
}

/// What an `ItemData` holds, as plain values.
pub struct ItemView {
    pub id: u64,
    pub name: Seq<char>,
    pub vendor_buy_price: u64,
    pub vendor_sell_price: u64,
    pub market_buy_price: u64,
    pub market_sell_price: u64,
}

impl View for ItemData {
    type V = ItemView;

    open spec fn view(&self) -> ItemView {
        ItemView {
            id: self.id,
            name: self.name@,
            vendor_buy_price: self.vendor_buy_price,
            vendor_sell_price: self.vendor_sell_price,
            market_buy_price: self.market_buy_price,
            market_sell_price: self.market_sell_price,
        }
    }
}

impl Clone for ItemData {
    fn clone(&self) -> (r: Self)
        ensures
            r@ == self@,
    {
        ItemData {
            id: self.id,
            name: self.name.clone(),
            vendor_buy_price: self.vendor_buy_price,
            vendor_sell_price: self.vendor_sell_price,
            market_buy_price: self.market_buy_price,
            market_sell_price: self.market_sell_price,
        }
    }
}

/// Why a lookup gave no item.
#[derive(Clone, Copy, Debug, PartialEq, Eq, Structural)]
pub enum FetchError {
    /// The catalogue could not be reached, or its answer could not be read.
    Transport,
    /// The catalogue answered that the request did not succeed.
    Unsuccessful,
    /// The catalogue has no item of that name.
    NotFound,
    /// The catalogue's item has no grade.
    NoGrade,
    /// The item is traded, but the catalogue gave no trade.
    NoTrade,
}

/// What a catalogue answers, as plain values.
pub open spec fn answer_view(answer: Result<ItemData, FetchError>) -> Result<ItemView, FetchError> {
    match answer {
        Ok(data) => Ok(data@),
        Err(e) => Err(e),
    }
}

/// A catalogue of items, asked by name.
pub trait ItemFetcher {
    /// Whether `answer` is something that this catalogue may answer when it
    /// is asked for the item of that name. A catalogue may answer one thing
    /// now and another later. A catalogue that says nothing of itself may
    /// answer anything; one that knows more of its answers says so here.
    open spec fn answers(&self, item_name: Seq<char>, answer: Result<ItemView, FetchError>) -> bool {
        true
    }

    /// What the catalogue knows of the item of that name.
    fn get_data_by_name(&self, item_name: &str) -> (answer: Result<ItemData, FetchError>)
        ensures
            self.answers(item_name@, answer_view(answer)),
    ;
}

/// One hit of a search in the catalogue.
#[derive(Debug)]
pub struct BdolyticsSearchResultData {
    pub id: u64,
    pub name: String,
    pub grade_type: Option<i64>,
    pub db_type: String,
}

/// Whether the catalogue's request succeeded.
#[derive(Clone, Copy, Debug)]
pub struct Status {
    pub success: bool,
}

/// The answer to a search in the catalogue.
#[derive(Debug)]
pub struct BdolyticsSearchResult {
    pub data: Vec<BdolyticsSearchResultData>,
    pub status: Status,
}

/// One trade of an item on the market.
#[derive(Clone, Copy, Debug)]
pub struct Trade {
    id: u64,
    price: u64,
    volume: u64,
    stock: u64,
}

impl Trade {
    /// A trade of the item `id`.
    pub fn new(id: u64, price: u64, volume: u64, stock: u64) -> (t: Trade)
        ensures
            t.spec_price() == price,
            t.spec_id() == id,
            t.spec_volume() == volume,
            t.spec_stock() == stock,
    {
        Trade { id, price, volume, stock }
    }

    pub closed spec fn spec_id(&self) -> u64 {
        self.id
    }

    pub closed spec fn spec_price(&self) -> u64 {
        self.price
    }

    pub closed spec fn spec_volume(&self) -> u64 {
        self.volume
    }

    pub closed spec fn spec_stock(&self) -> u64 {
        self.stock
    }

    /// The item that was traded.
    #[verifier::when_used_as_spec(spec_id)]
    pub fn id(&self) -> (r: u64)
        ensures
            r == self.spec_id(),
    {
        self.id
    }

    /// The price of the trade.
    #[verifier::when_used_as_spec(spec_price)]
    pub fn price(&self) -> (r: u64)
        ensures
            r == self.spec_price(),
    {
        self.price
    }

    /// How many were traded.
    #[verifier::when_used_as_spec(spec_volume)]
    pub fn volume(&self) -> (r: u64)
        ensures
            r == self.spec_volume(),
    {
        self.volume
    }

    /// How many are in stock.
    #[verifier::when_used_as_spec(spec_stock)]
    pub fn stock(&self) -> (r: u64)
        ensures
            r == self.spec_stock(),
    {
        self.stock
    }
}

/// The kind of catalogue entry that is an item.
pub open spec fn item_kind() -> Seq<char> {
    "item"@
}

/// Whether a hit is the item of that name.
pub open spec fn is_candidate(hit: BdolyticsSearchResultData, name: Seq<char>) -> bool {
    hit.db_type@ == item_kind() && hit.name@ == name
}

/// Among the first `n` hits, the first of the candidates with the least id.
pub open spec fn least_candidate(
    data: Seq<BdolyticsSearchResultData>,
    name: Seq<char>,
    n: int,
) -> Option<int>
    decreases n,
{
    if n <= 0 {
        None
    } else {
        let before = least_candidate(data, name, n - 1);
        if is_candidate(data[n - 1], name) && (before is None || data[n - 1].id
            < data[before->0].id) {
            Some(n - 1)
        } else {
            before
        }
    }
}

/// Among the first `n` hits, the greatest id of a candidate; 0 without one.
pub open spec fn greatest_id(data: Seq<BdolyticsSearchResultData>, name: Seq<char>, n: int) -> u64
    decreases n,
{
    if n <= 0 {
        0
    } else {
        let before = greatest_id(data, name, n - 1);
        if is_candidate(data[n - 1], name) && data[n - 1].id > before {
            data[n - 1].id
        } else {
            before
        }
    }
}

/// The id that a search settles on. The candidates are the hits that are
/// items of exactly that name. The one with the least id is taken if its
/// grade is 0, and else the greatest id among them.
pub open spec fn selected_id(
    success: bool,
    data: Seq<BdolyticsSearchResultData>,
    name: Seq<char>,
) -> Result<u64, FetchError> {
    if !success {
        Err(FetchError::Unsuccessful)
    } else {
        match least_candidate(data, name, data.len() as int) {
            None => Err(FetchError::NotFound),
            Some(i) => match data[i].grade_type {
                None => Err(FetchError::NoGrade),
                Some(g) => if g == 0 {
                    Ok(data[i].id)
                } else {
                    Ok(greatest_id(data, name, data.len() as int))
                },
            },
        }
    }
}

/// The least candidate is a candidate, none has a lesser id, and none before
/// it has the same id. Without a least candidate there is no candidate.
pub proof fn lemma_least_candidate(data: Seq<BdolyticsSearchResultData>, name: Seq<char>, n: int)
    requires
        0 <= n <= data.len(),
    ensures
        match least_candidate(data, name, n) {
            Some(i) => {
                &&& 0 <= i < n
                &&& is_candidate(data[i], name)
                &&& forall|j: int|
                    0 <= j < n && is_candidate(#[trigger] data[j], name) ==> data[i].id
                        <= data[j].id
                &&& forall|j: int|
                    0 <= j < i && is_candidate(#[trigger] data[j], name) ==> data[i].id
                        < data[j].id
            },
            None => forall|j: int| 0 <= j < n ==> !is_candidate(#[trigger] data[j], name),
        },
    decreases n,
{
    if n > 0 {
        lemma_least_candidate(data, name, n - 1);
    }
}

/// With a candidate among the first `n` hits, the greatest id is the id of
/// one of them, and no candidate has a greater one.
pub proof fn lemma_greatest_id(data: Seq<BdolyticsSearchResultData>, name: Seq<char>, n: int)
    requires
        0 <= n <= data.len(),
    ensures
        forall|j: int|
            0 <= j < n && is_candidate(#[trigger] data[j], name) ==> data[j].id <= greatest_id(
                data,
                name,
                n,
            ),
        greatest_id(data, name, n) > 0 ==> exists|j: int|
            0 <= j < n && is_candidate(#[trigger] data[j], name) && data[j].id == greatest_id(
                data,
                name,
                n,
            ),
    decreases n,
{
    if n > 0 {
        lemma_greatest_id(data, name, n - 1);
        let before = greatest_id(data, name, n - 1);
        if is_candidate(data[n - 1], name) && data[n - 1].id > before {
            assert(is_candidate(data[n - 1], name) && data[n - 1].id == greatest_id(data, name, n));
        } else if before > 0 {
            let j = choose|j: int|
                0 <= j < n - 1 && is_candidate(#[trigger] data[j], name) && data[j].id == before;
            assert(is_candidate(data[j], name) && data[j].id == greatest_id(data, name, n));
        }
    }
}

impl BdolyticsSearchResult {
    /// The id of the item of that name, as the search's answer gives it.
    pub fn select_id(&self, name: &str) -> (r: Result<u64, FetchError>)
        ensures
            r == selected_id(self.status.success, self.data@, name@),
    {
        if !self.status.success {
            return Err(FetchError::Unsuccessful);
        }
        let mut least: Option<usize> = None;
        let mut greatest: u64 = 0;
        let mut i: usize = 0;
        while i < self.data.len()
            invariant
                i <= self.data.len(),
                least_candidate(self.data@, name@, i as int) == match least {
                    Some(l) => Some(l as int),
                    None => None,
                },
                least is Some ==> least->0 < i,
                greatest == greatest_id(self.data@, name@, i as int),
            decreases self.data.len() - i,
        {
            let hit = &self.data[i];
            if same_text(hit.db_type.as_str(), "item") && same_text(hit.name.as_str(), name) {
                let less = match least {
                    Some(l) => hit.id < self.data[l].id,
                    None => true,
                };
                if less {
                    least = Some(i);
                }
                if hit.id > greatest {
                    greatest = hit.id;
                }
            }
            i += 1;
        }
        match least {
            None => Err(FetchError::NotFound),
            Some(l) => match self.data[l].grade_type {
                None => Err(FetchError::NoGrade),
                Some(g) => if g == 0 {
                    Ok(self.data[l].id)
                } else {
                    Ok(greatest)
                },
            },
        }
    }
}

/// The name of the currency itself, which sells for one silver apiece.
pub open spec fn silver_name() -> Seq<char> {
    "Silver"@
}

/// What is known of an item from its detail page, before the market is
/// asked: the vendor's prices, and no market prices. Silver sells for 1.
pub open spec fn detail_item(id: u64, name: Seq<char>, buy_price: u64, sell_price: u64) -> ItemView {
    ItemView {
        id,
        name,
        vendor_buy_price: buy_price,
        vendor_sell_price: if name == silver_name() {
            1
        } else {
            sell_price
        },
        market_buy_price: 0,
        market_sell_price: 0,
    }
}

impl ItemData {
    /// The item as its detail page gives it.
    pub fn from_detail(id: u64, name: &str, buy_price: u64, sell_price: u64) -> (item: ItemData)
        ensures
            item@ == detail_item(id, name@, buy_price, sell_price),
    {
        let is_silver = same_text(name, "Silver");
        ItemData {
            id,
            name: name.to_owned(),
            vendor_buy_price: buy_price,
            vendor_sell_price: if is_silver {
                1
            } else {
                sell_price
            },
            market_buy_price: 0,
            market_sell_price: 0,
        }
    }

    /// The item with the market's prices, both taken from the first trade.
    /// Without a trade there is no price: `NoTrade`.
    pub fn with_market(self, trades: &Vec<Trade>) -> (r: Result<ItemData, FetchError>)
        ensures
            trades@.len() == 0 ==> r == Err::<ItemData, FetchError>(FetchError::NoTrade),
            trades@.len() > 0 ==> r is Ok && r->Ok_0@ == (ItemView {
                market_buy_price: trades@[0].spec_price(),
                market_sell_price: trades@[0].spec_price(),
                ..self@
            }),
    {
        if trades.len() == 0 {
            return Err(FetchError::NoTrade);
        }
        let price = trades[0].price();
        Ok(
            ItemData {
                id: self.id,
                name: self.name,
                vendor_buy_price: self.vendor_buy_price,
                vendor_sell_price: self.vendor_sell_price,
                market_buy_price: price,
                market_sell_price: price,
            },
        )
    }
}

} // verus!
