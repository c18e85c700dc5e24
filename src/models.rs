use vstd::prelude::*;

verus! {

/// A stored variant record: one line of stock of a product.
#[derive(Debug, PartialEq, Eq, Clone)]
pub struct Stock {
    pub id: i32,
    pub foreign_id: i32,
    pub availability: String,
    pub type_threshold: String,
    pub stocks_id: i32,
}

/// A stored product record.
#[derive(Debug, PartialEq, Eq, Clone, Copy)]
pub struct Stocks {
    pub id: i32,
    pub product_id: i32,
}

/// The fields of a variant record before storage assigns it an id.
#[derive(Debug, PartialEq, Eq, Clone)]
pub struct NewStock {
    pub foreign_id: i32,
    pub availability: String,
    pub type_threshold: String,
    pub stocks_id: i32,
}

/// The fields of a product record before storage assigns it an id.
#[derive(Debug, PartialEq, Eq, Clone, Copy)]
pub struct NewStocks {
    pub product_id: i32,
}

/// One observed variant of a snapshot.
#[derive(Debug, PartialEq, Eq, Clone)]
pub struct JsonStock {
    pub foreign_id: i32,
    pub availability: String,
    pub type_threshold: String,
}

/// One observation of a product's stock: its key and its variants in order.
#[derive(Debug, PartialEq, Eq, Clone)]
pub struct JsonStocks {
    pub product_id: i32,
    pub stocks: Vec<JsonStock>,
}

/// The body that the stock source answers with.
#[derive(Debug, PartialEq, Eq, Clone)]
pub struct JsonResponse {
    pub stocks: Vec<JsonStocks>,
}

impl Stock {
    /// A field-by-field copy.
    pub fn duplicate(&self) -> (r: Stock)
        ensures
            r == *self,
    {
        Stock {
            id: self.id,
            foreign_id: self.foreign_id,
            availability: self.availability.clone(),
            type_threshold: self.type_threshold.clone(),
            stocks_id: self.stocks_id,
        }
    }
}

/// True when the stored record already holds what was observed.
pub open spec fn same_state(stock: Stock, json: JsonStock) -> bool {
    stock.availability@ == json.availability@ && stock.type_threshold@ == json.type_threshold@
}

/// Exact, case-sensitive comparison of both observed fields with the stored ones.
pub fn is_stock_same(stock: &Stock, json: &JsonStock) -> (r: bool)
    ensures
        r == same_state(*stock, *json),
{
    stock.availability == json.availability && stock.type_threshold == json.type_threshold
}

/// No two variants of the snapshot share a key.
pub open spec fn keys_distinct(obs: Seq<JsonStock>) -> bool {
    forall|i: int, j: int|
        0 <= i < obs.len() && 0 <= j < obs.len() && i != j ==> obs[i].foreign_id
            != obs[j].foreign_id
}

/// Checks that the variant keys of a snapshot are pairwise distinct.
pub fn has_distinct_keys(snapshot: &JsonStocks) -> (r: bool)
    ensures
        r == keys_distinct(snapshot.stocks@),
{
    let n = snapshot.stocks.len();
    let mut i: usize = 0;
    while i < n
        invariant
            n == snapshot.stocks@.len(),
            i <= n,
            forall|a: int, b: int|
                0 <= a < i && 0 <= b < n && a != b ==> snapshot.stocks@[a].foreign_id
                    != snapshot.stocks@[b].foreign_id,
        decreases n - i,
    {
        let mut j: usize = i + 1;
        while j < n
            invariant
                n == snapshot.stocks@.len(),
                i < n,
                i < j <= n,
                forall|a: int, b: int|
                    0 <= a < i && 0 <= b < n && a != b ==> snapshot.stocks@[a].foreign_id
                        != snapshot.stocks@[b].foreign_id,
                forall|b: int| i < b < j ==> snapshot.stocks[i as int].foreign_id
                    != snapshot.stocks@[b].foreign_id,
            decreases n - j,
        {
            if snapshot.stocks[i].foreign_id == snapshot.stocks[j].foreign_id {
                assert(!keys_distinct(snapshot.stocks@)) by {
                    assert(snapshot.stocks@[i as int].foreign_id
                        == snapshot.stocks@[j as int].foreign_id);
                }
                return false;
            }
            j = j + 1;
        }
        i = i + 1;
    }
    true
}

/// The first product observation of a response, which is the one this
/// service watches; `None` when the response holds none.
pub fn take_first_stocks(json: JsonResponse) -> (r: Option<JsonStocks>)
    ensures
        json.stocks@.len() == 0 ==> r.is_none(),
        json.stocks@.len() > 0 ==> r == Some(json.stocks@[0]),
{
    let mut all = json.stocks;
    if all.len() == 0 {
        None
    } else {
        Some(all.remove(0))
    }
}

} // verus!
