use crate::models::{JsonStock, NewStock, NewStocks, Stock, Stocks};
use vstd::prelude::*;

verus! {

/// What is stored of one variant record.
pub struct StockRow {
    pub id: i32,
    pub availability: Seq<char>,
    pub type_threshold: Seq<char>,
}

/// The abstract content of a store: product keys to product record ids,
/// (product record id, variant key) to variant rows, and the next ids to hand out.
pub struct StoreView {
    pub products: Map<i32, i32>,
    pub stock: Map<(i32, i32), StockRow>,
    pub next_stocks_id: int,
    pub next_stock_id: int,
}

pub open spec fn row_of(s: Stock) -> StockRow {
    StockRow { id: s.id, availability: s.availability@, type_threshold: s.type_threshold@ }
}

pub open spec fn stock_key(s: Stock) -> (i32, i32) {
    (s.stocks_id, s.foreign_id)
}

/// The row that an observation leaves in storage, under an id.
pub open spec fn observed_row(id: i32, json: JsonStock) -> StockRow {
    StockRow { id, availability: json.availability@, type_threshold: json.type_threshold@ }
}

/// Failures of single storage operations.
#[derive(Debug, PartialEq, Eq, Clone, Copy, Structural)]
pub enum StoreError {
    /// A product record with this key exists already.
    DuplicateProduct,
    /// A variant record with this key exists already under the product.
    DuplicateStock,
    /// No variant record with this key exists under the product.
    MissingStock,
    /// Every record id of the kind has been handed out.
    IdsExhausted,
}

/// An in-memory store of product and variant records. Product keys are unique,
/// and so are variant keys within one product; ids are assigned on creation.
pub struct StockStore {
    products: Vec<Stocks>,
    stock: Vec<Stock>,
    next_stocks_id: i32,
    next_stock_id: i32,
}

spec fn has_product(ps: Seq<Stocks>, k: i32) -> bool {
    exists|i: int| 0 <= i < ps.len() && ps[i].product_id == k
}

spec fn has_stock(ss: Seq<Stock>, k: (i32, i32)) -> bool {
    exists|i: int| 0 <= i < ss.len() && stock_key(ss[i]) == k
}

spec fn product_map(ps: Seq<Stocks>) -> Map<i32, i32> {
    Map::new(
        |k: i32| has_product(ps, k),
        |k: i32| ps[choose|i: int| 0 <= i < ps.len() && ps[i].product_id == k].id,
    )
}

spec fn stock_map(ss: Seq<Stock>) -> Map<(i32, i32), StockRow> {
    Map::new(
        |k: (i32, i32)| has_stock(ss, k),
        |k: (i32, i32)| row_of(ss[choose|i: int| 0 <= i < ss.len() && stock_key(ss[i]) == k]),
    )
}

spec fn products_unique(ps: Seq<Stocks>) -> bool {
    forall|i: int, j: int|
        0 <= i < ps.len() && 0 <= j < ps.len() && ps[i].product_id == ps[j].product_id ==> i == j
}

spec fn stock_unique(ss: Seq<Stock>) -> bool {
    forall|i: int, j: int|
        0 <= i < ss.len() && 0 <= j < ss.len() && stock_key(ss[i]) == stock_key(ss[j]) ==> i == j
}

proof fn lemma_product_at(ps: Seq<Stocks>, i: int)
    requires
        products_unique(ps),
        0 <= i < ps.len(),
    ensures
        product_map(ps).contains_key(ps[i].product_id),
        product_map(ps)[ps[i].product_id] == ps[i].id,
{
    let k = ps[i].product_id;
    assert(has_product(ps, k));
    let j = choose|j: int| 0 <= j < ps.len() && ps[j].product_id == k;
    assert(i == j);
}

proof fn lemma_stock_at(ss: Seq<Stock>, i: int)
    requires
        stock_unique(ss),
        0 <= i < ss.len(),
    ensures
        stock_map(ss).contains_key(stock_key(ss[i])),
        stock_map(ss)[stock_key(ss[i])] == row_of(ss[i]),
{
    let k = stock_key(ss[i]);
    assert(has_stock(ss, k));
    let j = choose|j: int| 0 <= j < ss.len() && stock_key(ss[j]) == k;
    assert(i == j);
}

proof fn lemma_product_push(ps: Seq<Stocks>, x: Stocks)
    requires
        products_unique(ps),
        !has_product(ps, x.product_id),
    ensures
        products_unique(ps.push(x)),
        product_map(ps.push(x)) == product_map(ps).insert(x.product_id, x.id),
{
    let qs = ps.push(x);
    assert(products_unique(qs)) by {
        assert forall|i: int, j: int|
            0 <= i < qs.len() && 0 <= j < qs.len() && qs[i].product_id == qs[j].product_id
            implies i == j by {
            if i < ps.len() {
                assert(qs[i] == ps[i]);
            }
            if j < ps.len() {
                assert(qs[j] == ps[j]);
            }
        }
    }
    assert forall|k: i32| has_product(qs, k) == (has_product(ps, k) || k == x.product_id) by {
        if has_product(ps, k) {
            let i = choose|i: int| 0 <= i < ps.len() && ps[i].product_id == k;
            assert(qs[i] == ps[i]);
        }
        if k == x.product_id {
            assert(qs[ps.len() as int] == x);
        }
        if has_product(qs, k) && k != x.product_id {
            let i = choose|i: int| 0 <= i < qs.len() && qs[i].product_id == k;
            assert(qs[i] == ps[i]);
        }
    }
    assert forall|k: i32| #[trigger] product_map(qs).contains_key(k) implies product_map(qs)[k]
        == product_map(ps).insert(x.product_id, x.id)[k] by {
        let i = choose|i: int| 0 <= i < qs.len() && qs[i].product_id == k;
        lemma_product_at(qs, i);
        if k != x.product_id {
            assert(qs[i] == ps[i]);
            lemma_product_at(ps, i);
        }
    }
    assert(product_map(qs) =~= product_map(ps).insert(x.product_id, x.id));
}

proof fn lemma_stock_push(ss: Seq<Stock>, x: Stock)
    requires
        stock_unique(ss),
        !has_stock(ss, stock_key(x)),
    ensures
        stock_unique(ss.push(x)),
        stock_map(ss.push(x)) == stock_map(ss).insert(stock_key(x), row_of(x)),
{
    let qs = ss.push(x);
    assert(stock_unique(qs)) by {
        assert forall|i: int, j: int|
            0 <= i < qs.len() && 0 <= j < qs.len() && stock_key(qs[i]) == stock_key(qs[j])
            implies i == j by {
            if i < ss.len() {
                assert(qs[i] == ss[i]);
            }
            if j < ss.len() {
                assert(qs[j] == ss[j]);
            }
        }
    }
    assert forall|k: (i32, i32)| has_stock(qs, k) == (has_stock(ss, k) || k == stock_key(x)) by {
        if has_stock(ss, k) {
            let i = choose|i: int| 0 <= i < ss.len() && stock_key(ss[i]) == k;
            assert(qs[i] == ss[i]);
        }
        if k == stock_key(x) {
            assert(qs[ss.len() as int] == x);
        }
        if has_stock(qs, k) && k != stock_key(x) {
            let i = choose|i: int| 0 <= i < qs.len() && stock_key(qs[i]) == k;
            assert(qs[i] == ss[i]);
        }
    }
    assert forall|k: (i32, i32)| #[trigger] stock_map(qs).contains_key(k) implies stock_map(qs)[k]
        == stock_map(ss).insert(stock_key(x), row_of(x))[k] by {
        let i = choose|i: int| 0 <= i < qs.len() && stock_key(qs[i]) == k;
        lemma_stock_at(qs, i);
        if k != stock_key(x) {
            assert(qs[i] == ss[i]);
            lemma_stock_at(ss, i);
        }
    }
    assert(stock_map(qs) =~= stock_map(ss).insert(stock_key(x), row_of(x)));
}

proof fn lemma_stock_set(ss: Seq<Stock>, n: int, x: Stock)
    requires
        stock_unique(ss),
        0 <= n < ss.len(),
        stock_key(ss[n]) == stock_key(x),
    ensures
        stock_unique(ss.update(n, x)),
        stock_map(ss.update(n, x)) == stock_map(ss).insert(stock_key(x), row_of(x)),
{
    let qs = ss.update(n, x);
    assert(stock_unique(qs)) by {
        assert forall|i: int, j: int|
            0 <= i < qs.len() && 0 <= j < qs.len() && stock_key(qs[i]) == stock_key(qs[j])
            implies i == j by {
            assert(stock_key(qs[i]) == stock_key(ss[i]));
            assert(stock_key(qs[j]) == stock_key(ss[j]));
        }
    }
    assert forall|k: (i32, i32)| has_stock(qs, k) == has_stock(ss, k) by {
        if has_stock(ss, k) {
            let i = choose|i: int| 0 <= i < ss.len() && stock_key(ss[i]) == k;
            assert(stock_key(qs[i]) == stock_key(ss[i]));
        }
        if has_stock(qs, k) {
            let i = choose|i: int| 0 <= i < qs.len() && stock_key(qs[i]) == k;
            assert(stock_key(qs[i]) == stock_key(ss[i]));
        }
    }
    assert forall|k: (i32, i32)| #[trigger] stock_map(qs).contains_key(k) implies stock_map(qs)[k]
        == stock_map(ss).insert(stock_key(x), row_of(x))[k] by {
        let i = choose|i: int| 0 <= i < qs.len() && stock_key(qs[i]) == k;
        lemma_stock_at(qs, i);
        if i != n {
            assert(qs[i] == ss[i]);
            lemma_stock_at(ss, i);
        }
    }
    assert(stock_map(qs) =~= stock_map(ss).insert(stock_key(x), row_of(x)));
}

impl View for StockStore {
    type V = StoreView;

    closed spec fn view(&self) -> StoreView {
        StoreView {
            products: product_map(self.products@),
            stock: stock_map(self.stock@),
            next_stocks_id: self.next_stocks_id as int,
            next_stock_id: self.next_stock_id as int,
        }
    }
}

impl StockStore {
    pub closed spec fn wf(&self) -> bool {
        &&& products_unique(self.products@)
        &&& stock_unique(self.stock@)
        &&& 1 <= self.next_stocks_id
        &&& 1 <= self.next_stock_id
    }

    /// An empty store; the first record of each kind gets id 1.
    pub fn new() -> (r: StockStore)
        ensures
            r.wf(),
            r@.products == Map::<i32, i32>::empty(),
            r@.stock == Map::<(i32, i32), StockRow>::empty(),
            r@.next_stocks_id == 1,
            r@.next_stock_id == 1,
    {
        let r = StockStore { products: Vec::new(), stock: Vec::new(), next_stocks_id: 1, next_stock_id: 1 };
        assert(r@.products =~= Map::<i32, i32>::empty());
        assert(r@.stock =~= Map::<(i32, i32), StockRow>::empty());
        r
    }
}

/// Looks up the product record with the given product key.
pub fn find_stocks(store: &StockStore, product_id: i32) -> (r: Option<Stocks>)
    requires
        store.wf(),
    ensures
        match r {
            Some(s) => store@.products.contains_key(product_id) && s.id
                == store@.products[product_id] && s.product_id == product_id,
            None => !store@.products.contains_key(product_id),
        },
{
    let n = store.products.len();
    let mut i: usize = 0;
    while i < n
        invariant
            store.wf(),
            n == store.products@.len(),
            i <= n,
            forall|j: int| 0 <= j < i ==> store.products@[j].product_id != product_id,
        decreases n - i,
    {
        let p = store.products[i];
        if p.product_id == product_id {
            proof {
                lemma_product_at(store.products@, i as int);
            }
            return Some(p);
        }
        i = i + 1;
    }
    None
}

/// Inserts a new product record, assigning it the next product id.
pub fn insert_stocks(store: &mut StockStore, new_stocks: NewStocks) -> (r: Result<Stocks, StoreError>)
    requires
        old(store).wf(),
    ensures
        final(store).wf(),
        match r {
            Ok(s) => {
                &&& !old(store)@.products.contains_key(new_stocks.product_id)
                &&& old(store)@.next_stocks_id < i32::MAX
                &&& s.id == old(store)@.next_stocks_id
                &&& s.product_id == new_stocks.product_id
                &&& final(store)@ == (StoreView {
                    products: old(store)@.products.insert(s.product_id, s.id),
                    next_stocks_id: old(store)@.next_stocks_id + 1,
                    ..old(store)@
                })
            },
            Err(e) => {
                &&& final(store)@ == old(store)@
                &&& e == StoreError::DuplicateProduct || e == StoreError::IdsExhausted
                &&& e == StoreError::DuplicateProduct <==> old(store)@.products.contains_key(
                    new_stocks.product_id,
                )
                &&& e == StoreError::IdsExhausted <==> (!old(store)@.products.contains_key(
                    new_stocks.product_id,
                ) && old(store)@.next_stocks_id == i32::MAX)
            },
        },
{
    match find_stocks(store, new_stocks.product_id) {
        Some(_) => {
            return Err(StoreError::DuplicateProduct);
        },
        None => {},
    }
    if store.next_stocks_id == i32::MAX {
        return Err(StoreError::IdsExhausted);
    }
    let s = Stocks { id: store.next_stocks_id, product_id: new_stocks.product_id };
    proof {
        lemma_product_push(store.products@, s);
    }
    store.products.push(s);
    store.next_stocks_id = store.next_stocks_id + 1;
    Ok(s)
}

/// Creates the product record for a product key.
pub fn create_stocks(store: &mut StockStore, product_id: i32) -> (r: Result<Stocks, StoreError>)
    requires
        old(store).wf(),
    ensures
        final(store).wf(),
        match r {
            Ok(s) => {
                &&& !old(store)@.products.contains_key(product_id)
                &&& old(store)@.next_stocks_id < i32::MAX
                &&& s.id == old(store)@.next_stocks_id
                &&& s.product_id == product_id
                &&& final(store)@ == (StoreView {
                    products: old(store)@.products.insert(product_id, s.id),
                    next_stocks_id: old(store)@.next_stocks_id + 1,
                    ..old(store)@
                })
            },
            Err(e) => {
                &&& final(store)@ == old(store)@
                &&& e == StoreError::DuplicateProduct || e == StoreError::IdsExhausted
                &&& e == StoreError::DuplicateProduct <==> old(store)@.products.contains_key(
                    product_id,
                )
                &&& e == StoreError::IdsExhausted <==> (!old(store)@.products.contains_key(
                    product_id,
                ) && old(store)@.next_stocks_id == i32::MAX)
            },
        },
{
    insert_stocks(store, NewStocks { product_id })
}

fn stock_index(store: &StockStore, stocks_id: i32, foreign_id: i32) -> (r: Option<usize>)
    requires
        store.wf(),
    ensures
        match r {
            Some(i) => {
                &&& i < store.stock@.len()
                &&& stock_key(store.stock@[i as int]) == (stocks_id, foreign_id)
                &&& store@.stock.contains_key((stocks_id, foreign_id))
                &&& store@.stock[(stocks_id, foreign_id)] == row_of(store.stock@[i as int])
            },
            None => !store@.stock.contains_key((stocks_id, foreign_id)),
        },
{
    let n = store.stock.len();
    let mut i: usize = 0;
    while i < n
        invariant
            store.wf(),
            n == store.stock@.len(),
            i <= n,
            forall|j: int| 0 <= j < i ==> stock_key(store.stock@[j]) != (stocks_id, foreign_id),
        decreases n - i,
    {
        if store.stock[i].stocks_id == stocks_id && store.stock[i].foreign_id == foreign_id {
            proof {
                lemma_stock_at(store.stock@, i as int);
            }
            return Some(i);
        }
        i = i + 1;
    }
    None
}

/// Looks up the variant record with the observation's key under a product record.
pub fn find_stock(store: &StockStore, stocks: &Stocks, json: &JsonStock) -> (r: Option<Stock>)
    requires
        store.wf(),
    ensures
        match r {
            Some(s) => {
                &&& store@.stock.contains_key((stocks.id, json.foreign_id))
                &&& stock_key(s) == (stocks.id, json.foreign_id)
                &&& row_of(s) == store@.stock[(stocks.id, json.foreign_id)]
            },
            None => !store@.stock.contains_key((stocks.id, json.foreign_id)),
        },
{
    match stock_index(store, stocks.id, json.foreign_id) {
        Some(i) => Some(store.stock[i].duplicate()),
        None => None,
    }
}

/// Inserts a new variant record, assigning it the next variant id.
pub fn insert_stock(store: &mut StockStore, new_stock: NewStock) -> (r: Result<Stock, StoreError>)
    requires
        old(store).wf(),
    ensures
        final(store).wf(),
        match r {
            Ok(s) => {
                let k = (new_stock.stocks_id, new_stock.foreign_id);
                &&& !old(store)@.stock.contains_key(k)
                &&& old(store)@.next_stock_id < i32::MAX
                &&& s.id == old(store)@.next_stock_id
                &&& stock_key(s) == k
                &&& s.availability@ == new_stock.availability@
                &&& s.type_threshold@ == new_stock.type_threshold@
                &&& final(store)@ == (StoreView {
                    stock: old(store)@.stock.insert(k, row_of(s)),
                    next_stock_id: old(store)@.next_stock_id + 1,
                    ..old(store)@
                })
            },
            Err(e) => {
                let k = (new_stock.stocks_id, new_stock.foreign_id);
                &&& final(store)@ == old(store)@
                &&& e == StoreError::DuplicateStock || e == StoreError::IdsExhausted
                &&& e == StoreError::DuplicateStock <==> old(store)@.stock.contains_key(k)
                &&& e == StoreError::IdsExhausted <==> (!old(store)@.stock.contains_key(k)
                    && old(store)@.next_stock_id == i32::MAX)
            },
        },
{
    match stock_index(store, new_stock.stocks_id, new_stock.foreign_id) {
        Some(_) => {
            return Err(StoreError::DuplicateStock);
        },
        None => {},
    }
    if store.next_stock_id == i32::MAX {
        return Err(StoreError::IdsExhausted);
    }
    let s = Stock {
        id: store.next_stock_id,
        foreign_id: new_stock.foreign_id,
        availability: new_stock.availability,
        type_threshold: new_stock.type_threshold,
        stocks_id: new_stock.stocks_id,
    };
    proof {
        lemma_stock_push(store.stock@, s);
    }
    store.stock.push(s.duplicate());
    store.next_stock_id = store.next_stock_id + 1;
    Ok(s)
}

/// Creates the variant record for an observation under a product record.
pub fn create_stock(store: &mut StockStore, stocks: &Stocks, json: &JsonStock) -> (r: Result<
    Stock,
    StoreError,
>)
    requires
        old(store).wf(),
    ensures
        final(store).wf(),
        match r {
            Ok(s) => {
                let k = (stocks.id, json.foreign_id);
                &&& !old(store)@.stock.contains_key(k)
                &&& old(store)@.next_stock_id < i32::MAX
                &&& stock_key(s) == k
                &&& row_of(s) == observed_row(old(store)@.next_stock_id as i32, *json)
                &&& final(store)@ == (StoreView {
                    stock: old(store)@.stock.insert(k, row_of(s)),
                    next_stock_id: old(store)@.next_stock_id + 1,
                    ..old(store)@
                })
            },
            Err(e) => {
                let k = (stocks.id, json.foreign_id);
                &&& final(store)@ == old(store)@
                &&& e == StoreError::DuplicateStock || e == StoreError::IdsExhausted
                &&& e == StoreError::DuplicateStock <==> old(store)@.stock.contains_key(k)
                &&& e == StoreError::IdsExhausted <==> (!old(store)@.stock.contains_key(k)
                    && old(store)@.next_stock_id == i32::MAX)
            },
        },
{
    let new_stock = NewStock {
        foreign_id: json.foreign_id,
        availability: json.availability.clone(),
        type_threshold: json.type_threshold.clone(),
        stocks_id: stocks.id,
    };
    insert_stock(store, new_stock)
}

/// Rewrites both observed fields of the stored variant record with `st`'s key.
pub fn update_stock(store: &mut StockStore, st: &Stock, json: &JsonStock) -> (r: Result<
    Stock,
    StoreError,
>)
    requires
        old(store).wf(),
    ensures
        final(store).wf(),
        match r {
            Ok(s) => {
                let k = stock_key(*st);
                &&& old(store)@.stock.contains_key(k)
                &&& stock_key(s) == k
                &&& row_of(s) == observed_row(old(store)@.stock[k].id, *json)
                &&& final(store)@ == (StoreView {
                    stock: old(store)@.stock.insert(k, row_of(s)),
                    ..old(store)@
                })
            },
            Err(e) => {
                &&& e == StoreError::MissingStock
                &&& !old(store)@.stock.contains_key(stock_key(*st))
                &&& final(store)@ == old(store)@
            },
        },
{
    match stock_index(store, st.stocks_id, st.foreign_id) {
        None => Err(StoreError::MissingStock),
        Some(i) => {
            let s = Stock {
                id: store.stock[i].id,
                foreign_id: st.foreign_id,
                availability: json.availability.clone(),
                type_threshold: json.type_threshold.clone(),
                stocks_id: st.stocks_id,
            };
            proof {
                lemma_stock_set(store.stock@, i as int, s);
            }
            store.stock.set(i, s.duplicate());
            Ok(s)
        },
    }
}

} // verus!
