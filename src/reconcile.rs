use crate::models::{has_distinct_keys, is_stock_same, keys_distinct, JsonStock, JsonStocks, Stock, Stocks};
use crate::store::{
    create_stock, create_stocks, find_stock, find_stocks, observed_row, row_of, stock_key,
    update_stock, StockRow, StockStore, StoreError, StoreView,
};
use vstd::prelude::*;

verus! {

/// The outcome of reconciling one observed variant.
#[derive(Debug, PartialEq, Eq, Clone, Copy, Structural)]
pub enum Classification {
    Unchanged,
    Created,
    Updated,
    Failed,
}

/// What to do with one observation, given what is stored under its key.
#[derive(Debug, PartialEq, Eq, Clone, Copy, Structural)]
pub enum StockAction {
    Create,
    Update,
    Keep,
}

/// Why a whole reconciliation was refused or abandoned.
#[derive(Debug, PartialEq, Eq, Clone, Copy, Structural)]
pub enum ReconcileError {
    /// Two variants of the snapshot share a key; nothing was written.
    MalformedSnapshot,
    /// The product record could not be resolved; nothing was written.
    StorageError,
}

/// One variant's outcome, with the records involved.
#[derive(Debug, PartialEq, Eq, Clone)]
pub enum StockOutcome {
    /// The stored record already matched the observation.
    Unchanged(Stock),
    /// A record was created from the observation.
    Created(Stock),
    /// The stored record (first) was rewritten (second).
    Updated(Stock, Stock),
    /// Storage could not take the record of this variant key.
    Failed(i32),
}

/// The product record and the variants' outcomes, in snapshot order.
#[derive(Debug, PartialEq, Eq, Clone)]
pub struct ReconcileResult {
    pub stocks: Stocks,
    pub outcomes: Vec<StockOutcome>,
}

impl StockOutcome {
    pub open spec fn class(&self) -> Classification {
        match self {
            StockOutcome::Unchanged(_) => Classification::Unchanged,
            StockOutcome::Created(_) => Classification::Created,
            StockOutcome::Updated(_, _) => Classification::Updated,
            StockOutcome::Failed(_) => Classification::Failed,
        }
    }

    pub fn classification(&self) -> (r: Classification)
        ensures
            r == self.class(),
    {
        match self {
            StockOutcome::Unchanged(_) => Classification::Unchanged,
            StockOutcome::Created(_) => Classification::Created,
            StockOutcome::Updated(_, _) => Classification::Updated,
            StockOutcome::Failed(_) => Classification::Failed,
        }
    }

    /// A change was written, so the notifier is owed one message.
    pub fn needs_notice(&self) -> (r: bool)
        ensures
            r == notifies(self.class()),
    {
        match self {
            StockOutcome::Created(_) => true,
            StockOutcome::Updated(_, _) => true,
            _ => false,
        }
    }
}

pub open spec fn notifies(c: Classification) -> bool {
    c == Classification::Created || c == Classification::Updated
}

pub open spec fn action_for(existing: Option<StockRow>, json: JsonStock) -> StockAction {
    match existing {
        None => StockAction::Create,
        Some(row) => if row.availability == json.availability@ && row.type_threshold
            == json.type_threshold@ {
            StockAction::Keep
        } else {
            StockAction::Update
        },
    }
}

/// Decides between creating, rewriting and keeping a variant record.
pub fn plan_stock(existing: Option<&Stock>, json: &JsonStock) -> (r: StockAction)
    ensures
        r == action_for(
            match existing {
                Some(s) => Some(row_of(*s)),
                None => None,
            },
            *json,
        ),
{
    match existing {
        None => StockAction::Create,
        Some(s) => if is_stock_same(s, json) {
            StockAction::Keep
        } else {
            StockAction::Update
        },
    }
}

/// Reconciling one observation under product record `pid`: the store after it,
/// and the classification.
pub open spec fn step(v: StoreView, pid: i32, json: JsonStock) -> (StoreView, Classification) {
    let k = (pid, json.foreign_id);
    if v.stock.contains_key(k) {
        let row = v.stock[k];
        if row.availability == json.availability@ && row.type_threshold == json.type_threshold@ {
            (v, Classification::Unchanged)
        } else {
            (
                StoreView { stock: v.stock.insert(k, observed_row(row.id, json)), ..v },
                Classification::Updated,
            )
        }
    } else if v.next_stock_id < i32::MAX {
        (
            StoreView {
                stock: v.stock.insert(k, observed_row(v.next_stock_id as i32, json)),
                next_stock_id: v.next_stock_id + 1,
                ..v
            },
            Classification::Created,
        )
    } else {
        (v, Classification::Failed)
    }
}

/// Reconciling a sequence of observations in order.
pub open spec fn run(v: StoreView, pid: i32, obs: Seq<JsonStock>) -> (StoreView, Seq<
    Classification,
>)
    decreases obs.len(),
{
    if obs.len() == 0 {
        (v, Seq::empty())
    } else {
        let (v1, cs) = run(v, pid, obs.drop_last());
        let (v2, c) = step(v1, pid, obs.last());
        (v2, cs.push(c))
    }
}

/// Finding or creating the product record of a key: the store after it and
/// the record's id, or `None` when no id is left.
pub open spec fn resolve(v: StoreView, key: i32) -> Option<(StoreView, i32)> {
    if v.products.contains_key(key) {
        Some((v, v.products[key]))
    } else if v.next_stocks_id < i32::MAX {
        let id = v.next_stocks_id as i32;
        Some(
            (
                StoreView {
                    products: v.products.insert(key, id),
                    next_stocks_id: v.next_stocks_id + 1,
                    ..v
                },
                id,
            ),
        )
    } else {
        None
    }
}

/// Reconciling a whole snapshot: the store after it, the product record's id
/// and the classifications in snapshot order.
pub open spec fn reconcile_spec(v: StoreView, snapshot: JsonStocks) -> Result<
    (StoreView, i32, Seq<Classification>),
    ReconcileError,
> {
    if !keys_distinct(snapshot.stocks@) {
        Err(ReconcileError::MalformedSnapshot)
    } else {
        match resolve(v, snapshot.product_id) {
            None => Err(ReconcileError::StorageError),
            Some((v1, pid)) => {
                let (v2, cs) = run(v1, pid, snapshot.stocks@);
                Ok((v2, pid, cs))
            },
        }
    }
}

/// The records that an outcome carries are those stored under the
/// observation's key before and after the step.
pub open spec fn outcome_fits(
    o: StockOutcome,
    pid: i32,
    json: JsonStock,
    before: StoreView,
    after: StoreView,
) -> bool {
    let k = (pid, json.foreign_id);
    match o {
        StockOutcome::Unchanged(s) => {
            &&& after.stock.contains_key(k)
            &&& stock_key(s) == k
            &&& row_of(s) == after.stock[k]
        },
        StockOutcome::Created(s) => {
            &&& after.stock.contains_key(k)
            &&& stock_key(s) == k
            &&& row_of(s) == after.stock[k]
        },
        StockOutcome::Updated(p, s) => {
            &&& before.stock.contains_key(k)
            &&& after.stock.contains_key(k)
            &&& stock_key(p) == k
            &&& row_of(p) == before.stock[k]
            &&& stock_key(s) == k
            &&& row_of(s) == after.stock[k]
        },
        StockOutcome::Failed(f) => f == json.foreign_id,
    }
}

/// The variant row under `k` is the same in both stores.
pub open spec fn untouched(a: StoreView, b: StoreView, k: (i32, i32)) -> bool {
    &&& a.stock.contains_key(k) == b.stock.contains_key(k)
    &&& a.stock.contains_key(k) ==> a.stock[k] == b.stock[k]
}

/// Reconciles one observation under a product record: creates the variant
/// record when absent, rewrites both fields when either differs, and leaves
/// it alone otherwise.
pub fn stock(store: &mut StockStore, stocks: &Stocks, json: &JsonStock) -> (r: StockOutcome)
    requires
        old(store).wf(),
    ensures
        final(store).wf(),
        (final(store)@, r.class()) == step(old(store)@, stocks.id, *json),
        outcome_fits(r, stocks.id, *json, old(store)@, final(store)@),
{
    match find_stock(store, stocks, json) {
        None => match create_stock(store, stocks, json) {
            Ok(s) => StockOutcome::Created(s),
            Err(_) => StockOutcome::Failed(json.foreign_id),
        },
        Some(found) => match plan_stock(Some(&found), json) {
            StockAction::Keep => StockOutcome::Unchanged(found),
            _ => match update_stock(store, &found, json) {
                Ok(s) => StockOutcome::Updated(found, s),
                Err(_) => StockOutcome::Failed(json.foreign_id),
            },
        },
    }
}

/// Finds the product record of a key, or creates it. A create that meets an
/// existing record reads that record instead.
pub fn resolve_stocks(store: &mut StockStore, product_id: i32) -> (r: Result<Stocks, StoreError>)
    requires
        old(store).wf(),
    ensures
        final(store).wf(),
        match resolve(old(store)@, product_id) {
            Some((v1, pid)) => r == Ok::<Stocks, StoreError>(Stocks { id: pid, product_id })
                && final(store)@ == v1,
            None => r == Err::<Stocks, StoreError>(StoreError::IdsExhausted) && final(store)@
                == old(store)@,
        },
{
    match find_stocks(store, product_id) {
        Some(s) => Ok(s),
        None => match create_stocks(store, product_id) {
            Ok(s) => Ok(s),
            Err(StoreError::DuplicateProduct) => match find_stocks(store, product_id) {
                Some(s) => Ok(s),
                None => Err(StoreError::DuplicateProduct),
            },
            Err(e) => Err(e),
        },
    }
}

/// Reconciles a snapshot against the store: validates it, resolves the
/// product record, then reconciles each variant in snapshot order.
pub fn stocks(store: &mut StockStore, snapshot: &JsonStocks) -> (r: Result<
    ReconcileResult,
    ReconcileError,
>)
    requires
        old(store).wf(),
    ensures
        final(store).wf(),
        match (reconcile_spec(old(store)@, *snapshot), r) {
            (Err(e), Err(e2)) => e == e2 && final(store)@ == old(store)@,
            (Ok((v2, pid, cs)), Ok(res)) => {
                &&& final(store)@ == v2
                &&& res.stocks == Stocks { id: pid, product_id: snapshot.product_id }
                &&& res.outcomes@.len() == cs.len() == snapshot.stocks@.len()
                &&& forall|i: int|
                    0 <= i < cs.len() ==> #[trigger] res.outcomes@[i].class() == cs[i]
                        && outcome_fits(
                        res.outcomes@[i],
                        pid,
                        snapshot.stocks@[i],
                        old(store)@,
                        v2,
                    )
            },
            _ => false,
        },
{
    if !has_distinct_keys(snapshot) {
        return Err(ReconcileError::MalformedSnapshot);
    }
    let product = match resolve_stocks(store, snapshot.product_id) {
        Ok(p) => p,
        Err(_) => {
            return Err(ReconcileError::StorageError);
        },
    };
    let ghost v0 = old(store)@;
    let ghost v1 = store@;
    let ghost pid = product.id;
    let ghost obs = snapshot.stocks@;
    let n = snapshot.stocks.len();
    let mut outcomes: Vec<StockOutcome> = Vec::new();
    let mut i: usize = 0;
    assert(obs.take(0) =~= Seq::<JsonStock>::empty());
    while i < n
        invariant
            store.wf(),
            n == obs.len(),
            obs == snapshot.stocks@,
            keys_distinct(obs),
            i <= n,
            pid == product.id,
            v1.stock == v0.stock,
            (store@, outcomes@.map_values(|o: StockOutcome| o.class())) == run(
                v1,
                pid,
                obs.take(i as int),
            ),
            outcomes@.len() == i,
            forall|j: int| i <= j < n ==> #[trigger] untouched(store@, v1, (pid, obs[j].foreign_id)),
            forall|j: int|
                0 <= j < i ==> outcome_fits(#[trigger] outcomes@[j], pid, obs[j], v0, store@),
        decreases n - i,
    {
        let ghost before = store@;
        let ghost prev = outcomes@;
        let o = stock(store, &product, &snapshot.stocks[i]);
        outcomes.push(o);
        proof {
            let k = (pid, obs[i as int].foreign_id);
            assert(obs.take(i + 1).drop_last() =~= obs.take(i as int));
            assert(obs.take(i + 1).last() == obs[i as int]);
            assert(outcomes@.map_values(|o: StockOutcome| o.class()) =~= prev.map_values(
                |o: StockOutcome| o.class(),
            ).push(o.class()));
            assert forall|j: int| i < j < n implies #[trigger] untouched(
                store@,
                v1,
                (pid, obs[j].foreign_id),
            ) by {
                assert(obs[j].foreign_id != obs[i as int].foreign_id);
                assert(untouched(before, v1, (pid, obs[j].foreign_id)));
            }
            assert forall|j: int| 0 <= j < i + 1 implies outcome_fits(
                #[trigger] outcomes@[j],
                pid,
                obs[j],
                v0,
                store@,
            ) by {
                if j < i {
                    assert(outcomes@[j] == prev[j]);
                    assert(obs[j].foreign_id != obs[i as int].foreign_id);
                    assert(outcome_fits(prev[j], pid, obs[j], v0, before));
                } else {
                    assert(untouched(before, v1, k));
                }
            }
        }
        i = i + 1;
    }
    proof {
        assert(obs.take(n as int) =~= obs);
    }
    Ok(ReconcileResult { stocks: product, outcomes })
}

} // verus!
