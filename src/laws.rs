use crate::models::{keys_distinct, JsonStock, JsonStocks};
use crate::reconcile::{notifies, reconcile_spec, resolve, run, step, Classification};
use crate::store::{observed_row, StoreView};
use vstd::prelude::*;

verus! {

/// No variant of a reconciliation failed.
pub open spec fn no_failures(cs: Seq<Classification>) -> bool {
    forall|i: int| 0 <= i < cs.len() ==> cs[i] != Classification::Failed
}

/// Every variant of the snapshot is stored under `pid` with its observed fields.
pub open spec fn reflects(v: StoreView, pid: i32, obs: Seq<JsonStock>) -> bool {
    forall|i: int|
        0 <= i < obs.len() ==> {
            let k = (pid, #[trigger] obs[i].foreign_id);
            &&& v.stock.contains_key(k)
            &&& v.stock[k].availability == obs[i].availability@
            &&& v.stock[k].type_threshold == obs[i].type_threshold@
        }
}

/// `n` classifications, all unchanged.
pub open spec fn all_unchanged(n: nat) -> Seq<Classification> {
    Seq::new(n, |i: int| Classification::Unchanged)
}

/// The number of notifications that a reconciliation owes.
pub open spec fn notice_count(cs: Seq<Classification>) -> nat
    decreases cs.len(),
{
    if cs.len() == 0 {
        0
    } else {
        notice_count(cs.drop_last()) + if notifies(cs.last()) {
            1nat
        } else {
            0nat
        }
    }
}

/// The notifications owed by `n` reconciliations of the same snapshot in a row.
pub open spec fn notices_over_runs(v: StoreView, snapshot: JsonStocks, n: nat) -> nat
    decreases n,
{
    if n == 0 {
        0
    } else {
        match reconcile_spec(v, snapshot) {
            Ok((v1, _, cs)) => notice_count(cs) + notices_over_runs(v1, snapshot, (n - 1) as nat),
            Err(_) => 0,
        }
    }
}

proof fn lemma_run_keeps_products(v: StoreView, pid: i32, obs: Seq<JsonStock>)
    ensures
        run(v, pid, obs).0.products == v.products,
        run(v, pid, obs).0.next_stocks_id == v.next_stocks_id,
        run(v, pid, obs).1.len() == obs.len(),
    decreases obs.len(),
{
    if obs.len() > 0 {
        lemma_run_keeps_products(v, pid, obs.drop_last());
    }
}

proof fn lemma_run_reflects(v: StoreView, pid: i32, obs: Seq<JsonStock>)
    requires
        keys_distinct(obs),
        no_failures(run(v, pid, obs).1),
    ensures
        reflects(run(v, pid, obs).0, pid, obs),
    decreases obs.len(),
{
    if obs.len() > 0 {
        let pre = obs.drop_last();
        let (v1, cs) = run(v, pid, pre);
        lemma_run_keeps_products(v, pid, pre);
        assert(run(v, pid, obs).1 == cs.push(step(v1, pid, obs.last()).1));
        assert(no_failures(cs)) by {
            assert forall|i: int| 0 <= i < cs.len() implies cs[i] != Classification::Failed by {
                assert(run(v, pid, obs).1[i] == cs[i]);
            }
        }
        assert(step(v1, pid, obs.last()).1 == run(v, pid, obs).1[obs.len() - 1]);
        lemma_run_reflects(v, pid, pre);
        let v2 = run(v, pid, obs).0;
        assert forall|i: int| 0 <= i < obs.len() implies {
            let k = (pid, #[trigger] obs[i].foreign_id);
            &&& v2.stock.contains_key(k)
            &&& v2.stock[k].availability == obs[i].availability@
            &&& v2.stock[k].type_threshold == obs[i].type_threshold@
        } by {
            if i < obs.len() - 1 {
                assert(obs[i] == pre[i]);
                assert(obs[i].foreign_id != obs[obs.len() - 1].foreign_id);
            }
        }
    }
}

proof fn lemma_run_unchanged(v: StoreView, pid: i32, obs: Seq<JsonStock>)
    requires
        reflects(v, pid, obs),
    ensures
        run(v, pid, obs) == (v, all_unchanged(obs.len())),
    decreases obs.len(),
{
    if obs.len() > 0 {
        let pre = obs.drop_last();
        assert(reflects(v, pid, pre)) by {
            assert forall|i: int| 0 <= i < pre.len() implies {
                let k = (pid, #[trigger] pre[i].foreign_id);
                &&& v.stock.contains_key(k)
                &&& v.stock[k].availability == pre[i].availability@
                &&& v.stock[k].type_threshold == pre[i].type_threshold@
            } by {
                assert(pre[i] == obs[i]);
            }
        }
        lemma_run_unchanged(v, pid, pre);
        assert(obs.last() == obs[obs.len() - 1]);
        assert(all_unchanged(pre.len()).push(Classification::Unchanged) =~= all_unchanged(
            obs.len(),
        ));
    }
}

/// Reconciling a snapshot a second time in a row, after a first reconciliation
/// that failed on no variant, writes nothing and classifies every variant as
/// unchanged.
pub proof fn lemma_reconcile_idempotent(v: StoreView, snapshot: JsonStocks)
    requires
        reconcile_spec(v, snapshot) is Ok,
        no_failures(reconcile_spec(v, snapshot)->Ok_0.2),
    ensures
        ({
            let (v1, pid, _) = reconcile_spec(v, snapshot)->Ok_0;
            reconcile_spec(v1, snapshot) == Ok::<
                (StoreView, i32, Seq<Classification>),
                crate::reconcile::ReconcileError,
            >((v1, pid, all_unchanged(snapshot.stocks@.len())))
        }),
{
    let (v0, pid) = resolve(v, snapshot.product_id)->Some_0;
    let obs = snapshot.stocks@;
    let (v1, cs) = run(v0, pid, obs);
    lemma_run_keeps_products(v0, pid, obs);
    lemma_run_reflects(v0, pid, obs);
    assert(resolve(v1, snapshot.product_id) == Some((v1, pid)));
    lemma_run_unchanged(v1, pid, obs);
}

proof fn lemma_no_notices(n: nat)
    ensures
        notice_count(all_unchanged(n)) == 0,
    decreases n,
{
    if n > 0 {
        assert(all_unchanged(n).drop_last() =~= all_unchanged((n - 1) as nat));
        lemma_no_notices((n - 1) as nat);
    }
}

proof fn lemma_notices_bounded(cs: Seq<Classification>)
    ensures
        notice_count(cs) <= cs.len(),
    decreases cs.len(),
{
    if cs.len() > 0 {
        lemma_notices_bounded(cs.drop_last());
    }
}

/// Reconciling the same snapshot `n >= 1` times in a row, where the first
/// reconciliation failed on no variant, owes exactly the notifications of the
/// first one, at most one per variant.
pub proof fn lemma_notify_once(v: StoreView, snapshot: JsonStocks, n: nat)
    requires
        n >= 1,
        reconcile_spec(v, snapshot) is Ok,
        no_failures(reconcile_spec(v, snapshot)->Ok_0.2),
    ensures
        notices_over_runs(v, snapshot, n) == notice_count(reconcile_spec(v, snapshot)->Ok_0.2),
        notice_count(reconcile_spec(v, snapshot)->Ok_0.2) <= snapshot.stocks@.len(),
    decreases n,
{
    let (v1, pid, cs) = reconcile_spec(v, snapshot)->Ok_0;
    lemma_reconcile_idempotent(v, snapshot);
    lemma_no_notices(snapshot.stocks@.len());
    let (v0, p0) = resolve(v, snapshot.product_id)->Some_0;
    lemma_run_keeps_products(v0, p0, snapshot.stocks@);
    lemma_notices_bounded(cs);
    assert(notices_over_runs(v, snapshot, n) == notice_count(cs) + notices_over_runs(
        v1,
        snapshot,
        (n - 1) as nat,
    ));
    if n > 1 {
        assert(no_failures(all_unchanged(snapshot.stocks@.len())));
        lemma_notify_once(v1, snapshot, (n - 1) as nat);
    } else {
        assert(notices_over_runs(v1, snapshot, 0) == 0);
    }
}

/// When only the availability differs from the stored row, the variant is
/// classified as updated and both stored fields are rewritten from the
/// observation.
pub proof fn lemma_field_pairing(v: StoreView, pid: i32, json: JsonStock)
    requires
        v.stock.contains_key((pid, json.foreign_id)),
        v.stock[(pid, json.foreign_id)].availability != json.availability@,
        v.stock[(pid, json.foreign_id)].type_threshold == json.type_threshold@,
    ensures
        step(v, pid, json).1 == Classification::Updated,
        step(v, pid, json).0.stock[(pid, json.foreign_id)] == observed_row(
            v.stock[(pid, json.foreign_id)].id,
            json,
        ),
        step(v, pid, json).0.stock[(pid, json.foreign_id)].type_threshold == json.type_threshold@,
{
}

/// Two reconciliations in a row of snapshots of one product key that was
/// never seen leave exactly one product record for that key, and both resolve
/// to it.
pub proof fn lemma_single_product(v: StoreView, a: JsonStocks, b: JsonStocks)
    requires
        a.product_id == b.product_id,
        !v.products.contains_key(a.product_id),
        reconcile_spec(v, a) is Ok,
    ensures
        ({
            let (v1, pa, _) = reconcile_spec(v, a)->Ok_0;
            &&& v1.products == v.products.insert(a.product_id, pa)
            &&& keys_distinct(b.stocks@) ==> reconcile_spec(v1, b) is Ok
            &&& reconcile_spec(v1, b) is Ok ==> {
                let (v2, pb, _) = reconcile_spec(v1, b)->Ok_0;
                pb == pa && v2.products == v1.products
            }
        }),
{
    let (v0, pa) = resolve(v, a.product_id)->Some_0;
    lemma_run_keeps_products(v0, pa, a.stocks@);
    let v1 = run(v0, pa, a.stocks@).0;
    lemma_run_keeps_products(v1, pa, b.stocks@);
}

} // verus!
