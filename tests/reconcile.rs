use stock_watch::models::{
    has_distinct_keys, is_stock_same, take_first_stocks, JsonResponse, JsonStock, JsonStocks,
    Stock, Stocks,
};
use stock_watch::reconcile::{
    plan_stock, resolve_stocks, stock, stocks, Classification, ReconcileError, StockAction,
    StockOutcome,
};
use stock_watch::store::{
    create_stock, create_stocks, find_stock, find_stocks, update_stock, StockStore, StoreError,
};

fn obs(foreign_id: i32, availability: &str, type_threshold: &str) -> JsonStock {
    JsonStock {
        foreign_id,
        availability: availability.to_string(),
        type_threshold: type_threshold.to_string(),
    }
}

fn snap(product_id: i32, stocks: Vec<JsonStock>) -> JsonStocks {
    JsonStocks { product_id, stocks }
}

fn classes(outcomes: &[StockOutcome]) -> Vec<Classification> {
    outcomes.iter().map(|o| o.classification()).collect()
}

fn notices(outcomes: &[StockOutcome]) -> usize {
    outcomes.iter().filter(|o| o.needs_notice()).count()
}

#[test]
fn first_observation_creates_records() {
    let mut store = StockStore::new();
    let r = stocks(&mut store, &snap(1, vec![obs(7, "in_stock", "5")])).unwrap();
    assert_eq!(r.stocks, Stocks { id: 1, product_id: 1 });
    assert_eq!(classes(&r.outcomes), vec![Classification::Created]);
    assert_eq!(notices(&r.outcomes), 1);
    match &r.outcomes[0] {
        StockOutcome::Created(s) => {
            assert_eq!(s.availability, "in_stock");
            assert_eq!(s.type_threshold, "5");
            assert_eq!(s.foreign_id, 7);
            assert_eq!(s.stocks_id, 1);
            assert_eq!(s.id, 1);
        }
        other => panic!("unexpected outcome {:?}", other),
    }
    assert_eq!(find_stocks(&store, 1), Some(Stocks { id: 1, product_id: 1 }));
}

#[test]
fn changed_availability_updates_record() {
    let mut store = StockStore::new();
    stocks(&mut store, &snap(1, vec![obs(7, "in_stock", "5")])).unwrap();
    let r = stocks(&mut store, &snap(1, vec![obs(7, "out_of_stock", "5")])).unwrap();
    assert_eq!(classes(&r.outcomes), vec![Classification::Updated]);
    assert_eq!(notices(&r.outcomes), 1);
    let product = find_stocks(&store, 1).unwrap();
    let stored = find_stock(&store, &product, &obs(7, "", "")).unwrap();
    assert_eq!(stored.availability, "out_of_stock");
    assert_eq!(stored.type_threshold, "5");
    match &r.outcomes[0] {
        StockOutcome::Updated(previous, current) => {
            assert_eq!(previous.availability, "in_stock");
            assert_eq!(current.availability, "out_of_stock");
            assert_eq!(previous.id, current.id);
        }
        other => panic!("unexpected outcome {:?}", other),
    }
}

#[test]
fn identical_snapshot_is_unchanged() {
    let mut store = StockStore::new();
    stocks(&mut store, &snap(1, vec![obs(7, "in_stock", "5")])).unwrap();
    stocks(&mut store, &snap(1, vec![obs(7, "out_of_stock", "5")])).unwrap();
    let r = stocks(&mut store, &snap(1, vec![obs(7, "out_of_stock", "5")])).unwrap();
    assert_eq!(classes(&r.outcomes), vec![Classification::Unchanged]);
    assert_eq!(notices(&r.outcomes), 0);
}

#[test]
fn duplicate_variant_keys_are_malformed() {
    let mut store = StockStore::new();
    let bad = snap(1, vec![obs(7, "in_stock", "5"), obs(7, "out_of_stock", "5")]);
    assert!(!has_distinct_keys(&bad));
    assert_eq!(stocks(&mut store, &bad), Err(ReconcileError::MalformedSnapshot));
    assert_eq!(find_stocks(&store, 1), None);
}

#[test]
fn second_run_of_same_snapshot_is_unchanged() {
    let mut store = StockStore::new();
    let s = snap(3, vec![obs(1, "in_stock", "a"), obs(2, "low", "b"), obs(3, "none", "c")]);
    let first = stocks(&mut store, &s).unwrap();
    assert_eq!(notices(&first.outcomes), 3);
    let second = stocks(&mut store, &s).unwrap();
    assert_eq!(second.stocks, first.stocks);
    assert_eq!(classes(&second.outcomes), vec![Classification::Unchanged; 3]);
    assert_eq!(notices(&second.outcomes), 0);
}

#[test]
fn repeated_runs_notify_once() {
    let mut store = StockStore::new();
    let s = snap(3, vec![obs(1, "in_stock", "a")]);
    let mut total = 0;
    for _ in 0..5 {
        total += notices(&stocks(&mut store, &s).unwrap().outcomes);
    }
    assert_eq!(total, 1);
}

#[test]
fn threshold_rewritten_when_only_availability_changes() {
    let mut store = StockStore::new();
    let product = resolve_stocks(&mut store, 9).unwrap();
    create_stock(&mut store, &product, &obs(4, "in_stock", "HIGH")).unwrap();
    let out = stock(&mut store, &product, &obs(4, "out_of_stock", "HIGH"));
    assert_eq!(out.classification(), Classification::Updated);
    let stored = find_stock(&store, &product, &obs(4, "", "")).unwrap();
    assert_eq!(stored.availability, "out_of_stock");
    assert_eq!(stored.type_threshold, "HIGH");
}

#[test]
fn outcomes_follow_snapshot_order() {
    let mut store = StockStore::new();
    stocks(&mut store, &snap(2, vec![obs(20, "x", "1")])).unwrap();
    let r = stocks(
        &mut store,
        &snap(2, vec![obs(30, "y", "1"), obs(20, "x", "1"), obs(10, "z", "1"), obs(20 + 1, "w", "2")]),
    )
    .unwrap();
    assert_eq!(
        classes(&r.outcomes),
        vec![
            Classification::Created,
            Classification::Unchanged,
            Classification::Created,
            Classification::Created
        ]
    );
    let keys: Vec<i32> = r
        .outcomes
        .iter()
        .map(|o| match o {
            StockOutcome::Created(s) | StockOutcome::Unchanged(s) => s.foreign_id,
            StockOutcome::Updated(_, s) => s.foreign_id,
            StockOutcome::Failed(k) => *k,
        })
        .collect();
    assert_eq!(keys, vec![30, 20, 10, 21]);
}

#[test]
fn two_runs_for_new_product_share_one_record() {
    let mut store = StockStore::new();
    let a = stocks(&mut store, &snap(5, vec![obs(1, "in_stock", "5")])).unwrap();
    let b = stocks(&mut store, &snap(5, vec![obs(2, "in_stock", "5")])).unwrap();
    assert_eq!(a.stocks, b.stocks);
    assert_eq!(create_stocks(&mut store, 5), Err(StoreError::DuplicateProduct));
    let product = find_stocks(&store, 5).unwrap();
    assert!(find_stock(&store, &product, &obs(1, "", "")).is_some());
    assert!(find_stock(&store, &product, &obs(2, "", "")).is_some());
    let other = resolve_stocks(&mut store, 6).unwrap();
    assert_eq!(other, Stocks { id: 2, product_id: 6 });
}

#[test]
fn empty_snapshot_only_resolves_product() {
    let mut store = StockStore::new();
    let r = stocks(&mut store, &snap(8, vec![])).unwrap();
    assert!(r.outcomes.is_empty());
    assert_eq!(r.stocks, Stocks { id: 1, product_id: 8 });
}

#[test]
fn comparison_is_exact() {
    let stored = Stock {
        id: 1,
        foreign_id: 2,
        availability: "in_stock".to_string(),
        type_threshold: "5".to_string(),
        stocks_id: 1,
    };
    assert!(is_stock_same(&stored, &obs(2, "in_stock", "5")));
    assert!(!is_stock_same(&stored, &obs(2, "In_Stock", "5")));
    assert!(!is_stock_same(&stored, &obs(2, "in_stock ", "5")));
    assert!(!is_stock_same(&stored, &obs(2, "in_stock", "6")));
    assert_eq!(plan_stock(Some(&stored), &obs(2, "in_stock", "5")), StockAction::Keep);
    assert_eq!(plan_stock(Some(&stored), &obs(2, "in_stock", "6")), StockAction::Update);
    assert_eq!(plan_stock(None, &obs(2, "in_stock", "5")), StockAction::Create);
}

#[test]
fn store_operations_report_their_errors() {
    let mut store = StockStore::new();
    let product = create_stocks(&mut store, 1).unwrap();
    let absent = Stock {
        id: 99,
        foreign_id: 3,
        availability: String::new(),
        type_threshold: String::new(),
        stocks_id: product.id,
    };
    assert_eq!(update_stock(&mut store, &absent, &obs(3, "a", "b")), Err(StoreError::MissingStock));
    let made = create_stock(&mut store, &product, &obs(3, "a", "b")).unwrap();
    assert_eq!(create_stock(&mut store, &product, &obs(3, "c", "d")), Err(StoreError::DuplicateStock));
    let updated = update_stock(&mut store, &made, &obs(3, "c", "d")).unwrap();
    assert_eq!(updated.id, made.id);
    assert_eq!(updated.availability, "c");
    assert_eq!(updated.type_threshold, "d");
}

#[test]
fn first_observation_of_response_is_taken() {
    assert_eq!(take_first_stocks(JsonResponse { stocks: vec![] }), None);
    let r = JsonResponse { stocks: vec![snap(1, vec![obs(1, "a", "b")]), snap(2, vec![])] };
    assert_eq!(take_first_stocks(r), Some(snap(1, vec![obs(1, "a", "b")])));
}
