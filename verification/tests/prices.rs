use portfolio::history::{group_price_points, select_quotes, timestamp_limit, QuoteKey};

fn key(asset: &str, category: &str, at: &str) -> QuoteKey {
    QuoteKey {
        asset_id: asset.to_string(),
        category: category.to_string(),
        fetched_at: at.to_string(),
    }
}

fn rows() -> Vec<QuoteKey> {
    vec![
        key("crypto:CRYPTO:BTC", "加密货币", "2026-01-01 00:00:00"),
        key("crypto:CRYPTO:ETH", "加密货币", "2026-01-01 00:00:00"),
        key("fund:CN_FUND:006479", "基金", "2026-01-01 00:00:00"),
        key("crypto:CRYPTO:BTC", "加密货币", "2026-01-02 00:00:00"),
        key("fund:CN_FUND:006479", "基金", "2026-01-03 00:00:00"),
        key("crypto:CRYPTO:BTC", "加密货币", "2026-01-03 00:00:00"),
    ]
}

#[test]
fn points_group_rows_by_time() {
    let points = group_price_points(&rows(), &Vec::new(), 0);
    let shape: Vec<(String, Vec<usize>)> =
        points.into_iter().map(|p| (p.timestamp, p.rows)).collect();
    assert_eq!(
        shape,
        vec![
            ("2026-01-01 00:00:00".to_string(), vec![0, 1, 2]),
            ("2026-01-02 00:00:00".to_string(), vec![3]),
            ("2026-01-03 00:00:00".to_string(), vec![4, 5]),
        ]
    );
}

#[test]
fn points_keep_only_the_asked_assets() {
    let ids = vec!["crypto:CRYPTO:BTC".to_string()];
    let points = group_price_points(&rows(), &ids, 5000);
    let shape: Vec<(String, Vec<usize>)> =
        points.into_iter().map(|p| (p.timestamp, p.rows)).collect();
    assert_eq!(
        shape,
        vec![
            ("2026-01-01 00:00:00".to_string(), vec![0]),
            ("2026-01-02 00:00:00".to_string(), vec![3]),
            ("2026-01-03 00:00:00".to_string(), vec![5]),
        ]
    );
}

#[test]
fn points_stop_at_the_limit_of_times() {
    let points = group_price_points(&rows(), &Vec::new(), 2);
    assert_eq!(points.len(), 2);
    assert_eq!(points[0].rows, vec![0, 1, 2]);
    assert_eq!(points[1].timestamp, "2026-01-02 00:00:00");
    assert_eq!(points[1].rows, vec![3]);
}

#[test]
fn points_join_a_time_seen_earlier() {
    let mixed = vec![
        key("a", "x", "t1"),
        key("b", "x", "t2"),
        key("c", "x", "t1"),
    ];
    let points = group_price_points(&mixed, &Vec::new(), 0);
    assert_eq!(points.len(), 2);
    assert_eq!(points[0].rows, vec![0, 2]);
    assert_eq!(points[1].rows, vec![1]);
}

#[test]
fn latest_selection_filters_by_asset_and_category() {
    let all = select_quotes(&rows(), &Vec::new(), &Vec::new());
    assert_eq!(all, vec![0, 1, 2, 3, 4, 5]);
    let funds = select_quotes(&rows(), &Vec::new(), &vec!["基金".to_string()]);
    assert_eq!(funds, vec![2, 4]);
    let btc_funds = select_quotes(
        &rows(),
        &vec!["crypto:CRYPTO:BTC".to_string()],
        &vec!["基金".to_string()],
    );
    assert_eq!(btc_funds, Vec::<usize>::new());
}

#[test]
fn limit_parameter_defaults_to_5000() {
    assert_eq!(timestamp_limit(&None), 5000);
    assert_eq!(timestamp_limit(&Some("2000".to_string())), 2000);
    assert_eq!(timestamp_limit(&Some("+7".to_string())), 7);
    assert_eq!(timestamp_limit(&Some("0".to_string())), 0);
    assert_eq!(timestamp_limit(&Some("-1".to_string())), 5000);
    assert_eq!(timestamp_limit(&Some(" 5".to_string())), 5000);
    assert_eq!(timestamp_limit(&Some("abc".to_string())), 5000);
    assert_eq!(timestamp_limit(&Some("99999999999999999999999".to_string())), 5000);
}

#[test]
fn points_hold_every_row_of_the_first_times() {
    let ordered = vec![
        key("a", "x", "t1"),
        key("b", "x", "t1"),
        key("a", "x", "t2"),
        key("b", "x", "t3"),
        key("a", "x", "t3"),
    ];
    let ids = vec!["a".to_string()];
    let points = group_price_points(&ordered, &ids, 2);
    let shape: Vec<(String, Vec<usize>)> =
        points.into_iter().map(|p| (p.timestamp, p.rows)).collect();
    assert_eq!(shape, vec![("t1".to_string(), vec![0]), ("t2".to_string(), vec![2])]);
}
