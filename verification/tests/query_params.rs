use portfolio::csv;
use portfolio::QueryParams;
use portfolio::AppState;
use std::path::PathBuf;

fn owned(items: &[&str]) -> Vec<String> {
    items.iter().map(|s| s.to_string()).collect()
}

#[test]
fn csv_splits_trims_and_drops_blanks() {
    assert_eq!(csv(Some(" BTC, ETH ,,  ,SOL".to_string())), owned(&["BTC", "ETH", "SOL"]));
}

#[test]
fn csv_of_nothing_is_empty() {
    assert_eq!(csv(None), Vec::<String>::new());
    assert_eq!(csv(Some(String::new())), Vec::<String>::new());
    assert_eq!(csv(Some(" , ,".to_string())), Vec::<String>::new());
}

#[test]
fn csv_keeps_inner_spaces_and_unicode_whitespace_is_trimmed() {
    assert_eq!(
        csv(Some("\u{3000}加密货币 基金\u{a0},fund:CN_FUND:006479\t".to_string())),
        owned(&["加密货币 基金", "fund:CN_FUND:006479"])
    );
}

#[test]
fn csv_items_are_clean_on_concrete_input() {
    let items = csv(Some(" a ,b,, c d ,".to_string()));
    for item in &items {
        assert!(!item.is_empty());
        assert_eq!(item.trim(), item.as_str());
        assert!(!item.contains(','));
    }
    assert_eq!(items, owned(&["a", "b", "c d"]));
}

#[test]
fn query_lists_follow_the_parameters() {
    let q = QueryParams {
        symbols: Some("BTC,ETH".to_string()),
        asset_ids: Some("crypto:CRYPTO:BTC".to_string()),
        category: Some("基金".to_string()),
        categories: None,
        ..Default::default()
    };
    assert_eq!(q.symbol_list(), owned(&["BTC", "ETH"]));
    assert_eq!(q.asset_id_list(), owned(&["crypto:CRYPTO:BTC"]));
    assert_eq!(q.category_list(), owned(&["基金"]));
    let both = QueryParams {
        category: Some("基金".to_string()),
        categories: Some("加密货币, 股票".to_string()),
        ..Default::default()
    };
    assert_eq!(both.category_list(), owned(&["加密货币", "股票"]));
}

#[test]
fn only_full_one_asks_for_full_fields() {
    let mut q = QueryParams::default();
    assert!(!q.wants_full());
    q.full = Some("1".to_string());
    assert!(q.wants_full());
    q.full = Some("true".to_string());
    assert!(!q.wants_full());
}

#[test]
fn holdings_category_defaults_to_every_category() {
    let mut q = QueryParams::default();
    assert_eq!(q.holdings_category(), "全部");
    q.category = Some("基金".to_string());
    assert_eq!(q.holdings_category(), "基金");
}

#[test]
fn app_state_holds_its_settings() {
    let state = AppState {
        database_path: PathBuf::from("data/price_history.sqlite3"),
        adapter_url: "http://127.0.0.1:8786".to_string(),
        adapter_token: None,
    };
    let copy = state.clone();
    assert_eq!(copy.database_path, PathBuf::from("data/price_history.sqlite3"));
    assert_eq!(copy.adapter_url, "http://127.0.0.1:8786");
    assert!(copy.adapter_token.is_none());
}

#[test]
fn csv_items_rejoined_split_the_same() {
    for text in [" BTC, ETH ,,  ,SOL", "", ",,", "a b , c"] {
        let items = csv(Some(text.to_string()));
        assert_eq!(csv(Some(items.join(","))), items);
    }
}
