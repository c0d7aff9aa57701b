use portfolio::asset::{asset_record, AssetInput, PortfolioError};
use portfolio::client::{decimal_text, startup_status};
use portfolio::quote::{check_quote_errors, quote_items, quote_record, QuoteField, QuoteInput, QuoteList};
use serde_json::Value;

fn quote_with_id(id: &str) -> Value {
    let mut fields = serde_json::Map::new();
    fields.insert("asset_id".to_string(), Value::String(id.to_string()));
    Value::Object(fields)
}

#[test]
fn quote_items_accepts_adapter_map_response() {
    let items = quote_items(QuoteList::ByKey(vec![
        ("crypto:CRYPTO:BTC".to_string(), quote_with_id("crypto:CRYPTO:BTC")),
        ("fund:CN_FUND:006479".to_string(), quote_with_id("fund:CN_FUND:006479")),
    ]));
    let ids = items
        .iter()
        .filter_map(|item| item["asset_id"].as_str())
        .collect::<Vec<_>>();
    assert!(ids.contains(&"crypto:CRYPTO:BTC"));
    assert!(ids.contains(&"fund:CN_FUND:006479"));
}

#[test]
fn quote_items_of_a_list_or_of_nothing() {
    assert_eq!(quote_items(QuoteList::List(vec![1, 2, 3])), vec![1, 2, 3]);
    assert_eq!(quote_items(QuoteList::<u8>::Other), Vec::<u8>::new());
    assert_eq!(
        quote_items(QuoteList::ByKey(vec![("b".to_string(), 2), ("a".to_string(), 1)])),
        vec![2, 1]
    );
}

#[test]
fn adapter_errors_fail_the_refresh() {
    assert_eq!(check_quote_errors(None, "null"), Ok(()));
    assert_eq!(check_quote_errors(Some(0), "[]"), Ok(()));
    assert_eq!(
        check_quote_errors(Some(1), "[\"timeout\"]"),
        Err("行情查询失败：[\"timeout\"]".to_string())
    );
}

#[test]
fn startup_status_reports_the_first_failure() {
    let ok = || Ok::<(), String>(());
    let err = |m: &str| Err::<(), String>(m.to_string());
    assert_eq!(startup_status(Ok(3), ok(), ok(), ok()), "自动加载完成：3 项持仓");
    assert_eq!(startup_status(Ok(0), ok(), ok(), ok()), "自动加载完成：0 项持仓");
    assert_eq!(startup_status(Err("h".to_string()), err("a"), err("t"), err("c")), "h");
    assert_eq!(startup_status(Ok(3), err("a"), err("t"), err("c")), "a");
    assert_eq!(startup_status(Ok(3), ok(), err("t"), err("c")), "t");
    assert_eq!(startup_status(Ok(3), ok(), ok(), err("c")), "c");
}

#[test]
fn decimal_text_formats_like_display() {
    for n in [0usize, 7, 10, 42, 1000, 123456789, usize::MAX] {
        assert_eq!(decimal_text(n), n.to_string());
    }
}

#[test]
fn asset_record_takes_the_normalised_symbol() {
    let input = AssetInput { category: None, market: None, symbol: Some("btc".to_string()), name: None };
    let record = asset_record(&input, "BTC".to_string()).unwrap();
    assert_eq!(record.asset_id, "crypto:CRYPTO:BTC");
    assert_eq!(record.name, "BTC");
    assert_eq!(asset_record(&input, String::new()).err(), Some(PortfolioError::EmptySymbol));
}

#[test]
fn quote_record_takes_the_normalised_symbol() {
    let q = QuoteInput {
        asset_id: None,
        category: Some("基金".to_string()),
        market: Some("CN_FUND".to_string()),
        symbol: Some("006479".to_string()),
        name: None,
        currency: None,
        source: None,
        fetched_at: None,
    };
    let r = quote_record(&q, "006479".to_string(), "2026-01-01 00:00:00").unwrap();
    assert_eq!(r.asset_id, "fund:CN_FUND:006479");
    assert_eq!(r.fetched_at, "2026-01-01 00:00:00");
    let no_market = QuoteInput { market: None, ..q };
    assert_eq!(quote_record(&no_market, "X".to_string(), "now").err(), Some(QuoteField::Market));
}
