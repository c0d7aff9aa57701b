use portfolio::asset::PortfolioError;
use portfolio::quote::{check_refresh, join_texts, missing_ids, plan_quote, QuoteField, QuoteInput};
use portfolio::trade::{check_sale, check_trade_values, is_sell, trade_kind, ImportTally, TradeFacts};

fn some(s: &str) -> Option<String> {
    Some(s.to_string())
}

fn btc_quote() -> QuoteInput {
    QuoteInput {
        asset_id: None,
        category: some("加密货币"),
        market: some("CRYPTO"),
        symbol: some("btc"),
        name: some("Bitcoin"),
        currency: some("USD"),
        source: some("test"),
        fetched_at: some("2026-01-01 00:00:00"),
    }
}

#[test]
fn quote_without_id_gets_a_generated_one() {
    let r = plan_quote(&btc_quote(), "2030-01-01 00:00:00").unwrap();
    assert_eq!(r.asset_id, "crypto:CRYPTO:BTC");
    assert_eq!(r.symbol, "BTC");
    assert_eq!(r.name, "Bitcoin");
    assert_eq!(r.currency, "USD");
    assert_eq!(r.source, "test");
    assert_eq!(r.fetched_at, "2026-01-01 00:00:00");
}

#[test]
fn quote_defaults_fill_the_gaps() {
    let q = QuoteInput {
        asset_id: some("fund:CN_FUND:006479"),
        name: None,
        currency: None,
        source: None,
        fetched_at: some(""),
        ..btc_quote()
    };
    let r = plan_quote(&q, "2030-01-01 00:00:00").unwrap();
    assert_eq!(r.asset_id, "fund:CN_FUND:006479");
    assert_eq!(r.name, "BTC");
    assert_eq!(r.currency, "CNY");
    assert_eq!(r.source, "adapter");
    assert_eq!(r.fetched_at, "2030-01-01 00:00:00");
}

#[test]
fn quote_needs_category_market_and_symbol_in_order() {
    let no_category = QuoteInput { category: some(""), market: None, ..btc_quote() };
    assert_eq!(plan_quote(&no_category, "now").err(), Some(QuoteField::Category));
    let no_market = QuoteInput { market: None, symbol: None, ..btc_quote() };
    assert_eq!(plan_quote(&no_market, "now").err(), Some(QuoteField::Market));
    let no_symbol = QuoteInput { symbol: some(""), ..btc_quote() };
    assert_eq!(plan_quote(&no_symbol, "now").err(), Some(QuoteField::Symbol));
}

#[test]
fn refresh_reports_the_assets_without_quotes() {
    let expected = vec!["a".to_string(), "b".to_string(), "c".to_string()];
    let stored = vec!["b".to_string()];
    assert_eq!(missing_ids(&expected, &stored), vec!["a".to_string(), "c".to_string()]);
    assert_eq!(check_refresh(&expected, &stored), Err("未找到最新行情：a, c".to_string()));
    let all = vec!["c".to_string(), "a".to_string(), "b".to_string()];
    assert_eq!(check_refresh(&expected, &all), Ok(()));
    assert_eq!(check_refresh(&Vec::new(), &Vec::new()), Ok(()));
}

#[test]
fn join_puts_the_separator_between() {
    assert_eq!(join_texts(&Vec::new(), ", "), "");
    assert_eq!(join_texts(&vec!["x".to_string()], ", "), "x");
    assert_eq!(join_texts(&vec!["x".to_string(), "y".to_string()], "-"), "x-y");
}

#[test]
fn trade_kind_defaults_to_buy() {
    assert_eq!(trade_kind(&None), "buy");
    assert_eq!(trade_kind(&some("sell")), "sell");
    assert!(is_sell("sell"));
    assert!(!is_sell("Sell"));
}

fn facts(a: bool, p: bool, ap: bool, pn: bool) -> TradeFacts {
    TradeFacts { has_amount: a, has_price: p, amount_positive: ap, price_not_negative: pn }
}

#[test]
fn trade_values_are_checked_in_order() {
    assert_eq!(check_trade_values(&facts(false, false, false, false)), Err(PortfolioError::MissingAmount));
    assert_eq!(check_trade_values(&facts(true, false, true, true)), Err(PortfolioError::MissingPrice));
    assert_eq!(check_trade_values(&facts(true, true, false, true)), Err(PortfolioError::InvalidAmountOrPrice));
    assert_eq!(check_trade_values(&facts(true, true, true, false)), Err(PortfolioError::InvalidAmountOrPrice));
    assert_eq!(check_trade_values(&facts(true, true, true, true)), Ok(()));
}

#[test]
fn only_a_sale_needs_cover() {
    assert_eq!(check_sale("sell", false), Err(PortfolioError::SellExceedsHolding));
    assert_eq!(check_sale("sell", true), Ok(()));
    assert_eq!(check_sale("buy", false), Ok(()));
}

#[test]
fn import_tally_counts_stored_and_skipped() {
    let mut tally = ImportTally::new();
    tally.record_asset();
    assert!(tally.record_trade(0));
    assert!(!tally.record_trade(1));
    assert!(!tally.record_trade(2));
    assert!(tally.record_trade(0));
    assert_eq!((tally.assets, tally.imported, tally.skipped), (1, 2, 2));
}

#[test]
fn repeated_import_skips_everything() {
    let mut tally = ImportTally::new();
    for _ in 0..3 {
        assert!(!tally.record_trade(1));
    }
    assert_eq!((tally.imported, tally.skipped), (0, 3));
}
