use portfolio::asset::{
    asset_id_for, asset_kind, category_selected, check_asset_delete, check_asset_update,
    currency_for, plan_asset, AssetInput, PortfolioError,
};
use portfolio::client::asset_category_code;

fn some(s: &str) -> Option<String> {
    Some(s.to_string())
}

#[test]
fn asset_kind_maps_categories() {
    assert_eq!(asset_kind("加密货币"), "crypto");
    assert_eq!(asset_kind("基金"), "fund");
    assert_eq!(asset_kind("股票"), "stock");
    assert_eq!(asset_kind("anything"), "stock");
}

#[test]
fn currency_follows_market_then_category() {
    assert_eq!(currency_for("股票", "HK"), "HKD");
    assert_eq!(currency_for("基金", "HK"), "HKD");
    assert_eq!(currency_for("股票", "SH"), "CNY");
    assert_eq!(currency_for("股票", "SZ"), "CNY");
    assert_eq!(currency_for("基金", "CN_FUND"), "CNY");
    assert_eq!(currency_for("股票", "NASDAQ"), "USD");
    assert_eq!(currency_for("加密货币", "CRYPTO"), "USD");
}

#[test]
fn asset_id_joins_kind_market_and_symbol() {
    assert_eq!(asset_id_for("加密货币", "CRYPTO", "BTC"), "crypto:CRYPTO:BTC");
    assert_eq!(asset_id_for("基金", "CN_FUND", "006479"), "fund:CN_FUND:006479");
}

#[test]
fn plan_asset_applies_defaults_and_normalises() {
    let input = AssetInput { category: None, market: None, symbol: some("  btc "), name: None };
    let record = plan_asset(&input).unwrap();
    assert_eq!(record.asset_id, "crypto:CRYPTO:BTC");
    assert_eq!(record.category, "加密货币");
    assert_eq!(record.market, "CRYPTO");
    assert_eq!(record.symbol, "BTC");
    assert_eq!(record.name, "BTC");
    assert_eq!(record.currency, "USD");
}

#[test]
fn plan_asset_keeps_a_given_name_and_replaces_a_blank_one() {
    let named = AssetInput {
        category: some("基金"),
        market: some("CN_FUND"),
        symbol: some("006479"),
        name: some("广发纳指"),
    };
    let record = plan_asset(&named).unwrap();
    assert_eq!(record.name, "广发纳指");
    assert_eq!(record.currency, "CNY");
    assert_eq!(record.asset_id, "fund:CN_FUND:006479");
    let blank = AssetInput {
        category: some("股票"),
        market: some("HK"),
        symbol: some("700"),
        name: some("   "),
    };
    let record = plan_asset(&blank).unwrap();
    assert_eq!(record.name, "700");
    assert_eq!(record.currency, "HKD");
    assert_eq!(record.asset_id, "stock:HK:700");
}

#[test]
fn plan_asset_refuses_an_empty_symbol() {
    let input = AssetInput { category: None, market: None, symbol: some(" \t "), name: some("x") };
    assert_eq!(plan_asset(&input).err(), Some(PortfolioError::EmptySymbol));
    let missing = AssetInput { category: None, market: None, symbol: None, name: None };
    assert_eq!(plan_asset(&missing).err(), Some(PortfolioError::EmptySymbol));
}

#[test]
fn asset_with_trades_keeps_its_id() {
    assert_eq!(check_asset_update("crypto:CRYPTO:BTC", "crypto:CRYPTO:ETH", 0), Ok(()));
    assert_eq!(check_asset_update("crypto:CRYPTO:BTC", "crypto:CRYPTO:BTC", 3), Ok(()));
    assert_eq!(
        check_asset_update("crypto:CRYPTO:BTC", "crypto:CRYPTO:ETH", 3),
        Err(PortfolioError::IdChangeWithTransactions)
    );
}

#[test]
fn asset_with_trades_is_not_deleted() {
    assert_eq!(check_asset_delete(0), Ok(()));
    assert_eq!(check_asset_delete(2), Err(PortfolioError::DeleteWithTransactions));
}

#[test]
fn holdings_filter_all_shows_everything() {
    assert!(category_selected("全部", "基金"));
    assert!(category_selected("基金", "基金"));
    assert!(!category_selected("基金", "股票"));
    assert!(!category_selected("all", "基金"));
}

#[test]
fn client_reads_back_the_category_code_of_an_id() {
    for (category, code) in [("加密货币", "crypto"), ("基金", "fund"), ("股票", "stock")] {
        let id = asset_id_for(category, "M:X", "S");
        assert_eq!(asset_category_code(&id), code);
    }
    assert_eq!(asset_category_code("bond:X:Y"), "crypto");
    assert_eq!(asset_category_code("-"), "crypto");
    assert_eq!(asset_category_code("fund"), "fund");
}

#[test]
fn ascii_symbols_upper_case_letters_only() {
    let input = AssetInput { category: some("基金"), market: some("CN_FUND"), symbol: some(" 006479 "), name: None };
    assert_eq!(plan_asset(&input).unwrap().symbol, "006479");
    let mixed = AssetInput { category: None, market: None, symbol: some("eth2x-9"), name: None };
    assert_eq!(plan_asset(&mixed).unwrap().symbol, "ETH2X-9");
}
