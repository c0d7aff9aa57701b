use portfolio::client::{chart_window, datetime_local, profit_history_path, reply_error, ChartWindow};
use portfolio::number::{parse_i64, parse_usize};
use portfolio::asset::{plan_asset, AssetInput};
use portfolio::text::trim_text;

#[test]
fn datetime_local_replaces_space_and_cuts_seconds() {
    assert_eq!(datetime_local("2026-01-01 12:34:56"), "2026-01-01T12:34");
    assert_eq!(datetime_local("2026-01-01"), "2026-01-01");
    assert_eq!(datetime_local("a b"), "aTb");
}

#[test]
fn profit_history_path_encodes_the_dates() {
    assert_eq!(
        profit_history_path("2026-01-01", "2026-02-01"),
        "/api/portfolio/profit-history?from=2026-01-01&to=2026-02-01"
    );
    assert_eq!(profit_history_path("", ""), "/api/portfolio/profit-history?from=&to=");
    assert_eq!(
        profit_history_path("a b/c", "收"),
        "/api/portfolio/profit-history?from=a%20b%2Fc&to=%E6%94%B6"
    );
}

#[test]
fn chart_window_follows_the_range() {
    assert_eq!(
        chart_window("custom", "2026-01-01", "x"),
        ChartWindow::Between("2026-01-01".to_string(), "x".to_string())
    );
    assert_eq!(chart_window("all", "a", "b"), ChartWindow::Everything);
    assert_eq!(chart_window("7", "", ""), ChartWindow::LastDays(7));
    assert_eq!(chart_window("365", "", ""), ChartWindow::LastDays(365));
    assert_eq!(chart_window("week", "", ""), ChartWindow::LastDays(30));
}

#[test]
fn reply_error_prefers_the_service_message() {
    assert_eq!(reply_error(false, Some("坏".to_string())), Some("坏".to_string()));
    assert_eq!(reply_error(false, None), Some("服务端请求失败".to_string()));
    assert_eq!(reply_error(true, Some("m".to_string())), Some("m".to_string()));
    assert_eq!(reply_error(true, None), None);
}

#[test]
fn integers_parse_as_the_standard_parser_does() {
    for s in ["0", "42", "+42", "-42", "", "+", "-", "1a", "9223372036854775807",
        "-9223372036854775808", "9223372036854775808", "-9223372036854775809", " 1"] {
        assert_eq!(parse_i64(s), s.parse::<i64>().ok(), "i64 {s:?}");
        assert_eq!(parse_usize(s), s.parse::<usize>().ok(), "usize {s:?}");
    }
    assert_eq!(parse_usize("18446744073709551615"), "18446744073709551615".parse::<usize>().ok());
    assert_eq!(parse_usize("18446744073709551616"), None);
}

#[test]
fn trim_matches_the_standard_trim() {
    for s in ["", "  ", " a ", "\u{2003}x y\u{205f}", "\u{200b}z", "\n\tq\r"] {
        assert_eq!(trim_text(s), s.trim(), "{s:?}");
        assert_eq!(trim_text(&trim_text(s)), trim_text(s));
    }
}

#[test]
fn uppercase_is_the_standard_one() {
    let upper = |s: &str| {
        plan_asset(&AssetInput { category: None, market: None, symbol: Some(s.to_string()), name: None })
            .unwrap()
            .symbol
    };
    assert_eq!(upper("btc"), "BTC");
    assert_eq!(upper(" straße "), "STRASSE");
}
