//! What the desktop client computes around its requests: the category of an asset
//! from its id, the time field of the trade form, the chart's time window and request
//! path, and the error of a reply.

use vstd::prelude::*;
use crate::asset::{asset_id_of, kind_of};
use crate::number::{all_digits, digits_value, i64_value, parse_i64};
use crate::text::{chars_of, push_char, string_of, text_eq};

verus! {

/// The text before the first `:`, or all of it when it has none.
pub open spec fn first_segment(s: Seq<char>) -> Seq<char>
    decreases s.len(),
{
    if s.len() == 0 {
        s
    } else if s[0] == ':' {
        Seq::empty()
    } else {
        seq![s[0]] + first_segment(s.drop_first())
    }
}

/// The category code that the client shows for an asset id: the id's prefix when it
/// is `crypto`, `fund` or `stock`, else `crypto`.
pub open spec fn category_code_of(asset_id: Seq<char>) -> Seq<char> {
    let p = first_segment(asset_id);
    if p == "crypto"@ || p == "fund"@ || p == "stock"@ {
        p
    } else {
        "crypto"@
    }
}

/// The first segment is the longest colon-free beginning of the text: a prefix with no
/// colon, followed by a colon unless it is the whole text.
pub proof fn law_first_segment(s: Seq<char>)
    ensures
        first_segment(s).len() <= s.len(),
        first_segment(s) == s.take(first_segment(s).len() as int),
        !first_segment(s).contains(':'),
        first_segment(s).len() < s.len() ==> s[first_segment(s).len() as int] == ':',
    decreases s.len(),
{
    if s.len() > 0 && s[0] != ':' {
        let rest = s.drop_first();
        law_first_segment(rest);
        let f = first_segment(s);
        let fr = first_segment(rest);
        assert(f =~= seq![s[0]] + fr);
        assert(f =~= s.take(f.len() as int)) by {
            assert forall|i: int| 0 <= i < f.len() implies f[i] == s[i] by {
                if i > 0 {
                    assert(fr[i - 1] == rest[i - 1]);
                }
            }
        }
        assert(!f.contains(':')) by {
            if f.contains(':') {
                let i = choose|i: int| 0 <= i < f.len() && f[i] == ':';
                assert(fr[i - 1] == ':');
            }
        }
        if f.len() < s.len() {
            assert(s[f.len() as int] == rest[fr.len() as int]);
        }
    } else if s.len() > 0 {
        assert(first_segment(s) =~= s.take(0));
    } else {
        assert(first_segment(s) =~= s.take(0));
    }
}

/// The category code shown for an id is always crypto, fund or stock: the id's first
/// segment when it is one of them, crypto otherwise.
pub proof fn law_category_code_known(asset_id: Seq<char>)
    ensures
        category_code_of(asset_id) == "crypto"@ || category_code_of(asset_id) == "fund"@
            || category_code_of(asset_id) == "stock"@,
        (first_segment(asset_id) == "fund"@ || first_segment(asset_id) == "stock"@ || first_segment(
            asset_id,
        ) == "crypto"@) ==> category_code_of(asset_id) == first_segment(asset_id),
        (first_segment(asset_id) != "fund"@ && first_segment(asset_id) != "stock"@) ==> category_code_of(
            asset_id,
        ) == "crypto"@,
{
}

/// The category code of the asset with id `asset_id`.
pub fn asset_category_code(asset_id: &str) -> (code: String)
    ensures
        code@ == category_code_of(asset_id@),
{
    let v = chars_of(asset_id);
    let n = v.len();
    let mut i: usize = 0;
    assert(v@.skip(0) =~= v@);
    assert(v@.take(0) + first_segment(v@.skip(0)) =~= first_segment(v@));
    while i < n && v[i] != ':'
        invariant
            n == v@.len(),
            i <= n,
            first_segment(v@) == v@.take(i as int) + first_segment(v@.skip(i as int)),
        decreases n - i,
    {
        let ghost rest = v@.skip(i as int);
        assert(rest.drop_first() =~= v@.skip(i + 1));
        assert(v@.take(i + 1) =~= v@.take(i as int) + seq![v@[i as int]]);
        assert(v@.take(i as int) + first_segment(rest) =~= v@.take(i + 1) + first_segment(
            v@.skip(i + 1),
        ));
        i = i + 1;
    }
    assert(first_segment(v@.skip(i as int)) =~= Seq::<char>::empty());
    assert(v@.take(i as int) + Seq::<char>::empty() =~= v@.take(i as int));
    let prefix = string_of(&v.as_slice()[0..i]);
    if text_eq(prefix.as_str(), "crypto") || text_eq(prefix.as_str(), "fund") || text_eq(
        prefix.as_str(),
        "stock",
    ) {
        prefix
    } else {
        "crypto".to_owned()
    }
}

proof fn lemma_first_segment_of_join(a: Seq<char>, b: Seq<char>)
    requires
        !a.contains(':'),
    ensures
        first_segment(a + seq![':'] + b) == a,
    decreases a.len(),
{
    let s = a + seq![':'] + b;
    if a.len() == 0 {
        assert(s[0] == ':');
    } else {
        assert(!a.drop_first().contains(':')) by {
            if a.drop_first().contains(':') {
                let k = choose|k: int| 0 <= k < a.drop_first().len() && a.drop_first()[k] == ':';
                assert(a[k + 1] == ':');
            }
        }
        lemma_first_segment_of_join(a.drop_first(), b);
        assert(s.drop_first() =~= a.drop_first() + seq![':'] + b);
        assert(a[0] != ':') by {
            assert(a[0] == a[0]);
        }
        assert(seq![a[0]] + a.drop_first() =~= a);
    }
}

/// The client reads back the category code that the service put into an asset's id:
/// for every category, market and symbol, the code of the id is the category's kind.
pub proof fn law_category_code_of_asset_id(category: Seq<char>, market: Seq<char>, symbol: Seq<
    char,
>)
    ensures
        category_code_of(asset_id_of(category, market, symbol)) == kind_of(category),
{
    reveal_strlit("crypto");
    reveal_strlit("fund");
    reveal_strlit("stock");
    let k = kind_of(category);
    assert(!k.contains(':')) by {
        if k.contains(':') {
            let i = choose|i: int| 0 <= i < k.len() && k[i] == ':';
        }
    }
    let rest = market + seq![':'] + symbol;
    assert(asset_id_of(category, market, symbol) =~= k + seq![':'] + rest);
    lemma_first_segment_of_join(k, rest);
}


/// A stored time as the `datetime-local` field shows it: each space becomes `T`, and at
/// most the first 16 characters are kept (`YYYY-MM-DDTHH:MM`).
pub open spec fn local_time_of(value: Seq<char>) -> Seq<char> {
    let r = value.map_values(|c: char| if c == ' ' { 'T' } else { c });
    if r.len() <= 16 {
        r
    } else {
        r.take(16)
    }
}

/// The time field keeps the first 16 characters of the stored time (all of them when it
/// is shorter), each at its own position, with every space turned into `T`: a stored
/// `YYYY-MM-DD HH:MM:SS` becomes `YYYY-MM-DDTHH:MM`, and a 16-character
/// `YYYY-MM-DDTHH:MM` comes back unchanged.
pub proof fn law_local_time_prefix(value: Seq<char>)
    ensures
        local_time_of(value).len() == (if value.len() <= 16 {
            value.len()
        } else {
            16
        }),
        forall|i: int|
            0 <= i < local_time_of(value).len() ==> #[trigger] local_time_of(value)[i] == (if value[i]
                == ' ' {
                'T'
            } else {
                value[i]
            }),
        (value.len() <= 16 && !value.contains(' ')) ==> local_time_of(value) == value,
{
    let r = local_time_of(value);
    if value.len() <= 16 && !value.contains(' ') {
        assert forall|i: int| 0 <= i < value.len() implies r[i] == value[i] by {
            if value[i] == ' ' {
                assert(value.contains(' '));
            }
        }
        assert(r =~= value);
    }
}

/// The time field of the trade form for a stored trade time.
pub fn datetime_local(value: &str) -> (r: String)
    ensures
        r@ == local_time_of(value@),
{
    let v = chars_of(value);
    let n = v.len();
    let mut out: Vec<char> = Vec::new();
    let mut i: usize = 0;
    while i < n && i < 16
        invariant
            n == v@.len(),
            i <= n,
            i <= 16,
            out@ =~= v@.take(i as int).map_values(|c: char| if c == ' ' { 'T' } else { c }),
        decreases n - i,
    {
        let c = v[i];
        if c == ' ' {
            out.push('T');
        } else {
            out.push(c);
        }
        i = i + 1;
    }
    let ghost r = v@.map_values(|c: char| if c == ' ' { 'T' } else { c });
    assert(out@ =~= (if r.len() <= 16 { r } else { r.take(16) }));
    string_of(out.as_slice())
}

/// Whether a byte stays as it is in a URL component: ASCII letters, digits, `-`, `.`,
/// `_` and `~`.
pub open spec fn is_unreserved(b: u8) -> bool {
    ||| (48 <= b && b <= 57)
    ||| (65 <= b && b <= 90)
    ||| (97 <= b && b <= 122)
    ||| b == 45
    ||| b == 46
    ||| b == 95
    ||| b == 126
}

/// The upper-case hex digit of a value below 16.
pub open spec fn hex_digit(d: int) -> char {
    if d < 10 {
        (48 + d) as char
    } else {
        (55 + d) as char
    }
}

/// The percent-encoding of a byte string: every byte but the unreserved ones becomes
/// `%` and two upper-case hex digits.
pub open spec fn url_encoded(bytes: Seq<u8>) -> Seq<char>
    decreases bytes.len(),
{
    if bytes.len() == 0 {
        Seq::empty()
    } else {
        let rest = url_encoded(bytes.drop_last());
        let b = bytes.last();
        if is_unreserved(b) {
            rest.push(b as char)
        } else {
            rest + seq!['%', hex_digit((b / 16) as int), hex_digit((b % 16) as int)]
        }
    }
}

/// `urlencoding::encode`: percent-encodes every byte of the UTF-8 form of `s` except
/// ASCII letters, digits and `-`, `_`, `.`, `~`, with upper-case hex digits.
#[verifier::external_body]
fn url_encode(s: &str) -> (r: String)
    ensures
        r@ == url_encoded(vstd::utf8::encode_utf8(s@)),
{
    urlencoding::encode(s).into_owned()
}

/// The request path of the profit history between `from` and `to`, each percent-encoded.
pub fn profit_history_path(from: &str, to: &str) -> (path: String)
    ensures
        path@ == "/api/portfolio/profit-history?from="@ + url_encoded(vstd::utf8::encode_utf8(from@))
            + "&to="@ + url_encoded(vstd::utf8::encode_utf8(to@)),
{
    let mut path = "/api/portfolio/profit-history?from=".to_owned();
    let f = url_encode(from);
    path.append(f.as_str());
    path.append("&to=");
    let t = url_encode(to);
    path.append(t.as_str());
    path
}

/// The time window of the profit chart.
#[derive(Debug, PartialEq, Eq)]
pub enum ChartWindow {
    /// The dates the user typed, as they are.
    Between(String, String),
    /// No bounds.
    Everything,
    /// The last so many days up to today.
    LastDays(i64),
}

/// The window a range button selects: `custom` takes the typed dates, `all` has no
/// bounds, and any other choice is a number of days, 30 when it is not a number.
pub open spec fn window_matches(w: ChartWindow, range: Seq<char>, from: Seq<char>, to: Seq<char>) -> bool {
    if range == "custom"@ {
        w matches ChartWindow::Between(f, t) && f@ == from && t@ == to
    } else if range == "all"@ {
        w is Everything
    } else {
        w == ChartWindow::LastDays(
            match i64_value(range) {
                Some(d) => d,
                None => 30,
            },
        )
    }
}

/// The range `custom` uses the typed dates as they are, `all` has no bounds, a number
/// of days is taken as it is written, and any other range falls back to 30 days.
pub proof fn law_chart_window(w: ChartWindow, range: Seq<char>, from: Seq<char>, to: Seq<char>)
    requires
        window_matches(w, range, from, to),
    ensures
        range == "custom"@ ==> (w matches ChartWindow::Between(f, t) && f@ == from && t@ == to),
        range == "all"@ ==> w == ChartWindow::Everything,
        range != "custom"@ && range != "all"@ ==> (i64_value(range) matches Some(d) ==> w
            == ChartWindow::LastDays(d)),
        range != "custom"@ && range != "all"@ && i64_value(range) is None ==> w
            == ChartWindow::LastDays(30),
{
    reveal_strlit("custom");
    reveal_strlit("all");
    assert("custom"@ != "all"@) by {
        assert("custom"@.len() != "all"@.len());
    }
}

/// The chart window for the chosen range and the typed dates.
pub fn chart_window(range: &str, custom_from: &str, custom_to: &str) -> (w: ChartWindow)
    ensures
        window_matches(w, range@, custom_from@, custom_to@),
{
    if text_eq(range, "custom") {
        ChartWindow::Between(custom_from.to_owned(), custom_to.to_owned())
    } else if text_eq(range, "all") {
        ChartWindow::Everything
    } else {
        match parse_i64(range) {
            Some(d) => ChartWindow::LastDays(d),
            None => ChartWindow::LastDays(30),
        }
    }
}

/// The error a reply reports: a failed status reports its error message, or a general
/// one; a successful status reports its error message if it has one, and nothing
/// otherwise.
pub fn reply_error(status_ok: bool, message: Option<String>) -> (error: Option<String>)
    ensures
        !status_ok ==> (error matches Some(e) && e@ == (match message {
            Some(m) => m@,
            None => "服务端请求失败"@,
        })),
        status_ok ==> error == message,
{
    if !status_ok {
        match message {
            Some(m) => Some(m),
            None => Some("服务端请求失败".to_owned()),
        }
    } else {
        message
    }
}


/// The decimal digits of `n`, without leading zeros.
pub open spec fn decimal_digits(n: nat) -> Seq<char>
    decreases n,
{
    if n < 10 {
        seq![((48 + n) as u8) as char]
    } else {
        decimal_digits(n / 10).push(((48 + n % 10) as u8) as char)
    }
}

/// The decimal text of a number is a run of digits, without a leading zero unless it
/// is 0 itself, whose value is the number.
pub proof fn law_decimal_digits(n: nat)
    ensures
        all_digits(decimal_digits(n)),
        digits_value(decimal_digits(n)) == n,
        decimal_digits(n).len() > 0,
        decimal_digits(n)[0] == '0' ==> n == 0,
    decreases n,
{
    let d = decimal_digits(n);
    if n < 10 {
        assert(d.drop_last() =~= Seq::<char>::empty());
        assert((d.last() as u32) == 48 + n);
        assert(digits_value(Seq::<char>::empty()) == 0);
        assert(digits_value(d) == digits_value(d.drop_last()) * 10 + ((d.last() as u32) - 48) as nat);
    } else {
        law_decimal_digits(n / 10);
        let p = decimal_digits(n / 10);
        assert(d.drop_last() =~= p);
        assert((d.last() as u32) == 48 + n % 10);
        assert(n == (n / 10) * 10 + n % 10);
        assert(digits_value(d) == digits_value(d.drop_last()) * 10 + ((d.last() as u32) - 48) as nat);
        assert(d[0] == p[0]);
        assert forall|i: int| 0 <= i < d.len() implies crate::number::is_digit(#[trigger] d[i]) by {
            if i < p.len() {
                assert(d[i] == p[i]);
            }
        }
    }
}

/// The decimal text of `n`, as `{}` formats an integer.
pub fn decimal_text(n: usize) -> (s: String)
    ensures
        s@ == decimal_digits(n as nat),
    decreases n,
{
    if n < 10 {
        let mut s = String::new();
        push_char(&mut s, (48u8 + n as u8) as char);
        s
    } else {
        let mut s = decimal_text(n / 10);
        push_char(&mut s, (48u8 + (n % 10) as u8) as char);
        s
    }
}

/// The status line after the client's start-up load: the first failure, in the order
/// holdings, assets, trades, chart; when all four loads succeed, the count of holdings.
pub open spec fn startup_status_of(
    holdings: Result<usize, String>,
    assets: Result<(), String>,
    transactions: Result<(), String>,
    chart: Result<(), String>,
) -> Seq<char> {
    match holdings {
        Err(e) => e@,
        Ok(n) => match assets {
            Err(e) => e@,
            Ok(_) => match transactions {
                Err(e) => e@,
                Ok(_) => match chart {
                    Err(e) => e@,
                    Ok(_) => "自动加载完成："@ + decimal_digits(n as nat) + " 项持仓"@,
                },
            },
        },
    }
}

/// The start-up status is the error of the first load that failed, in the order
/// holdings, assets, trades, chart, and the holdings count only when all four loaded.
pub proof fn law_startup_status_first_error(
    holdings: Result<usize, String>,
    assets: Result<(), String>,
    transactions: Result<(), String>,
    chart: Result<(), String>,
)
    ensures
        holdings matches Err(e) ==> startup_status_of(holdings, assets, transactions, chart) == e@,
        holdings is Ok ==> (assets matches Err(e) ==> startup_status_of(
            holdings,
            assets,
            transactions,
            chart,
        ) == e@),
        holdings is Ok && assets is Ok ==> (transactions matches Err(e) ==> startup_status_of(
            holdings,
            assets,
            transactions,
            chart,
        ) == e@),
        holdings is Ok && assets is Ok && transactions is Ok ==> (chart matches Err(e)
            ==> startup_status_of(holdings, assets, transactions, chart) == e@),
        holdings matches Ok(n) ==> (assets is Ok && transactions is Ok && chart is Ok
            ==> startup_status_of(holdings, assets, transactions, chart) == "自动加载完成："@
            + decimal_digits(n as nat) + " 项持仓"@),
{
}

/// The status line the client shows after loading holdings, assets, trades and the
/// profit chart at start-up or after the server address changes.
pub fn startup_status(
    holdings: Result<usize, String>,
    assets: Result<(), String>,
    transactions: Result<(), String>,
    chart: Result<(), String>,
) -> (status: String)
    ensures
        status@ == startup_status_of(holdings, assets, transactions, chart),
{
    match holdings {
        Err(e) => e,
        Ok(n) => match assets {
            Err(e) => e,
            Ok(_) => match transactions {
                Err(e) => e,
                Ok(_) => match chart {
                    Err(e) => e,
                    Ok(_) => {
                        let mut status = "自动加载完成：".to_owned();
                        let count = decimal_text(n);
                        status.append(count.as_str());
                        status.append(" 项持仓");
                        status
                    },
                },
            },
        },
    }
}

} // verus!
