//! Asset identity: the id that names an asset, its settlement currency, and the rules
//! for creating, renaming and deleting an asset.

use vstd::prelude::*;
use crate::text::{
    ascii_upper, is_ascii_text, lemma_trim_is_slice, push_char, text_eq, to_uppercase, trim,
    trim_text, uppercase,
};

verus! {

/// The id prefix of a category: `crypto` for 加密货币, `fund` for 基金, `stock` otherwise.
pub open spec fn kind_of(category: Seq<char>) -> Seq<char> {
    if category == "加密货币"@ {
        "crypto"@
    } else if category == "基金"@ {
        "fund"@
    } else {
        "stock"@
    }
}

/// The settlement currency: HKD in Hong Kong, CNY on the mainland exchanges and for
/// funds, USD otherwise.
pub open spec fn currency_of(category: Seq<char>, market: Seq<char>) -> Seq<char> {
    if market == "HK"@ {
        "HKD"@
    } else if market == "SH"@ || market == "SZ"@ || category == "基金"@ {
        "CNY"@
    } else {
        "USD"@
    }
}

/// The globally unique id `kind:market:symbol`.
pub open spec fn asset_id_of(category: Seq<char>, market: Seq<char>, symbol: Seq<char>) -> Seq<
    char,
> {
    kind_of(category) + seq![':'] + market + seq![':'] + symbol
}

/// The id prefix of a category.
pub fn asset_kind(category: &str) -> (kind: &'static str)
    ensures
        kind@ == kind_of(category@),
{
    if text_eq(category, "加密货币") {
        "crypto"
    } else if text_eq(category, "基金") {
        "fund"
    } else {
        "stock"
    }
}

/// The settlement currency of an asset of `category` traded on `market`.
pub fn currency_for(category: &str, market: &str) -> (currency: &'static str)
    ensures
        currency@ == currency_of(category@, market@),
{
    if text_eq(market, "HK") {
        "HKD"
    } else if text_eq(market, "SH") || text_eq(market, "SZ") || text_eq(category, "基金") {
        "CNY"
    } else {
        "USD"
    }
}

/// The id of the asset of `category` on `market` with code `symbol`.
pub fn asset_id_for(category: &str, market: &str, symbol: &str) -> (id: String)
    ensures
        id@ == asset_id_of(category@, market@, symbol@),
{
    let mut id = String::new();
    id.append(asset_kind(category));
    push_char(&mut id, ':');
    id.append(market);
    push_char(&mut id, ':');
    id.append(symbol);
    id
}

/// Why a change to the portfolio was refused.
#[derive(Debug, PartialEq, Eq, Structural)]
pub enum PortfolioError {
    /// The symbol is empty once trimmed and upper-cased.
    EmptySymbol,
    /// The asset has transactions, so its id may not change.
    IdChangeWithTransactions,
    /// The asset has transactions, so it may not be deleted.
    DeleteWithTransactions,
    /// A trade lacks its amount.
    MissingAmount,
    /// A trade lacks its price.
    MissingPrice,
    /// The amount is not positive or the price is negative.
    InvalidAmountOrPrice,
    /// A sale of more units than are held.
    SellExceedsHolding,
}

/// The fields of a request that creates or edits an asset, each absent where the
/// request has no text for it.
pub struct AssetInput {
    pub category: Option<String>,
    pub market: Option<String>,
    pub symbol: Option<String>,
    pub name: Option<String>,
}

/// An asset as it is stored.
pub struct AssetRecord {
    pub asset_id: String,
    pub category: String,
    pub market: String,
    pub symbol: String,
    pub name: String,
    pub currency: String,
}

/// The category of an input: 加密货币 when absent.
pub open spec fn input_category(input: AssetInput) -> Seq<char> {
    match input.category {
        Some(c) => c@,
        None => "加密货币"@,
    }
}

/// The market of an input: CRYPTO when absent.
pub open spec fn input_market(input: AssetInput) -> Seq<char> {
    match input.market {
        Some(m) => m@,
        None => "CRYPTO"@,
    }
}

/// The symbol text of an input, trimmed; empty when absent.
pub open spec fn trimmed_symbol(input: AssetInput) -> Seq<char> {
    match input.symbol {
        Some(s) => trim(s@),
        None => Seq::empty(),
    }
}

/// The symbol of an input: trimmed and upper-cased.
pub open spec fn input_symbol(input: AssetInput) -> Seq<char> {
    uppercase(trimmed_symbol(input))
}

/// The name of an asset with normalised `symbol`: the given name unless it is absent
/// or blank, else the symbol.
pub open spec fn name_for(input: AssetInput, symbol: Seq<char>) -> Seq<char> {
    match input.name {
        Some(n) => if trim(n@).len() > 0 {
            n@
        } else {
            symbol
        },
        None => symbol,
    }
}

/// The record that an input with normalised `symbol` describes, field by field.
pub open spec fn describes_with(record: AssetRecord, input: AssetInput, symbol: Seq<char>) -> bool {
    let category = input_category(input);
    let market = input_market(input);
    &&& record.category@ == category
    &&& record.market@ == market
    &&& record.symbol@ == symbol
    &&& record.name@ == name_for(input, symbol)
    &&& record.currency@ == currency_of(category, market)
    &&& record.asset_id@ == asset_id_of(category, market, symbol)
}

/// The record that an input describes.
pub open spec fn describes(record: AssetRecord, input: AssetInput) -> bool {
    describes_with(record, input, input_symbol(input))
}

fn text_or(value: &Option<String>, default: &str) -> (r: String)
    ensures
        r@ == (match value {
            Some(s) => s@,
            None => default@,
        }),
{
    match value {
        Some(s) => s.clone(),
        None => default.to_owned(),
    }
}

/// Completes an asset whose symbol has been normalised to `symbol`: the defaults for
/// category and market, the name, the currency and the id; an empty symbol is refused.
pub fn asset_record(input: &AssetInput, symbol: String) -> (result: Result<AssetRecord, PortfolioError>)
    ensures
        symbol@.len() == 0 ==> result == Err::<AssetRecord, PortfolioError>(
            PortfolioError::EmptySymbol,
        ),
        symbol@.len() > 0 ==> (result matches Ok(record) && describes_with(record, *input, symbol@)),
        result matches Ok(record) ==> record.name@.len() > 0,
{
    if symbol.as_str().is_empty() {
        return Err(PortfolioError::EmptySymbol);
    }
    let category = text_or(&input.category, "加密货币");
    let market = text_or(&input.market, "CRYPTO");
    let name = match &input.name {
        Some(n) => {
            let t = trim_text(n.as_str());
            proof {
                lemma_trim_is_slice(n@);
            }
            if t.as_str().is_empty() {
                symbol.clone()
            } else {
                n.clone()
            }
        },
        None => symbol.clone(),
    };
    let currency = currency_for(category.as_str(), market.as_str()).to_owned();
    let asset_id = asset_id_for(category.as_str(), market.as_str(), symbol.as_str());
    Ok(AssetRecord { asset_id, category, market, symbol, name, currency })
}

/// Validates and completes an asset before it is stored: the symbol is trimmed and
/// upper-cased and may not be empty; the rest is `asset_record`.
pub fn plan_asset(input: &AssetInput) -> (result: Result<AssetRecord, PortfolioError>)
    ensures
        trimmed_symbol(*input).len() == 0 <==> result == Err::<AssetRecord, PortfolioError>(
            PortfolioError::EmptySymbol,
        ),
        trimmed_symbol(*input).len() > 0 <==> result is Ok,
        result matches Ok(record) ==> describes(record, *input),
        result matches Ok(record) ==> record.symbol@.len() > 0 && record.name@.len() > 0,
        is_ascii_text(trimmed_symbol(*input)) ==> input_symbol(*input) == ascii_upper(
            trimmed_symbol(*input),
        ),
{
    let trimmed = match &input.symbol {
        Some(s) => trim_text(s.as_str()),
        None => String::new(),
    };
    let symbol = to_uppercase(trimmed.as_str());
    asset_record(input, symbol)
}

/// Whether an existing asset may be stored under `new_id`: only an asset without
/// transactions may change its id.
pub fn check_asset_update(previous_id: &str, new_id: &str, transaction_count: i64) -> (result:
    Result<(), PortfolioError>)
    ensures
        result is Ok <==> (transaction_count == 0 || previous_id@ == new_id@),
        result is Err ==> result == Err::<(), PortfolioError>(
            PortfolioError::IdChangeWithTransactions,
        ),
{
    if transaction_count == 0 || text_eq(previous_id, new_id) {
        Ok(())
    } else {
        Err(PortfolioError::IdChangeWithTransactions)
    }
}

/// Whether an asset may be deleted: only one without transactions.
pub fn check_asset_delete(transaction_count: i64) -> (result: Result<(), PortfolioError>)
    ensures
        result is Ok <==> transaction_count == 0,
        result is Err ==> result == Err::<(), PortfolioError>(
            PortfolioError::DeleteWithTransactions,
        ),
{
    if transaction_count == 0 {
        Ok(())
    } else {
        Err(PortfolioError::DeleteWithTransactions)
    }
}


/// `a` and `b` joined by a colon, where `a` holds none: the join can be split again.
proof fn lemma_split_at_colon(a1: Seq<char>, b1: Seq<char>, a2: Seq<char>, b2: Seq<char>)
    requires
        !a1.contains(':'),
        !a2.contains(':'),
        a1 + seq![':'] + b1 == a2 + seq![':'] + b2,
    ensures
        a1 == a2,
        b1 == b2,
{
    let s = a1 + seq![':'] + b1;
    let t = a2 + seq![':'] + b2;
    if a1.len() < a2.len() {
        assert(t[a1.len() as int] == a2[a1.len() as int]);
        assert(s[a1.len() as int] == ':');
        assert(a2.contains(a2[a1.len() as int]));
    } else if a2.len() < a1.len() {
        assert(s[a2.len() as int] == a1[a2.len() as int]);
        assert(t[a2.len() as int] == ':');
        assert(a1.contains(a1[a2.len() as int]));
    } else {
        assert forall|i: int| 0 <= i < a1.len() implies a1[i] == a2[i] by {
            assert(s[i] == a1[i]);
            assert(t[i] == a2[i]);
        }
        assert(a1 =~= a2);
        assert(s.len() == t.len());
        assert(b1.len() == b2.len());
        assert forall|i: int| 0 <= i < b1.len() implies b1[i] == b2[i] by {
            assert(s[a1.len() + 1 + i] == b1[i]);
            assert(t[a2.len() + 1 + i] == b2[i]);
        }
        assert(b1 =~= b2);
    }
}

/// Ids are unique: where markets hold no colon, two assets with the same id have the
/// same kind, market and symbol.
pub proof fn law_asset_id_unique(
    c1: Seq<char>,
    m1: Seq<char>,
    s1: Seq<char>,
    c2: Seq<char>,
    m2: Seq<char>,
    s2: Seq<char>,
)
    requires
        !m1.contains(':'),
        !m2.contains(':'),
        asset_id_of(c1, m1, s1) == asset_id_of(c2, m2, s2),
    ensures
        kind_of(c1) == kind_of(c2),
        m1 == m2,
        s1 == s2,
{
    reveal_strlit("crypto");
    reveal_strlit("fund");
    reveal_strlit("stock");
    let k1 = kind_of(c1);
    let k2 = kind_of(c2);
    assert(!k1.contains(':')) by {
        if k1.contains(':') {
            let i = choose|i: int| 0 <= i < k1.len() && k1[i] == ':';
        }
    }
    assert(!k2.contains(':')) by {
        if k2.contains(':') {
            let i = choose|i: int| 0 <= i < k2.len() && k2[i] == ':';
        }
    }
    let r1 = m1 + seq![':'] + s1;
    let r2 = m2 + seq![':'] + s2;
    assert(asset_id_of(c1, m1, s1) =~= k1 + seq![':'] + r1);
    assert(asset_id_of(c2, m2, s2) =~= k2 + seq![':'] + r2);
    lemma_split_at_colon(k1, r1, k2, r2);
    lemma_split_at_colon(m1, s1, m2, s2);
}

/// Each category has its own id prefix: 加密货币 gives `crypto`, 基金 gives `fund`, and
/// every other category gives `stock`.
pub proof fn law_kind_of_category(category: Seq<char>)
    ensures
        kind_of(category) == "crypto"@ <==> category == "加密货币"@,
        kind_of(category) == "fund"@ <==> category == "基金"@,
        kind_of(category) == "stock"@ <==> (category != "加密货币"@ && category != "基金"@),
{
    reveal_strlit("crypto");
    reveal_strlit("fund");
    reveal_strlit("stock");
    reveal_strlit("加密货币");
    reveal_strlit("基金");
    assert("crypto"@ != "fund"@ && "crypto"@ != "stock"@ && "fund"@ != "stock"@) by {
        assert("crypto"@.len() != "fund"@.len());
        assert("crypto"@.len() != "stock"@.len());
        assert("fund"@.len() != "stock"@.len());
    }
    assert("加密货币"@ != "基金"@) by {
        assert("加密货币"@.len() != "基金"@.len());
    }
}

/// The settlement currency: Hong Kong trades in HKD; the Shanghai and Shenzhen markets
/// and funds elsewhere in CNY; every other market and category (US stocks, crypto) in
/// USD. CNY is given for no other market or category.
pub proof fn law_currency_of_market(category: Seq<char>, market: Seq<char>)
    ensures
        market == "HK"@ ==> currency_of(category, market) == "HKD"@,
        market != "HK"@ && (market == "SH"@ || market == "SZ"@ || category == "基金"@)
            ==> currency_of(category, market) == "CNY"@,
        market != "HK"@ && market != "SH"@ && market != "SZ"@ && category != "基金"@
            ==> currency_of(category, market) == "USD"@,
        currency_of(category, market) == "CNY"@ ==> (market == "SH"@ || market == "SZ"@
            || category == "基金"@),
        currency_of(category, market) == "USD"@ ==> (market != "HK"@ && market != "SH"@
            && market != "SZ"@ && category != "基金"@),
{
    reveal_strlit("HKD");
    reveal_strlit("CNY");
    reveal_strlit("USD");
    assert("HKD"@ != "CNY"@ && "HKD"@ != "USD"@ && "CNY"@ != "USD"@) by {
        assert("HKD"@[0] != "CNY"@[0]);
        assert("HKD"@[0] != "USD"@[0]);
        assert("CNY"@[0] != "USD"@[0]);
    }
}

/// The defaults of an asset: category 加密货币 and market CRYPTO when absent, the given
/// ones otherwise; the given name unless it is absent or blank, the symbol otherwise.
pub proof fn law_asset_defaults(input: AssetInput, symbol: Seq<char>)
    ensures
        input.category is None ==> input_category(input) == "加密货币"@,
        input.category matches Some(c) ==> input_category(input) == c@,
        input.market is None ==> input_market(input) == "CRYPTO"@,
        input.market matches Some(m) ==> input_market(input) == m@,
        input.name matches Some(n) ==> (trim(n@).len() > 0 ==> name_for(input, symbol) == n@),
        input.name is None ==> name_for(input, symbol) == symbol,
        input.name matches Some(n) ==> (trim(n@).len() == 0 ==> name_for(input, symbol)
            == symbol),
        input.symbol matches Some(s) ==> trimmed_symbol(input) == trim(s@),
        input.symbol is None ==> trimmed_symbol(input).len() == 0,
{
}

/// Whether the holdings filtered by `filter` show an asset of `category`: the filter
/// 全部 shows every category, any other filter only its own.
pub fn category_selected(filter: &str, category: &str) -> (r: bool)
    ensures
        r == (filter@ == "全部"@ || filter@ == category@),
{
    text_eq(filter, "全部") || text_eq(filter, category)
}

} // verus!
