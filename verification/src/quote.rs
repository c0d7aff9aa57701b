//! Quotes from the market-data adapter: how a quote names its asset, and whether a
//! refresh brought a quote for every asset that was asked for.

use vstd::prelude::*;
use crate::asset::{asset_id_of, asset_id_for};
use crate::history::contains_text;
use crate::query::texts;
use crate::text::{ascii_upper, is_ascii_text, to_uppercase, uppercase};

verus! {

/// A quote field that must hold a non-empty text.
#[derive(Debug, PartialEq, Eq, Structural)]
pub enum QuoteField {
    Category,
    Market,
    Symbol,
}

/// The text fields of a quote as the adapter sent them, each absent where the quote
/// has no text for it.
pub struct QuoteInput {
    pub asset_id: Option<String>,
    pub category: Option<String>,
    pub market: Option<String>,
    pub symbol: Option<String>,
    pub name: Option<String>,
    pub currency: Option<String>,
    pub source: Option<String>,
    pub fetched_at: Option<String>,
}

/// The text fields of a quote as it is stored.
pub struct QuoteRecord {
    pub asset_id: String,
    pub category: String,
    pub market: String,
    pub symbol: String,
    pub name: String,
    pub currency: String,
    pub source: String,
    pub fetched_at: String,
}

/// Whether a field holds a non-empty text.
pub open spec fn present(field: Option<String>) -> bool {
    field matches Some(s) && s@.len() > 0
}

/// The text of a field, or `default` when it is absent.
pub open spec fn field_or(field: Option<String>, default: Seq<char>) -> Seq<char> {
    match field {
        Some(s) => s@,
        None => default,
    }
}

/// The first required field that is absent or empty, in the order category, market,
/// symbol.
pub open spec fn first_missing(q: QuoteInput) -> Option<QuoteField> {
    if !present(q.category) {
        Some(QuoteField::Category)
    } else if !present(q.market) {
        Some(QuoteField::Market)
    } else if !present(q.symbol) {
        Some(QuoteField::Symbol)
    } else {
        None
    }
}

/// The stored form of a complete quote fetched no later than `now`: the symbol
/// upper-cased; the given id, or one made from category, market and symbol; the name
/// defaulting to the symbol, the currency to CNY, the source to `adapter`, and an absent
/// or empty fetch time to `now`.
pub open spec fn quote_describes(r: QuoteRecord, q: QuoteInput, now: Seq<char>) -> bool {
    quote_describes_with(r, q, uppercase(field_or(q.symbol, Seq::empty())), now)
}

/// The stored form of a complete quote whose symbol has been upper-cased to `symbol`.
pub open spec fn quote_describes_with(r: QuoteRecord, q: QuoteInput, symbol: Seq<char>, now: Seq<
    char,
>) -> bool {
    let category = field_or(q.category, Seq::empty());
    let market = field_or(q.market, Seq::empty());
    let fetched = field_or(q.fetched_at, Seq::empty());
    &&& r.category@ == category
    &&& r.market@ == market
    &&& r.symbol@ == symbol
    &&& r.asset_id@ == field_or(q.asset_id, asset_id_of(category, market, symbol))
    &&& r.name@ == field_or(q.name, symbol)
    &&& r.currency@ == field_or(q.currency, "CNY"@)
    &&& r.source@ == field_or(q.source, "adapter"@)
    &&& r.fetched_at@ == (if fetched.len() == 0 {
        now
    } else {
        fetched
    })
}

/// The stored form of a complete quote keeps each field the quote gives: its id, name,
/// currency, source and a non-empty fetch time; only an absent field takes its default:
/// the id made from category, market and symbol, the symbol as name, CNY, `adapter`,
/// and `now`.
pub proof fn law_quote_fields(r: QuoteRecord, q: QuoteInput, symbol: Seq<char>, now: Seq<char>)
    requires
        quote_describes_with(r, q, symbol, now),
    ensures
        q.category matches Some(c) ==> r.category@ == c@,
        q.market matches Some(m) ==> r.market@ == m@,
        r.symbol@ == symbol,
        q.asset_id matches Some(id) ==> r.asset_id@ == id@,
        q.asset_id is None ==> r.asset_id@ == asset_id_of(r.category@, r.market@, symbol),
        q.name matches Some(n) ==> r.name@ == n@,
        q.name is None ==> r.name@ == symbol,
        q.currency matches Some(c) ==> r.currency@ == c@,
        q.currency is None ==> r.currency@ == "CNY"@,
        q.source matches Some(src) ==> r.source@ == src@,
        q.source is None ==> r.source@ == "adapter"@,
        q.fetched_at matches Some(f) ==> (f@.len() > 0 ==> r.fetched_at@ == f@),
        q.fetched_at matches Some(f) ==> (f@.len() == 0 ==> r.fetched_at@ == now),
        q.fetched_at is None ==> r.fetched_at@ == now,
{
}

/// A quote is refused for its first absent or empty required field, in the order
/// category, market, symbol, and accepted exactly when all three hold text.
pub proof fn law_first_missing(q: QuoteInput)
    ensures
        !present(q.category) ==> first_missing(q) == Some(QuoteField::Category),
        present(q.category) && !present(q.market) ==> first_missing(q) == Some(QuoteField::Market),
        present(q.category) && present(q.market) && !present(q.symbol) ==> first_missing(q) == Some(
            QuoteField::Symbol,
        ),
        first_missing(q) is None <==> (present(q.category) && present(q.market) && present(
            q.symbol,
        )),
        present(q.category) <==> (q.category matches Some(c) && c@.len() > 0),
{
}

fn required(field: &Option<String>) -> (r: Option<String>)
    ensures
        r is Some <==> present(*field),
        r matches Some(s) ==> *field == Some(s),
{
    match field {
        Some(s) => if s.as_str().is_empty() {
            None
        } else {
            Some(s.clone())
        },
        None => None,
    }
}

fn text_or(field: &Option<String>, default: &str) -> (r: String)
    ensures
        r@ == field_or(*field, default@),
{
    match field {
        Some(s) => s.clone(),
        None => default.to_owned(),
    }
}

/// Checks a quote whose symbol has been upper-cased to `symbol` and puts its text
/// fields in the form in which it is stored; `now` stands in for a missing fetch time.
pub fn quote_record(q: &QuoteInput, symbol: String, now: &str) -> (result: Result<
    QuoteRecord,
    QuoteField,
>)
    ensures
        match first_missing(*q) {
            Some(f) => result == Err::<QuoteRecord, QuoteField>(f),
            None => result matches Ok(r) && quote_describes_with(r, *q, symbol@, now@),
        },
{
    let category = match required(&q.category) {
        Some(c) => c,
        None => return Err(QuoteField::Category),
    };
    let market = match required(&q.market) {
        Some(m) => m,
        None => return Err(QuoteField::Market),
    };
    if required(&q.symbol).is_none() {
        return Err(QuoteField::Symbol);
    }
    let asset_id = match &q.asset_id {
        Some(id) => id.clone(),
        None => asset_id_for(category.as_str(), market.as_str(), symbol.as_str()),
    };
    let name = match &q.name {
        Some(n) => n.clone(),
        None => symbol.clone(),
    };
    let currency = text_or(&q.currency, "CNY");
    let source = text_or(&q.source, "adapter");
    let fetched_at = match &q.fetched_at {
        Some(f) => if f.as_str().is_empty() {
            now.to_owned()
        } else {
            f.clone()
        },
        None => now.to_owned(),
    };
    Ok(QuoteRecord { asset_id, category, market, symbol, name, currency, source, fetched_at })
}

/// Checks a quote and puts its text fields in the form in which it is stored: the
/// symbol is upper-cased, the rest is `quote_record`.
pub fn plan_quote(q: &QuoteInput, now: &str) -> (result: Result<QuoteRecord, QuoteField>)
    ensures
        match first_missing(*q) {
            Some(f) => result == Err::<QuoteRecord, QuoteField>(f),
            None => result matches Ok(r) && quote_describes(r, *q, now@),
        },
        is_ascii_text(field_or(q.symbol, Seq::empty())) ==> uppercase(
            field_or(q.symbol, Seq::empty()),
        ) == ascii_upper(field_or(q.symbol, Seq::empty())),
{
    let raw = match &q.symbol {
        Some(s) => s.clone(),
        None => String::new(),
    };
    let symbol = to_uppercase(raw.as_str());
    quote_record(q, symbol, now)
}

/// The ids of `expected` that are not among `stored`, in order.
pub open spec fn missing_of(expected: Seq<Seq<char>>, stored: Seq<Seq<char>>) -> Seq<Seq<char>>
    decreases expected.len(),
{
    if expected.len() == 0 {
        Seq::empty()
    } else {
        let rest = missing_of(expected.drop_last(), stored);
        if stored.contains(expected.last()) {
            rest
        } else {
            rest.push(expected.last())
        }
    }
}

/// The asked-for assets for which no quote was stored, in the order they were asked for.
pub fn missing_ids(expected: &Vec<String>, stored: &Vec<String>) -> (missing: Vec<String>)
    ensures
        texts(missing@) == missing_of(texts(expected@), texts(stored@)),
{
    let mut missing: Vec<String> = Vec::new();
    let n = expected.len();
    assert(texts(expected@).take(0) =~= Seq::<Seq<char>>::empty());
    for i in 0..n
        invariant
            n == expected@.len(),
            texts(missing@) == missing_of(texts(expected@).take(i as int), texts(stored@)),
    {
        let ghost prefix = texts(expected@).take(i + 1);
        assert(prefix.drop_last() =~= texts(expected@).take(i as int));
        assert(prefix.last() == expected@[i as int]@);
        if !contains_text(stored, expected[i].as_str()) {
            let ghost before = missing@;
            missing.push(expected[i].clone());
            assert(texts(missing@) =~= texts(before).push(expected@[i as int]@));
        }
    }
    assert(texts(expected@).take(n as int) =~= texts(expected@));
    missing
}

/// An id is missing exactly when it was asked for and got no quote.
pub proof fn law_missing_ids(expected: Seq<Seq<char>>, stored: Seq<Seq<char>>, id: Seq<char>)
    ensures
        missing_of(expected, stored).contains(id) <==> (expected.contains(id) && !stored.contains(
            id,
        )),
    decreases expected.len(),
{
    if expected.len() > 0 {
        let init = expected.drop_last();
        law_missing_ids(init, stored, id);
        let rest = missing_of(init, stored);
        let m = missing_of(expected, stored);
        if init.contains(id) {
            let i = choose|i: int| 0 <= i < init.len() && init[i] == id;
            assert(expected[i] == id);
        }
        if expected.contains(id) && id != expected.last() {
            let i = choose|i: int| 0 <= i < expected.len() && expected[i] == id;
            assert(init[i] == id);
        }
        if rest.contains(id) {
            let i = choose|i: int| 0 <= i < rest.len() && rest[i] == id;
            assert(m[i] == id);
        }
        if m.contains(id) && !rest.contains(id) {
            let i = choose|i: int| 0 <= i < m.len() && m[i] == id;
            assert(i == rest.len());
        }
        if !stored.contains(expected.last()) {
            assert(m[rest.len() as int] == expected.last());
        }
    }
}

/// A refresh is complete exactly when every asked-for asset is among those that got a
/// quote: nothing is then missing, and something is missing otherwise.
pub proof fn law_refresh_complete(expected: Seq<Seq<char>>, stored: Seq<Seq<char>>)
    ensures
        missing_of(expected, stored).len() == 0 <==> forall|i: int|
            0 <= i < expected.len() ==> stored.contains(#[trigger] expected[i]),
    decreases expected.len(),
{
    if expected.len() > 0 {
        let init = expected.drop_last();
        law_refresh_complete(init, stored);
        if missing_of(expected, stored).len() == 0 {
            assert forall|i: int| 0 <= i < expected.len() implies stored.contains(
                #[trigger] expected[i],
            ) by {
                if i < init.len() {
                    assert(init[i] == expected[i]);
                }
            }
        } else if forall|i: int| 0 <= i < expected.len() ==> stored.contains(#[trigger] expected[i]) {
            assert(stored.contains(expected[expected.len() - 1]));
            assert forall|i: int| 0 <= i < init.len() implies stored.contains(#[trigger] init[i]) by {
                assert(init[i] == expected[i]);
            }
        }
    }
}

/// `items` joined with `sep` between neighbours.
pub open spec fn joined(items: Seq<Seq<char>>, sep: Seq<char>) -> Seq<char>
    decreases items.len(),
{
    if items.len() == 0 {
        Seq::empty()
    } else if items.len() == 1 {
        items[0]
    } else {
        joined(items.drop_last(), sep) + sep + items.last()
    }
}

/// The texts of `items` joined with `sep` (`[String]::join`).
pub fn join_texts(items: &Vec<String>, sep: &str) -> (r: String)
    ensures
        r@ == joined(texts(items@), sep@),
{
    let mut r = String::new();
    let n = items.len();
    assert(texts(items@).take(0) =~= Seq::<Seq<char>>::empty());
    for i in 0..n
        invariant
            n == items@.len(),
            r@ == joined(texts(items@).take(i as int), sep@),
    {
        let ghost prefix = texts(items@).take(i + 1);
        assert(prefix.drop_last() =~= texts(items@).take(i as int));
        if i > 0 {
            r.append(sep);
        }
        r.append(items[i].as_str());
        proof {
            if i == 0 {
                assert(r@ =~= prefix[0]);
            }
        }
    }
    assert(texts(items@).take(n as int) =~= texts(items@));
    r
}

/// The outcome of a refresh as far as the stored quotes decide it: success when every
/// asked-for asset got a quote, else the message that lists the ones without.
pub fn check_refresh(expected: &Vec<String>, stored: &Vec<String>) -> (result: Result<(), String>)
    ensures
        ({
            let missing = missing_of(texts(expected@), texts(stored@));
            &&& result is Ok <==> missing.len() == 0
            &&& result matches Err(m) ==> m@ == "未找到最新行情："@ + joined(missing, ", "@)
        }),
{
    let missing = missing_ids(expected, stored);
    if missing.len() == 0 {
        Ok(())
    } else {
        let mut message = "未找到最新行情：".to_owned();
        let list = join_texts(&missing, ", ");
        message.append(list.as_str());
        Err(message)
    }
}


/// The errors the adapter reported with a refresh: success when its `errors` field is
/// not a list or is an empty list (`error_count` is the list's length, if it is one),
/// else a message quoting the field (`errors_text`).
pub fn check_quote_errors(error_count: Option<usize>, errors_text: &str) -> (result: Result<(), String>)
    ensures
        result is Ok <==> (error_count is None || error_count == Some(0usize)),
        result matches Err(m) ==> m@ == "行情查询失败："@ + errors_text@,
{
    match error_count {
        Some(n) => if n == 0 {
            Ok(())
        } else {
            let mut message = "行情查询失败：".to_owned();
            message.append(errors_text);
            Err(message)
        },
        None => Ok(()),
    }
}

/// The `quotes` field of an adapter reply: a list, an object of quotes by key (its
/// entries in order), or anything else.
pub enum QuoteList<T> {
    List(Vec<T>),
    ByKey(Vec<(String, T)>),
    Other,
}

/// The quotes of a reply: the list as it is, the values of the object in order, or none.
pub fn quote_items<T>(quotes: QuoteList<T>) -> (items: Vec<T>)
    ensures
        match quotes {
            QuoteList::List(v) => items@ == v@,
            QuoteList::ByKey(entries) => items@ == entries@.map_values(|e: (String, T)| e.1),
            QuoteList::Other => items@.len() == 0,
        },
{
    match quotes {
        QuoteList::List(v) => v,
        QuoteList::ByKey(entries) => {
            let ghost all = entries@;
            let mut items: Vec<T> = Vec::new();
            for e in it: entries.into_iter()
                invariant
                    it.seq() == all,
                    items@ == all.take(it.index() as int).map_values(|e: (String, T)| e.1),
            {
                let (_, value) = e;
                let ghost before = items@;
                items.push(value);
                assert(all.take(it.index() + 1).map_values(|e: (String, T)| e.1) =~= before.push(
                    e.1,
                ));
            }
            assert(all.take(all.len() as int) =~= all);
            items
        },
        QuoteList::Other => Vec::new(),
    }
}

} // verus!
