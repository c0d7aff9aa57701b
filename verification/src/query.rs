//! Request parameters and the comma-separated list format of the query string.

use vstd::prelude::*;
use crate::text::{
    trim_end, trim_start, chars_of, lemma_trim_is_slice, law_trim_idempotent, string_of, text_eq, trim, trim_chars,
};
use crate::quote::joined;
use std::path::PathBuf;

verus! {

/// The pieces of `s` between commas, in order; a text without commas is one piece.
pub open spec fn split_fields(s: Seq<char>) -> Seq<Seq<char>>
    decreases s.len(),
{
    if s.len() == 0 {
        seq![Seq::<char>::empty()]
    } else {
        let p = split_fields(s.drop_last());
        if s.last() == ',' {
            p.push(Seq::<char>::empty())
        } else {
            p.update(p.len() - 1, p.last().push(s.last()))
        }
    }
}

/// The trimmed pieces, with those that are empty after trimming left out.
pub open spec fn nonblank_items(parts: Seq<Seq<char>>) -> Seq<Seq<char>>
    decreases parts.len(),
{
    if parts.len() == 0 {
        Seq::empty()
    } else {
        let rest = nonblank_items(parts.drop_last());
        let t = trim(parts.last());
        if t.len() == 0 {
            rest
        } else {
            rest.push(t)
        }
    }
}

/// The items of a comma-separated list.
pub open spec fn csv_items(s: Seq<char>) -> Seq<Seq<char>> {
    nonblank_items(split_fields(s))
}

/// The text of an optional parameter; an absent one reads as empty.
pub open spec fn text_or_empty(value: Option<String>) -> Seq<char> {
    match value {
        Some(s) => s@,
        None => Seq::empty(),
    }
}

/// The texts held by a sequence of strings.
pub open spec fn texts(v: Seq<String>) -> Seq<Seq<char>> {
    v.map_values(|s: String| s@)
}

proof fn lemma_split_fields_len(s: Seq<char>)
    ensures
        split_fields(s).len() >= 1,
    decreases s.len(),
{
    if s.len() > 0 {
        lemma_split_fields_len(s.drop_last());
    }
}

proof fn lemma_split_fields_no_comma(s: Seq<char>)
    ensures
        forall|k: int|
            0 <= k < split_fields(s).len() ==> !(#[trigger] split_fields(s)[k]).contains(','),
    decreases s.len(),
{
    if s.len() > 0 {
        let p = split_fields(s.drop_last());
        lemma_split_fields_no_comma(s.drop_last());
        lemma_split_fields_len(s.drop_last());
        if s.last() != ',' {
            let q = p.last().push(s.last());
            assert(!q.contains(',')) by {
                if q.contains(',') {
                    let i = choose|i: int| 0 <= i < q.len() && q[i] == ',';
                    assert(p[p.len() - 1][i] == ',');
                }
            }
        }
    }
}

proof fn lemma_nonblank_items_clean(parts: Seq<Seq<char>>)
    requires
        forall|k: int| 0 <= k < parts.len() ==> !(#[trigger] parts[k]).contains(','),
    ensures
        forall|k: int|
            0 <= k < nonblank_items(parts).len() ==> {
                let item = #[trigger] nonblank_items(parts)[k];
                &&& item.len() > 0
                &&& trim(item) == item
                &&& !item.contains(',')
            },
    decreases parts.len(),
{
    if parts.len() > 0 {
        let last = parts.last();
        assert(forall|k: int|
            0 <= k < parts.drop_last().len() ==> parts.drop_last()[k] == parts[k]);
        lemma_nonblank_items_clean(parts.drop_last());
        let t = trim(last);
        law_trim_idempotent(last);
        lemma_trim_is_slice(last);
        assert(!t.contains(',')) by {
            assert(!parts[parts.len() - 1].contains(','));
            if t.contains(',') {
                let (i, j) = choose|i: int, j: int|
                    0 <= i <= j <= last.len() && t == last.subrange(i, j);
                let m = choose|m: int| 0 <= m < t.len() && t[m] == ',';
                assert(last[i + m] == ',');
            }
        }
        let rest = nonblank_items(parts.drop_last());
        let all = nonblank_items(parts);
        assert forall|k: int| 0 <= k < all.len() implies {
            let item = #[trigger] all[k];
            &&& item.len() > 0
            &&& trim(item) == item
            &&& !item.contains(',')
        } by {
            if k < rest.len() {
                assert(all[k] == rest[k]);
            } else {
                assert(all[k] == t);
            }
        }
    }
}

/// Every item of a comma-separated list is non-empty, trimmed, and free of commas.
pub proof fn law_csv_items_clean(s: Seq<char>)
    ensures
        forall|k: int|
            0 <= k < csv_items(s).len() ==> {
                let item = #[trigger] csv_items(s)[k];
                &&& item.len() > 0
                &&& trim(item) == item
                &&& !item.contains(',')
            },
{
    lemma_split_fields_no_comma(s);
    lemma_nonblank_items_clean(split_fields(s));
}

proof fn lemma_split_append(p: Seq<char>, q: Seq<char>)
    requires
        !q.contains(','),
    ensures
        split_fields(p + q) == split_fields(p).update(
            split_fields(p).len() - 1,
            split_fields(p).last() + q,
        ),
    decreases q.len(),
{
    lemma_split_fields_len(p);
    let sp = split_fields(p);
    if q.len() == 0 {
        assert(p + q =~= p);
        assert(sp.update(sp.len() - 1, sp.last() + q) =~= sp);
    } else {
        let q0 = q.drop_last();
        let c = q.last();
        assert(!q0.contains(',')) by {
            if q0.contains(',') {
                let i = choose|i: int| 0 <= i < q0.len() && q0[i] == ',';
                assert(q[i] == ',');
            }
        }
        assert(c != ',') by {
            assert(q[q.len() - 1] == c);
        }
        lemma_split_append(p, q0);
        assert((p + q).drop_last() =~= p + q0);
        assert((p + q).last() == c);
        let mid = sp.update(sp.len() - 1, sp.last() + q0);
        assert((sp.last() + q0).push(c) =~= sp.last() + q);
        assert(mid.last() == sp.last() + q0);
        assert(mid.update(mid.len() - 1, mid.last().push(c)) =~= sp.update(
            sp.len() - 1,
            sp.last() + q,
        ));
    }
}

proof fn lemma_split_after_comma(p: Seq<char>, q: Seq<char>)
    requires
        !q.contains(','),
    ensures
        split_fields(p + seq![','] + q) == split_fields(p).push(q),
{
    let pc = p + seq![','];
    assert(pc.drop_last() =~= p);
    assert(pc.last() == ',');
    lemma_split_append(pc, q);
    let sp = split_fields(p).push(Seq::<char>::empty());
    assert(sp.update(sp.len() - 1, sp.last() + q) =~= split_fields(p).push(q));
}

proof fn lemma_split_joined(items: Seq<Seq<char>>)
    requires
        items.len() > 0,
        forall|k: int| 0 <= k < items.len() ==> !(#[trigger] items[k]).contains(','),
    ensures
        split_fields(joined(items, seq![','])) == items,
    decreases items.len(),
{
    if items.len() == 1 {
        lemma_split_append(Seq::<char>::empty(), items[0]);
        assert(Seq::<char>::empty() + items[0] =~= items[0]);
        assert(seq![Seq::<char>::empty()].update(0, Seq::<char>::empty() + items[0]) =~= items);
    } else {
        let init = items.drop_last();
        assert forall|k: int| 0 <= k < init.len() implies !(#[trigger] init[k]).contains(',') by {
            assert(init[k] == items[k]);
        }
        lemma_split_joined(init);
        assert(!items[items.len() - 1].contains(','));
        lemma_split_after_comma(joined(init, seq![',']), items.last());
        assert(init.push(items.last()) =~= items);
    }
}

proof fn lemma_nonblank_of_clean(items: Seq<Seq<char>>)
    requires
        forall|k: int|
            0 <= k < items.len() ==> (#[trigger] items[k]).len() > 0 && trim(items[k]) == items[k],
    ensures
        nonblank_items(items) == items,
    decreases items.len(),
{
    if items.len() > 0 {
        let init = items.drop_last();
        assert forall|k: int| 0 <= k < init.len() implies (#[trigger] init[k]).len() > 0 && trim(
            init[k],
        ) == init[k] by {
            assert(init[k] == items[k]);
        }
        lemma_nonblank_of_clean(init);
        assert(trim(items[items.len() - 1]) == items.last());
        assert(init.push(items.last()) =~= items);
    }
}

/// Joining the items of a comma-separated list with commas and splitting the result
/// again gives the same items.
pub proof fn law_csv_rejoin(s: Seq<char>)
    ensures
        csv_items(joined(csv_items(s), seq![','])) == csv_items(s),
{
    let items = csv_items(s);
    law_csv_items_clean(s);
    if items.len() == 0 {
        let e = Seq::<char>::empty();
        assert(joined(items, seq![',']) == e);
        assert(split_fields(e) =~= seq![e]);
        assert(seq![e].drop_last() =~= Seq::<Seq<char>>::empty());
        assert(seq![e].last() == e);
        assert(trim_start(e) == e);
        assert(trim_end(e) == e);
        assert(trim(e) == e);
        assert(nonblank_items(Seq::<Seq<char>>::empty()) == Seq::<Seq<char>>::empty());
        assert(nonblank_items(seq![e]) =~= Seq::<Seq<char>>::empty());
    } else {
        lemma_split_joined(items);
        lemma_nonblank_of_clean(items);
    }
}

/// Pushes the trimmed `piece` onto `out` unless it is blank.
fn push_item(out: &mut Vec<String>, piece: &Vec<char>, Ghost(done): Ghost<Seq<Seq<char>>>)
    requires
        texts(old(out)@) == nonblank_items(done),
    ensures
        texts(final(out)@) == nonblank_items(done.push(piece@)),
{
    let t = trim_chars(piece.as_slice());
    assert(done.push(piece@).drop_last() =~= done);
    if t.len() > 0 {
        let item = string_of(t.as_slice());
        let ghost before = out@;
        out.push(item);
        assert(texts(out@) =~= texts(before).push(t@));
    }
}

/// Splits the comma-separated query format used by the price and asset endpoints:
/// the pieces between commas, trimmed, without the blank ones.
pub fn csv(value: Option<String>) -> (items: Vec<String>)
    ensures
        texts(items@) == csv_items(text_or_empty(value)),
{
    let v: Vec<char> = match &value {
        Some(s) => chars_of(s.as_str()),
        None => Vec::new(),
    };
    let mut out: Vec<String> = Vec::new();
    let mut current: Vec<char> = Vec::new();
    let ghost mut done: Seq<Seq<char>> = Seq::empty();
    let n = v.len();
    assert(v@.take(0) =~= Seq::<char>::empty());
    assert(done.push(current@) =~= seq![Seq::<char>::empty()]);
    for i in 0..n
        invariant
            n == v@.len(),
            split_fields(v@.take(i as int)) == done.push(current@),
            texts(out@) == nonblank_items(done),
    {
        let c = v[i];
        let ghost prefix = v@.take(i + 1);
        assert(prefix.drop_last() =~= v@.take(i as int));
        assert(prefix.last() == c);
        proof {
            lemma_split_fields_len(v@.take(i as int));
        }
        if c == ',' {
            push_item(&mut out, &current, Ghost(done));
            proof {
                done = done.push(current@);
            }
            current = Vec::new();
        } else {
            let ghost before = current@;
            current.push(c);
            assert(done.push(before).update(done.len() as int, before.push(c)) =~= done.push(
                current@,
            ));
        }
    }
    assert(v@.take(n as int) =~= v@);
    push_item(&mut out, &current, Ghost(done));
    out
}


#[verifier::external_type_specification]
#[verifier::external_body]
pub struct ExPathBuf(PathBuf);

/// `PathBuf::clone`, which the derived `Clone` of `AppState` calls; a path is opaque
/// here, so nothing is said of the copy.
pub assume_specification[ <PathBuf as Clone>::clone ](p: &PathBuf) -> PathBuf;

/// What every request handler shares: where the database lives and how to reach the
/// market-data adapter.
#[derive(Clone)]
pub struct AppState {
    pub database_path: PathBuf,
    pub adapter_url: String,
    pub adapter_token: Option<String>,
}

/// The query-string parameters that the endpoints accept.
#[derive(Debug, Default)]
pub struct QueryParams {
    pub symbols: Option<String>,
    pub asset_ids: Option<String>,
    pub category: Option<String>,
    pub categories: Option<String>,
    pub limit: Option<String>,
    pub full: Option<String>,
    pub query: Option<String>,
    pub market: Option<String>,
    pub from: Option<String>,
    pub to: Option<String>,
}


/// The categories of a request: `categories` when given, else `category`.
pub open spec fn chosen_categories(q: QueryParams) -> Option<String> {
    if q.categories is Some {
        q.categories
    } else {
        q.category
    }
}

/// The `categories` parameter, when present, decides the categories whatever
/// `category` holds; `category` decides only when `categories` is absent.
pub proof fn law_categories_take_precedence(q: QueryParams)
    ensures
        q.categories matches Some(c) ==> chosen_categories(q) == Some(c),
        q.categories is None ==> chosen_categories(q) == q.category,
{
}

/// Any list of non-empty, trimmed, comma-free items is read back from its
/// comma-joined text as the same list, in the same order.
pub proof fn law_csv_of_joined(items: Seq<Seq<char>>)
    requires
        forall|k: int|
            0 <= k < items.len() ==> (#[trigger] items[k]).len() > 0 && trim(items[k]) == items[k]
                && !items[k].contains(','),
    ensures
        csv_items(joined(items, seq![','])) == items,
{
    if items.len() == 0 {
        let e = Seq::<char>::empty();
        assert(joined(items, seq![',']) == e);
        assert(split_fields(e) =~= seq![e]);
        assert(seq![e].drop_last() =~= Seq::<Seq<char>>::empty());
        assert(trim_start(e) == e);
        assert(trim_end(e) == e);
        assert(trim(e) == e);
        assert(nonblank_items(Seq::<Seq<char>>::empty()) == Seq::<Seq<char>>::empty());
        assert(nonblank_items(seq![e]) =~= Seq::<Seq<char>>::empty());
    } else {
        lemma_split_joined(items);
        lemma_nonblank_of_clean(items);
    }
}

impl QueryParams {
    /// The symbols that the legacy price endpoints are asked for.
    pub fn symbol_list(&self) -> (items: Vec<String>)
        ensures
            texts(items@) == csv_items(text_or_empty(self.symbols)),
    {
        csv(self.symbols.clone())
    }

    /// The asset ids that the asset price endpoints are asked for.
    pub fn asset_id_list(&self) -> (items: Vec<String>)
        ensures
            texts(items@) == csv_items(text_or_empty(self.asset_ids)),
    {
        csv(self.asset_ids.clone())
    }

    /// The categories that the latest-price endpoint is asked for; `categories` takes
    /// precedence over `category`.
    pub fn category_list(&self) -> (items: Vec<String>)
        ensures
            texts(items@) == csv_items(text_or_empty(chosen_categories(*self))),
    {
        let chosen = match &self.categories {
            Some(c) => Some(c.clone()),
            None => self.category.clone(),
        };
        csv(chosen)
    }

    /// Whether the full price fields are asked for: only `full=1` asks.
    pub fn wants_full(&self) -> (r: bool)
        ensures
            r == (self.full matches Some(f) && f@ == "1"@),
    {
        match &self.full {
            Some(f) => text_eq(f.as_str(), "1"),
            None => false,
        }
    }

    /// The category that the holdings are filtered by: 全部, which shows every
    /// category, when none is given.
    pub fn holdings_category(&self) -> (r: String)
        ensures
            r@ == (match self.category {
                Some(c) => c@,
                None => "全部"@,
            }),
    {
        match &self.category {
            Some(c) => c.clone(),
            None => "全部".to_owned(),
        }
    }
}

} // verus!
