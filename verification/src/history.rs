//! Selection and grouping of stored quotes for the price endpoints.

use vstd::prelude::*;
use crate::query::texts;
use crate::number::{parse_usize, usize_value};
use crate::text::text_eq;

verus! {

/// The keys of one stored quote: which asset, and when it was fetched.
pub struct QuoteKey {
    pub asset_id: String,
    pub category: String,
    pub fetched_at: String,
}

/// The quotes of one fetch time: the time and the positions of its quotes among the
/// rows that were grouped, in row order.
pub struct PricePoint {
    pub timestamp: String,
    pub rows: Vec<usize>,
}

/// The grouping state as a value: each point's time and rows, and whether the limit
/// has stopped the walk.
pub struct Grouping {
    pub times: Seq<Seq<char>>,
    pub members: Seq<Seq<usize>>,
    pub stopped: bool,
}

/// Whether a filter list lets `item` through: an empty list lets everything through.
pub open spec fn admits(filter: Seq<Seq<char>>, item: Seq<char>) -> bool {
    filter.len() == 0 || filter.contains(item)
}

/// The last position of `t` in `times`, or -1.
pub open spec fn index_in(times: Seq<Seq<char>>, t: Seq<char>) -> int
    decreases times.len(),
{
    if times.len() == 0 {
        -1
    } else if times.last() == t {
        times.len() - 1
    } else {
        index_in(times.drop_last(), t)
    }
}

/// The grouping after the first `n` rows: rows that the asset filter rejects are
/// skipped; a row joins the point of its time; a row with a new time opens a point,
/// unless the limit (when positive) of points is reached, which ends the walk.
pub open spec fn grouped(rows: Seq<QuoteKey>, ids: Seq<Seq<char>>, limit: nat, n: nat) -> Grouping
    decreases n,
{
    if n == 0 {
        Grouping { times: Seq::empty(), members: Seq::empty(), stopped: false }
    } else {
        let g = grouped(rows, ids, limit, (n - 1) as nat);
        let row = rows[n - 1];
        let k = index_in(g.times, row.fetched_at@);
        if g.stopped || !admits(ids, row.asset_id@) {
            g
        } else if k >= 0 {
            Grouping { members: g.members.update(k, g.members[k].push((n - 1) as usize)), ..g }
        } else if limit > 0 && g.times.len() >= limit {
            Grouping { stopped: true, ..g }
        } else {
            Grouping {
                times: g.times.push(row.fetched_at@),
                members: g.members.push(seq![(n - 1) as usize]),
                stopped: false,
            }
        }
    }
}

proof fn lemma_grouped_shape(rows: Seq<QuoteKey>, ids: Seq<Seq<char>>, limit: nat, n: nat)
    ensures
        grouped(rows, ids, limit, n).times.len() == grouped(rows, ids, limit, n).members.len(),
    decreases n,
{
    if n > 0 {
        let g = grouped(rows, ids, limit, (n - 1) as nat);
        lemma_grouped_shape(rows, ids, limit, (n - 1) as nat);
        lemma_index_in_bounds(g.times, rows[n - 1].fetched_at@);
    }
}

proof fn lemma_index_in_bounds(times: Seq<Seq<char>>, t: Seq<char>)
    ensures
        -1 <= index_in(times, t) < times.len(),
        index_in(times, t) >= 0 ==> times[index_in(times, t)] == t,
        index_in(times, t) == -1 ==> !times.contains(t),
    decreases times.len(),
{
    if times.len() > 0 {
        lemma_index_in_bounds(times.drop_last(), t);
        if times.last() != t && index_in(times, t) == -1 {
            assert forall|i: int| 0 <= i < times.len() implies times[i] != t by {
                if i < times.len() - 1 {
                    assert(times.drop_last()[i] == times[i]);
                }
            }
        }
    }
}

/// The shape every grouping has: one row list per time, the times distinct, at most
/// `limit` of them when `limit` is positive, and each point made of rows, in increasing
/// order, that have its time and pass the filter.
pub open spec fn well_grouped(g: Grouping, rows: Seq<QuoteKey>, ids: Seq<Seq<char>>, limit: nat, n: nat) -> bool {
    &&& g.times.len() == g.members.len()
    &&& limit > 0 ==> g.times.len() <= limit
    &&& forall|i: int, j: int| 0 <= i < j < g.times.len() ==> g.times[i] != g.times[j]
    &&& forall|k: int| 0 <= k < g.members.len() ==> (#[trigger] g.members[k]).len() > 0
    &&& forall|k: int, m: int|
        0 <= k < g.members.len() && 0 <= m < g.members[k].len() ==> {
            let r = #[trigger] g.members[k][m];
            &&& r < n
            &&& rows[r as int].fetched_at@ == g.times[k]
            &&& admits(ids, rows[r as int].asset_id@)
        }
    &&& forall|k: int, a: int, b: int|
        0 <= k < g.members.len() && 0 <= a < b < g.members[k].len() ==> #[trigger] g.members[k][a]
            < #[trigger] g.members[k][b]
}

/// Grouping quotes by time keeps the points apart and within the limit: every
/// grouping of the first `n` rows has the shape of `well_grouped`.
pub proof fn law_price_points_well_grouped(rows: Seq<QuoteKey>, ids: Seq<Seq<char>>, limit: nat, n: nat)
    requires
        n <= rows.len(),
        rows.len() <= usize::MAX,
    ensures
        well_grouped(grouped(rows, ids, limit, n), rows, ids, limit, n),
    decreases n,
{
    if n > 0 {
        let p = grouped(rows, ids, limit, (n - 1) as nat);
        law_price_points_well_grouped(rows, ids, limit, (n - 1) as nat);
        let row = rows[n - 1];
        lemma_index_in_bounds(p.times, row.fetched_at@);
        let k = index_in(p.times, row.fetched_at@);
        let g = grouped(rows, ids, limit, n);
        if p.stopped || !admits(ids, row.asset_id@) {
            assert(g == p);
        } else if k >= 0 {
            assert(g.times == p.times);
            assert forall|j: int, m: int|
                0 <= j < g.members.len() && 0 <= m < g.members[j].len() implies {
                    let r = #[trigger] g.members[j][m];
                    &&& r < n
                    &&& rows[r as int].fetched_at@ == g.times[j]
                    &&& admits(ids, rows[r as int].asset_id@)
                } by {
                if j == k && m == p.members[k].len() {
                    assert(g.members[j][m] == (n - 1) as usize);
                } else {
                    assert(g.members[j][m] == p.members[j][m]);
                }
            }
            assert forall|j: int, a: int, b: int|
                0 <= j < g.members.len() && 0 <= a < b < g.members[j].len() implies #[trigger] g.members[j][a]
                    < #[trigger] g.members[j][b] by {
                if j == k && b == p.members[k].len() {
                    assert(g.members[j][a] == p.members[j][a]);
                    assert(p.members[j][a] < n - 1);
                } else {
                    assert(g.members[j][a] == p.members[j][a]);
                    assert(g.members[j][b] == p.members[j][b]);
                }
            }
            assert forall|j: int| 0 <= j < g.members.len() implies (#[trigger] g.members[j]).len() > 0 by {
                if j != k {
                    assert(g.members[j] == p.members[j]);
                }
            }
        } else if limit > 0 && p.times.len() >= limit {
            assert(g.times == p.times && g.members == p.members);
        } else {
            let last = p.times.len() as int;
            assert forall|i: int, j: int| 0 <= i < j < g.times.len() implies g.times[i] != g.times[j] by {
                if j == last {
                    assert(g.times[i] == p.times[i]);
                    assert(p.times.contains(p.times[i]));
                }
            }
            assert forall|j: int, m: int|
                0 <= j < g.members.len() && 0 <= m < g.members[j].len() implies {
                    let r = #[trigger] g.members[j][m];
                    &&& r < n
                    &&& rows[r as int].fetched_at@ == g.times[j]
                    &&& admits(ids, rows[r as int].asset_id@)
                } by {
                if j < last {
                    assert(g.members[j] == p.members[j]);
                }
            }
            assert forall|j: int, a: int, b: int|
                0 <= j < g.members.len() && 0 <= a < b < g.members[j].len() implies #[trigger] g.members[j][a]
                    < #[trigger] g.members[j][b] by {
                if j < last {
                    assert(g.members[j] == p.members[j]);
                }
            }
            assert forall|j: int| 0 <= j < g.members.len() implies (#[trigger] g.members[j]).len() > 0 by {
                if j < last {
                    assert(g.members[j] == p.members[j]);
                }
            }
        }
    }
}

/// The distinct fetch times of the admitted rows among the first `n`, in the order
/// in which they first occur.
pub open spec fn first_times(rows: Seq<QuoteKey>, ids: Seq<Seq<char>>, n: nat) -> Seq<Seq<char>>
    decreases n,
{
    if n == 0 {
        Seq::empty()
    } else {
        let t = first_times(rows, ids, (n - 1) as nat);
        let row = rows[n - 1];
        if admits(ids, row.asset_id@) && !t.contains(row.fetched_at@) {
            t.push(row.fetched_at@)
        } else {
            t
        }
    }
}

/// The positions, in order, of the admitted rows among the first `n` fetched at `time`.
pub open spec fn rows_at(rows: Seq<QuoteKey>, ids: Seq<Seq<char>>, time: Seq<char>, n: nat) -> Seq<usize>
    decreases n,
{
    if n == 0 {
        Seq::empty()
    } else {
        let r = rows_at(rows, ids, time, (n - 1) as nat);
        if admits(ids, rows[n - 1].asset_id@) && rows[n - 1].fetched_at@ == time {
            r.push((n - 1) as usize)
        } else {
            r
        }
    }
}

/// Whether rows with the same fetch time stand next to each other, as they do when
/// the rows come ordered by time.
pub open spec fn times_contiguous(rows: Seq<QuoteKey>) -> bool {
    forall|i: int, j: int, k: int|
        0 <= i < j < k < rows.len() && #[trigger] rows[i].fetched_at@ == #[trigger] rows[k].fetched_at@
            ==> #[trigger] rows[j].fetched_at@ == rows[i].fetched_at@
}

/// The first `limit` of `times`, or all of them when `limit` is 0.
pub open spec fn limited(times: Seq<Seq<char>>, limit: nat) -> Seq<Seq<char>> {
    if limit == 0 || times.len() <= limit {
        times
    } else {
        times.take(limit as int)
    }
}

/// The row at which the limit stopped the walk over the first `n` rows, or -1.
pub open spec fn stop_row(rows: Seq<QuoteKey>, ids: Seq<Seq<char>>, limit: nat, n: nat) -> int
    decreases n,
{
    if n == 0 {
        -1
    } else if !grouped(rows, ids, limit, (n - 1) as nat).stopped && grouped(
        rows,
        ids,
        limit,
        n,
    ).stopped {
        n - 1
    } else {
        stop_row(rows, ids, limit, (n - 1) as nat)
    }
}

/// What the walk over the first `n` rows has gathered, stated without the walk.
pub open spec fn gathered(rows: Seq<QuoteKey>, ids: Seq<Seq<char>>, limit: nat, n: nat) -> bool {
    let g = grouped(rows, ids, limit, n);
    let ft = first_times(rows, ids, n);
    let s = stop_row(rows, ids, limit, n);
    &&& !g.stopped ==> g.times == ft && (limit > 0 ==> g.times.len() <= limit)
    &&& g.stopped ==> {
        &&& limit > 0
        &&& ft.len() > limit
        &&& g.times == ft.take(limit as int)
        &&& 0 <= s < n
        &&& admits(ids, rows[s].asset_id@)
        &&& !g.times.contains(rows[s].fetched_at@)
        &&& forall|k: int, m: int|
            0 <= k < g.members.len() && 0 <= m < g.members[k].len() ==> #[trigger] g.members[k][m] < s
    }
    &&& forall|k: int| 0 <= k < g.times.len() ==> #[trigger] g.members[k] == rows_at(rows, ids, g.times[k], n)
}

proof fn lemma_rows_at_in_first_times(rows: Seq<QuoteKey>, ids: Seq<Seq<char>>, t: Seq<char>, n: nat)
    requires
        n <= rows.len(),
    ensures
        rows_at(rows, ids, t, n).len() > 0 ==> first_times(rows, ids, n).contains(t),
    decreases n,
{
    if n > 0 {
        lemma_rows_at_in_first_times(rows, ids, t, (n - 1) as nat);
        let ft = first_times(rows, ids, (n - 1) as nat);
        let row = rows[n - 1];
        if ft.contains(t) {
            let i = choose|i: int| 0 <= i < ft.len() && ft[i] == t;
            if admits(ids, row.asset_id@) && !ft.contains(row.fetched_at@) {
                assert(first_times(rows, ids, n)[i] == t);
            }
        } else if rows_at(rows, ids, t, n).len() > 0 {
            assert(first_times(rows, ids, n).last() == t);
        }
    }
}

proof fn lemma_gathered(rows: Seq<QuoteKey>, ids: Seq<Seq<char>>, limit: nat, n: nat)
    requires
        n <= rows.len(),
        rows.len() <= usize::MAX,
        times_contiguous(rows),
    ensures
        gathered(rows, ids, limit, n),
    decreases n,
{
    if n > 0 {
        let m = (n - 1) as nat;
        lemma_gathered(rows, ids, limit, m);
        law_price_points_well_grouped(rows, ids, limit, m);
        let p = grouped(rows, ids, limit, m);
        let g = grouped(rows, ids, limit, n);
        let fp = first_times(rows, ids, m);
        let ft = first_times(rows, ids, n);
        let row = rows[m as int];
        let t = row.fetched_at@;
        let adm = admits(ids, row.asset_id@);
        lemma_index_in_bounds(p.times, t);
        let k = index_in(p.times, t);
        if p.stopped {
            assert(g == p);
            let s = stop_row(rows, ids, limit, m);
            assert(stop_row(rows, ids, limit, n) == s);
            if adm && p.times.contains(t) {
                let j = choose|j: int| 0 <= j < p.times.len() && p.times[j] == t;
                assert(p.members[j].len() > 0);
                let i = p.members[j][0];
                assert(i < s);
                assert(rows[i as int].fetched_at@ == t);
                assert(rows[s].fetched_at@ == rows[i as int].fetched_at@);
                assert(p.times.contains(rows[s].fetched_at@));
            }
            assert(ft.take(limit as int) =~= fp.take(limit as int));
            assert forall|j: int| 0 <= j < g.times.len() implies #[trigger] g.members[j] == rows_at(
                rows,
                ids,
                g.times[j],
                n,
            ) by {
                if adm && t == g.times[j] {
                    assert(p.times.contains(t));
                }
            }
        } else if !adm {
            assert(g == p);
            assert(ft == fp);
        } else if k >= 0 {
            assert(fp.contains(t));
            assert(ft == fp);
            assert forall|j: int| 0 <= j < g.times.len() implies #[trigger] g.members[j] == rows_at(
                rows,
                ids,
                g.times[j],
                n,
            ) by {
                if j != k {
                    assert(g.members[j] == p.members[j]);
                    assert(p.times[j] != p.times[k]);
                }
            }
        } else {
            assert(!fp.contains(t));
            assert(ft == fp.push(t));
            if limit > 0 && p.times.len() >= limit {
                assert(g.stopped);
                assert(stop_row(rows, ids, limit, n) == m);
                assert forall|j: int| 0 <= j < g.times.len() implies #[trigger] g.members[j] == rows_at(
                    rows,
                    ids,
                    g.times[j],
                    n,
                ) by {
                    assert(p.times.contains(g.times[j]));
                }
                assert(ft.take(limit as int) =~= fp);
            } else {
                lemma_rows_at_in_first_times(rows, ids, t, m);
                assert(rows_at(rows, ids, t, m) =~= Seq::<usize>::empty());
                assert forall|j: int| 0 <= j < g.times.len() implies #[trigger] g.members[j] == rows_at(
                    rows,
                    ids,
                    g.times[j],
                    n,
                ) by {
                    if j < p.times.len() {
                        assert(g.members[j] == p.members[j]);
                        assert(p.times.contains(p.times[j]));
                    } else {
                        assert(rows_at(rows, ids, t, n) =~= seq![m as usize]);
                    }
                }
            }
        }
    }
}

/// Over rows ordered by time, the points are the first `limit` distinct fetch times of
/// the admitted rows (all of them when `limit` is 0), in order, and each point holds
/// every admitted row of its time.
pub proof fn law_price_points_complete(rows: Seq<QuoteKey>, ids: Seq<Seq<char>>, limit: nat)
    requires
        rows.len() <= usize::MAX,
        times_contiguous(rows),
    ensures
        ({
            let g = grouped(rows, ids, limit, rows.len());
            &&& g.times == limited(first_times(rows, ids, rows.len()), limit)
            &&& g.members.len() == g.times.len()
            &&& forall|k: int|
                0 <= k < g.times.len() ==> #[trigger] g.members[k] == rows_at(
                    rows,
                    ids,
                    g.times[k],
                    rows.len(),
                )
        }),
{
    lemma_gathered(rows, ids, limit, rows.len());
    law_price_points_well_grouped(rows, ids, limit, rows.len());
}

/// A filter list admits exactly its own elements, every one of them; an empty list
/// admits everything.
pub proof fn law_admits_members(filter: Seq<Seq<char>>, item: Seq<char>)
    ensures
        filter.len() == 0 ==> admits(filter, item),
        filter.len() > 0 ==> (admits(filter, item) <==> exists|i: int|
            0 <= i < filter.len() && filter[i] == item),
        forall|i: int| 0 <= i < filter.len() ==> admits(filter, #[trigger] filter[i]),
{
    assert forall|i: int| 0 <= i < filter.len() implies admits(filter, #[trigger] filter[i]) by {
        assert(filter.contains(filter[i]));
    }
}

/// A time is among the first times of `n` rows exactly when some admitted row among them
/// has it; the first times are distinct.
pub proof fn law_first_times_members(rows: Seq<QuoteKey>, ids: Seq<Seq<char>>, n: nat, t: Seq<char>)
    requires
        n <= rows.len(),
    ensures
        first_times(rows, ids, n).contains(t) <==> exists|r: int|
            0 <= r < n && admits(ids, #[trigger] rows[r].asset_id@) && rows[r].fetched_at@ == t,
        forall|i: int, j: int|
            0 <= i < j < first_times(rows, ids, n).len() ==> first_times(rows, ids, n)[i]
                != first_times(rows, ids, n)[j],
    decreases n,
{
    if n > 0 {
        let m = (n - 1) as nat;
        law_first_times_members(rows, ids, m, t);
        let p = first_times(rows, ids, m);
        let f = first_times(rows, ids, n);
        let row = rows[m as int];
        if p.contains(t) {
            let i = choose|i: int| 0 <= i < p.len() && p[i] == t;
            assert(f[i] == t);
        }
        if f.contains(t) && !p.contains(t) {
            let i = choose|i: int| 0 <= i < f.len() && f[i] == t;
            assert(i == p.len());
            assert(rows[m as int].fetched_at@ == t);
        }
        if exists|r: int| 0 <= r < n && admits(ids, #[trigger] rows[r].asset_id@) && rows[r].fetched_at@ == t {
            let r = choose|r: int| 0 <= r < n && admits(ids, #[trigger] rows[r].asset_id@) && rows[r].fetched_at@ == t;
            if r < m {
                assert(p.contains(t));
            } else if !p.contains(t) {
                assert(f[p.len() as int] == t);
            }
        }
        law_first_times_members(rows, ids, m, row.fetched_at@);
        assert forall|i: int, j: int| 0 <= i < j < f.len() implies f[i] != f[j] by {
            if j == p.len() {
                assert(p.contains(p[i]));
            }
        }
    }
}

/// The rows at a time are exactly the admitted rows fetched then, in increasing order.
pub proof fn law_rows_at_members(rows: Seq<QuoteKey>, ids: Seq<Seq<char>>, t: Seq<char>, n: nat, r: usize)
    requires
        n <= rows.len(),
        rows.len() <= usize::MAX,
    ensures
        rows_at(rows, ids, t, n).contains(r) <==> (r < n && admits(ids, rows[r as int].asset_id@)
            && rows[r as int].fetched_at@ == t),
        forall|a: int, b: int|
            0 <= a < b < rows_at(rows, ids, t, n).len() ==> rows_at(rows, ids, t, n)[a]
                < rows_at(rows, ids, t, n)[b],
        forall|a: int| 0 <= a < rows_at(rows, ids, t, n).len() ==> rows_at(rows, ids, t, n)[a] < n,
    decreases n,
{
    if n > 0 {
        let m = (n - 1) as nat;
        law_rows_at_members(rows, ids, t, m, r);
        let p = rows_at(rows, ids, t, m);
        let q = rows_at(rows, ids, t, n);
        if p.contains(r) {
            let i = choose|i: int| 0 <= i < p.len() && p[i] == r;
            assert(q[i] == r);
        }
        if q.contains(r) && !p.contains(r) {
            let i = choose|i: int| 0 <= i < q.len() && q[i] == r;
            assert(i == p.len());
        }
        if r == m && admits(ids, rows[r as int].asset_id@) && rows[r as int].fetched_at@ == t {
            assert(q[p.len() as int] == r);
        }
    }
}

/// Over rows ordered by time: the points' times are the first distinct admitted times,
/// as many as the limit allows (all when it is 0); and every admitted row whose time has
/// a point is in that point, so with no limit every admitted row is in some point.
pub proof fn law_admitted_row_in_point(rows: Seq<QuoteKey>, ids: Seq<Seq<char>>, limit: nat, r: usize)
    requires
        rows.len() <= usize::MAX,
        times_contiguous(rows),
        r < rows.len(),
        admits(ids, rows[r as int].asset_id@),
    ensures
        ({
            let g = grouped(rows, ids, limit, rows.len());
            let ft = first_times(rows, ids, rows.len());
            let t = rows[r as int].fetched_at@;
            &&& limit == 0 ==> g.times == ft
            &&& limit > 0 ==> g.times.len() == (if ft.len() <= limit { ft.len() } else { limit })
            &&& forall|i: int| 0 <= i < g.times.len() ==> #[trigger] g.times[i] == ft[i]
            &&& (limit == 0 || g.times.contains(t)) ==> exists|k: int|
                0 <= k < g.times.len() && g.times[k] == t && (#[trigger] g.members[k]).contains(r)
        }),
{
    let n = rows.len();
    let g = grouped(rows, ids, limit, n);
    let ft = first_times(rows, ids, n);
    let t = rows[r as int].fetched_at@;
    law_price_points_complete(rows, ids, limit);
    law_first_times_members(rows, ids, n, t);
    law_rows_at_members(rows, ids, t, n, r);
    if limit == 0 || g.times.contains(t) {
        if limit == 0 {
            assert(g.times == ft);
            assert(ft.contains(t));
        }
        let k = choose|k: int| 0 <= k < g.times.len() && g.times[k] == t;
        assert(g.members[k] == rows_at(rows, ids, t, n));
        assert(g.members[k].contains(r));
    }
}

/// Whether `list` holds the text `t`.
pub fn contains_text(list: &Vec<String>, t: &str) -> (r: bool)
    ensures
        r == texts(list@).contains(t@),
{
    let n = list.len();
    for i in 0..n
        invariant
            n == list@.len(),
            forall|j: int| 0 <= j < i ==> texts(list@)[j] != t@,
    {
        if text_eq(list[i].as_str(), t) {
            assert(texts(list@)[i as int] == t@);
            return true;
        }
    }
    proof {
        assert forall|j: int| 0 <= j < texts(list@).len() implies texts(list@)[j] != t@ by {}
    }
    false
}

/// Whether a filter list lets `item` through.
pub fn admits_text(filter: &Vec<String>, item: &str) -> (r: bool)
    ensures
        r == admits(texts(filter@), item@),
{
    filter.len() == 0 || contains_text(filter, item)
}

fn find_time(times: &Vec<String>, t: &str) -> (k: Option<usize>)
    ensures
        match k {
            Some(k) => k == index_in(texts(times@), t@),
            None => index_in(texts(times@), t@) == -1,
        },
{
    let mut i = times.len();
    assert(texts(times@).take(i as int) =~= texts(times@));
    while i > 0
        invariant
            i <= times@.len(),
            index_in(texts(times@), t@) == index_in(texts(times@).take(i as int), t@),
        decreases i,
    {
        let ghost prefix = texts(times@).take(i as int);
        assert(prefix.drop_last() =~= texts(times@).take(i - 1));
        if text_eq(times[i - 1].as_str(), t) {
            return Some(i - 1);
        }
        i = i - 1;
    }
    None
}

/// Groups stored quotes by fetch time, in the order in which the times first occur,
/// keeping only the assets in `asset_ids` (all when it is empty) and at most `limit`
/// distinct times (any number when `limit` is 0).
pub fn group_price_points(rows: &Vec<QuoteKey>, asset_ids: &Vec<String>, limit: usize) -> (points:
    Vec<PricePoint>)
    ensures
        ({
            let g = grouped(rows@, texts(asset_ids@), limit as nat, rows@.len());
            &&& points@.len() == g.times.len()
            &&& forall|k: int|
                0 <= k < points@.len() ==> #[trigger] points@[k].timestamp@ == g.times[k]
                    && points@[k].rows@ == g.members[k]
        }),
{
    let ghost ids = texts(asset_ids@);
    let mut times: Vec<String> = Vec::new();
    let mut members: Vec<Vec<usize>> = Vec::new();
    let mut stopped = false;
    let n = rows.len();
    assert(texts(times@) =~= Seq::<Seq<char>>::empty());
    for i in 0..n
        invariant
            n == rows@.len(),
            ids == texts(asset_ids@),
            ({
                let g = grouped(rows@, ids, limit as nat, i as nat);
                &&& texts(times@) == g.times
                &&& members@.len() == g.members.len()
                &&& forall|k: int| 0 <= k < members@.len() ==> #[trigger] members@[k]@ == g.members[k]
                &&& stopped == g.stopped
            }),
    {
        proof {
            lemma_grouped_shape(rows@, ids, limit as nat, i as nat);
        }
        let row = &rows[i];
        if !stopped && admits_text(asset_ids, row.asset_id.as_str()) {
            match find_time(&times, row.fetched_at.as_str()) {
                Some(k) => {
                    proof {
                        lemma_index_in_bounds(texts(times@), row.fetched_at@);
                    }
                    let mut m = members[k].clone();
                    m.push(i);
                    members.set(k, m);
                },
                None => {
                    if limit > 0 && times.len() >= limit {
                        stopped = true;
                    } else {
                        let ghost before = times@;
                        times.push(row.fetched_at.clone());
                        assert(texts(times@) =~= texts(before).push(row.fetched_at@));
                        members.push(vec![i]);
                    }
                },
            }
        }
    }
    proof {
        lemma_grouped_shape(rows@, ids, limit as nat, n as nat);
    }
    let mut points: Vec<PricePoint> = Vec::new();
    let total = times.len();
    let mut k: usize = 0;
    while k < total
        invariant
            total == times@.len(),
            members@.len() == total,
            k <= total,
            points@.len() == k,
            forall|j: int|
                0 <= j < k ==> #[trigger] points@[j].timestamp@ == times@[j]@ && points@[j].rows@
                    == members@[j]@,
        decreases total - k,
    {
        points.push(PricePoint { timestamp: times[k].clone(), rows: members[k].clone() });
        k = k + 1;
    }
    points
}

/// Picks, in row order, the stored quotes whose asset is in `asset_ids` and whose
/// category is in `categories`, an empty list admitting every value.
pub fn select_quotes(rows: &Vec<QuoteKey>, asset_ids: &Vec<String>, categories: &Vec<String>) -> (picked:
    Vec<usize>)
    ensures
        forall|j: int| 0 <= j < picked@.len() ==> #[trigger] picked@[j] < rows@.len(),
        forall|j: int, k: int| 0 <= j < k < picked@.len() ==> picked@[j] < picked@[k],
        forall|r: usize|
            r < rows@.len() ==> (#[trigger] picked@.contains(r) <==> (admits(
                texts(asset_ids@),
                rows@[r as int].asset_id@,
            ) && admits(texts(categories@), rows@[r as int].category@))),
{
    let mut picked: Vec<usize> = Vec::new();
    let n = rows.len();
    for i in 0..n
        invariant
            n == rows@.len(),
            forall|j: int| 0 <= j < picked@.len() ==> #[trigger] picked@[j] < i,
            forall|j: int, k: int| 0 <= j < k < picked@.len() ==> picked@[j] < picked@[k],
            forall|r: usize|
                r < i ==> (#[trigger] picked@.contains(r) <==> (admits(
                    texts(asset_ids@),
                    rows@[r as int].asset_id@,
                ) && admits(texts(categories@), rows@[r as int].category@))),
    {
        let row = &rows[i];
        let ghost before = picked@;
        if admits_text(asset_ids, row.asset_id.as_str()) && admits_text(
            categories,
            row.category.as_str(),
        ) {
            picked.push(i);
            assert forall|r: usize| r < i implies #[trigger] picked@.contains(r)
                == before.contains(r) by {
                if picked@.contains(r) {
                    let j = choose|j: int| 0 <= j < picked@.len() && picked@[j] == r;
                    if j < before.len() {
                        assert(before[j] == r);
                    }
                }
                if before.contains(r) {
                    let j = choose|j: int| 0 <= j < before.len() && before[j] == r;
                    assert(picked@[j] == r);
                }
            }
            assert(picked@[before.len() as int] == i);
        } else {
            assert(!picked@.contains(i));
        }
    }
    picked
}


/// The most distinct fetch times that a history reply holds: the `limit` parameter read
/// as a `usize`, 5000 when it is absent or not a number; 0 means no bound.
pub fn timestamp_limit(limit: &Option<String>) -> (n: usize)
    ensures
        n == (match limit {
            Some(s) => match usize_value(s@) {
                Some(v) => v,
                None => 5000,
            },
            None => 5000,
        }),
{
    match limit {
        Some(s) => match parse_usize(s.as_str()) {
            Some(v) => v,
            None => 5000,
        },
        None => 5000,
    }
}

} // verus!
