//! Trades: their kind, the checks a trade must pass, and the tally of an import.

use vstd::prelude::*;
use crate::asset::PortfolioError;
use crate::text::text_eq;

verus! {

/// The kind of a trade: the given one, else `buy`.
pub open spec fn kind_or_buy(kind: Option<String>) -> Seq<char> {
    match kind {
        Some(k) => k@,
        None => "buy"@,
    }
}

/// A trade keeps the kind it gives, and is a purchase when it gives none.
pub proof fn law_trade_kind_default(kind: Option<String>)
    ensures
        kind is None ==> kind_or_buy(kind) == "buy"@,
        kind matches Some(k) ==> kind_or_buy(kind) == k@,
{
}

/// The kind of a trade, `buy` when none is given.
pub fn trade_kind(kind: &Option<String>) -> (r: String)
    ensures
        r@ == kind_or_buy(*kind),
{
    match kind {
        Some(k) => k.clone(),
        None => "buy".to_owned(),
    }
}

/// Whether a trade is a sale, which must not exceed the units held.
pub fn is_sell(kind: &str) -> (r: bool)
    ensures
        r == (kind@ == "sell"@),
{
    text_eq(kind, "sell")
}

/// What is known of a trade's numbers before it is stored.
pub struct TradeFacts {
    pub has_amount: bool,
    pub has_price: bool,
    pub amount_positive: bool,
    pub price_not_negative: bool,
}

/// The checks of a trade's numbers, in the order the service makes them: an amount,
/// then a price, must be given; the amount must be positive and the price not negative.
pub fn check_trade_values(facts: &TradeFacts) -> (result: Result<(), PortfolioError>)
    ensures
        !facts.has_amount ==> result == Err::<(), PortfolioError>(PortfolioError::MissingAmount),
        facts.has_amount && !facts.has_price ==> result == Err::<(), PortfolioError>(
            PortfolioError::MissingPrice,
        ),
        facts.has_amount && facts.has_price ==> (result is Ok <==> (facts.amount_positive
            && facts.price_not_negative)),
        facts.has_amount && facts.has_price && !(facts.amount_positive
            && facts.price_not_negative) ==> result == Err::<(), PortfolioError>(
            PortfolioError::InvalidAmountOrPrice,
        ),
{
    if !facts.has_amount {
        Err(PortfolioError::MissingAmount)
    } else if !facts.has_price {
        Err(PortfolioError::MissingPrice)
    } else if facts.amount_positive && facts.price_not_negative {
        Ok(())
    } else {
        Err(PortfolioError::InvalidAmountOrPrice)
    }
}

/// Whether a trade of `kind` may be stored, given whether the units held cover its
/// amount: only a sale needs the cover.
pub fn check_sale(kind: &str, holding_covers_amount: bool) -> (result: Result<(), PortfolioError>)
    ensures
        result is Ok <==> (kind@ != "sell"@ || holding_covers_amount),
        result is Err ==> result == Err::<(), PortfolioError>(PortfolioError::SellExceedsHolding),
{
    if is_sell(kind) && !holding_covers_amount {
        Err(PortfolioError::SellExceedsHolding)
    } else {
        Ok(())
    }
}

/// Whether an imported trade is stored, given how many stored trades equal it in
/// asset, kind, date, amount and price: only when none does.
pub open spec fn stores_trade(duplicates: int) -> bool {
    duplicates == 0
}

/// The running count of an import: assets saved, trades stored, trades skipped as
/// duplicates of stored ones.
pub struct ImportTally {
    pub assets: u64,
    pub imported: u64,
    pub skipped: u64,
}

impl ImportTally {
    /// An import that has not begun.
    pub fn new() -> (t: Self)
        ensures
            t.assets == 0 && t.imported == 0 && t.skipped == 0,
    {
        ImportTally { assets: 0, imported: 0, skipped: 0 }
    }

    /// Counts one saved asset.
    pub fn record_asset(&mut self)
        requires
            old(self).assets < u64::MAX,
        ensures
            final(self).assets == old(self).assets + 1,
            final(self).imported == old(self).imported,
            final(self).skipped == old(self).skipped,
    {
        self.assets = self.assets + 1;
    }

    /// Decides one trade of the import: it is stored when no stored trade has the same
    /// asset, kind, date, amount and price (`duplicates` counts those), and skipped
    /// otherwise.
    pub fn record_trade(&mut self, duplicates: i64) -> (store: bool)
        requires
            old(self).imported < u64::MAX,
            old(self).skipped < u64::MAX,
        ensures
            store == stores_trade(duplicates as int),
            final(self).assets == old(self).assets,
            store ==> final(self).imported == old(self).imported + 1 && final(self).skipped
                == old(self).skipped,
            !store ==> final(self).skipped == old(self).skipped + 1 && final(self).imported
                == old(self).imported,
    {
        if duplicates == 0 {
            self.imported = self.imported + 1;
            true
        } else {
            self.skipped = self.skipped + 1;
            false
        }
    }
}


/// How many of `held` equal `k`.
pub open spec fn count_equal<K>(held: Seq<K>, k: K) -> nat
    decreases held.len(),
{
    if held.len() == 0 {
        0
    } else {
        count_equal(held.drop_last(), k) + if held.last() == k {
            1nat
        } else {
            0nat
        }
    }
}

/// An import of `batch` into a store holding `held`, trade by trade as `record_trade`
/// decides with the store's duplicate count: the trades held afterwards, how many
/// were stored and how many skipped.
pub open spec fn import_run<K>(held: Seq<K>, batch: Seq<K>) -> (Seq<K>, nat, nat)
    decreases batch.len(),
{
    if batch.len() == 0 {
        (held, 0, 0)
    } else {
        let (h, stored, skipped) = import_run(held, batch.drop_last());
        let k = batch.last();
        if stores_trade(count_equal(h, k) as int) {
            (h.push(k), stored + 1, skipped)
        } else {
            (h, stored, skipped + 1)
        }
    }
}

proof fn lemma_count_equal<K>(held: Seq<K>, k: K)
    ensures
        count_equal(held, k) > 0 <==> held.contains(k),
    decreases held.len(),
{
    if held.len() > 0 {
        let init = held.drop_last();
        lemma_count_equal(init, k);
        if init.contains(k) {
            let i = choose|i: int| 0 <= i < init.len() && init[i] == k;
            assert(held[i] == k);
        }
        if held.contains(k) && held.last() != k {
            let i = choose|i: int| 0 <= i < held.len() && held[i] == k;
            assert(init[i] == k);
        }
    }
}

proof fn lemma_import_keeps_and_holds<K>(held: Seq<K>, batch: Seq<K>)
    ensures
        forall|x: K| held.contains(x) ==> #[trigger] import_run(held, batch).0.contains(x),
        forall|i: int| 0 <= i < batch.len() ==> import_run(held, batch).0.contains(#[trigger] batch[i]),
        import_run(held, batch).1 + import_run(held, batch).2 == batch.len(),
    decreases batch.len(),
{
    if batch.len() > 0 {
        let init = batch.drop_last();
        let h = import_run(held, init).0;
        lemma_import_keeps_and_holds(held, init);
        lemma_count_equal(h, batch.last());
        let r = import_run(held, batch).0;
        assert forall|x: K| h.contains(x) implies r.contains(x) by {
            if !h.contains(batch.last()) {
                let i = choose|i: int| 0 <= i < h.len() && h[i] == x;
                assert(r[i] == x);
            }
        }
        assert forall|i: int| 0 <= i < batch.len() implies r.contains(#[trigger] batch[i]) by {
            if i < init.len() {
                assert(init[i] == batch[i]);
            } else if !h.contains(batch.last()) {
                assert(r[h.len() as int] == batch.last());
            }
        }
    }
}

proof fn lemma_import_of_held<K>(held: Seq<K>, batch: Seq<K>)
    requires
        forall|i: int| 0 <= i < batch.len() ==> held.contains(#[trigger] batch[i]),
    ensures
        import_run(held, batch) == (held, 0nat, batch.len()),
    decreases batch.len(),
{
    if batch.len() > 0 {
        let init = batch.drop_last();
        assert forall|i: int| 0 <= i < init.len() implies held.contains(#[trigger] init[i]) by {
            assert(init[i] == batch[i]);
        }
        lemma_import_of_held(held, init);
        assert(held.contains(batch[batch.len() - 1]));
        lemma_count_equal(held, batch.last());
    }
}

/// Importing is idempotent: every trade of an import is counted once, as stored or as
/// skipped; and importing the same trades again stores none of them, skips all of
/// them, and leaves the store as the first import left it.
pub proof fn law_import_idempotent<K>(held: Seq<K>, batch: Seq<K>)
    ensures
        import_run(held, batch).1 + import_run(held, batch).2 == batch.len(),
        import_run(import_run(held, batch).0, batch) == (import_run(held, batch).0, 0nat, batch.len()),
{
    lemma_import_keeps_and_holds(held, batch);
    lemma_import_of_held(import_run(held, batch).0, batch);
}

} // verus!
