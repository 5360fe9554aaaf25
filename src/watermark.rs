//! The latest paid period in the warehouse, and the invoices that a run takes up.

use crate::aiven::AivenInvoice;
use crate::period::{month_start_of, YearMonth};
use crate::text::{lemma_text_after_transitive, same_text, text_after, text_is_after};
use crate::transform::PipelineError;
use crate::warehouse::WarehouseRow;
use vstd::prelude::*;

verus! {

/// The period assumed when the warehouse holds no paid row.
pub open spec fn epoch_period() -> Seq<char> {
    "2025-01"@
}

pub open spec fn is_paid(row: WarehouseRow) -> bool {
    row.status@ == "paid"@
}

/// The dates of the paid rows, in their order.
pub open spec fn paid_dates(rows: Seq<WarehouseRow>) -> Seq<Seq<char>> {
    rows.filter(|r: WarehouseRow| is_paid(r)).map_values(|r: WarehouseRow| r.date@)
}

/// The greatest of some dates in lexicographic order, and at least the epoch period.
pub open spec fn latest_of(dates: Seq<Seq<char>>) -> Seq<char>
    decreases dates.len(),
{
    if dates.len() == 0 {
        epoch_period()
    } else {
        let earlier = latest_of(dates.drop_last());
        if text_after(dates.last(), earlier) {
            dates.last()
        } else {
            earlier
        }
    }
}

/// The latest date of a paid row, or the epoch period.
pub open spec fn latest_paid_text(rows: Seq<WarehouseRow>) -> Seq<char> {
    latest_of(paid_dates(rows))
}

/// The invoices whose period begins after the watermark, in their order.
pub open spec fn after_watermark(invoices: Seq<AivenInvoice>, watermark: YearMonth) -> Seq<
    AivenInvoice,
> {
    invoices.filter(|inv: AivenInvoice| inv.period_begin.ordinal() > watermark.ordinal())
}

/// What the table holds after a load: its paid rows, then the new rows.
pub open spec fn rows_after_load(existing: Seq<WarehouseRow>, new: Seq<WarehouseRow>) -> Seq<
    WarehouseRow,
> {
    existing.filter(|r: WarehouseRow| is_paid(r)) + new
}

/// `a` is `b` or comes after it.
pub open spec fn not_before(a: Seq<char>, b: Seq<char>) -> bool {
    a == b || text_after(a, b)
}

/// The latest paid date of the warehouse rows, or the epoch period.
pub fn latest_paid_date(rows: &Vec<WarehouseRow>) -> (r: String)
    ensures
        r@ == latest_paid_text(rows@),
{
    let mut latest = String::from_str("2025-01");
    let mut i: usize = 0;
    while i < rows.len()
        invariant
            i <= rows.len(),
            latest@ == latest_paid_text(rows@.take(i as int)),
        decreases rows.len() - i,
    {
        let row = &rows[i];
        let ghost before = rows@.take(i as int);
        assert(rows@.take(i + 1) =~= before.push(*row));
        proof {
            before.lemma_filter_push(*row, |r: WarehouseRow| is_paid(r));
            let kept = before.filter(|r: WarehouseRow| is_paid(r));
            assert(kept.push(*row).map_values(|r: WarehouseRow| r.date@) =~= kept.map_values(
                |r: WarehouseRow| r.date@,
            ).push(row.date@));
            assert(kept.push(*row).map_values(|r: WarehouseRow| r.date@).drop_last()
                =~= kept.map_values(|r: WarehouseRow| r.date@));
        }
        if same_text(row.status.as_str(), "paid") && text_is_after(
            row.date.as_str(),
            latest.as_str(),
        ) {
            latest = row.date.clone();
        }
        i = i + 1;
    }
    assert(rows@.take(rows.len() as int) =~= rows@);
    latest
}

/// The latest paid period of the warehouse: the run takes up only the invoices after it.
pub fn watermark(rows: &Vec<WarehouseRow>) -> (r: Result<YearMonth, PipelineError>)
    ensures
        r == (match month_start_of(latest_paid_text(rows@)) {
            Some(p) => Ok(p),
            None => Err(PipelineError::InvalidWatermark),
        }),
        r matches Ok(p) ==> p.wf(),
{
    let latest = latest_paid_date(rows);
    match YearMonth::parse(latest.as_str()) {
        Some(p) => Ok(p),
        None => Err(PipelineError::InvalidWatermark),
    }
}

/// The invoices whose period begins after the watermark, in their order.
pub fn unprocessed_invoices(invoices: &Vec<AivenInvoice>, watermark: &YearMonth) -> (r: Vec<
    AivenInvoice,
>)
    requires
        watermark.wf(),
        forall|k: int| 0 <= k < invoices@.len() ==> (#[trigger] invoices@[k]).period_begin.wf(),
    ensures
        r@ == after_watermark(invoices@, *watermark),
{
    let mut out: Vec<AivenInvoice> = Vec::new();
    let mut i: usize = 0;
    while i < invoices.len()
        invariant
            i <= invoices.len(),
            watermark.wf(),
            forall|k: int| 0 <= k < invoices@.len() ==> (#[trigger] invoices@[k]).period_begin.wf(),
            out@ == after_watermark(invoices@.take(i as int), *watermark),
        decreases invoices.len() - i,
    {
        let invoice = &invoices[i];
        assert(invoices@.take(i + 1) =~= invoices@.take(i as int).push(*invoice));
        proof {
            invoices@.take(i as int).lemma_filter_push(
                *invoice,
                |inv: AivenInvoice| inv.period_begin.ordinal() > watermark.ordinal(),
            );
        }
        if invoice.period_begin.is_after(watermark) {
            out.push(invoice.duplicate());
        }
        i = i + 1;
    }
    assert(invoices@.take(invoices.len() as int) =~= invoices@);
    out
}

proof fn lemma_latest_grows(xs: Seq<Seq<char>>, ys: Seq<Seq<char>>)
    ensures
        not_before(latest_of(xs + ys), latest_of(xs)),
    decreases ys.len(),
{
    if ys.len() == 0 {
        assert(xs + ys =~= xs);
    } else {
        lemma_latest_grows(xs, ys.drop_last());
        assert((xs + ys).drop_last() =~= xs + ys.drop_last());
        let mid = latest_of(xs + ys.drop_last());
        let top = latest_of(xs + ys);
        if top != mid && mid != latest_of(xs) {
            lemma_text_after_transitive(top, mid, latest_of(xs));
        }
    }
}

/// Watermark monotonicity. The watermark depends on the paid rows alone; a
/// load keeps every paid row, so the next run's watermark is the same period
/// or a later one; and a run takes up only invoices that begin after its
/// watermark, never a period at or before it.
pub proof fn watermark_is_monotone(
    existing: Seq<WarehouseRow>,
    other: Seq<WarehouseRow>,
    new: Seq<WarehouseRow>,
    invoices: Seq<AivenInvoice>,
    watermark: YearMonth,
)
    ensures
        paid_dates(existing) == paid_dates(other) ==> latest_paid_text(existing)
            == latest_paid_text(other),
        not_before(latest_paid_text(rows_after_load(existing, new)), latest_paid_text(existing)),
        forall|k: int|
            0 <= k < after_watermark(invoices, watermark).len() ==> (#[trigger] after_watermark(
                invoices,
                watermark,
            )[k]).period_begin.ordinal() > watermark.ordinal(),
{
    let paid = |r: WarehouseRow| is_paid(r);
    let date = |r: WarehouseRow| r.date@;
    let kept = existing.filter(paid);
    assert(kept.filter(paid) =~= kept) by {
        assert forall|i: int| 0 <= i < kept.len() implies paid(#[trigger] kept[i]) by {
            existing.lemma_filter_pred(paid, i);
        }
        lemma_filter_all_pass(kept, paid);
    }
    Seq::filter_distributes_over_add(kept, new, paid);
    assert(paid_dates(rows_after_load(existing, new)) =~= paid_dates(existing) + paid_dates(new));
    lemma_latest_grows(paid_dates(existing), paid_dates(new));
    let chosen = after_watermark(invoices, watermark);
    assert forall|k: int| 0 <= k < chosen.len() implies (#[trigger] chosen[k]).period_begin.ordinal()
        > watermark.ordinal() by {
        invoices.lemma_filter_pred(
            |inv: AivenInvoice| inv.period_begin.ordinal() > watermark.ordinal(),
            k,
        );
    }
}

proof fn lemma_filter_all_pass(s: Seq<WarehouseRow>, pred: spec_fn(WarehouseRow) -> bool)
    requires
        forall|i: int| 0 <= i < s.len() ==> pred(#[trigger] s[i]),
    ensures
        s.filter(pred) == s,
    decreases s.len(),
{
    reveal(Seq::filter);
    if s.len() > 0 {
        lemma_filter_all_pass(s.drop_last(), pred);
        assert(s.drop_last().push(s.last()) =~= s);
    } else {
        assert(s.filter(pred) =~= s);
    }
}

} // verus!
