use kafka_cost::aiven::{AivenInvoice, AivenInvoiceState};
use kafka_cost::period::YearMonth;
use kafka_cost::transform::PipelineError;
use kafka_cost::warehouse::WarehouseRow;
use kafka_cost::watermark::{latest_paid_date, unprocessed_invoices, watermark};

fn stored(status: &str, date: &str) -> WarehouseRow {
    WarehouseRow { status: status.to_string(), date: date.to_string(), ..Default::default() }
}

fn invoice(id: &str, year: i32, month: u32) -> AivenInvoice {
    AivenInvoice { id: id.to_string(), state: AivenInvoiceState::Estimate, period_begin: YearMonth { year, month } }
}

#[test]
fn empty_table_gives_the_epoch_period() {
    assert_eq!(latest_paid_date(&vec![]), "2025-01");
    assert_eq!(watermark(&vec![]), Ok(YearMonth { year: 2025, month: 1 }));
}

#[test]
fn latest_paid_period_ignores_unpaid_rows() {
    let rows = vec![
        stored("paid", "2025-03"),
        stored("estimate", "2025-09"),
        stored("paid", "2025-05"),
        stored("mailed", "2025-07"),
        stored("paid", "2025-04"),
    ];
    assert_eq!(latest_paid_date(&rows), "2025-05");
    assert_eq!(watermark(&rows), Ok(YearMonth { year: 2025, month: 5 }));
}

#[test]
fn paid_rows_before_the_epoch_keep_the_epoch() {
    let rows = vec![stored("paid", "2024-11")];
    assert_eq!(latest_paid_date(&rows), "2025-01");
}

#[test]
fn unreadable_latest_period_is_an_error() {
    let rows = vec![stored("paid", "2025-13")];
    assert_eq!(watermark(&rows), Err(PipelineError::InvalidWatermark));
}

#[test]
fn only_invoices_after_the_watermark_are_taken_up() {
    let invoices = vec![invoice("a", 2025, 4), invoice("b", 2025, 5), invoice("c", 2025, 6), invoice("d", 2026, 1)];
    let chosen = unprocessed_invoices(&invoices, &YearMonth { year: 2025, month: 5 });
    let ids: Vec<&str> = chosen.iter().map(|i| i.id.as_str()).collect();
    assert_eq!(ids, vec!["c", "d"]);
}

#[test]
fn watermark_does_not_move_back_after_a_load() {
    let existing = vec![stored("paid", "2025-05"), stored("estimate", "2025-06")];
    let before = watermark(&existing).unwrap();
    // A load keeps the paid rows and adds the new ones.
    let mut after: Vec<WarehouseRow> = existing.into_iter().filter(|r| r.status == "paid").collect();
    after.push(stored("paid", "2025-06"));
    after.push(stored("estimate", "2025-07"));
    let next = watermark(&after).unwrap();
    assert!(!before.is_after(&next));
    assert_eq!(next, YearMonth { year: 2025, month: 6 });
    let rerun = unprocessed_invoices(&vec![invoice("x", 2025, 6), invoice("y", 2025, 7)], &next);
    assert_eq!(rerun.len(), 1);
    assert_eq!(rerun[0].id, "y");
}
