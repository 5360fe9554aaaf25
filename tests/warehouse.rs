use kafka_cost::aiven::AivenInvoiceState;
use kafka_cost::allocate::{AllocatedCostRow, CostService, Share};
use kafka_cost::amount::parse_amount;
use kafka_cost::period::YearMonth;
use kafka_cost::warehouse::{table_columns, to_warehouse_row, to_warehouse_rows, ColumnKind};

fn row(service: CostService, cost: &str) -> AllocatedCostRow {
    AllocatedCostRow {
        project_name: "proj".to_string(),
        environment: "prod".to_string(),
        team: "dolly".to_string(),
        service,
        status: AivenInvoiceState::Paid,
        service_name: "kafka-x".to_string(),
        tenant: "nav".to_string(),
        line_total: parse_amount(cost).unwrap(),
        share: Share::Even { teams: 1 },
        period: YearMonth { year: 2025, month: 2 },
        number_of_days: 28,
    }
}

#[test]
fn rows_are_stored_as_text() {
    let stored = to_warehouse_row(&row(CostService::KafkaBase, "80.004999999"));
    assert_eq!(stored.project_name, "proj");
    assert_eq!(stored.environment, "prod");
    assert_eq!(stored.team, "dolly");
    assert_eq!(stored.service, "kafka-base");
    assert_eq!(stored.status, "paid");
    assert_eq!(stored.service_name, "kafka-x");
    assert_eq!(stored.tenant, "nav");
    assert_eq!(stored.cost, "80.00");
    assert_eq!(stored.date, "2025-02");
    assert_eq!(stored.number_of_days, 28);
    let tiered = to_warehouse_rows(&vec![row(CostService::KafkaTiered, "1.005")]);
    assert_eq!(tiered[0].service, "kafka-tiered");
    assert_eq!(tiered[0].cost, "1.01");
    let credit = to_warehouse_row(&row(CostService::KafkaBase, "-2.345"));
    assert_eq!(credit.cost, "-2.35");
}

#[test]
fn table_schema() {
    let cols = table_columns();
    let names: Vec<&str> = cols.iter().map(|c| c.0).collect();
    assert_eq!(
        names,
        vec!["project_name", "environment", "team", "service", "status", "service_name", "tenant", "cost", "date", "number_of_days"]
    );
    assert!(cols[..7].iter().all(|c| c.1 == ColumnKind::Text));
    assert_eq!(cols[7].1, ColumnKind::Numeric);
    assert_eq!(cols[8].1, ColumnKind::Text);
    assert_eq!(cols[9].1, ColumnKind::Integer);
}
