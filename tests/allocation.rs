use kafka_cost::aiven::{AivenApiKafkaInvoiceLine, AivenInvoiceState, KafkaInvoiceLineCostType, ServiceTags};
use kafka_cost::allocate::{allocate_base, allocate_tiered, AllocatedCostRow, CostService, Share};
use kafka_cost::amount::parse_amount;
use kafka_cost::period::YearMonth;
use kafka_cost::topic::AivenApiKafka;
use kafka_cost::usage::TeamUsage;

fn line(cost_type: KafkaInvoiceLineCostType, cost: &str) -> AivenApiKafkaInvoiceLine {
    AivenApiKafkaInvoiceLine {
        cost_type,
        service_name: "kafka-x".to_string(),
        project_name: "proj".to_string(),
        invoice_id: "inv-1".to_string(),
        invoice_state: AivenInvoiceState::Estimate,
        tags: ServiceTags { tenant: "nav".to_string(), environment: "prod".to_string() },
        kafka_instance: AivenApiKafka { topics: vec![] },
        line_total_local: parse_amount(cost).unwrap(),
        period: YearMonth { year: 2024, month: 2 },
    }
}

fn usage(team: &str, base: u64, tiered: u64) -> TeamUsage {
    TeamUsage { team: team.to_string(), base_size: base, tiered_size: tiered }
}

fn costs(rows: &[AllocatedCostRow]) -> Vec<String> {
    rows.iter().map(|r| r.cost_text()).collect()
}

/// The share of each row as an exact fraction `(numerator, denominator)`.
fn fraction(share: &Share) -> (u128, u128) {
    match *share {
        Share::Even { teams } => (1, teams as u128),
        Share::Weighted { teams, bytes, total_bytes } => {
            (2 * total_bytes as u128 + teams as u128 * bytes as u128, 2 * teams as u128 * total_bytes as u128)
        }
        Share::Part { bytes, total_bytes } => (bytes as u128, total_bytes as u128),
    }
}

#[test]
fn worked_example_two_teams() {
    let l = line(KafkaInvoiceLineCostType::Base, "100");
    let rows = allocate_base(&l, &vec![usage("a", 600, 0), usage("b", 400, 0)]);
    assert_eq!(rows.len(), 2);
    assert_eq!(rows[0].team, "a");
    assert_eq!(rows[0].share, Share::Weighted { teams: 2, bytes: 600, total_bytes: 1000 });
    assert_eq!(costs(&rows), vec!["80.00", "70.00"]);
    // The formula counts the flat share twice: the shares add up to 3/2.
    assert_eq!(fraction(&rows[0].share), (3200, 4000));
    assert_eq!(fraction(&rows[1].share), (2800, 4000));
}

#[test]
fn base_rows_carry_the_line_labels() {
    let l = line(KafkaInvoiceLineCostType::Base, "10");
    let rows = allocate_base(&l, &vec![usage("a", 1, 0)]);
    let r = &rows[0];
    assert_eq!(r.project_name, "proj");
    assert_eq!(r.environment, "prod");
    assert_eq!(r.tenant, "nav");
    assert_eq!(r.service_name, "kafka-x");
    assert_eq!(r.service, CostService::KafkaBase);
    assert_eq!(r.status, AivenInvoiceState::Estimate);
    assert_eq!(r.period, YearMonth { year: 2024, month: 2 });
    assert_eq!(r.number_of_days, 29);
    assert_eq!(r.line_total, l.line_total_local);
}

#[test]
fn instance_without_teams_has_no_rows() {
    let l = line(KafkaInvoiceLineCostType::Base, "100");
    let t = line(KafkaInvoiceLineCostType::TieredStorage, "5");
    assert!(allocate_base(&l, &vec![]).is_empty());
    assert!(allocate_tiered(&t, &l, &vec![]).is_empty());
}

#[test]
fn single_team_without_bytes_pays_whole_cost() {
    let l = line(KafkaInvoiceLineCostType::Base, "123.4567891234567");
    let rows = allocate_base(&l, &vec![usage("solo", 0, 0)]);
    assert_eq!(rows.len(), 1);
    assert_eq!(rows[0].share, Share::Even { teams: 1 });
    assert_eq!(rows[0].line_total, l.line_total_local);
    assert_eq!(rows[0].cost_text(), "123.46");
}

#[test]
fn single_team_with_bytes_pays_flat_share_twice() {
    let l = line(KafkaInvoiceLineCostType::Base, "100");
    let rows = allocate_base(&l, &vec![usage("solo", 42, 0)]);
    assert_eq!(rows[0].cost_text(), "150.00");
}

#[test]
fn teams_without_bytes_share_equally() {
    let l = line(KafkaInvoiceLineCostType::Base, "100");
    let rows = allocate_base(&l, &vec![usage("a", 0, 0), usage("b", 0, 0), usage("c", 0, 0)]);
    assert!(rows.iter().all(|r| r.share == Share::Even { teams: 3 }));
    assert_eq!(costs(&rows), vec!["33.33", "33.33", "33.33"]);
}

#[test]
fn shares_are_exact_until_written() {
    // 1/3 + 1/(2*3) of 10 is exactly 5: nothing is rounded on the way.
    let l = line(KafkaInvoiceLineCostType::Base, "10");
    let rows = allocate_base(&l, &vec![usage("a", 1, 0), usage("b", 1, 0), usage("c", 1, 0)]);
    assert_eq!(costs(&rows), vec!["5.00", "5.00", "5.00"]);
    let tiny = line(KafkaInvoiceLineCostType::Base, "0.0000000001");
    let rows = allocate_base(&tiny, &vec![usage("a", 0, 0)]);
    assert_eq!(rows[0].line_total.scale, 10);
    assert_eq!(rows[0].cost_text(), "0.00");
}

#[test]
fn tiered_cost_is_shared_by_tiered_bytes() {
    let base = line(KafkaInvoiceLineCostType::Base, "100");
    let mut t = line(KafkaInvoiceLineCostType::TieredStorage, "10");
    t.invoice_state = AivenInvoiceState::Paid;
    let teams = vec![usage("a", 5, 300), usage("b", 5, 0), usage("c", 5, 100)];
    let rows = allocate_tiered(&t, &base, &teams);
    assert_eq!(rows.len(), 2);
    assert_eq!(rows[0].team, "a");
    assert_eq!(rows[0].share, Share::Part { bytes: 300, total_bytes: 400 });
    assert_eq!(rows[1].team, "c");
    assert_eq!(costs(&rows), vec!["7.50", "2.50"]);
    assert_eq!(rows[0].service, CostService::KafkaTiered);
    // Labels come from the base line of the service.
    assert_eq!(rows[0].status, AivenInvoiceState::Estimate);
}

#[test]
fn tiered_shares_add_up_to_one() {
    let base = line(KafkaInvoiceLineCostType::Base, "1");
    let t = line(KafkaInvoiceLineCostType::TieredStorage, "10");
    let teams = vec![usage("a", 0, 1), usage("b", 0, 1), usage("c", 0, 1)];
    let rows = allocate_tiered(&t, &base, &teams);
    let parts: Vec<(u128, u128)> = rows.iter().map(|r| fraction(&r.share)).collect();
    assert_eq!(parts, vec![(1, 3), (1, 3), (1, 3)]);
    assert_eq!(costs(&rows), vec!["3.33", "3.33", "3.33"]);
}

#[test]
fn credits_are_shared_as_credits() {
    let l = line(KafkaInvoiceLineCostType::Base, "-100");
    let rows = allocate_base(&l, &vec![usage("a", 600, 0), usage("b", 400, 0)]);
    assert_eq!(costs(&rows), vec!["-80.00", "-70.00"]);
    let base = line(KafkaInvoiceLineCostType::Base, "1");
    let t = line(KafkaInvoiceLineCostType::TieredStorage, "-10");
    let rows = allocate_tiered(&t, &base, &vec![usage("a", 0, 1), usage("b", 0, 2)]);
    assert_eq!(costs(&rows), vec!["-3.33", "-6.67"]);
}

#[test]
fn largest_amounts_do_not_overflow() {
    let l = line(KafkaInvoiceLineCostType::Base, "123456789012345678901234567890.5");
    let rows = allocate_base(&l, &vec![usage("a", u64::MAX, 0)]);
    assert_eq!(rows[0].cost_text(), "185185183518518518351851851835.75");
    let rows = allocate_base(&l, &vec![usage("a", u64::MAX, 0), usage("b", u64::MAX - 1, 0)]);
    assert_eq!(rows.len(), 2);
}
