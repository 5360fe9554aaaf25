use kafka_cost::aiven::AivenInvoiceState;
use kafka_cost::allocate::{AllocatedCostRow, CostService, Share};
use kafka_cost::amount::parse_amount;
use kafka_cost::classify::Denylist;
use kafka_cost::period::YearMonth;

fn row(team: &str) -> AllocatedCostRow {
    AllocatedCostRow {
        project_name: "p".to_string(),
        environment: "e".to_string(),
        team: team.to_string(),
        service: CostService::KafkaBase,
        status: AivenInvoiceState::Paid,
        service_name: "s".to_string(),
        tenant: "t".to_string(),
        line_total: parse_amount("1").unwrap(),
        share: Share::Even { teams: 1 },
        period: YearMonth { year: 2025, month: 1 },
        number_of_days: 31,
    }
}

fn teams(rows: &[AllocatedCostRow]) -> Vec<String> {
    rows.iter().map(|r| r.team.clone()).collect()
}

#[test]
fn standard_list_drops_internal_names() {
    let d = Denylist::standard();
    assert!(d.is_denied("app-KSTREAM-JOINTHIS-0001"));
    assert!(d.is_denied("x-JOINOTHER"));
    assert!(d.is_denied("__connect_offsets"));
    assert!(d.is_denied("app-store-repartition"));
    assert!(d.is_denied("app-store-changelog"));
    assert!(!d.is_denied("dolly"));
    assert!(!d.is_denied("a__b"));
    assert!(!d.is_denied("changelog-team"));
}

#[test]
fn classify_keeps_team_rows_in_order() {
    let d = Denylist::standard();
    let rows = vec![row("b"), row("__consumer"), row("a"), row("x-changelog"), row("c")];
    assert_eq!(teams(&d.classify(&rows)), vec!["b", "a", "c"]);
}

#[test]
fn classify_twice_is_classify_once() {
    let d = Denylist::standard();
    let rows = vec![row("x-JOINTHIS"), row("a"), row("__b"), row("c-repartition"), row("d")];
    let once = d.classify(&rows);
    let twice = d.classify(&once);
    assert_eq!(once, twice);
}

#[test]
fn custom_list_extends_the_rules() {
    let d = Denylist {
        contains: vec!["tmp".to_string()],
        prefixes: vec!["_".to_string()],
        suffixes: vec![],
    };
    let rows = vec![row("tmpteam"), row("_x"), row("x-changelog")];
    assert_eq!(teams(&d.classify(&rows)), vec!["x-changelog"]);
}
