use kafka_cost::config::{service_tags_url, topic_url, topics_url, Cfg};

#[test]
fn configuration_of_production() {
    let cfg = Cfg::new("SECRET-REDACTED".to_string());
    assert_eq!(cfg.aiven_api_token, "SECRET-REDACTED");
    assert_eq!(cfg.billing_group_id, "7d14362d-1e2a-4864-b408-1cc631bc4fab");
    assert_eq!(cfg.bigquery_project_id, "nais-io");
    assert_eq!(cfg.bigquery_dataset, "aiven_cost_regional");
    assert_eq!(cfg.bigquery_table, "kafka_cost");
}

#[test]
fn provider_addresses() {
    let cfg = Cfg::new("t".to_string());
    assert_eq!(
        cfg.invoices_url(),
        "https://api.aiven.io/v1/billing-group/7d14362d-1e2a-4864-b408-1cc631bc4fab/invoice"
    );
    assert_eq!(
        cfg.invoice_lines_url("42"),
        "https://api.aiven.io/v1/billing-group/7d14362d-1e2a-4864-b408-1cc631bc4fab/invoice/42/lines"
    );
    assert_eq!(service_tags_url("p", "k"), "https://api.aiven.io/v1/project/p/service/k/tags");
    assert_eq!(topics_url("p", "k"), "https://api.aiven.io/v1/project/p/service/k/topic");
    assert_eq!(topic_url("p", "k", "a.b"), "https://api.aiven.io/v1/project/p/service/k/topic/a.b");
}

#[test]
fn statement_that_deletes_unpaid_rows() {
    let cfg = Cfg::new("t".to_string());
    assert_eq!(
        cfg.delete_unpaid_statement(),
        "DELETE FROM `nais-io.aiven_cost_regional.kafka_cost` WHERE status NOT IN ('paid')"
    );
}
