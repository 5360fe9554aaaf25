use kafka_cost::aiven::{AivenApiKafkaInvoiceLine, AivenInvoiceState, KafkaInvoiceLineCostType, ServiceTags};
use kafka_cost::allocate::CostService;
use kafka_cost::classify::Denylist;
use kafka_cost::amount::parse_amount;
use kafka_cost::period::YearMonth;
use kafka_cost::topic::{AivenApiKafka, AivenApiKafkaTopic, AivenApiKafkaTopicPartition};
use kafka_cost::transform::{check_line_tags, transform, PipelineError};
use kafka_cost::usage::UsageError;


fn topic(name: &str, size: u64, remote: Option<u64>) -> AivenApiKafkaTopic {
    AivenApiKafkaTopic {
        name: name.to_string(),
        tags: vec![],
        partitions: vec![AivenApiKafkaTopicPartition { remote_size: remote, size }],
    }
}

fn line(
    cost_type: KafkaInvoiceLineCostType,
    service: &str,
    month: u32,
    cost: &str,
    topics: Vec<AivenApiKafkaTopic>,
) -> AivenApiKafkaInvoiceLine {
    AivenApiKafkaInvoiceLine {
        cost_type,
        service_name: service.to_string(),
        project_name: "proj".to_string(),
        invoice_id: "inv".to_string(),
        invoice_state: AivenInvoiceState::Mailed,
        tags: ServiceTags { tenant: "nav".to_string(), environment: "prod".to_string() },
        kafka_instance: AivenApiKafka { topics },
        line_total_local: parse_amount(cost).unwrap(),
        period: YearMonth { year: 2025, month },
    }
}

fn summary(rows: &[kafka_cost::allocate::AllocatedCostRow]) -> Vec<(String, CostService, String)> {
    rows.iter().map(|r| (r.team.clone(), r.service, r.cost_text())).collect()
}

#[test]
fn base_and_tiered_rows_of_an_instance() {
    let topics = vec![
        topic("a.orders", 600, Some(30)),
        topic("b.events", 400, None),
        topic("a.audit", 0, Some(10)),
        topic("__consumer_offsets", 0, None),
    ];
    let lines = vec![
        line(KafkaInvoiceLineCostType::Base, "kafka-x", 3, "100", topics),
        line(KafkaInvoiceLineCostType::TieredStorage, "kafka-x", 3, "8", vec![]),
    ];
    let rows = transform(&lines, &Denylist::standard()).unwrap();
    // Three teams: `a` (600 of 1000 bytes) pays 100/3 plus 100 * 600 / 2000.
    assert_eq!(
        summary(&rows),
        vec![
            ("a".to_string(), CostService::KafkaBase, "63.33".to_string()),
            ("b".to_string(), CostService::KafkaBase, "53.33".to_string()),
            ("a".to_string(), CostService::KafkaTiered, "8.00".to_string()),
        ]
    );
    assert!(rows.iter().all(|r| r.status == AivenInvoiceState::Mailed && r.tenant == "nav"));
}

#[test]
fn tiered_line_of_another_period_is_not_matched() {
    let lines = vec![
        line(KafkaInvoiceLineCostType::Base, "kafka-x", 3, "10", vec![topic("a.t", 1, Some(5))]),
        line(KafkaInvoiceLineCostType::Base, "kafka-x", 4, "10", vec![topic("a.t", 1, Some(5))]),
        line(KafkaInvoiceLineCostType::TieredStorage, "kafka-x", 4, "2", vec![]),
    ];
    let rows = transform(&lines, &Denylist::standard()).unwrap();
    let tiered: Vec<_> = rows.iter().filter(|r| r.service == CostService::KafkaTiered).collect();
    assert_eq!(tiered.len(), 1);
    assert_eq!(tiered[0].period, YearMonth { year: 2025, month: 4 });
    assert_eq!(rows.len(), 3);
}

#[test]
fn instance_without_tiered_bytes_gets_no_tiered_rows() {
    let lines = vec![
        line(KafkaInvoiceLineCostType::Base, "kafka-x", 3, "10", vec![topic("a.t", 1, None)]),
        line(KafkaInvoiceLineCostType::TieredStorage, "kafka-x", 3, "2", vec![]),
    ];
    let rows = transform(&lines, &Denylist::standard()).unwrap();
    assert_eq!(summary(&rows), vec![("a".to_string(), CostService::KafkaBase, "15.00".to_string())]);
}

#[test]
fn instance_without_topics_gets_no_rows() {
    let lines = vec![line(KafkaInvoiceLineCostType::Base, "kafka-x", 3, "10", vec![])];
    assert!(transform(&lines, &Denylist::standard()).unwrap().is_empty());
}

#[test]
fn orphaned_tiered_line_is_an_error() {
    let lines = vec![
        line(KafkaInvoiceLineCostType::Base, "kafka-x", 3, "10", vec![]),
        line(KafkaInvoiceLineCostType::TieredStorage, "kafka-y", 3, "2", vec![]),
    ];
    assert_eq!(transform(&lines, &Denylist::standard()), Err(PipelineError::OrphanedTieredStorageLine));
}

#[test]
fn malformed_topic_stops_the_run() {
    let lines = vec![line(KafkaInvoiceLineCostType::Base, "kafka-x", 3, "10", vec![topic(".x", 1, None)])];
    assert_eq!(
        transform(&lines, &Denylist::standard()),
        Err(PipelineError::Usage(UsageError::MalformedTopicName))
    );
}

#[test]
fn base_line_without_tags_is_an_error() {
    let mut untagged = line(KafkaInvoiceLineCostType::Base, "kafka-x", 3, "10", vec![]);
    untagged.tags.environment = String::new();
    assert_eq!(check_line_tags(&vec![untagged]), Err(PipelineError::MissingTags));
    let mut tiered = line(KafkaInvoiceLineCostType::TieredStorage, "kafka-x", 3, "10", vec![]);
    tiered.tags.tenant = String::new();
    let tagged = line(KafkaInvoiceLineCostType::Base, "kafka-x", 3, "10", vec![]);
    assert_eq!(check_line_tags(&vec![tagged, tiered]), Ok(()));
}
