use kafka_cost::aiven::{is_kafka_service_type, AivenInvoiceState, KafkaInvoiceLineCostType};

#[test]
fn cost_type_follows_the_description() {
    assert_eq!(
        KafkaInvoiceLineCostType::from_description("Kafka kafka-x: Kafka Tiered Storage"),
        KafkaInvoiceLineCostType::TieredStorage
    );
    assert_eq!(
        KafkaInvoiceLineCostType::from_description("KAFKA NAV-PROD: KAFKA TIERED STORAGE (GiB)"),
        KafkaInvoiceLineCostType::TieredStorage
    );
    assert_eq!(
        KafkaInvoiceLineCostType::from_description("Kafka business-4 (nav-prod)"),
        KafkaInvoiceLineCostType::Base
    );
    assert_eq!(
        KafkaInvoiceLineCostType::from_lowercase_description("kafka x: kafka tiered storage"),
        KafkaInvoiceLineCostType::TieredStorage
    );
    assert_eq!(
        KafkaInvoiceLineCostType::from_lowercase_description("KAFKA X: KAFKA TIERED STORAGE"),
        KafkaInvoiceLineCostType::Base
    );
}

#[test]
fn only_kafka_lines_are_kept() {
    assert!(is_kafka_service_type("kafka"));
    assert!(!is_kafka_service_type("pg"));
    assert!(!is_kafka_service_type("kafka_connect"));
}

#[test]
fn invoice_states_are_written_in_lower_case() {
    assert_eq!(AivenInvoiceState::Paid.as_str(), "paid");
    assert_eq!(AivenInvoiceState::Mailed.as_str(), "mailed");
    assert_eq!(AivenInvoiceState::Estimate.as_str(), "estimate");
}
