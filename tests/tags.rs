use kafka_cost::aiven::ServiceTags;
use kafka_cost::tags::{find_tag, TopicError};
use kafka_cost::topic::{AivenApiKafkaTopic, AivenApiKafkaTopicPartition};

fn pairs(items: &[(&str, &str)]) -> Vec<(String, String)> {
    items.iter().map(|(k, v)| (k.to_string(), v.to_string())).collect()
}

#[test]
fn service_tags_take_the_last_value() {
    let tags = ServiceTags::from_pairs(&pairs(&[("tenant", "old"), ("environment", "dev"), ("tenant", "nav")]));
    assert_eq!(tags.tenant, "nav");
    assert_eq!(tags.environment, "dev");
    assert_eq!(find_tag(&pairs(&[("a", "1")]), "b"), None);
}

#[test]
fn absent_service_tags_are_empty() {
    let tags = ServiceTags::from_pairs(&pairs(&[("owner", "x")]));
    assert_eq!(tags.tenant, "");
    assert_eq!(tags.environment, "");
    let gone = ServiceTags::missing();
    assert!(gone.tenant.is_empty() && gone.environment.is_empty());
}

#[test]
fn topic_detail_must_agree_with_listing() {
    let listed = AivenApiKafkaTopic { name: "a.t".to_string(), tags: pairs(&[("team", "a")]), partitions: vec![] };
    let parts = vec![AivenApiKafkaTopicPartition { remote_size: None, size: 9 }];
    assert!(listed.agrees_with_detail("a.t", &pairs(&[("x", "y"), ("team", "a")])));
    assert!(!listed.agrees_with_detail("a.t", &pairs(&[("team", "b")])));
    assert!(!listed.agrees_with_detail("a.u", &pairs(&[("team", "a")])));
    let filled = listed.clone().with_partitions("a.t", &pairs(&[("team", "a")]), parts.clone()).unwrap();
    assert_eq!(filled.partitions, parts);
    assert_eq!(listed.with_partitions("a.t", &vec![], parts).unwrap_err(), TopicError::DetailMismatch);
}
