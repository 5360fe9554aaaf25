use kafka_cost::topic::{AivenApiKafkaTopic, AivenApiKafkaTopicPartition};
use kafka_cost::usage::{aggregate_topic_usage_by_team, team_name_of, UsageError};

fn topic(name: &str, parts: &[(u64, Option<u64>)]) -> AivenApiKafkaTopic {
    AivenApiKafkaTopic {
        name: name.to_string(),
        tags: vec![],
        partitions: parts
            .iter()
            .map(|&(size, remote_size)| AivenApiKafkaTopicPartition { remote_size, size })
            .collect(),
    }
}

#[test]
fn team_is_the_text_before_the_first_dot() {
    assert_eq!(team_name_of("dolly.orders.v1"), "dolly");
    assert_eq!(team_name_of("nodot"), "nodot");
    assert_eq!(team_name_of(".hidden"), "");
}

#[test]
fn usage_is_summed_per_team_in_order_of_first_appearance() {
    let topics = vec![
        topic("b.one", &[(10, Some(1)), (20, None)]),
        topic("a.one", &[(5, Some(7))]),
        topic("b.two", &[(100, Some(2))]),
    ];
    let teams = aggregate_topic_usage_by_team(&topics).unwrap();
    assert_eq!(teams.len(), 2);
    assert_eq!(teams[0].team, "b");
    assert_eq!((teams[0].base_size, teams[0].tiered_size), (130, 3));
    assert_eq!(teams[1].team, "a");
    assert_eq!((teams[1].base_size, teams[1].tiered_size), (5, 7));
}

#[test]
fn no_topics_no_teams() {
    assert!(aggregate_topic_usage_by_team(&vec![]).unwrap().is_empty());
}

#[test]
fn topic_without_team_is_an_error() {
    let topics = vec![topic("a.x", &[(1, None)]), topic(".orphan", &[(1, None)])];
    assert_eq!(aggregate_topic_usage_by_team(&topics).unwrap_err(), UsageError::MalformedTopicName);
    let empty = vec![topic("", &[])];
    assert_eq!(aggregate_topic_usage_by_team(&empty).unwrap_err(), UsageError::MalformedTopicName);
}

#[test]
fn usage_beyond_64_bits_is_an_error() {
    let topics = vec![topic("a.x", &[(u64::MAX, None)]), topic("b.x", &[(1, None)])];
    assert_eq!(aggregate_topic_usage_by_team(&topics).unwrap_err(), UsageError::UsageOverflow);
    let tiered = vec![topic("a.x", &[(0, Some(u64::MAX)), (0, Some(1))])];
    assert_eq!(aggregate_topic_usage_by_team(&tiered).unwrap_err(), UsageError::UsageOverflow);
}

#[test]
fn usage_up_to_64_bits_is_kept() {
    let topics = vec![topic("a.x", &[(u64::MAX - 1, None)]), topic("a.y", &[(1, None)])];
    let teams = aggregate_topic_usage_by_team(&topics).unwrap();
    assert_eq!(teams[0].base_size, u64::MAX);
}
