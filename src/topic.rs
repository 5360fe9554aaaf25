//! Topics of a Kafka service and the partitions that hold their bytes.

use vstd::prelude::*;

verus! {

/// The state that the provider reports for a topic.
#[derive(Clone, Copy, Debug, Default, PartialEq, Eq, Structural)]
pub enum AivenApiKafkaTopicState {
    #[default]
    Active,
    Configuring,
    Deleting,
}

/// One partition of a topic, with the bytes it holds.
#[derive(Clone, Copy, Debug, Default, PartialEq, Eq, Structural)]
pub struct AivenApiKafkaTopicPartition {
    /// Bytes held in tiered (remote) storage, when the provider reports any.
    pub remote_size: Option<u64>,
    /// Bytes held on the brokers' own disks.
    pub size: u64,
}

/// A topic of a Kafka service: its name, its tags and its partitions.
#[derive(Clone, Debug, Default)]
pub struct AivenApiKafkaTopic {
    pub name: String,
    pub tags: Vec<(String, String)>,
    pub partitions: Vec<AivenApiKafkaTopicPartition>,
}

/// The topics of one Kafka service.
#[derive(Clone, Debug, Default)]
pub struct AivenApiKafka {
    pub topics: Vec<AivenApiKafkaTopic>,
}

} // verus!
