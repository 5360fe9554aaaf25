//! Key/value tags that the provider attaches to services and topics.

use crate::aiven::ServiceTags;
use crate::text::same_text;
use crate::topic::{AivenApiKafkaTopic, AivenApiKafkaTopicPartition};
use vstd::prelude::*;

verus! {

/// The value of the last tag with this key, if there is one.
pub open spec fn tag_value(tags: Seq<(String, String)>, key: Seq<char>) -> Option<Seq<char>>
    decreases tags.len(),
{
    if tags.len() == 0 {
        None
    } else if tags.last().0@ == key {
        Some(tags.last().1@)
    } else {
        tag_value(tags.drop_last(), key)
    }
}

/// The value of a tag, or the empty text where the tag is absent.
pub open spec fn tag_or_empty(tags: Seq<(String, String)>, key: Seq<char>) -> Seq<char> {
    match tag_value(tags, key) {
        Some(v) => v,
        None => seq![],
    }
}

/// The value of the last tag with this key, if there is one.
pub fn find_tag(tags: &Vec<(String, String)>, key: &str) -> (r: Option<String>)
    ensures
        match r {
            Some(v) => tag_value(tags@, key@) == Some(v@),
            None => tag_value(tags@, key@) is None,
        },
{
    let mut i: usize = tags.len();
    assert(tags@.take(i as int) =~= tags@);
    while i > 0
        invariant
            i <= tags@.len(),
            tag_value(tags@, key@) == tag_value(tags@.take(i as int), key@),
        decreases i,
    {
        assert(tags@.take(i as int).drop_last() =~= tags@.take(i - 1));
        if same_text(tags[i - 1].0.as_str(), key) {
            return Some(tags[i - 1].1.clone());
        }
        i = i - 1;
    }
    None
}

fn tag_or_empty_exec(tags: &Vec<(String, String)>, key: &str) -> (r: String)
    ensures
        r@ == tag_or_empty(tags@, key@),
{
    match find_tag(tags, key) {
        Some(v) => v,
        None => String::new(),
    }
}

impl ServiceTags {
    /// The tags of a service that no longer exists: tenant and environment empty.
    pub fn missing() -> (r: ServiceTags)
        ensures
            r.tenant@ == Seq::<char>::empty(),
            r.environment@ == Seq::<char>::empty(),
    {
        ServiceTags { tenant: String::new(), environment: String::new() }
    }

    /// The `tenant` and `environment` tags among a service's tags; an absent
    /// tag is empty.
    pub fn from_pairs(tags: &Vec<(String, String)>) -> (r: ServiceTags)
        ensures
            r.tenant@ == tag_or_empty(tags@, "tenant"@),
            r.environment@ == tag_or_empty(tags@, "environment"@),
    {
        ServiceTags {
            tenant: tag_or_empty_exec(tags, "tenant"),
            environment: tag_or_empty_exec(tags, "environment"),
        }
    }
}

/// Why the detail of a topic was refused.
#[derive(Clone, Copy, Debug, PartialEq, Eq, Structural)]
pub enum TopicError {
    /// The detail names another topic, or gives a listed tag another value.
    DetailMismatch,
}

/// The detail of a topic (its name and tags) agrees with its listing: the
/// same name, and each listed tag with the value that the detail gives it.
pub open spec fn agrees_with_detail(
    listed: AivenApiKafkaTopic,
    name: Seq<char>,
    tags: Seq<(String, String)>,
) -> bool {
    &&& listed.name@ == name
    &&& forall|k: int|
        0 <= k < listed.tags@.len() ==> tag_value(tags, (#[trigger] listed.tags@[k]).0@) == Some(
            listed.tags@[k].1@,
        )
}

impl AivenApiKafkaTopic {
    /// Whether a topic's detail agrees with this listing of it.
    pub fn agrees_with_detail(&self, name: &str, tags: &Vec<(String, String)>) -> (r: bool)
        ensures
            r == agrees_with_detail(*self, name@, tags@),
    {
        if !same_text(self.name.as_str(), name) {
            return false;
        }
        let mut k: usize = 0;
        while k < self.tags.len()
            invariant
                k <= self.tags@.len(),
                self.name@ == name@,
                forall|m: int|
                    0 <= m < k ==> tag_value(tags@, (#[trigger] self.tags@[m]).0@) == Some(
                        self.tags@[m].1@,
                    ),
            decreases self.tags.len() - k,
        {
            match find_tag(tags, self.tags[k].0.as_str()) {
                Some(v) => {
                    if v != self.tags[k].1 {
                        return false;
                    }
                },
                None => {
                    return false;
                },
            }
            k = k + 1;
        }
        true
    }

    /// This topic with the partitions of its detail, where the detail agrees
    /// with the listing.
    pub fn with_partitions(
        self,
        name: &str,
        tags: &Vec<(String, String)>,
        partitions: Vec<AivenApiKafkaTopicPartition>,
    ) -> (r: Result<AivenApiKafkaTopic, TopicError>)
        ensures
            agrees_with_detail(self, name@, tags@) ==> r == Ok::<_, TopicError>(
                AivenApiKafkaTopic { name: self.name, tags: self.tags, partitions },
            ),
            !agrees_with_detail(self, name@, tags@) ==> r == Err::<AivenApiKafkaTopic, _>(
                TopicError::DetailMismatch,
            ),
    {
        if self.agrees_with_detail(name, tags) {
            Ok(AivenApiKafkaTopic { name: self.name, tags: self.tags, partitions })
        } else {
            Err(TopicError::DetailMismatch)
        }
    }
}

} // verus!
