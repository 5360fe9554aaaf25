//! Folding the partitions of a service's topics into bytes per team.

use crate::text::{first_index, lemma_first_index_from_bounds};
use crate::topic::{AivenApiKafkaTopic, AivenApiKafkaTopicPartition};
use vstd::prelude::*;

verus! {

/// The bytes that one team's topics hold on one service.
#[derive(Clone, Debug)]
pub struct TeamUsage {
    pub team: String,
    pub base_size: u64,
    pub tiered_size: u64,
}

/// The mathematical value of a `TeamUsage`.
pub struct TeamUsageModel {
    pub team: Seq<char>,
    pub base_size: int,
    pub tiered_size: int,
}

impl View for TeamUsage {
    type V = TeamUsageModel;

    open spec fn view(&self) -> TeamUsageModel {
        TeamUsageModel {
            team: self.team@,
            base_size: self.base_size as int,
            tiered_size: self.tiered_size as int,
        }
    }
}

/// Why the usage of a service could not be folded.
#[derive(Clone, Copy, Debug, PartialEq, Eq, Structural)]
pub enum UsageError {
    /// A topic name has no team before its first `.`.
    MalformedTopicName,
    /// The bytes of the service do not fit in 64 bits.
    UsageOverflow,
}

/// The team that owns a topic: the part of its name before the first `.`.
pub open spec fn team_of(name: Seq<char>) -> Seq<char> {
    name.take(first_index(name, '.'))
}

pub open spec fn remote_bytes(p: AivenApiKafkaTopicPartition) -> int {
    match p.remote_size {
        Some(r) => r as int,
        None => 0,
    }
}

/// The base bytes of a list of partitions.
pub open spec fn base_bytes(ps: Seq<AivenApiKafkaTopicPartition>) -> int
    decreases ps.len(),
{
    if ps.len() == 0 {
        0
    } else {
        base_bytes(ps.drop_last()) + ps.last().size
    }
}

/// The tiered bytes of a list of partitions; an absent remote size counts as zero.
pub open spec fn tiered_bytes(ps: Seq<AivenApiKafkaTopicPartition>) -> int
    decreases ps.len(),
{
    if ps.len() == 0 {
        0
    } else {
        tiered_bytes(ps.drop_last()) + remote_bytes(ps.last())
    }
}

/// The base bytes of the topics that `team` owns.
pub open spec fn team_base_bytes(topics: Seq<AivenApiKafkaTopic>, team: Seq<char>) -> int
    decreases topics.len(),
{
    if topics.len() == 0 {
        0
    } else {
        team_base_bytes(topics.drop_last(), team) + if team_of(topics.last().name@) == team {
            base_bytes(topics.last().partitions@)
        } else {
            0
        }
    }
}

/// The tiered bytes of the topics that `team` owns.
pub open spec fn team_tiered_bytes(topics: Seq<AivenApiKafkaTopic>, team: Seq<char>) -> int
    decreases topics.len(),
{
    if topics.len() == 0 {
        0
    } else {
        team_tiered_bytes(topics.drop_last(), team) + if team_of(topics.last().name@) == team {
            tiered_bytes(topics.last().partitions@)
        } else {
            0
        }
    }
}

/// The base bytes of all topics.
pub open spec fn all_base_bytes(topics: Seq<AivenApiKafkaTopic>) -> int
    decreases topics.len(),
{
    if topics.len() == 0 {
        0
    } else {
        all_base_bytes(topics.drop_last()) + base_bytes(topics.last().partitions@)
    }
}

/// The tiered bytes of all topics.
pub open spec fn all_tiered_bytes(topics: Seq<AivenApiKafkaTopic>) -> int
    decreases topics.len(),
{
    if topics.len() == 0 {
        0
    } else {
        all_tiered_bytes(topics.drop_last()) + tiered_bytes(topics.last().partitions@)
    }
}

/// The distinct teams of the topics, in the order in which they first appear.
pub open spec fn teams_in_order(topics: Seq<AivenApiKafkaTopic>) -> Seq<Seq<char>>
    decreases topics.len(),
{
    if topics.len() == 0 {
        seq![]
    } else {
        let earlier = teams_in_order(topics.drop_last());
        let team = team_of(topics.last().name@);
        if earlier.contains(team) {
            earlier
        } else {
            earlier.push(team)
        }
    }
}

/// One entry per team, in order of first appearance, with the bytes of its topics.
pub open spec fn usage_model(topics: Seq<AivenApiKafkaTopic>) -> Seq<TeamUsageModel> {
    teams_in_order(topics).map_values(
        |team: Seq<char>|
            TeamUsageModel {
                team,
                base_size: team_base_bytes(topics, team),
                tiered_size: team_tiered_bytes(topics, team),
            },
    )
}

/// Some topic has no team before its first `.`.
pub open spec fn has_malformed_name(topics: Seq<AivenApiKafkaTopic>) -> bool {
    exists|k: int| 0 <= k < topics.len() && #[trigger] team_of(topics[k].name@).len() == 0
}

/// The base bytes of all teams.
pub open spec fn sum_base_sizes(usage: Seq<TeamUsageModel>) -> int
    decreases usage.len(),
{
    if usage.len() == 0 {
        0
    } else {
        sum_base_sizes(usage.drop_last()) + usage.last().base_size
    }
}

/// The tiered bytes of all teams.
pub open spec fn sum_tiered_sizes(usage: Seq<TeamUsageModel>) -> int
    decreases usage.len(),
{
    if usage.len() == 0 {
        0
    } else {
        sum_tiered_sizes(usage.drop_last()) + usage.last().tiered_size
    }
}

/// Changing one entry changes the sums by the difference.
proof fn lemma_sums_update(usage: Seq<TeamUsageModel>, j: int, v: TeamUsageModel)
    requires
        0 <= j < usage.len(),
    ensures
        sum_base_sizes(usage.update(j, v)) == sum_base_sizes(usage) - usage[j].base_size
            + v.base_size,
        sum_tiered_sizes(usage.update(j, v)) == sum_tiered_sizes(usage) - usage[j].tiered_size
            + v.tiered_size,
    decreases usage.len(),
{
    if j < usage.len() - 1 {
        assert(usage.update(j, v).drop_last() =~= usage.drop_last().update(j, v));
        lemma_sums_update(usage.drop_last(), j, v);
    } else {
        assert(usage.update(j, v).drop_last() =~= usage.drop_last());
    }
}

pub open spec fn usage_models(teams: Seq<TeamUsage>) -> Seq<TeamUsageModel> {
    teams.map_values(|u: TeamUsage| u@)
}

pub proof fn lemma_bytes_nonnegative(ps: Seq<AivenApiKafkaTopicPartition>)
    ensures
        base_bytes(ps) >= 0,
        tiered_bytes(ps) >= 0,
    decreases ps.len(),
{
    if ps.len() > 0 {
        lemma_bytes_nonnegative(ps.drop_last());
    }
}

/// The bytes of a prefix of the topics never exceed those of all of them.
proof fn lemma_prefix_bytes(topics: Seq<AivenApiKafkaTopic>, i: int)
    requires
        0 <= i <= topics.len(),
    ensures
        all_base_bytes(topics.take(i)) <= all_base_bytes(topics),
        all_tiered_bytes(topics.take(i)) <= all_tiered_bytes(topics),
    decreases topics.len() - i,
{
    if i == topics.len() {
        assert(topics.take(i) =~= topics);
    } else {
        lemma_prefix_bytes(topics, i + 1);
        assert(topics.take(i + 1).drop_last() =~= topics.take(i));
        lemma_bytes_nonnegative(topics[i].partitions@);
    }
}

/// Each team appears once in `teams_in_order`, and a team that does not
/// appear owns no bytes.
proof fn lemma_teams_in_order(topics: Seq<AivenApiKafkaTopic>, team: Seq<char>)
    ensures
        teams_in_order(topics).no_duplicates(),
        !teams_in_order(topics).contains(team) ==> team_base_bytes(topics, team) == 0
            && team_tiered_bytes(topics, team) == 0,
    decreases topics.len(),
{
    if topics.len() > 0 {
        lemma_teams_in_order(topics.drop_last(), team);
        let earlier = teams_in_order(topics.drop_last());
        let t = team_of(topics.last().name@);
        if !earlier.contains(t) {
            assert(earlier.push(t).last() == t);
            assert forall|a: int, b: int|
                0 <= a < b < earlier.push(t).len() implies earlier.push(t)[a] != earlier.push(
                t,
            )[b] by {
                if b == earlier.len() {
                    assert(earlier.push(t)[a] == earlier[a]);
                }
            }
            if !teams_in_order(topics).contains(team) {
                assert(earlier.push(t)[earlier.len() as int] == t);
                if earlier.contains(team) {
                    let k = choose|k: int| 0 <= k < earlier.len() && earlier[k] == team;
                    assert(earlier.push(t)[k] == team);
                }
            }
        }
    }
}

/// The owning team of a topic name.
pub fn team_name_of(name: &str) -> (r: String)
    ensures
        r@ == team_of(name@),
{
    let n = name.unicode_len();
    let mut i: usize = 0;
    while i < n && name.get_char(i) != '.'
        invariant
            n == name@.len(),
            i <= n,
            forall|j: int| 0 <= j < i ==> name@[j] != '.',
        decreases n - i,
    {
        i = i + 1;
    }
    proof {
        lemma_first_index_from_bounds(name@, '.', 0);
        let f = first_index(name@, '.');
        if f < i {
            assert(name@[f] == '.');
        }
        if i < f {
            assert(name@[i as int] == '.');
        }
    }
    String::from_str(name.substring_char(0, i))
}

/// The base and tiered bytes of a list of partitions.
fn partition_bytes(ps: &Vec<AivenApiKafkaTopicPartition>) -> (r: (u128, u128))
    ensures
        r.0 == base_bytes(ps@),
        r.1 == tiered_bytes(ps@),
{
    let mut base: u128 = 0;
    let mut tiered: u128 = 0;
    let mut i: usize = 0;
    while i < ps.len()
        invariant
            i <= ps.len(),
            base == base_bytes(ps@.take(i as int)),
            tiered == tiered_bytes(ps@.take(i as int)),
            base <= i * (u64::MAX as int),
            tiered <= i * (u64::MAX as int),
        decreases ps.len() - i,
    {
        let p = ps[i];
        assert(ps@.take(i + 1).drop_last() =~= ps@.take(i as int));
        proof {
            assert((i + 1) * (u64::MAX as int) <= (usize::MAX as int) * (u64::MAX as int))
                by (nonlinear_arith)
                requires
                    i + 1 <= usize::MAX,
            ;
            assert((usize::MAX as int) * (u64::MAX as int) < u128::MAX);
        }
        base = base + p.size as u128;
        tiered = tiered + match p.remote_size {
            Some(r) => r as u128,
            None => 0,
        };
        i = i + 1;
    }
    assert(ps@.take(ps.len() as int) =~= ps@);
    (base, tiered)
}

/// The position of `team` among the entries, if it has one.
fn position_of_team(teams: &Vec<TeamUsage>, team: &String) -> (r: Option<usize>)
    ensures
        match r {
            Some(j) => j < teams@.len() && teams@[j as int].team@ == team@,
            None => forall|j: int| 0 <= j < teams@.len() ==> teams@[j].team@ != team@,
        },
{
    let mut j: usize = 0;
    while j < teams.len()
        invariant
            j <= teams.len(),
            forall|k: int| 0 <= k < j ==> teams@[k].team@ != team@,
        decreases teams.len() - j,
    {
        if teams[j].team == *team {
            return Some(j);
        }
        j = j + 1;
    }
    None
}

/// Folds the partitions of a service's topics into bytes per owning team.
pub fn aggregate_topic_usage_by_team(topics: &Vec<AivenApiKafkaTopic>) -> (r: Result<
    Vec<TeamUsage>,
    UsageError,
>)
    ensures
        match r {
            Ok(teams) => {
                &&& !has_malformed_name(topics@)
                &&& all_base_bytes(topics@) <= u64::MAX
                &&& all_tiered_bytes(topics@) <= u64::MAX
                &&& usage_models(teams@) == usage_model(topics@)
                &&& forall|a: int, b: int|
                    0 <= a < b < teams@.len() ==> teams@[a].team@ != teams@[b].team@
                &&& sum_base_sizes(usage_models(teams@)) == all_base_bytes(topics@)
                &&& sum_tiered_sizes(usage_models(teams@)) == all_tiered_bytes(topics@)
            },
            Err(UsageError::MalformedTopicName) => has_malformed_name(topics@),
            Err(UsageError::UsageOverflow) => {
                &&& !has_malformed_name(topics@)
                &&& (all_base_bytes(topics@) > u64::MAX || all_tiered_bytes(topics@) > u64::MAX)
            },
        },
{
    let mut k: usize = 0;
    while k < topics.len()
        invariant
            k <= topics.len(),
            forall|m: int| 0 <= m < k ==> #[trigger] team_of(topics@[m].name@).len() > 0,
        decreases topics.len() - k,
    {
        let team = team_name_of(topics[k].name.as_str());
        if team.as_str().unicode_len() == 0 {
            return Err(UsageError::MalformedTopicName);
        }
        k = k + 1;
    }
    let mut out: Vec<TeamUsage> = Vec::new();
    let mut base_total: u128 = 0;
    let mut tiered_total: u128 = 0;
    let mut i: usize = 0;
    while i < topics.len()
        invariant
            !has_malformed_name(topics@),
            i <= topics.len(),
            base_total == all_base_bytes(topics@.take(i as int)),
            tiered_total == all_tiered_bytes(topics@.take(i as int)),
            base_total <= u64::MAX,
            tiered_total <= u64::MAX,
            forall|j: int|
                0 <= j < out@.len() ==> #[trigger] out@[j].base_size <= base_total
                    && out@[j].tiered_size <= tiered_total,
            usage_models(out@) == usage_model(topics@.take(i as int)),
            sum_base_sizes(usage_models(out@)) == base_total,
            sum_tiered_sizes(usage_models(out@)) == tiered_total,
        decreases topics.len() - i,
    {
        let topic = &topics[i];
        let team = team_name_of(topic.name.as_str());
        let (base, tiered) = partition_bytes(&topic.partitions);
        let ghost before = topics@.take(i as int);
        let ghost after = topics@.take(i + 1);
        assert(after.drop_last() =~= before);
        assert(after.last() == topics@[i as int]);
        if base > (u64::MAX as u128) - base_total || tiered > (u64::MAX as u128) - tiered_total {
            proof {
                lemma_prefix_bytes(topics@, i + 1);
            }
            return Err(UsageError::UsageOverflow);
        }
        let ghost old_out = out@;
        proof {
            assert(usage_models(old_out).len() == teams_in_order(before).len());
            assert forall|j: int| 0 <= j < old_out.len() implies #[trigger] old_out[j].team@
                == teams_in_order(before)[j] by {
                assert(usage_models(old_out)[j] == usage_model(before)[j]);
            }
        }
        let pos = position_of_team(&out, &team);
        match pos {
            Some(j) => {
                let entry = TeamUsage {
                    team: out[j].team.clone(),
                    base_size: out[j].base_size + base as u64,
                    tiered_size: out[j].tiered_size + tiered as u64,
                };
                let ghost entry_model = entry@;
                out.set(j, entry);
                proof {
                    assert(usage_models(out@) =~= usage_models(old_out).update(j as int, entry_model));
                    lemma_sums_update(usage_models(old_out), j as int, entry_model);
                    assert(teams_in_order(before).contains(team@));
                    assert(teams_in_order(after) == teams_in_order(before));
                }
            },
            None => {
                proof {
                    if teams_in_order(before).contains(team@) {
                        let j = choose|j: int|
                            0 <= j < teams_in_order(before).len() && teams_in_order(before)[j]
                                == team@;
                        assert(old_out[j].team@ == team@);
                    }
                    assert(teams_in_order(after) == teams_in_order(before).push(team@));
                }
                let entry = TeamUsage { team, base_size: base as u64, tiered_size: tiered as u64 };
                let ghost entry_model = entry@;
                out.push(entry);
                proof {
                    assert(usage_models(out@) =~= usage_models(old_out).push(entry_model));
                    assert(usage_models(old_out).push(entry_model).drop_last() =~= usage_models(
                        old_out,
                    ));
                }
            },
        }
        proof {
            assert forall|j: int| 0 <= j < out@.len() implies #[trigger] usage_models(out@)[j]
                == usage_model(after)[j] by {
                let u = teams_in_order(after)[j];
                lemma_teams_in_order(before, team@);
                lemma_teams_in_order(after, team@);
                assert(team_base_bytes(after, u) == team_base_bytes(before, u) + if team@ == u {
                    base as int
                } else {
                    0
                });
                assert(team_tiered_bytes(after, u) == team_tiered_bytes(before, u) + if team@
                    == u {
                    tiered as int
                } else {
                    0
                });
                if j < old_out.len() {
                    assert(usage_models(old_out)[j] == usage_model(before)[j]);
                    assert(teams_in_order(after)[j] == teams_in_order(before)[j]);
                    match pos {
                        Some(p) => {
                            if j != p {
                                assert(teams_in_order(before)[p as int] == team@);
                                assert(out@[j] == old_out[j]);
                            }
                        },
                        None => {
                            assert(out@[j] == old_out[j]);
                        },
                    }
                }
            }
            assert(usage_models(out@) =~= usage_model(after));
        }
        base_total = base_total + base;
        tiered_total = tiered_total + tiered;
        i = i + 1;
    }
    assert(topics@.take(topics.len() as int) =~= topics@);
    proof {
        lemma_teams_in_order(topics@, Seq::<char>::empty());
        assert forall|a: int, b: int| 0 <= a < b < out@.len() implies out@[a].team@
            != out@[b].team@ by {
            assert(usage_models(out@)[a] == usage_model(topics@)[a]);
            assert(usage_models(out@)[b] == usage_model(topics@)[b]);
        }
    }
    Ok(out)
}

} // verus!
