//! From the Kafka lines of the invoices to the rows that teams pay.

use crate::aiven::{AivenApiKafkaInvoiceLine, KafkaInvoiceLineCostType};
use crate::allocate::{
    CostService,
    allocate_base, allocate_tiered, base_rows, line_den, line_num, row_models, tiered_row, tiered_rows,
    tiered_rows_conserve_cost, total_num, usage_totals, AllocatedCostRow, CostRowModel,
};
use crate::classify::{kept_rows, Denylist};
use crate::topic::AivenApiKafkaTopic;
use crate::usage::{
    aggregate_topic_usage_by_team, all_base_bytes, all_tiered_bytes, has_malformed_name,
    lemma_bytes_nonnegative, sum_tiered_sizes, team_tiered_bytes, teams_in_order, usage_model,
    usage_models, TeamUsageModel, UsageError,
};
use vstd::prelude::*;

verus! {

/// Why a run stopped.
#[derive(Clone, Copy, Debug, PartialEq, Eq, Structural)]
pub enum PipelineError {
    /// A base line's service lacks its tenant or environment tag.
    MissingTags,
    /// A tiered-storage line has no base line of the same project, service and period.
    OrphanedTieredStorageLine,
    /// The topics of a base line's service could not be folded into usage.
    Usage(UsageError),
    /// The latest paid period in the warehouse is not a valid month.
    InvalidWatermark,
}

pub open spec fn is_base(line: AivenApiKafkaInvoiceLine) -> bool {
    line.cost_type == KafkaInvoiceLineCostType::Base
}

pub open spec fn is_tiered(line: AivenApiKafkaInvoiceLine) -> bool {
    line.cost_type == KafkaInvoiceLineCostType::TieredStorage
}

/// `tiered` bills the tiered storage of the service that the base line `base` bills.
pub open spec fn belongs_to(tiered: AivenApiKafkaInvoiceLine, base: AivenApiKafkaInvoiceLine) -> bool {
    &&& is_base(base)
    &&& tiered.project_name@ == base.project_name@
    &&& tiered.service_name@ == base.service_name@
    &&& tiered.period == base.period
}

/// Some tiered-storage line belongs to no base line.
pub open spec fn has_orphan(lines: Seq<AivenApiKafkaInvoiceLine>) -> bool {
    exists|k: int|
        0 <= k < lines.len() && is_tiered(#[trigger] lines[k]) && !(exists|j: int|
            0 <= j < lines.len() && belongs_to(lines[k], #[trigger] lines[j]))
}

/// Some base line lacks its tenant or environment tag.
pub open spec fn has_untagged_base_line(lines: Seq<AivenApiKafkaInvoiceLine>) -> bool {
    exists|k: int|
        0 <= k < lines.len() && is_base(#[trigger] lines[k]) && (lines[k].tags.tenant@.len() == 0
            || lines[k].tags.environment@.len() == 0)
}

/// Why the usage of these topics cannot be folded, if it cannot.
pub open spec fn usage_failure(topics: Seq<AivenApiKafkaTopic>) -> Option<UsageError> {
    if has_malformed_name(topics) {
        Some(UsageError::MalformedTopicName)
    } else if all_base_bytes(topics) > u64::MAX || all_tiered_bytes(topics) > u64::MAX {
        Some(UsageError::UsageOverflow)
    } else {
        None
    }
}

/// The failure of the first base line whose usage cannot be folded.
pub open spec fn first_usage_failure(lines: Seq<AivenApiKafkaInvoiceLine>) -> Option<UsageError>
    decreases lines.len(),
{
    if lines.len() == 0 {
        None
    } else {
        match first_usage_failure(lines.drop_last()) {
            Some(e) => Some(e),
            None => if is_base(lines.last()) {
                usage_failure(lines.last().kafka_instance.topics@)
            } else {
                None
            },
        }
    }
}

/// The tiered rows of the service of `instance`, for each tiered-storage line of
/// `lines` that belongs to it, where the service holds tiered bytes.
pub open spec fn tiered_rows_for(
    instance: AivenApiKafkaInvoiceLine,
    lines: Seq<AivenApiKafkaInvoiceLine>,
    usage: Seq<TeamUsageModel>,
) -> Seq<CostRowModel>
    decreases lines.len(),
{
    if lines.len() == 0 {
        seq![]
    } else {
        let earlier = tiered_rows_for(instance, lines.drop_last(), usage);
        let line = lines.last();
        if sum_tiered_sizes(usage) > 0 && is_tiered(line) && belongs_to(line, instance) {
            earlier + tiered_rows(line, instance, usage, sum_tiered_sizes(usage))
        } else {
            earlier
        }
    }
}

/// The base rows and the tiered rows of the service of a base line.
pub open spec fn instance_rows(
    instance: AivenApiKafkaInvoiceLine,
    lines: Seq<AivenApiKafkaInvoiceLine>,
) -> Seq<CostRowModel> {
    let usage = usage_model(instance.kafka_instance.topics@);
    base_rows(instance, usage) + tiered_rows_for(instance, lines, usage)
}

/// The rows of the services of the base lines among `bases`, in their order;
/// tiered-storage lines are looked up in `lines`.
pub open spec fn allocated_rows(
    bases: Seq<AivenApiKafkaInvoiceLine>,
    lines: Seq<AivenApiKafkaInvoiceLine>,
) -> Seq<CostRowModel>
    decreases bases.len(),
{
    if bases.len() == 0 {
        seq![]
    } else {
        allocated_rows(bases.drop_last(), lines) + if is_base(bases.last()) {
            instance_rows(bases.last(), lines)
        } else {
            seq![]
        }
    }
}

proof fn lemma_failure_persists(lines: Seq<AivenApiKafkaInvoiceLine>, i: int)
    requires
        0 <= i <= lines.len(),
        first_usage_failure(lines.take(i)) is Some,
    ensures
        first_usage_failure(lines) == first_usage_failure(lines.take(i)),
    decreases lines.len() - i,
{
    if i == lines.len() {
        assert(lines.take(i) =~= lines);
    } else {
        assert(lines.take(i + 1).drop_last() =~= lines.take(i));
        lemma_failure_persists(lines, i + 1);
    }
}

/// Whether `tiered` belongs to the base line `base`.
fn line_belongs_to(tiered: &AivenApiKafkaInvoiceLine, base: &AivenApiKafkaInvoiceLine) -> (r: bool)
    ensures
        r == belongs_to(*tiered, *base),
{
    base.cost_type == KafkaInvoiceLineCostType::Base && tiered.project_name == base.project_name
        && tiered.service_name == base.service_name && tiered.period == base.period
}

/// Whether some base line of `lines` is the one that `tiered` belongs to.
fn has_base_line(lines: &Vec<AivenApiKafkaInvoiceLine>, tiered: &AivenApiKafkaInvoiceLine) -> (r:
    bool)
    ensures
        r == exists|j: int| 0 <= j < lines@.len() && belongs_to(*tiered, #[trigger] lines@[j]),
{
    let mut j: usize = 0;
    while j < lines.len()
        invariant
            j <= lines.len(),
            forall|m: int| 0 <= m < j ==> !belongs_to(*tiered, #[trigger] lines@[m]),
        decreases lines.len() - j,
    {
        if line_belongs_to(tiered, &lines[j]) {
            return true;
        }
        j = j + 1;
    }
    false
}

/// Checks that every base line carries its tenant and environment tags.
pub fn check_line_tags(lines: &Vec<AivenApiKafkaInvoiceLine>) -> (r: Result<(), PipelineError>)
    ensures
        r == (if has_untagged_base_line(lines@) {
            Err(PipelineError::MissingTags)
        } else {
            Ok(())
        }),
{
    let mut k: usize = 0;
    while k < lines.len()
        invariant
            k <= lines.len(),
            forall|m: int|
                0 <= m < k ==> !(is_base(#[trigger] lines@[m]) && (lines@[m].tags.tenant@.len()
                    == 0 || lines@[m].tags.environment@.len() == 0)),
        decreases lines.len() - k,
    {
        let line = &lines[k];
        if line.cost_type == KafkaInvoiceLineCostType::Base && (
        line.tags.tenant.as_str().unicode_len() == 0
            || line.tags.environment.as_str().unicode_len() == 0) {
            return Err(PipelineError::MissingTags);
        }
        k = k + 1;
    }
    Ok(())
}

/// Shares the cost of every base line among the teams of its service, adds the
/// tiered-storage lines that belong to it, and drops the rows of names that
/// `denylist` rejects.
pub fn transform(lines: &Vec<AivenApiKafkaInvoiceLine>, denylist: &Denylist) -> (r: Result<
    Vec<AllocatedCostRow>,
    PipelineError,
>)
    requires
        forall|k: int| 0 <= k < lines@.len() ==> (#[trigger] lines@[k]).period.wf(),
    ensures
        has_orphan(lines@) ==> r == Err::<Vec<AllocatedCostRow>, _>(
            PipelineError::OrphanedTieredStorageLine,
        ),
        !has_orphan(lines@) ==> match first_usage_failure(lines@) {
            Some(e) => r == Err::<Vec<AllocatedCostRow>, _>(PipelineError::Usage(e)),
            None => r is Ok && row_models(r->Ok_0@) == kept_rows(
                *denylist,
                allocated_rows(lines@, lines@),
            ),
        },
{
    let mut k: usize = 0;
    while k < lines.len()
        invariant
            k <= lines.len(),
            forall|m: int|
                0 <= m < k ==> !(is_tiered(#[trigger] lines@[m]) && !(exists|j: int|
                    0 <= j < lines@.len() && belongs_to(lines@[m], #[trigger] lines@[j]))),
        decreases lines.len() - k,
    {
        if lines[k].cost_type == KafkaInvoiceLineCostType::TieredStorage && !has_base_line(
            lines,
            &lines[k],
        ) {
            return Err(PipelineError::OrphanedTieredStorageLine);
        }
        k = k + 1;
    }
    let mut rows: Vec<AllocatedCostRow> = Vec::new();
    let mut i: usize = 0;
    while i < lines.len()
        invariant
            i <= lines.len(),
            !has_orphan(lines@),
            forall|k: int| 0 <= k < lines@.len() ==> (#[trigger] lines@[k]).period.wf(),
            first_usage_failure(lines@.take(i as int)) is None,
            row_models(rows@) == allocated_rows(lines@.take(i as int), lines@),
        decreases lines.len() - i,
    {
        let line = &lines[i];
        let ghost before = lines@.take(i as int);
        let ghost after = lines@.take(i + 1);
        assert(after.drop_last() =~= before);
        assert(after.last() == lines@[i as int]);
        if line.cost_type == KafkaInvoiceLineCostType::Base {
            let teams = match aggregate_topic_usage_by_team(&line.kafka_instance.topics) {
                Ok(t) => t,
                Err(e) => {
                    proof {
                        lemma_failure_persists(lines@, i + 1);
                    }
                    return Err(PipelineError::Usage(e));
                },
            };
            let ghost usage = usage_models(teams@);
            let ghost start = row_models(rows@);
            let mut base = allocate_base(line, &teams);
            let ghost base_models = row_models(base@);
            rows.append(&mut base);
            assert(row_models(rows@) =~= start + base_models);
            let (_, tiered_total) = usage_totals(&teams);
            let mut j: usize = 0;
            while j < lines.len()
                invariant
                    j <= lines.len(),
                    i < lines.len(),
                    line == &lines@[i as int],
                    is_base(*line),
                    usage == usage_models(teams@),
                    tiered_total == sum_tiered_sizes(usage),
                    sum_tiered_sizes(usage) <= u64::MAX,
                    forall|k: int| 0 <= k < lines@.len() ==> (#[trigger] lines@[k]).period.wf(),
                    row_models(rows@) == start + base_rows(*line, usage) + tiered_rows_for(
                        *line,
                        lines@.take(j as int),
                        usage,
                    ),
                decreases lines.len() - j,
            {
                let other = &lines[j];
                assert(lines@.take(j + 1).drop_last() =~= lines@.take(j as int));
                assert(lines@.take(j + 1).last() == lines@[j as int]);
                if tiered_total > 0 && other.cost_type == KafkaInvoiceLineCostType::TieredStorage
                    && line_belongs_to(other, line) {
                    let ghost mid = row_models(rows@);
                    let mut extra = allocate_tiered(other, line, &teams);
                    let ghost extra_models = row_models(extra@);
                    rows.append(&mut extra);
                    assert(row_models(rows@) =~= mid + extra_models);
                }
                j = j + 1;
            }
            assert(lines@.take(lines.len() as int) =~= lines@);
            assert(row_models(rows@) =~= start + instance_rows(*line, lines@));
        }
        i = i + 1;
    }
    assert(lines@.take(lines.len() as int) =~= lines@);
    Ok(denylist.classify(&rows))
}

proof fn lemma_no_tiered_rows_for(
    instance: AivenApiKafkaInvoiceLine,
    lines: Seq<AivenApiKafkaInvoiceLine>,
    usage: Seq<TeamUsageModel>,
)
    requires
        sum_tiered_sizes(usage) == 0,
    ensures
        tiered_rows_for(instance, lines, usage).len() == 0,
    decreases lines.len(),
{
    if lines.len() > 0 {
        lemma_no_tiered_rows_for(instance, lines.drop_last(), usage);
    }
}

/// A base line whose service has no topics has no teams: its usage folds
/// without error, and the run makes no row for it, base or tiered.
pub proof fn instance_without_topics_has_no_rows(
    instance: AivenApiKafkaInvoiceLine,
    lines: Seq<AivenApiKafkaInvoiceLine>,
)
    requires
        instance.kafka_instance.topics@.len() == 0,
    ensures
        usage_failure(instance.kafka_instance.topics@) is None,
        instance_rows(instance, lines).len() == 0,
{
    let usage = usage_model(instance.kafka_instance.topics@);
    assert(teams_in_order(instance.kafka_instance.topics@).len() == 0);
    assert(usage.len() == 0);
    assert(sum_tiered_sizes(usage) == 0);
    lemma_no_tiered_rows_for(instance, lines, usage);
}

/// Where `lines[j]` is the one tiered-storage line of `lines` that belongs to
/// `instance`, the tiered rows made for `instance` are those of `lines[j]`.
proof fn lemma_tiered_rows_for_single(
    instance: AivenApiKafkaInvoiceLine,
    lines: Seq<AivenApiKafkaInvoiceLine>,
    usage: Seq<TeamUsageModel>,
    j: int,
    i: int,
)
    requires
        0 <= j < lines.len(),
        0 <= i <= lines.len(),
        sum_tiered_sizes(usage) > 0,
        is_tiered(lines[j]) && belongs_to(lines[j], instance),
        forall|k: int|
            0 <= k < lines.len() && k != j ==> !(is_tiered(#[trigger] lines[k]) && belongs_to(
                lines[k],
                instance,
            )),
    ensures
        tiered_rows_for(instance, lines.take(i), usage) == if j < i {
            tiered_rows(lines[j], instance, usage, sum_tiered_sizes(usage))
        } else {
            Seq::<CostRowModel>::empty()
        },
    decreases i,
{
    if i > 0 {
        lemma_tiered_rows_for_single(instance, lines, usage, j, i - 1);
        assert(lines.take(i).drop_last() =~= lines.take(i - 1));
        assert(lines.take(i).last() == lines[i - 1]);
        if i - 1 == j {
            assert(Seq::<CostRowModel>::empty() + tiered_rows(
                lines[j],
                instance,
                usage,
                sum_tiered_sizes(usage),
            ) =~= tiered_rows(lines[j], instance, usage, sum_tiered_sizes(usage)));
        }
    } else {
        assert(lines.take(0) =~= Seq::<AivenApiKafkaInvoiceLine>::empty());
    }
}

proof fn lemma_usage_tiered_nonnegative(topics: Seq<AivenApiKafkaTopic>, team: Seq<char>)
    ensures
        team_tiered_bytes(topics, team) >= 0,
    decreases topics.len(),
{
    if topics.len() > 0 {
        lemma_usage_tiered_nonnegative(topics.drop_last(), team);
        lemma_bytes_nonnegative(topics.last().partitions@);
    }
}

/// Tiered conservation through the run: where `lines[j]` is the one
/// tiered-storage line that belongs to the base line `instance`, and the
/// service's teams hold tiered bytes, the tiered rows made for `instance` are
/// that line's shares, and they add up to its cost exactly: each has the line's
/// denominator times the tiered bytes, and their numerators add up to the
/// line's numerator times the tiered bytes.
pub proof fn instance_tiered_rows_conserve_cost(
    instance: AivenApiKafkaInvoiceLine,
    lines: Seq<AivenApiKafkaInvoiceLine>,
    j: int,
)
    requires
        0 <= j < lines.len(),
        is_tiered(lines[j]) && belongs_to(lines[j], instance),
        forall|k: int|
            0 <= k < lines.len() && k != j ==> !(is_tiered(#[trigger] lines[k]) && belongs_to(
                lines[k],
                instance,
            )),
        sum_tiered_sizes(usage_model(instance.kafka_instance.topics@)) > 0,
    ensures
        ({
            let usage = usage_model(instance.kafka_instance.topics@);
            let d = sum_tiered_sizes(usage);
            let rows = tiered_rows_for(instance, lines, usage);
            &&& rows == tiered_rows(lines[j], instance, usage, d)
            &&& total_num(rows) == line_num(lines[j]) * d
            &&& forall|k: int| 0 <= k < rows.len() ==> #[trigger] rows[k].cost_den == line_den(lines[j]) * d
        }),
{
    let usage = usage_model(instance.kafka_instance.topics@);
    lemma_tiered_rows_for_single(instance, lines, usage, j, lines.len() as int);
    assert(lines.take(lines.len() as int) =~= lines);
    let topics = instance.kafka_instance.topics@;
    assert forall|k: int| 0 <= k < usage.len() implies #[trigger] usage[k].tiered_size >= 0 by {
        lemma_usage_tiered_nonnegative(topics, teams_in_order(topics)[k]);
    }
    tiered_rows_conserve_cost(lines[j], instance, usage);
}

/// The row belongs to the service and period of `line`.
pub open spec fn has_key(row: CostRowModel, line: AivenApiKafkaInvoiceLine) -> bool {
    &&& row.project_name == line.project_name@
    &&& row.service_name == line.service_name@
    &&& row.period == line.period
}

proof fn lemma_tiered_rows_key(
    tiered: AivenApiKafkaInvoiceLine,
    instance: AivenApiKafkaInvoiceLine,
    usage: Seq<TeamUsageModel>,
    d: int,
)
    requires
        tiered.period == instance.period,
    ensures
        forall|k: int|
            0 <= k < tiered_rows(tiered, instance, usage, d).len() ==> has_key(
                #[trigger] tiered_rows(tiered, instance, usage, d)[k],
                instance,
            ),
    decreases usage.len(),
{
    if usage.len() > 0 {
        lemma_tiered_rows_key(tiered, instance, usage.drop_last(), d);
        let earlier = tiered_rows(tiered, instance, usage.drop_last(), d);
        if usage.last().tiered_size > 0 {
            let row = tiered_row(tiered, instance, usage.last(), d);
            assert forall|k: int| 0 <= k < earlier.push(row).len() implies has_key(
                #[trigger] earlier.push(row)[k],
                instance,
            ) by {
                if k < earlier.len() {
                    assert(earlier.push(row)[k] == earlier[k]);
                }
            }
        }
    }
}

proof fn lemma_tiered_rows_for_key(
    instance: AivenApiKafkaInvoiceLine,
    lines: Seq<AivenApiKafkaInvoiceLine>,
    usage: Seq<TeamUsageModel>,
)
    ensures
        forall|k: int|
            0 <= k < tiered_rows_for(instance, lines, usage).len() ==> has_key(
                #[trigger] tiered_rows_for(instance, lines, usage)[k],
                instance,
            ),
    decreases lines.len(),
{
    if lines.len() > 0 {
        lemma_tiered_rows_for_key(instance, lines.drop_last(), usage);
        let earlier = tiered_rows_for(instance, lines.drop_last(), usage);
        let line = lines.last();
        if sum_tiered_sizes(usage) > 0 && is_tiered(line) && belongs_to(line, instance) {
            let extra = tiered_rows(line, instance, usage, sum_tiered_sizes(usage));
            lemma_tiered_rows_key(line, instance, usage, sum_tiered_sizes(usage));
            assert forall|k: int| 0 <= k < (earlier + extra).len() implies has_key(
                #[trigger] (earlier + extra)[k],
                instance,
            ) by {
                if k >= earlier.len() {
                    assert((earlier + extra)[k] == extra[k - earlier.len()]);
                }
            }
        }
    }
}

/// Every row made for a base line has its key, and there is one only where
/// its service has topics.
proof fn lemma_instance_rows_key(instance: AivenApiKafkaInvoiceLine, lines: Seq<AivenApiKafkaInvoiceLine>)
    ensures
        forall|k: int|
            0 <= k < instance_rows(instance, lines).len() ==> has_key(
                #[trigger] instance_rows(instance, lines)[k],
                instance,
            ),
        instance_rows(instance, lines).len() > 0 ==> instance.kafka_instance.topics@.len() > 0,
{
    let usage = usage_model(instance.kafka_instance.topics@);
    let base = base_rows(instance, usage);
    let tiered = tiered_rows_for(instance, lines, usage);
    lemma_tiered_rows_for_key(instance, lines, usage);
    assert forall|k: int| 0 <= k < (base + tiered).len() implies has_key(
        #[trigger] (base + tiered)[k],
        instance,
    ) by {
        if k >= base.len() {
            assert((base + tiered)[k] == tiered[k - base.len()]);
        }
    }
    if instance.kafka_instance.topics@.len() == 0 {
        instance_without_topics_has_no_rows(instance, lines);
    }
}

proof fn lemma_allocated_rows_key(
    bases: Seq<AivenApiKafkaInvoiceLine>,
    lines: Seq<AivenApiKafkaInvoiceLine>,
)
    ensures
        forall|k: int|
            #![trigger allocated_rows(bases, lines)[k]]
            0 <= k < allocated_rows(bases, lines).len() ==> exists|j: int|
                0 <= j < bases.len() && is_base(#[trigger] bases[j]) && has_key(
                    allocated_rows(bases, lines)[k],
                    bases[j],
                ) && bases[j].kafka_instance.topics@.len() > 0,
    decreases bases.len(),
{
    if bases.len() > 0 {
        let prefix = bases.drop_last();
        lemma_allocated_rows_key(prefix, lines);
        let earlier = allocated_rows(prefix, lines);
        let last = bases.last();
        let extra = if is_base(last) {
            instance_rows(last, lines)
        } else {
            Seq::<CostRowModel>::empty()
        };
        lemma_instance_rows_key(last, lines);
        assert forall|k: int|
            #![trigger (earlier + extra)[k]]
            0 <= k < (earlier + extra).len() implies exists|j: int|
            0 <= j < bases.len() && is_base(#[trigger] bases[j]) && has_key(
                (earlier + extra)[k],
                bases[j],
            ) && bases[j].kafka_instance.topics@.len() > 0 by {
            if k < earlier.len() {
                assert((earlier + extra)[k] == earlier[k]);
                let j = choose|j: int|
                    0 <= j < prefix.len() && is_base(#[trigger] prefix[j]) && has_key(
                        earlier[k],
                        prefix[j],
                    ) && prefix[j].kafka_instance.topics@.len() > 0;
                assert(prefix[j] == bases[j]);
            } else {
                assert((earlier + extra)[k] == extra[k - earlier.len()]);
                assert(bases[bases.len() - 1] == last);
            }
        }
    }
}

/// A base line whose service has no topics has no teams. Where no other base
/// line has its project, service and period, the run's rows hold none with
/// that key, base or tiered; and its usage folds without error.
pub proof fn run_has_no_rows_for_instance_without_topics(
    lines: Seq<AivenApiKafkaInvoiceLine>,
    denylist: Denylist,
    i: int,
)
    requires
        0 <= i < lines.len(),
        is_base(lines[i]),
        lines[i].kafka_instance.topics@.len() == 0,
        has_unique_key(lines, i),
    ensures
        usage_failure(lines[i].kafka_instance.topics@) is None,
        forall|k: int|
            0 <= k < kept_rows(denylist, allocated_rows(lines, lines)).len() ==> !has_key(
                #[trigger] kept_rows(denylist, allocated_rows(lines, lines))[k],
                lines[i],
            ),
{
    instance_without_topics_has_no_rows(lines[i], lines);
    let all = allocated_rows(lines, lines);
    let kept = kept_rows(denylist, all);
    lemma_allocated_rows_key(lines, lines);
    assert forall|k: int| 0 <= k < kept.len() implies !has_key(#[trigger] kept[k], lines[i]) by {
        let keep = |m: CostRowModel| !denylist.denies(m.team);
        assert(all.filter(keep).contains(kept[k]));
        all.lemma_filter_contains_rev(keep, kept[k]);
        let m = choose|m: int| 0 <= m < all.len() && all[m] == kept[k];
        let j = choose|j: int|
            0 <= j < lines.len() && is_base(#[trigger] lines[j]) && has_key(all[m], lines[j])
                && lines[j].kafka_instance.topics@.len() > 0;
        assert(j != i);
    }
}

proof fn lemma_filter_none<A>(s: Seq<A>, p: spec_fn(A) -> bool)
    requires
        forall|k: int| 0 <= k < s.len() ==> !p(#[trigger] s[k]),
    ensures
        s.filter(p) == Seq::<A>::empty(),
    decreases s.len(),
{
    reveal(Seq::filter);
    if s.len() > 0 {
        lemma_filter_none(s.drop_last(), p);
    } else {
        assert(s.filter(p) =~= Seq::<A>::empty());
    }
}

proof fn lemma_filter_all<A>(s: Seq<A>, p: spec_fn(A) -> bool)
    requires
        forall|k: int| 0 <= k < s.len() ==> p(#[trigger] s[k]),
    ensures
        s.filter(p) == s,
    decreases s.len(),
{
    reveal(Seq::filter);
    if s.len() > 0 {
        lemma_filter_all(s.drop_last(), p);
        assert(s.drop_last().push(s.last()) =~= s);
    } else {
        assert(s.filter(p) =~= s);
    }
}

proof fn lemma_filter_commute<A>(s: Seq<A>, p: spec_fn(A) -> bool, q: spec_fn(A) -> bool)
    ensures
        s.filter(p).filter(q) == s.filter(q).filter(p),
    decreases s.len(),
{
    if s.len() > 0 {
        let e = s.drop_last();
        let x = s.last();
        lemma_filter_commute(e, p, q);
        assert(e.push(x) =~= s);
        e.lemma_filter_push(x, p);
        e.lemma_filter_push(x, q);
        if p(x) {
            e.filter(p).lemma_filter_push(x, q);
        }
        if q(x) {
            e.filter(q).lemma_filter_push(x, p);
        }
    } else {
        lemma_filter_all(s, p);
        lemma_filter_all(s, q);
    }
}

/// Some entry of the usage is of `team`.
pub open spec fn has_team(usage: Seq<TeamUsageModel>, team: Seq<char>) -> bool {
    exists|m: int| 0 <= m < usage.len() && usage[m].team == team
}

/// The row is a tiered row of the service and period of `line`.
pub open spec fn is_tiered_row_of(row: CostRowModel, line: AivenApiKafkaInvoiceLine) -> bool {
    has_key(row, line) && row.service == CostService::KafkaTiered
}

proof fn lemma_tiered_rows_labels(
    tiered: AivenApiKafkaInvoiceLine,
    instance: AivenApiKafkaInvoiceLine,
    usage: Seq<TeamUsageModel>,
    d: int,
)
    ensures
        forall|k: int|
            0 <= k < tiered_rows(tiered, instance, usage, d).len() ==> (#[trigger] tiered_rows(
                tiered,
                instance,
                usage,
                d,
            )[k]).service == CostService::KafkaTiered && has_team(usage, 
                tiered_rows(tiered, instance, usage, d)[k].team,
            ),
    decreases usage.len(),
{
    if usage.len() > 0 {
        let e = usage.drop_last();
        lemma_tiered_rows_labels(tiered, instance, e, d);
        let earlier = tiered_rows(tiered, instance, e, d);
        let rows = tiered_rows(tiered, instance, usage, d);
        assert forall|k: int| 0 <= k < rows.len() implies (#[trigger] rows[k]).service
            == CostService::KafkaTiered && has_team(usage, rows[k].team) by {
            if k < earlier.len() {
                assert(rows[k] == earlier[k]);
                let m = choose|m: int| 0 <= m < e.len() && e[m].team == earlier[k].team;
                assert(usage[m] == e[m]);
            } else {
                assert(usage[usage.len() - 1].team == rows[k].team);
            }
        }
    }
}

proof fn lemma_tiered_rows_for_labels(
    instance: AivenApiKafkaInvoiceLine,
    lines: Seq<AivenApiKafkaInvoiceLine>,
    usage: Seq<TeamUsageModel>,
)
    ensures
        forall|k: int|
            0 <= k < tiered_rows_for(instance, lines, usage).len() ==> (#[trigger] tiered_rows_for(
                instance,
                lines,
                usage,
            )[k]).service == CostService::KafkaTiered && has_team(
                usage,
                tiered_rows_for(instance, lines, usage)[k].team,
            ),
    decreases lines.len(),
{
    if lines.len() > 0 {
        lemma_tiered_rows_for_labels(instance, lines.drop_last(), usage);
        let earlier = tiered_rows_for(instance, lines.drop_last(), usage);
        let line = lines.last();
        if sum_tiered_sizes(usage) > 0 && is_tiered(line) && belongs_to(line, instance) {
            let extra = tiered_rows(line, instance, usage, sum_tiered_sizes(usage));
            lemma_tiered_rows_labels(line, instance, usage, sum_tiered_sizes(usage));
            assert forall|k: int| 0 <= k < (earlier + extra).len() implies (#[trigger] (earlier
                + extra)[k]).service == CostService::KafkaTiered && has_team(
                usage,
                (earlier + extra)[k].team,
            ) by {
                if k >= earlier.len() {
                    assert((earlier + extra)[k] == extra[k - earlier.len()]);
                }
            }
        }
    }
}

/// The base line `lines[i]` has a project, service and period of its own.
pub open spec fn has_unique_key(lines: Seq<AivenApiKafkaInvoiceLine>, i: int) -> bool {
    forall|j: int|
        0 <= j < lines.len() && j != i && is_base(#[trigger] lines[j]) ==> !(
        lines[j].project_name@ == lines[i].project_name@ && lines[j].service_name@
            == lines[i].service_name@ && lines[j].period == lines[i].period)
}

/// The tiered rows of the key of `lines[i]` among the rows made for the
/// first `m` lines are those made for `lines[i]`, once it is among them.
proof fn lemma_selected_rows(lines: Seq<AivenApiKafkaInvoiceLine>, i: int, m: int)
    requires
        0 <= i < lines.len(),
        0 <= m <= lines.len(),
        is_base(lines[i]),
        has_unique_key(lines, i),
    ensures
        allocated_rows(lines.take(m), lines).filter(
            |r: CostRowModel| is_tiered_row_of(r, lines[i]),
        ) == if m > i {
            tiered_rows_for(lines[i], lines, usage_model(lines[i].kafka_instance.topics@))
        } else {
            Seq::<CostRowModel>::empty()
        },
    decreases m,
{
    let sel = |r: CostRowModel| is_tiered_row_of(r, lines[i]);
    let usage = usage_model(lines[i].kafka_instance.topics@);
    if m == 0 {
        assert(lines.take(0) =~= Seq::<AivenApiKafkaInvoiceLine>::empty());
        lemma_filter_none(Seq::<CostRowModel>::empty(), sel);
    } else {
        lemma_selected_rows(lines, i, m - 1);
        let prefix = lines.take(m);
        assert(prefix.drop_last() =~= lines.take(m - 1));
        assert(prefix.last() == lines[m - 1]);
        let earlier = allocated_rows(lines.take(m - 1), lines);
        let b = lines[m - 1];
        let extra = if is_base(b) {
            instance_rows(b, lines)
        } else {
            Seq::<CostRowModel>::empty()
        };
        assert(allocated_rows(prefix, lines) == earlier + extra);
        Seq::filter_distributes_over_add(earlier, extra, sel);
        lemma_instance_rows_key(b, lines);
        if m - 1 == i {
            let base = base_rows(b, usage);
            let tiered = tiered_rows_for(b, lines, usage);
            assert forall|k: int| 0 <= k < base.len() implies !sel(#[trigger] base[k]) by {}
            lemma_filter_none(base, sel);
            lemma_tiered_rows_for_labels(b, lines, usage);
            lemma_tiered_rows_for_key(b, lines, usage);
            assert forall|k: int| 0 <= k < tiered.len() implies sel(#[trigger] tiered[k]) by {}
            lemma_filter_all(tiered, sel);
            Seq::filter_distributes_over_add(base, tiered, sel);
            assert(Seq::<CostRowModel>::empty() + tiered =~= tiered);
        } else {
            assert forall|k: int| 0 <= k < extra.len() implies !sel(#[trigger] extra[k]) by {
                if is_base(b) {
                    assert(has_key(extra[k], b));
                }
            }
            lemma_filter_none(extra, sel);
            assert(earlier.filter(sel) + Seq::<CostRowModel>::empty() =~= earlier.filter(sel));
        }
    }
}

/// Tiered conservation over the run's rows. Where the base line `lines[i]`
/// has a project, service and period of its own, `lines[j]` is the one
/// tiered-storage line that belongs to it, its teams hold tiered bytes, and
/// `denylist` drops none of them: the run's tiered rows of that key are the
/// shares of `lines[j]`, and they add up to its cost exactly.
pub proof fn run_tiered_rows_conserve_cost(
    lines: Seq<AivenApiKafkaInvoiceLine>,
    denylist: Denylist,
    i: int,
    j: int,
)
    requires
        0 <= i < lines.len(),
        is_base(lines[i]),
        has_unique_key(lines, i),
        0 <= j < lines.len(),
        is_tiered(lines[j]) && belongs_to(lines[j], lines[i]),
        forall|k: int|
            0 <= k < lines.len() && k != j ==> !(is_tiered(#[trigger] lines[k]) && belongs_to(
                lines[k],
                lines[i],
            )),
        sum_tiered_sizes(usage_model(lines[i].kafka_instance.topics@)) > 0,
        forall|m: int|
            0 <= m < usage_model(lines[i].kafka_instance.topics@).len() ==> !denylist.denies(
                (#[trigger] usage_model(lines[i].kafka_instance.topics@)[m]).team,
            ),
    ensures
        ({
            let usage = usage_model(lines[i].kafka_instance.topics@);
            let d = sum_tiered_sizes(usage);
            let rows = kept_rows(denylist, allocated_rows(lines, lines)).filter(
                |r: CostRowModel| is_tiered_row_of(r, lines[i]),
            );
            &&& rows == tiered_rows(lines[j], lines[i], usage, d)
            &&& total_num(rows) == line_num(lines[j]) * d
            &&& forall|k: int| 0 <= k < rows.len() ==> #[trigger] rows[k].cost_den == line_den(lines[j]) * d
        }),
{
    let usage = usage_model(lines[i].kafka_instance.topics@);
    let sel = |r: CostRowModel| is_tiered_row_of(r, lines[i]);
    let keep = |m: CostRowModel| !denylist.denies(m.team);
    let all = allocated_rows(lines, lines);
    lemma_selected_rows(lines, i, lines.len() as int);
    assert(lines.take(lines.len() as int) =~= lines);
    lemma_filter_commute(all, keep, sel);
    let t = tiered_rows_for(lines[i], lines, usage);
    lemma_tiered_rows_for_labels(lines[i], lines, usage);
    assert forall|k: int| 0 <= k < t.len() implies keep(#[trigger] t[k]) by {
        let m = choose|m: int| 0 <= m < usage.len() && usage[m].team == t[k].team;
        assert(!denylist.denies(usage[m].team));
    }
    lemma_filter_all(t, keep);
    instance_tiered_rows_conserve_cost(lines[i], lines, j);
}

} // verus!
