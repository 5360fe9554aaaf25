//! Sharing the cost of one Kafka service among the teams that use them.

use crate::aiven::{AivenApiKafkaInvoiceLine, AivenInvoiceState};
use crate::amount::{cost_text, format_ratio, pow10, product, Decimal};
use crate::natural::{add_naturals, mul_add, nat_of};
use crate::period::{days_in_month, YearMonth};
use crate::usage::{sum_base_sizes, sum_tiered_sizes, usage_models, TeamUsage, TeamUsageModel};
use vstd::prelude::*;

verus! {

/// The service label of an allocated row.
#[derive(Clone, Copy, Debug, PartialEq, Eq, Structural)]
pub enum CostService {
    KafkaBase,
    KafkaTiered,
}

impl CostService {
    pub open spec fn text(self) -> Seq<char> {
        match self {
            CostService::KafkaBase => "kafka-base"@,
            CostService::KafkaTiered => "kafka-tiered"@,
        }
    }

    pub fn as_str(&self) -> (r: &'static str)
        ensures
            r@ == self.text(),
    {
        match self {
            CostService::KafkaBase => "kafka-base",
            CostService::KafkaTiered => "kafka-tiered",
        }
    }
}

/// The part of a cost line that one team pays, as an exact fraction.
#[derive(Clone, Copy, Debug, PartialEq, Eq, Structural)]
pub enum Share {
    /// One part in `teams`: the service holds no bytes.
    Even { teams: u64 },
    /// Half the cost shared equally, each team's flat share counted twice,
    /// plus the team's part of the other half by weight of bytes:
    /// `1 / teams + bytes / (2 * total_bytes)`.
    Weighted { teams: u64, bytes: u64, total_bytes: u64 },
    /// `bytes / total_bytes`, by weight of tiered bytes.
    Part { bytes: u64, total_bytes: u64 },
}

impl Share {
    pub open spec fn numerator(self) -> int {
        match self {
            Share::Even { .. } => 1,
            Share::Weighted { teams, bytes, total_bytes } => 2 * total_bytes + teams * bytes,
            Share::Part { bytes, .. } => bytes as int,
        }
    }

    pub open spec fn denominator(self) -> int {
        match self {
            Share::Even { teams } => teams as int,
            Share::Weighted { teams, total_bytes, .. } => 2 * teams * total_bytes,
            Share::Part { total_bytes, .. } => total_bytes as int,
        }
    }

    /// The denominator is not zero.
    pub open spec fn wf(self) -> bool {
        match self {
            Share::Even { teams } => teams > 0,
            Share::Weighted { teams, total_bytes, .. } => teams > 0 && total_bytes > 0,
            Share::Part { total_bytes, .. } => total_bytes > 0,
        }
    }
}

/// One team's share of one cost line.
#[derive(Clone, Debug, PartialEq, Eq)]
pub struct AllocatedCostRow {
    pub project_name: String,
    pub environment: String,
    pub team: String,
    pub service: CostService,
    pub status: AivenInvoiceState,
    pub service_name: String,
    pub tenant: String,
    /// The total of the line that is shared.
    pub line_total: Decimal,
    /// The team's part of it.
    pub share: Share,
    pub period: YearMonth,
    pub number_of_days: u8,
}

/// The mathematical value of an `AllocatedCostRow`; its cost is
/// `cost_num / cost_den`.
pub struct CostRowModel {
    pub project_name: Seq<char>,
    pub environment: Seq<char>,
    pub team: Seq<char>,
    pub service: CostService,
    pub status: AivenInvoiceState,
    pub service_name: Seq<char>,
    pub tenant: Seq<char>,
    pub cost_num: int,
    pub cost_den: int,
    pub period: YearMonth,
    pub number_of_days: int,
}

impl View for AllocatedCostRow {
    type V = CostRowModel;

    open spec fn view(&self) -> CostRowModel {
        CostRowModel {
            project_name: self.project_name@,
            environment: self.environment@,
            team: self.team@,
            service: self.service,
            status: self.status,
            service_name: self.service_name@,
            tenant: self.tenant@,
            cost_num: self.line_total.numerator() * self.share.numerator(),
            cost_den: self.line_total.denominator() * self.share.denominator(),
            period: self.period,
            number_of_days: self.number_of_days as int,
        }
    }
}

impl AllocatedCostRow {
    /// A copy of this row.
    pub fn duplicate(&self) -> (r: AllocatedCostRow)
        ensures
            r@ == self@,
            r.period == self.period,
            r.share == self.share,
    {
        AllocatedCostRow {
            project_name: self.project_name.clone(),
            environment: self.environment.clone(),
            team: self.team.clone(),
            service: self.service,
            status: self.status,
            service_name: self.service_name.clone(),
            tenant: self.tenant.clone(),
            line_total: copy_decimal(&self.line_total),
            share: self.share,
            period: self.period,
            number_of_days: self.number_of_days,
        }
    }

    /// The row's cost with two decimals, rounded half up; nothing is rounded before.
    pub fn cost_text(&self) -> (r: String)
        requires
            self.share.wf(),
        ensures
            r@ == cost_text(self@.cost_num, self@.cost_den),
    {
        let m = &self.line_total.mantissa;
        let (num, factors): (Vec<u32>, Vec<u64>) = match self.share {
            Share::Even { teams } => (mul_add(m, 1, 0), vec![teams]),
            Share::Weighted { teams, bytes, total_bytes } => {
                let flat = mul_add(&mul_add(m, total_bytes, 0), 2, 0);
                let weighted = mul_add(&mul_add(m, teams, 0), bytes, 0);
                (add_naturals(&flat, &weighted), vec![2, teams, total_bytes])
            },
            Share::Part { bytes, total_bytes } => (mul_add(m, bytes, 0), vec![total_bytes]),
        };
        let ghost mm = nat_of(m@) as int;
        proof {
            assert(product(Seq::<u64>::empty()) == 1);
            match self.share {
                Share::Even { teams } => {
                    assert(seq![teams].last() == teams);
                    assert(factors@ =~= seq![teams]);
                    assert(seq![teams].drop_last() =~= Seq::<u64>::empty());
                    assert(product(factors@) == teams);
                },
                Share::Weighted { teams, bytes, total_bytes } => {
                    assert(mm * total_bytes * 2 + mm * teams * bytes == mm * (2 * total_bytes
                        + teams * bytes)) by (nonlinear_arith);
                    assert(factors@ =~= seq![2u64, teams, total_bytes]);
                    assert(seq![2u64, teams, total_bytes].drop_last() =~= seq![2u64, teams]);
                    assert(seq![2u64, teams].drop_last() =~= seq![2u64]);
                    assert(seq![2u64].drop_last() =~= Seq::<u64>::empty());
                    assert(seq![2u64].last() == 2);
                    assert(product(seq![2u64]) == 2);
                    assert(seq![2u64, teams].last() == teams);
                    assert(seq![2u64, teams, total_bytes].last() == total_bytes);
                    assert(product(seq![2u64, teams]) == 2 * teams);
                    assert(product(factors@) == 2 * teams * total_bytes);
                },
                Share::Part { bytes, total_bytes } => {
                    assert(factors@ =~= seq![total_bytes]);
                    assert(seq![total_bytes].drop_last() =~= Seq::<u64>::empty());
                    assert(seq![total_bytes].last() == total_bytes);
                    assert(product(factors@) == total_bytes);
                },
            }
            let sn = self.share.numerator();
            let num_v = nat_of(num@) as int;
            assert(num_v == mm * sn);
            assert(self@.cost_num == (if self.line_total.negative {
                -num_v
            } else {
                num_v
            })) by (nonlinear_arith)
                requires
                    num_v == mm * sn,
                    self@.cost_num == self.line_total.numerator() * sn,
                    self.line_total.numerator() == (if self.line_total.negative {
                        -mm
                    } else {
                        mm
                    }),
            ;
        }
        format_ratio(self.line_total.negative, &num, self.line_total.scale, &factors)
    }
}

/// A copy of a decimal amount.
pub fn copy_decimal(d: &Decimal) -> (r: Decimal)
    ensures
        r.negative == d.negative,
        r.mantissa@ == d.mantissa@,
        r.scale == d.scale,
{
    let mut m: Vec<u32> = Vec::new();
    let mut i: usize = 0;
    while i < d.mantissa.len()
        invariant
            i <= d.mantissa@.len(),
            m@ == d.mantissa@.take(i as int),
        decreases d.mantissa.len() - i,
    {
        m.push(d.mantissa[i]);
        assert(m@ =~= d.mantissa@.take(i + 1));
        i = i + 1;
    }
    assert(m@ =~= d.mantissa@);
    Decimal { negative: d.negative, mantissa: m, scale: d.scale }
}

pub open spec fn row_models(rows: Seq<AllocatedCostRow>) -> Seq<CostRowModel> {
    rows.map_values(|r: AllocatedCostRow| r@)
}

/// The sum of the numerators of some rows.
pub open spec fn total_num(rows: Seq<CostRowModel>) -> int
    decreases rows.len(),
{
    if rows.len() == 0 {
        0
    } else {
        total_num(rows.drop_last()) + rows.last().cost_num
    }
}

pub open spec fn line_num(line: AivenApiKafkaInvoiceLine) -> int {
    line.line_total_local.numerator()
}

pub open spec fn line_den(line: AivenApiKafkaInvoiceLine) -> int {
    line.line_total_local.denominator()
}

/// A team's base share: equal where the service holds no bytes, else weighted.
pub open spec fn base_share(teams: int, bytes: int, total_bytes: int) -> Share {
    if total_bytes == 0 {
        Share::Even { teams: teams as u64 }
    } else {
        Share::Weighted { teams: teams as u64, bytes: bytes as u64, total_bytes: total_bytes as u64 }
    }
}

/// The base row of one team of the service that `line` bills.
pub open spec fn base_row(
    line: AivenApiKafkaInvoiceLine,
    usage: TeamUsageModel,
    teams: int,
    total_bytes: int,
) -> CostRowModel {
    let share = base_share(teams, usage.base_size, total_bytes);
    CostRowModel {
        project_name: line.project_name@,
        environment: line.tags.environment@,
        team: usage.team,
        service: CostService::KafkaBase,
        status: line.invoice_state,
        service_name: line.service_name@,
        tenant: line.tags.tenant@,
        cost_num: line_num(line) * share.numerator(),
        cost_den: line_den(line) * share.denominator(),
        period: line.period,
        number_of_days: days_in_month(line.period.year as int, line.period.month as int),
    }
}

/// The base rows of a service: one per team, in the order of the teams.
pub open spec fn base_rows(line: AivenApiKafkaInvoiceLine, usage: Seq<TeamUsageModel>) -> Seq<
    CostRowModel,
> {
    usage.map_values(
        |u: TeamUsageModel| base_row(line, u, usage.len() as int, sum_base_sizes(usage)),
    )
}

/// The tiered row of one team: the service's labels come from `instance`, the
/// cost and the period from `tiered`.
pub open spec fn tiered_row(
    tiered: AivenApiKafkaInvoiceLine,
    instance: AivenApiKafkaInvoiceLine,
    usage: TeamUsageModel,
    total_bytes: int,
) -> CostRowModel {
    CostRowModel {
        project_name: instance.project_name@,
        environment: instance.tags.environment@,
        team: usage.team,
        service: CostService::KafkaTiered,
        status: instance.invoice_state,
        service_name: instance.service_name@,
        tenant: instance.tags.tenant@,
        cost_num: line_num(tiered) * usage.tiered_size,
        cost_den: line_den(tiered) * total_bytes,
        period: tiered.period,
        number_of_days: days_in_month(tiered.period.year as int, tiered.period.month as int),
    }
}

/// The tiered rows of a service: one per team with tiered bytes, in the order of the teams.
pub open spec fn tiered_rows(
    tiered: AivenApiKafkaInvoiceLine,
    instance: AivenApiKafkaInvoiceLine,
    usage: Seq<TeamUsageModel>,
    total_bytes: int,
) -> Seq<CostRowModel>
    decreases usage.len(),
{
    if usage.len() == 0 {
        seq![]
    } else {
        let earlier = tiered_rows(tiered, instance, usage.drop_last(), total_bytes);
        if usage.last().tiered_size > 0 {
            earlier.push(tiered_row(tiered, instance, usage.last(), total_bytes))
        } else {
            earlier
        }
    }
}

/// The base and tiered bytes of all teams.
pub fn usage_totals(teams: &Vec<TeamUsage>) -> (r: (u128, u128))
    ensures
        r.0 == sum_base_sizes(usage_models(teams@)),
        r.1 == sum_tiered_sizes(usage_models(teams@)),
{
    let mut base: u128 = 0;
    let mut tiered: u128 = 0;
    let mut i: usize = 0;
    while i < teams.len()
        invariant
            i <= teams.len(),
            base == sum_base_sizes(usage_models(teams@.take(i as int))),
            tiered == sum_tiered_sizes(usage_models(teams@.take(i as int))),
            base <= i * (u64::MAX as int),
            tiered <= i * (u64::MAX as int),
        decreases teams.len() - i,
    {
        assert(usage_models(teams@.take(i + 1)).drop_last() =~= usage_models(
            teams@.take(i as int),
        ));
        proof {
            assert((i + 1) * (u64::MAX as int) <= (usize::MAX as int) * (u64::MAX as int))
                by (nonlinear_arith)
                requires
                    i + 1 <= usize::MAX,
            ;
            assert((usize::MAX as int) * (u64::MAX as int) < u128::MAX);
        }
        base = base + teams[i].base_size as u128;
        tiered = tiered + teams[i].tiered_size as u128;
        i = i + 1;
    }
    assert(teams@.take(teams.len() as int) =~= teams@);
    (base, tiered)
}

/// Shares the base cost of the service that `line` bills among its teams:
/// each team pays its flat share twice plus its storage share.
pub fn allocate_base(line: &AivenApiKafkaInvoiceLine, teams: &Vec<TeamUsage>) -> (r: Vec<
    AllocatedCostRow,
>)
    requires
        line.period.wf(),
        sum_base_sizes(usage_models(teams@)) <= u64::MAX,
    ensures
        row_models(r@) == base_rows(*line, usage_models(teams@)),
        forall|k: int| 0 <= k < r@.len() ==> (#[trigger] r@[k]).share.wf() && r@[k].period.wf(),
{
    let (total_bytes, _) = usage_totals(teams);
    let ghost usage = usage_models(teams@);
    let n = teams.len() as u64;
    let days = line.period.num_days();
    let mut out: Vec<AllocatedCostRow> = Vec::new();
    let mut i: usize = 0;
    while i < teams.len()
        invariant
            i <= teams.len(),
            n == teams@.len(),
            line.period.wf(),
            total_bytes == sum_base_sizes(usage),
            total_bytes <= u64::MAX,
            usage == usage_models(teams@),
            days == days_in_month(line.period.year as int, line.period.month as int),
            row_models(out@) == base_rows(*line, usage).take(i as int),
            forall|k: int|
                0 <= k < out@.len() ==> (#[trigger] out@[k]).share.wf() && out@[k].period.wf(),
        decreases teams.len() - i,
    {
        let team = &teams[i];
        let share = if total_bytes == 0 {
            Share::Even { teams: n }
        } else {
            Share::Weighted { teams: n, bytes: team.base_size, total_bytes: total_bytes as u64 }
        };
        let row = AllocatedCostRow {
            project_name: line.project_name.clone(),
            environment: line.tags.environment.clone(),
            team: team.team.clone(),
            service: CostService::KafkaBase,
            status: line.invoice_state,
            service_name: line.service_name.clone(),
            tenant: line.tags.tenant.clone(),
            line_total: copy_decimal(&line.line_total_local),
            share,
            period: line.period,
            number_of_days: days,
        };
        assert(usage[i as int] == team@);
        assert(row@ == base_rows(*line, usage)[i as int]);
        let ghost before = out@;
        out.push(row);
        assert(row_models(out@) =~= row_models(before).push(row@));
        assert(base_rows(*line, usage).take(i + 1) =~= base_rows(*line, usage).take(i as int).push(
            row@,
        ));
        i = i + 1;
    }
    assert(base_rows(*line, usage).take(teams.len() as int) =~= base_rows(*line, usage));
    out
}

/// Shares the cost of a tiered-storage line among the teams of the service
/// `instance` with tiered bytes, by weight of those bytes.
pub fn allocate_tiered(
    tiered: &AivenApiKafkaInvoiceLine,
    instance: &AivenApiKafkaInvoiceLine,
    teams: &Vec<TeamUsage>,
) -> (r: Vec<AllocatedCostRow>)
    requires
        tiered.period.wf(),
        sum_tiered_sizes(usage_models(teams@)) <= u64::MAX,
    ensures
        row_models(r@) == tiered_rows(
            *tiered,
            *instance,
            usage_models(teams@),
            sum_tiered_sizes(usage_models(teams@)),
        ),
        forall|k: int| 0 <= k < r@.len() ==> (#[trigger] r@[k]).share.wf() && r@[k].period.wf(),
{
    let (_, total_bytes) = usage_totals(teams);
    let ghost usage = usage_models(teams@);
    let days = tiered.period.num_days();
    let mut out: Vec<AllocatedCostRow> = Vec::new();
    let mut i: usize = 0;
    while i < teams.len()
        invariant
            i <= teams.len(),
            tiered.period.wf(),
            total_bytes == sum_tiered_sizes(usage),
            total_bytes <= u64::MAX,
            usage == usage_models(teams@),
            days == days_in_month(tiered.period.year as int, tiered.period.month as int),
            row_models(out@) == tiered_rows(
                *tiered,
                *instance,
                usage.take(i as int),
                total_bytes as int,
            ),
            forall|k: int|
                0 <= k < out@.len() ==> (#[trigger] out@[k]).share.wf() && out@[k].period.wf(),
        decreases teams.len() - i,
    {
        let team = &teams[i];
        assert(usage.take(i + 1).drop_last() =~= usage.take(i as int));
        if team.tiered_size > 0 {
            proof {
                lemma_tiered_sum_positive(usage, i as int);
            }
            let row = AllocatedCostRow {
                project_name: instance.project_name.clone(),
                environment: instance.tags.environment.clone(),
                team: team.team.clone(),
                service: CostService::KafkaTiered,
                status: instance.invoice_state,
                service_name: instance.service_name.clone(),
                tenant: instance.tags.tenant.clone(),
                line_total: copy_decimal(&tiered.line_total_local),
                share: Share::Part { bytes: team.tiered_size, total_bytes: total_bytes as u64 },
                period: tiered.period,
                number_of_days: days,
            };
            let ghost before = out@;
            out.push(row);
            assert(row_models(out@) =~= row_models(before).push(row@));
        }
        assert(row_models(out@) =~= tiered_rows(
            *tiered,
            *instance,
            usage.take(i + 1),
            total_bytes as int,
        ));
        i = i + 1;
    }
    assert(usage.take(teams.len() as int) =~= usage);
    out
}

/// The tiered bytes of all teams are at least those of any one team.
proof fn lemma_tiered_sum_positive(usage: Seq<TeamUsageModel>, i: int)
    requires
        0 <= i < usage.len(),
        forall|k: int| 0 <= k < usage.len() ==> #[trigger] usage[k].tiered_size >= 0,
    ensures
        sum_tiered_sizes(usage) >= usage[i].tiered_size,
    decreases usage.len(),
{
    lemma_tiered_sum_nonnegative(usage.drop_last());
    if i < usage.len() - 1 {
        lemma_tiered_sum_positive(usage.drop_last(), i);
    }
}

proof fn lemma_tiered_sum_nonnegative(usage: Seq<TeamUsageModel>)
    requires
        forall|k: int| 0 <= k < usage.len() ==> #[trigger] usage[k].tiered_size >= 0,
    ensures
        sum_tiered_sizes(usage) >= 0,
    decreases usage.len(),
{
    if usage.len() > 0 {
        lemma_tiered_sum_nonnegative(usage.drop_last());
    }
}

/// The numerators of the tiered rows add up to the line's numerator times the
/// tiered bytes.
proof fn lemma_tiered_numerators(
    tiered: AivenApiKafkaInvoiceLine,
    instance: AivenApiKafkaInvoiceLine,
    usage: Seq<TeamUsageModel>,
    d: int,
)
    requires
        forall|k: int| 0 <= k < usage.len() ==> #[trigger] usage[k].tiered_size >= 0,
    ensures
        total_num(tiered_rows(tiered, instance, usage, d)) == line_num(tiered) * sum_tiered_sizes(
            usage,
        ),
        forall|k: int|
            0 <= k < tiered_rows(tiered, instance, usage, d).len() ==> (#[trigger] tiered_rows(
                tiered,
                instance,
                usage,
                d,
            )[k]).cost_den == line_den(tiered) * d,
    decreases usage.len(),
{
    if usage.len() > 0 {
        let earlier = usage.drop_last();
        lemma_tiered_numerators(tiered, instance, earlier, d);
        let c = line_num(tiered);
        let t = usage.last().tiered_size;
        let s = sum_tiered_sizes(earlier);
        let prev = tiered_rows(tiered, instance, earlier, d);
        let rows = tiered_rows(tiered, instance, usage, d);
        assert(c * (s + t) == c * s + c * t) by (nonlinear_arith);
        if t > 0 {
            let row = tiered_row(tiered, instance, usage.last(), d);
            assert(rows == prev.push(row));
            assert(prev.push(row).drop_last() =~= prev);
            assert(prev.push(row).last() == row);
            assert(total_num(rows) == total_num(prev) + c * t);
            assert forall|k: int| 0 <= k < rows.len() implies #[trigger] rows[k].cost_den
                == line_den(tiered) * d by {
                if k < prev.len() {
                    assert(rows[k] == prev[k]);
                }
            }
        } else {
            assert(rows == prev);
            assert(c * t == 0) by (nonlinear_arith)
                requires
                    t == 0,
            ;
        }
    }
}

/// Tiered conservation: every tiered row of a service has the line's
/// denominator times the tiered bytes, and their numerators add up to the
/// line's numerator times the tiered bytes: the rows add up to the cost of the
/// tiered-storage line exactly.
pub proof fn tiered_rows_conserve_cost(
    tiered: AivenApiKafkaInvoiceLine,
    instance: AivenApiKafkaInvoiceLine,
    usage: Seq<TeamUsageModel>,
)
    requires
        forall|k: int| 0 <= k < usage.len() ==> #[trigger] usage[k].tiered_size >= 0,
    ensures
        ({
            let d = sum_tiered_sizes(usage);
            let rows = tiered_rows(tiered, instance, usage, d);
            &&& total_num(rows) == line_num(tiered) * d
            &&& forall|k: int| 0 <= k < rows.len() ==> #[trigger] rows[k].cost_den == line_den(tiered) * d
        }),
{
    lemma_tiered_numerators(tiered, instance, usage, sum_tiered_sizes(usage));
}

/// The numerators of rows that all have numerator `v` add up to `v` times their number.
proof fn lemma_total_num_uniform(rows: Seq<CostRowModel>, v: int)
    requires
        forall|k: int| 0 <= k < rows.len() ==> #[trigger] rows[k].cost_num == v,
    ensures
        total_num(rows) == rows.len() * v,
    decreases rows.len(),
{
    if rows.len() > 0 {
        lemma_total_num_uniform(rows.drop_last(), v);
        assert((rows.len() - 1) * v + v == rows.len() * v) by (nonlinear_arith);
    }
}

/// Base conservation for a service whose topics hold no bytes: every team pays
/// one part in the number of teams, and the parts add up to the line's cost
/// exactly.
pub proof fn base_rows_conserve_cost_without_bytes(
    line: AivenApiKafkaInvoiceLine,
    usage: Seq<TeamUsageModel>,
)
    requires
        0 < usage.len() <= u64::MAX,
        sum_base_sizes(usage) == 0,
    ensures
        ({
            let rows = base_rows(line, usage);
            &&& total_num(rows) == line_num(line) * usage.len()
            &&& forall|k: int| 0 <= k < rows.len() ==> #[trigger] rows[k].cost_den == line_den(line) * usage.len()
        }),
{
    let rows = base_rows(line, usage);
    assert forall|k: int| 0 <= k < rows.len() implies #[trigger] rows[k].cost_num == line_num(
        line,
    ) && rows[k].cost_den == line_den(line) * usage.len() by {
        assert(rows[k] == base_row(line, usage[k], usage.len() as int, 0));
    }
    lemma_total_num_uniform(rows, line_num(line));
}

/// A service with a single team and no bytes bills that team exactly the
/// line's cost.
pub proof fn single_team_pays_whole_base_cost(
    line: AivenApiKafkaInvoiceLine,
    usage: Seq<TeamUsageModel>,
)
    requires
        usage.len() == 1,
        sum_base_sizes(usage) == 0,
    ensures
        base_rows(line, usage).len() == 1,
        base_rows(line, usage)[0].cost_num == line_num(line),
        base_rows(line, usage)[0].cost_den == line_den(line),
{
    assert(base_rows(line, usage)[0] == base_row(line, usage[0], 1, 0));
    assert(base_share(1, usage[0].base_size, 0) == Share::Even { teams: 1 });
    assert(line_den(line) * 1 == line_den(line));
    assert(line_num(line) * 1 == line_num(line));
}

/// A service without teams yields no rows, base or tiered.
pub proof fn no_teams_no_rows(
    line: AivenApiKafkaInvoiceLine,
    tiered: AivenApiKafkaInvoiceLine,
    usage: Seq<TeamUsageModel>,
    total_bytes: int,
)
    requires
        usage.len() == 0,
    ensures
        base_rows(line, usage).len() == 0,
        tiered_rows(tiered, line, usage, total_bytes).len() == 0,
{
}

} // verus!
