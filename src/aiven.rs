//! Invoices and invoice lines of the billing provider, as the allocation reads them.

use crate::amount::Decimal;
use crate::period::YearMonth;
use crate::text::{contains_text, has_infix, same_text};
use crate::topic::AivenApiKafka;
use vstd::prelude::*;

verus! {

/// The lifecycle state of an invoice.
#[derive(Clone, Copy, Debug, PartialEq, Eq, Structural)]
pub enum AivenInvoiceState {
    Paid,
    Mailed,
    Estimate,
}

impl AivenInvoiceState {
    pub open spec fn text(self) -> Seq<char> {
        match self {
            AivenInvoiceState::Paid => "paid"@,
            AivenInvoiceState::Mailed => "mailed"@,
            AivenInvoiceState::Estimate => "estimate"@,
        }
    }

    /// The lower-case name of the state, as the warehouse stores it.
    pub fn as_str(&self) -> (r: &'static str)
        ensures
            r@ == self.text(),
    {
        match self {
            AivenInvoiceState::Paid => "paid",
            AivenInvoiceState::Mailed => "mailed",
            AivenInvoiceState::Estimate => "estimate",
        }
    }
}

/// An invoice: one billing period of the billing group.
#[derive(Clone, Debug)]
pub struct AivenInvoice {
    pub id: String,
    pub state: AivenInvoiceState,
    /// The month in which the invoice's period begins.
    pub period_begin: YearMonth,
}

impl AivenInvoice {
    /// A copy of this invoice.
    pub fn duplicate(&self) -> (r: AivenInvoice)
        ensures
            r == *self,
    {
        AivenInvoice { id: self.id.clone(), state: self.state, period_begin: self.period_begin }
    }
}

/// What an invoice line charges for.
#[derive(Clone, Copy, Debug, Default, PartialEq, Eq, Structural)]
pub enum KafkaInvoiceLineCostType {
    #[default]
    Base,
    TieredStorage,
}

/// The tenant and environment tags of a Kafka service.
#[derive(Clone, Debug, Default)]
pub struct ServiceTags {
    pub tenant: String,
    pub environment: String,
}

/// One Kafka line of an invoice: the cost of one service in one period.
#[derive(Clone, Debug)]
pub struct AivenApiKafkaInvoiceLine {
    pub cost_type: KafkaInvoiceLineCostType,
    pub service_name: String,
    pub project_name: String,
    pub invoice_id: String,
    pub invoice_state: AivenInvoiceState,
    pub tags: ServiceTags,
    pub kafka_instance: AivenApiKafka,
    /// The line's total, in the local currency.
    pub line_total_local: Decimal,
    /// The month in which the line's period begins.
    pub period: YearMonth,
}

/// Whether an invoice line of this service type bills Kafka.
pub fn is_kafka_service_type(service_type: &str) -> (r: bool)
    ensures
        r == (service_type@ == "kafka"@),
{
    same_text(service_type, "kafka")
}

/// What `str::to_lowercase` makes of a text.
pub uninterp spec fn lowercase_of(s: Seq<char>) -> Seq<char>;

/// Relies on `str::to_lowercase`, whose result depends on the characters alone.
#[verifier::external_body]
fn lowercase(s: &str) -> (r: String)
    ensures
        r@ == lowercase_of(s@),
{
    s.to_lowercase()
}

/// The text that marks a line of tiered storage in a lower-cased description.
pub open spec fn tiered_storage_marker() -> Seq<char> {
    ": kafka tiered storage"@
}

/// The cost type of a line whose lower-cased description is `lowered`.
pub open spec fn cost_type_of(lowered: Seq<char>) -> KafkaInvoiceLineCostType {
    if has_infix(lowered, tiered_storage_marker()) {
        KafkaInvoiceLineCostType::TieredStorage
    } else {
        KafkaInvoiceLineCostType::Base
    }
}

impl KafkaInvoiceLineCostType {
    /// The cost type of a line whose description, already lower-cased, is `lowered`.
    pub fn from_lowercase_description(lowered: &str) -> (r: KafkaInvoiceLineCostType)
        ensures
            r == cost_type_of(lowered@),
    {
        if contains_text(lowered, ": kafka tiered storage") {
            KafkaInvoiceLineCostType::TieredStorage
        } else {
            KafkaInvoiceLineCostType::Base
        }
    }

    /// The cost type of a line with this description, compared without regard to case.
    pub fn from_description(description: &str) -> (r: KafkaInvoiceLineCostType)
        ensures
            r == cost_type_of(lowercase_of(description@)),
    {
        let lowered = lowercase(description);
        KafkaInvoiceLineCostType::from_lowercase_description(lowered.as_str())
    }
}

} // verus!
