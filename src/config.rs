//! The settings of a run, and the addresses and statements made from them.

use vstd::prelude::*;

verus! {

/// How many topic details are fetched at once: the provider's API refuses
/// wider bursts.
pub const TOPIC_FETCH_CONCURRENCY: usize = 5;

/// The settings of a run: the provider's token and billing group, and the
/// warehouse table that receives the rows.
#[derive(Clone, Debug)]
pub struct Cfg {
    pub aiven_api_token: String,
    pub billing_group_id: String,
    pub bigquery_project_id: String,
    pub bigquery_dataset: String,
    pub bigquery_table: String,
}

pub open spec fn api_root() -> Seq<char> {
    "https://api.aiven.io/v1"@
}

/// The path of a Kafka service of a project.
pub open spec fn service_path(project: Seq<char>, service: Seq<char>) -> Seq<char> {
    api_root() + "/project/"@ + project + "/service/"@ + service
}

impl Cfg {
    /// The settings of the production billing group and warehouse table, with
    /// the given token.
    pub fn new(aiven_api_token: String) -> (r: Cfg)
        ensures
            r.aiven_api_token == aiven_api_token,
            r.billing_group_id@ == "7d14362d-1e2a-4864-b408-1cc631bc4fab"@,
            r.bigquery_project_id@ == "nais-io"@,
            r.bigquery_dataset@ == "aiven_cost_regional"@,
            r.bigquery_table@ == "kafka_cost"@,
    {
        Cfg {
            aiven_api_token,
            billing_group_id: String::from_str("7d14362d-1e2a-4864-b408-1cc631bc4fab"),
            bigquery_project_id: String::from_str("nais-io"),
            bigquery_dataset: String::from_str("aiven_cost_regional"),
            bigquery_table: String::from_str("kafka_cost"),
        }
    }

    /// The address that lists the invoices of the billing group.
    pub fn invoices_url(&self) -> (r: String)
        ensures
            r@ == api_root() + "/billing-group/"@ + self.billing_group_id@ + "/invoice"@,
    {
        let mut out = String::from_str("https://api.aiven.io/v1");
        out.append("/billing-group/");
        out.append(self.billing_group_id.as_str());
        out.append("/invoice");
        out
    }

    /// The address that lists the lines of an invoice.
    pub fn invoice_lines_url(&self, invoice_id: &str) -> (r: String)
        ensures
            r@ == api_root() + "/billing-group/"@ + self.billing_group_id@ + "/invoice/"@
                + invoice_id@ + "/lines"@,
    {
        let mut out = String::from_str("https://api.aiven.io/v1");
        out.append("/billing-group/");
        out.append(self.billing_group_id.as_str());
        out.append("/invoice/");
        out.append(invoice_id);
        out.append("/lines");
        out
    }

    /// The statement that deletes every row of the table whose status is not `paid`.
    pub fn delete_unpaid_statement(&self) -> (r: String)
        ensures
            r@ == "DELETE FROM `"@ + self.bigquery_project_id@ + "."@ + self.bigquery_dataset@
                + "."@ + self.bigquery_table@ + "` WHERE status NOT IN ('paid')"@,
    {
        let mut out = String::from_str("DELETE FROM `");
        out.append(self.bigquery_project_id.as_str());
        out.append(".");
        out.append(self.bigquery_dataset.as_str());
        out.append(".");
        out.append(self.bigquery_table.as_str());
        out.append("` WHERE status NOT IN ('paid')");
        out
    }
}

fn service_path_text(project: &str, service: &str) -> (r: String)
    ensures
        r@ == service_path(project@, service@),
{
    let mut out = String::from_str("https://api.aiven.io/v1");
    out.append("/project/");
    out.append(project);
    out.append("/service/");
    out.append(service);
    out
}

/// The address of the tags of a Kafka service.
pub fn service_tags_url(project: &str, service: &str) -> (r: String)
    ensures
        r@ == service_path(project@, service@) + "/tags"@,
{
    let mut out = service_path_text(project, service);
    out.append("/tags");
    out
}

/// The address that lists the topics of a Kafka service.
pub fn topics_url(project: &str, service: &str) -> (r: String)
    ensures
        r@ == service_path(project@, service@) + "/topic"@,
{
    let mut out = service_path_text(project, service);
    out.append("/topic");
    out
}

/// The address of one topic of a Kafka service, with its partitions.
pub fn topic_url(project: &str, service: &str, topic: &str) -> (r: String)
    ensures
        r@ == service_path(project@, service@) + "/topic/"@ + topic@,
{
    let mut out = service_path_text(project, service);
    out.append("/topic/");
    out.append(topic);
    out
}

} // verus!
