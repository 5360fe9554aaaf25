//! The rows of the warehouse table, as they are stored.

use crate::allocate::{AllocatedCostRow, CostRowModel};
use crate::amount::cost_text;
use vstd::prelude::*;

verus! {

/// A row of the warehouse table, every column as text (the cost as a decimal
/// number with two decimals).
#[derive(Clone, Debug, Default, PartialEq, Eq)]
pub struct WarehouseRow {
    pub project_name: String,
    pub environment: String,
    pub team: String,
    pub service: String,
    pub status: String,
    pub service_name: String,
    pub tenant: String,
    pub cost: String,
    pub date: String,
    pub number_of_days: u8,
}

/// The kind of a column of the warehouse table.
#[derive(Clone, Copy, Debug, PartialEq, Eq, Structural)]
pub enum ColumnKind {
    Text,
    /// A decimal number of high precision.
    Numeric,
    Integer,
}

/// `stored` is the warehouse form of the allocated row `row`: the cost with
/// two decimals, the period as `YYYY-MM`.
pub open spec fn stores(stored: WarehouseRow, row: CostRowModel) -> bool {
    &&& stored.project_name@ == row.project_name
    &&& stored.environment@ == row.environment
    &&& stored.team@ == row.team
    &&& stored.service@ == row.service.text()
    &&& stored.status@ == row.status.text()
    &&& stored.service_name@ == row.service_name
    &&& stored.tenant@ == row.tenant
    &&& stored.cost@ == cost_text(row.cost_num, row.cost_den)
    &&& stored.date@ == row.period.text()
    &&& stored.number_of_days == row.number_of_days
}

/// The warehouse form of an allocated row.
pub fn to_warehouse_row(row: &AllocatedCostRow) -> (r: WarehouseRow)
    requires
        row.period.wf(),
        row.share.wf(),
    ensures
        stores(r, row@),
{
    WarehouseRow {
        project_name: row.project_name.clone(),
        environment: row.environment.clone(),
        team: row.team.clone(),
        service: String::from_str(row.service.as_str()),
        status: String::from_str(row.status.as_str()),
        service_name: row.service_name.clone(),
        tenant: row.tenant.clone(),
        cost: row.cost_text(),
        date: row.period.to_text(),
        number_of_days: row.number_of_days,
    }
}

/// The warehouse forms of allocated rows, in their order.
pub fn to_warehouse_rows(rows: &Vec<AllocatedCostRow>) -> (r: Vec<WarehouseRow>)
    requires
        forall|k: int|
            0 <= k < rows@.len() ==> (#[trigger] rows@[k]).period.wf() && rows@[k].share.wf(),
    ensures
        r@.len() == rows@.len(),
        forall|k: int| 0 <= k < rows@.len() ==> stores(#[trigger] r@[k], rows@[k]@),
{
    let mut out: Vec<WarehouseRow> = Vec::new();
    let mut i: usize = 0;
    while i < rows.len()
        invariant
            i <= rows.len(),
            forall|k: int|
                0 <= k < rows@.len() ==> (#[trigger] rows@[k]).period.wf() && rows@[k].share.wf(),
            out@.len() == i,
            forall|k: int| 0 <= k < i ==> stores(#[trigger] out@[k], rows@[k]@),
        decreases rows.len() - i,
    {
        out.push(to_warehouse_row(&rows[i]));
        i = i + 1;
    }
    out
}

/// The columns of the warehouse table, in order.
pub fn table_columns() -> (r: Vec<(&'static str, ColumnKind)>)
    ensures
        r@.len() == 10,
        r@[0].0@ == "project_name"@ && r@[0].1 == ColumnKind::Text,
        r@[1].0@ == "environment"@ && r@[1].1 == ColumnKind::Text,
        r@[2].0@ == "team"@ && r@[2].1 == ColumnKind::Text,
        r@[3].0@ == "service"@ && r@[3].1 == ColumnKind::Text,
        r@[4].0@ == "status"@ && r@[4].1 == ColumnKind::Text,
        r@[5].0@ == "service_name"@ && r@[5].1 == ColumnKind::Text,
        r@[6].0@ == "tenant"@ && r@[6].1 == ColumnKind::Text,
        r@[7].0@ == "cost"@ && r@[7].1 == ColumnKind::Numeric,
        r@[8].0@ == "date"@ && r@[8].1 == ColumnKind::Text,
        r@[9].0@ == "number_of_days"@ && r@[9].1 == ColumnKind::Integer,
{
    vec![
        ("project_name", ColumnKind::Text),
        ("environment", ColumnKind::Text),
        ("team", ColumnKind::Text),
        ("service", ColumnKind::Text),
        ("status", ColumnKind::Text),
        ("service_name", ColumnKind::Text),
        ("tenant", ColumnKind::Text),
        ("cost", ColumnKind::Numeric),
        ("date", ColumnKind::Text),
        ("number_of_days", ColumnKind::Integer),
    ]
}

} // verus!
