//! Dropping rows whose team name is really an internal topic of Kafka.

use crate::allocate::{row_models, AllocatedCostRow, CostRowModel};
use crate::text::{
    contains_text, ends_with_text, has_infix, has_prefix, has_suffix, starts_with_text,
};
use vstd::prelude::*;

verus! {

/// Patterns of team names that do not name a team: the name of a row is
/// dropped when it contains one of `contains`, starts with one of `prefixes`
/// or ends with one of `suffixes`.
#[derive(Clone, Debug)]
pub struct Denylist {
    pub contains: Vec<String>,
    pub prefixes: Vec<String>,
    pub suffixes: Vec<String>,
}

pub open spec fn texts(v: Seq<String>) -> Seq<Seq<char>> {
    v.map_values(|s: String| s@)
}

impl Denylist {
    /// Whether the list drops a row of this team.
    pub open spec fn denies(self, team: Seq<char>) -> bool {
        ||| exists|i: int| 0 <= i < self.contains@.len() && has_infix(team, #[trigger] self.contains@[i]@)
        ||| exists|i: int| 0 <= i < self.prefixes@.len() && has_prefix(team, #[trigger] self.prefixes@[i]@)
        ||| exists|i: int| 0 <= i < self.suffixes@.len() && has_suffix(team, #[trigger] self.suffixes@[i]@)
    }

    /// The usual list: Kafka Streams join metadata (`JOINTHIS`, `JOINOTHER`),
    /// internal topics (`__`), and Kafka Streams internals (`-repartition`,
    /// `-changelog`).
    pub fn standard() -> (r: Denylist)
        ensures
            texts(r.contains@) == seq!["JOINTHIS"@, "JOINOTHER"@],
            texts(r.prefixes@) == seq!["__"@],
            texts(r.suffixes@) == seq!["-repartition"@, "-changelog"@],
    {
        let r = Denylist {
            contains: vec![String::from_str("JOINTHIS"), String::from_str("JOINOTHER")],
            prefixes: vec![String::from_str("__")],
            suffixes: vec![String::from_str("-repartition"), String::from_str("-changelog")],
        };
        assert(texts(r.contains@) =~= seq!["JOINTHIS"@, "JOINOTHER"@]);
        assert(texts(r.prefixes@) =~= seq!["__"@]);
        assert(texts(r.suffixes@) =~= seq!["-repartition"@, "-changelog"@]);
        r
    }

    /// Whether a row of this team is dropped.
    pub fn is_denied(&self, team: &str) -> (r: bool)
        ensures
            r == self.denies(team@),
    {
        let mut i: usize = 0;
        while i < self.contains.len()
            invariant
                i <= self.contains@.len(),
                forall|k: int| 0 <= k < i ==> !has_infix(team@, #[trigger] self.contains@[k]@),
            decreases self.contains.len() - i,
        {
            if contains_text(team, self.contains[i].as_str()) {
                return true;
            }
            i = i + 1;
        }
        let mut i: usize = 0;
        while i < self.prefixes.len()
            invariant
                i <= self.prefixes@.len(),
                forall|k: int| 0 <= k < i ==> !has_prefix(team@, #[trigger] self.prefixes@[k]@),
            decreases self.prefixes.len() - i,
        {
            if starts_with_text(team, self.prefixes[i].as_str()) {
                return true;
            }
            i = i + 1;
        }
        let mut i: usize = 0;
        while i < self.suffixes.len()
            invariant
                i <= self.suffixes@.len(),
                forall|k: int| 0 <= k < i ==> !has_suffix(team@, #[trigger] self.suffixes@[k]@),
            decreases self.suffixes.len() - i,
        {
            if ends_with_text(team, self.suffixes[i].as_str()) {
                return true;
            }
            i = i + 1;
        }
        false
    }

    /// The rows whose team the list does not drop, in their order.
    pub fn classify(&self, rows: &Vec<AllocatedCostRow>) -> (r: Vec<AllocatedCostRow>)
        ensures
            row_models(r@) == kept_rows(*self, row_models(rows@)),
    {
        let mut out: Vec<AllocatedCostRow> = Vec::new();
        let mut i: usize = 0;
        while i < rows.len()
            invariant
                i <= rows.len(),
                row_models(out@) == kept_rows(*self, row_models(rows@.take(i as int))),
            decreases rows.len() - i,
        {
            let ghost before = out@;
            assert(row_models(rows@.take(i + 1)) =~= row_models(rows@.take(i as int)).push(
                rows@[i as int]@,
            ));
            proof {
                row_models(rows@.take(i as int)).lemma_filter_push(
                    rows@[i as int]@,
                    |m: CostRowModel| !self.denies(m.team),
                );
            }
            if !self.is_denied(rows[i].team.as_str()) {
                out.push(rows[i].duplicate());
                assert(row_models(out@) =~= row_models(before).push(rows@[i as int]@));
            }
            i = i + 1;
        }
        assert(rows@.take(rows.len() as int) =~= rows@);
        out
    }
}

/// The rows whose team `d` does not drop.
pub open spec fn kept_rows(d: Denylist, rows: Seq<CostRowModel>) -> Seq<CostRowModel> {
    rows.filter(|m: CostRowModel| !d.denies(m.team))
}

/// Classifying twice keeps the same rows as classifying once.
pub proof fn classify_is_idempotent(d: Denylist, rows: Seq<CostRowModel>)
    ensures
        kept_rows(d, kept_rows(d, rows)) == kept_rows(d, rows),
    decreases rows.len(),
{
    let keep = |m: CostRowModel| !d.denies(m.team);
    if rows.len() > 0 {
        let earlier = rows.drop_last();
        classify_is_idempotent(d, earlier);
        assert(rows =~= earlier.push(rows.last()));
        earlier.lemma_filter_push(rows.last(), keep);
        if keep(rows.last()) {
            kept_rows(d, earlier).lemma_filter_push(rows.last(), keep);
        }
    } else {
        reveal(Seq::filter);
        assert(kept_rows(d, rows) =~= rows);
    }
}

} // verus!
