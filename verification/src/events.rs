//! The events the engine broadcasts.

use crate::strutil::{clone_string_vec, name_views};
use vstd::prelude::*;

verus! {

/// Impact level of news on subject wealth.
#[derive(Debug, Clone)]
pub enum ImpactLevel {
    High,
    Medium,
    Low,
    Unknown,
}

/// Severity of a system notice.
#[derive(Debug, Clone)]
pub enum Severity {
    Info,
    Warning,
    Error,
}

/// A real-time update delivered to subscribers. Monetary fields are in
/// ticks (see `crate::money`); percentages are scaled by `PCT_SCALE`.
#[derive(Debug, Clone)]
pub enum UpdateMessage {
    /// Net worth change of one subject.
    WealthUpdate {
        name: String,
        previous_net_worth: i64,
        new_net_worth: i64,
        change_percentage: i64,
        reason: String,
    },
    /// A price move of one symbol, with the subjects it touches.
    StockUpdate { symbol: String, price: i64, change: i64, affected_billionaires: Vec<String> },
    /// Breaking news with the subjects it touches.
    NewsUpdate {
        headline: String,
        summary: String,
        affected_billionaires: Vec<String>,
        impact: ImpactLevel,
    },
    /// A system notice; these bypass subscription filtering.
    SystemUpdate { message: String, severity: Severity },
}

/// The subjects an update names as affected.
pub open spec fn spec_affected(u: UpdateMessage) -> Seq<Seq<char>> {
    match u {
        UpdateMessage::WealthUpdate { name, .. } => seq![name@],
        UpdateMessage::StockUpdate { affected_billionaires, .. } => name_views(
            affected_billionaires@,
        ),
        UpdateMessage::NewsUpdate { affected_billionaires, .. } => name_views(
            affected_billionaires@,
        ),
        UpdateMessage::SystemUpdate { .. } => seq![],
    }
}

/// Whether an update is a system notice.
pub open spec fn spec_is_system(u: UpdateMessage) -> bool {
    u matches UpdateMessage::SystemUpdate { .. }
}

/// The affected subjects of an update, as values.
pub fn affected_subjects(u: &UpdateMessage) -> (r: Vec<String>)
    ensures
        name_views(r@) =~= spec_affected(*u),
{
    match u {
        UpdateMessage::WealthUpdate { name, .. } => {
            let mut out: Vec<String> = Vec::new();
            out.push(name.clone());
            assert(name_views(out@) =~= seq![name@]);
            out
        },
        UpdateMessage::StockUpdate { affected_billionaires, .. } => clone_string_vec(
            affected_billionaires,
        ),
        UpdateMessage::NewsUpdate { affected_billionaires, .. } => clone_string_vec(
            affected_billionaires,
        ),
        UpdateMessage::SystemUpdate { .. } => {
            let out: Vec<String> = Vec::new();
            assert(name_views(out@) =~= Seq::<Seq<char>>::empty());
            out
        },
    }
}

} // verus!
