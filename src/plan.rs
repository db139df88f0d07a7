//! The statement as the executor receives it: plan tree, side plans and
//! range table.

use vstd::prelude::*;

verus! {

/// The operator of a plan node, as far as the walk cares.
pub enum PlanKind {
    /// A full scan of the table at position `scanrelid` (counted from 1) of
    /// the range table.
    SeqScan { scanrelid: u32 },
    /// A union of child plans.
    Append { appendplans: Vec<Plan> },
    /// A scan over the output of an inner plan.
    SubqueryScan { subplan: Box<Plan> },
    /// Any other operator.
    Other,
}

/// A node of an execution plan, with its generic left and right children.
pub struct Plan {
    pub kind: PlanKind,
    pub lefttree: Option<Box<Plan>>,
    pub righttree: Option<Box<Plan>>,
}

/// A planned statement: the main plan, the side plans of its common table
/// expressions and its range table, which gives for each position the
/// identifier of the table there (0 where the entry is no table).
pub struct PlannedStmt {
    pub plan_tree: Option<Plan>,
    pub subplans: Vec<Plan>,
    pub rtable: Vec<u32>,
}

/// The kind of a statement.
#[derive(Clone, Copy, PartialEq, Eq, Debug, Structural)]
pub enum CmdType {
    Select,
    Update,
    Insert,
    Delete,
    Merge,
    /// Any other statement (utility commands and the like).
    Other,
}

/// A statement about to be executed.
pub struct QueryDesc {
    pub operation: CmdType,
    pub source_text: String,
    /// The execution only serves to explain the plan.
    pub explain_only: bool,
    /// Instrumentation requested for the execution (explain with analyze);
    /// 0 for none.
    pub instrument_options: u32,
    pub plannedstmt: Option<PlannedStmt>,
}

/// The scan of the node `p` itself, if it is one.
pub open spec fn own_scans(p: Plan) -> Seq<u32> {
    match p.kind {
        PlanKind::SeqScan { scanrelid } => seq![scanrelid],
        _ => Seq::empty(),
    }
}

/// The range table positions of the sequential scans of `p`, in the order
/// of the walk: the node itself, then its child list or inner plan, then
/// its left and its right subtree.
pub open spec fn plan_scans(p: Plan) -> Seq<u32>
    decreases p,
{
    let inner = match p.kind {
        PlanKind::Append { appendplans } => plan_list_scans(appendplans@),
        PlanKind::SubqueryScan { subplan } => plan_scans(*subplan),
        _ => Seq::empty(),
    };
    let left = match p.lefttree {
        Some(l) => plan_scans(*l),
        None => Seq::empty(),
    };
    let right = match p.righttree {
        Some(r) => plan_scans(*r),
        None => Seq::empty(),
    };
    own_scans(p) + inner + left + right
}

/// The scans below `p` through its child list or inner plan.
pub open spec fn inner_scans(p: Plan) -> Seq<u32> {
    match p.kind {
        PlanKind::Append { appendplans } => plan_list_scans(appendplans@),
        PlanKind::SubqueryScan { subplan } => plan_scans(*subplan),
        _ => Seq::empty(),
    }
}

/// The scans of an optional subtree.
pub open spec fn subtree_scans(t: Option<Box<Plan>>) -> Seq<u32> {
    match t {
        Some(b) => plan_scans(*b),
        None => Seq::empty(),
    }
}

/// The scans of each plan of `ps`, in list order.
pub open spec fn plan_list_scans(ps: Seq<Plan>) -> Seq<u32>
    decreases ps,
{
    if ps.len() == 0 {
        Seq::empty()
    } else {
        plan_list_scans(ps.subrange(0, ps.len() - 1)) + plan_scans(ps[ps.len() - 1])
    }
}

/// The scans of a statement: its main plan, then each side plan.
pub open spec fn statement_scans(ps: PlannedStmt) -> Seq<u32> {
    main_scans(ps.plan_tree) + plan_list_scans(ps.subplans@)
}

/// The scans of an optional main plan.
pub open spec fn main_scans(t: Option<Plan>) -> Seq<u32> {
    match t {
        Some(p) => plan_scans(p),
        None => Seq::empty(),
    }
}

/// The table identifier at range table position `scanrelid` (counted from
/// 1), `None` where the range table has no such position.
pub fn scanned_table(scanrelid: u32, rtables: &Vec<u32>) -> (r: Option<u32>)
    ensures
        r == (if 1 <= scanrelid <= rtables@.len() {
            Some(rtables@[scanrelid - 1])
        } else {
            None
        }),
{
    if scanrelid == 0 || scanrelid as usize > rtables.len() {
        None
    } else {
        Some(rtables[scanrelid as usize - 1])
    }
}

} // verus!
