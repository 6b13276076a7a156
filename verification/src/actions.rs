//! Solver actions: the ordered instructions the interpreter hands to the
//! unverified driver, which replays them against the external layout solver.
//!
//! Handles are the registry's dense integers; the driver keeps the table from
//! handle to solver node. Because operations already applied stay applied on
//! a later failure, the driver replays the returned prefix whatever the
//! status.

use crate::style::NodeStyle;
use vstd::prelude::*;

verus! {

/// One instruction for the layout solver.
pub enum SolverAction {
    /// Create a new leaf under `handle` with `style`.
    CreateLeaf { handle: u64, style: NodeStyle },
    /// Replace the style of the node under `handle`.
    SetStyle { handle: u64, style: NodeStyle },
    /// Assign the ordered child list of the node under `handle`.
    SetChildren { handle: u64, children: Vec<u64> },
    /// Remove the node under `handle` from the solver tree.
    RemoveNode { handle: u64 },
    /// Drop the whole solver tree; only the full-buffer rebuild issues this.
    ClearTree,
    /// Compute the layout rooted at `root`.
    ComputeLayout { root: u64 },
}

/// Mathematical reading of a solver action.
pub enum SpecAction {
    CreateLeaf { handle: u64, style: NodeStyle },
    SetStyle { handle: u64, style: NodeStyle },
    SetChildren { handle: u64, children: Seq<u64> },
    RemoveNode { handle: u64 },
    ClearTree,
    ComputeLayout { root: u64 },
}

impl View for SolverAction {
    type V = SpecAction;

    open spec fn view(&self) -> SpecAction {
        match self {
            SolverAction::CreateLeaf { handle, style } => SpecAction::CreateLeaf {
                handle: *handle,
                style: *style,
            },
            SolverAction::SetStyle { handle, style } => SpecAction::SetStyle {
                handle: *handle,
                style: *style,
            },
            SolverAction::SetChildren { handle, children } => SpecAction::SetChildren {
                handle: *handle,
                children: children@,
            },
            SolverAction::RemoveNode { handle } => SpecAction::RemoveNode { handle: *handle },
            SolverAction::ClearTree => SpecAction::ClearTree,
            SolverAction::ComputeLayout { root } => SpecAction::ComputeLayout { root: *root },
        }
    }
}

/// The mathematical reading of a whole action list.
pub open spec fn abstract_actions(s: Seq<SolverAction>) -> Seq<SpecAction> {
    Seq::new(s.len(), |i: int| s[i]@)
}

/// What one call of the mutation interpreter hands back: a status code and
/// the solver actions of the successfully applied prefix.
pub struct ApplyOutcome {
    /// 0 on success, a distinct negative code per failure cause.
    pub status: i32,
    /// Actions to replay against the solver, in order; on failure these are
    /// the operations already applied before the failing one.
    pub actions: Vec<SolverAction>,
}

} // verus!
