//! The failure taxonomy of the analysis passes.
//!
//! Fatal structural failures and recoverable decode failures are all reported
//! as explicit result values; no pass panics or aborts the process.

use vstd::prelude::*;
use crate::FunctionRef;

verus! {

/// Why the active-table assumption about element segments did not hold.
#[derive(Debug, Clone, Copy, PartialEq, Eq, Structural)]
pub enum StructuralIssue {
    /// The module does not hold exactly one element segment; the field is the
    /// number of segments found.
    ElementSegmentCount(usize),
    /// The single element segment is not an active segment.
    SegmentNotActive,
    /// The single element segment does not list plain function items.
    ItemsNotFunctions,
}

/// An analysis failure: either a structural assumption of a pass did not hold
/// (fatal for the whole analysis of this module) or a relocation section did
/// not decode (the host may surface the module as not analyzable).
#[derive(Debug, Clone, PartialEq)]
pub enum AnalysisError {
    /// An import name carries the split-marker prefix but does not follow the
    /// marker encoding grammar, or does not carry the import direction tag.
    MalformedSplitMarkerName { name: String },
    /// A decoded split import has no matching export; `candidates` lists every
    /// export name that contains the marker prefix, to aid debugging.
    UnresolvedSplitPair { export_name: String, candidates: Vec<String> },
    /// The element segments do not have the single active function-list shape
    /// that every table-index lookup depends on.
    StructuralAssumptionViolation { issue: StructuralIssue },
    /// A present relocation custom section holds malformed bytes.
    RelocationSectionDecodeError { section: String },
    /// A relocation offset was assigned against a function range that does not
    /// contain it: the code and relocation sections disagree about layout.
    RelocationRangeMismatch { offset: usize, func: FunctionRef },
}

/// The mathematical value of an [`AnalysisError`]: the same shape with every
/// string replaced by its character sequence.
pub enum AnalysisErrorV {
    MalformedSplitMarkerName { name: Seq<char> },
    UnresolvedSplitPair { export_name: Seq<char>, candidates: Seq<Seq<char>> },
    StructuralAssumptionViolation { issue: StructuralIssue },
    RelocationSectionDecodeError { section: Seq<char> },
    RelocationRangeMismatch { offset: usize, func: FunctionRef },
}

impl View for AnalysisError {
    type V = AnalysisErrorV;

    open spec fn view(&self) -> AnalysisErrorV {
        match self {
            AnalysisError::MalformedSplitMarkerName { name } => {
                AnalysisErrorV::MalformedSplitMarkerName { name: name@ }
            },
            AnalysisError::UnresolvedSplitPair { export_name, candidates } => {
                AnalysisErrorV::UnresolvedSplitPair {
                    export_name: export_name@,
                    candidates: candidates@.map_values(|c: String| c@),
                }
            },
            AnalysisError::StructuralAssumptionViolation { issue } => {
                AnalysisErrorV::StructuralAssumptionViolation { issue: *issue }
            },
            AnalysisError::RelocationSectionDecodeError { section } => {
                AnalysisErrorV::RelocationSectionDecodeError { section: section@ }
            },
            AnalysisError::RelocationRangeMismatch { offset, func } => {
                AnalysisErrorV::RelocationRangeMismatch { offset: *offset, func: *func }
            },
        }
    }
}

} // verus!
