//! The immutable module snapshot that every pass reads.
//!
//! The host decodes a binary once into this plain representation and then
//! hands it, by shared reference, to each analysis pass. A function is
//! identified everywhere by its [`FunctionRef`]: its position in `functions`,
//! a stable dense key. Names are carried only for display and may be absent
//! or duplicated; no pass keys anything by name.

use vstd::prelude::*;
use crate::FunctionRef;

verus! {

/// One import of the module: its declared name, and its function identity if
/// (and only if) it is a function import.
#[derive(Debug, Clone)]
pub struct ImportItem {
    pub name: String,
    pub func: Option<FunctionRef>,
}

/// One export of the module: its declared name, and the function it targets
/// if (and only if) it exports a function.
#[derive(Debug, Clone)]
pub struct ExportItem {
    pub name: String,
    pub func: Option<FunctionRef>,
}

/// The shape of one instruction, as far as the passes care: a memory load, an
/// indirect call, or anything else.
#[derive(Debug, Clone, Copy, PartialEq, Eq, Structural)]
pub enum InstrKind {
    Load,
    CallIndirect,
    Other,
}

/// The body of a locally-defined function: its flattened instruction sequence
/// and the half-open byte range `[range_start, range_end)` it occupied in the
/// code section.
#[derive(Debug, Clone)]
pub struct LocalBody {
    pub instrs: Vec<InstrKind>,
    pub range_start: usize,
    pub range_end: usize,
}

/// One function of the module. Its [`FunctionRef`] is its index in
/// [`ModuleInfo::functions`]. `local` is `Some` exactly for locally-defined
/// functions.
#[derive(Debug, Clone)]
pub struct FunctionInfo {
    pub name: Option<String>,
    pub local: Option<LocalBody>,
}

/// One custom section: its name and its raw bytes.
#[derive(Debug, Clone)]
pub struct CustomSection {
    pub name: String,
    pub data: Vec<u8>,
}

/// What one element segment lists: plain function items, or anything else.
#[derive(Debug, Clone)]
pub enum ElementContent {
    Functions(Vec<FunctionRef>),
    Other,
}

/// One element segment, discriminated as active or not.
#[derive(Debug, Clone)]
pub struct ElementSegment {
    pub active: bool,
    pub content: ElementContent,
}

/// The function identities an element segment's content lists (none if it
/// does not list plain function items).
pub open spec fn element_functions(c: ElementContent) -> Seq<FunctionRef> {
    match c {
        ElementContent::Functions(ids) => ids@,
        ElementContent::Other => Seq::empty(),
    }
}

/// The immutable snapshot of a decoded module.
#[derive(Debug, Clone)]
pub struct ModuleInfo {
    pub imports: Vec<ImportItem>,
    pub exports: Vec<ExportItem>,
    pub functions: Vec<FunctionInfo>,
    pub customs: Vec<CustomSection>,
    pub elements: Vec<ElementSegment>,
}

impl ModuleInfo {
    /// Every function identity mentioned anywhere in the snapshot indexes a
    /// function of `functions`. The provider assigns identities, so this holds
    /// of any faithfully converted module.
    pub open spec fn wf(&self) -> bool {
        &&& forall|i: int|
            #![trigger self.imports@[i]]
            0 <= i < self.imports@.len() ==> (match self.imports@[i].func {
                Some(f) => f < self.functions@.len(),
                None => true,
            })
        &&& forall|i: int|
            #![trigger self.exports@[i]]
            0 <= i < self.exports@.len() ==> (match self.exports@[i].func {
                Some(f) => f < self.functions@.len(),
                None => true,
            })
        &&& forall|s: int, k: int|
            #![trigger element_functions(self.elements@[s].content)[k]]
            0 <= s < self.elements@.len() && 0 <= k < element_functions(
                self.elements@[s].content,
            ).len() ==> element_functions(self.elements@[s].content)[k] < self.functions@.len()
    }
}

} // verus!
