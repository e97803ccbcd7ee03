//! Split-point discovery, indirect-call classification, and active-table
//! enumeration: three of the four read-only analysis passes.

use vstd::prelude::*;
use crate::FunctionRef;
use crate::errors::{AnalysisError, AnalysisErrorV, StructuralIssue};
use crate::marker::{
    Direction, SplitMarker, SplitMarkerV, decode_marker_name, encode_marker, encode_marker_name,
    find_token, first_match, lemma_match_at_zero_is_prefix, marker_prefix, match_at_exec,
    parse_marker, str_eq,
};
use crate::model::{ElementContent, ExportItem, FunctionInfo, ImportItem, InstrKind, ModuleInfo};

verus! {

/// A matched import/export pair marking one lazy-loaded code boundary.
///
/// Invariant (guaranteed by [`accumulate_split_points`]): `import_name` is a
/// well-formed marker name with the import direction tag, and `export_name`
/// is the same name with only the direction tag swapped.
#[derive(Debug, Clone, PartialEq)]
pub struct SplitPoint {
    pub module_name: String,
    pub import: FunctionRef,
    pub export: FunctionRef,
    pub import_name: String,
    pub export_name: String,
    pub component_name: String,
}

/// The mathematical value of a [`SplitPoint`].
pub struct SplitPointV {
    pub module_name: Seq<char>,
    pub import: FunctionRef,
    pub export: FunctionRef,
    pub import_name: Seq<char>,
    pub export_name: Seq<char>,
    pub component_name: Seq<char>,
}

impl View for SplitPoint {
    type V = SplitPointV;

    open spec fn view(&self) -> SplitPointV {
        SplitPointV {
            module_name: self.module_name@,
            import: self.import,
            export: self.export,
            import_name: self.import_name@,
            export_name: self.export_name@,
            component_name: self.component_name@,
        }
    }
}

/// A module named by one or more split points.
pub struct SplitModule {
    pub name: String,
}

/// Whether a name contains the marker prefix anywhere; such export names are
/// listed as near-miss candidates in the unresolved-pair diagnostic.
pub open spec fn contains_marker(name: Seq<char>) -> bool {
    first_match(name, marker_prefix()) is Some
}

/// The export names that contain the marker prefix, in export order.
pub open spec fn marker_candidates(exports: Seq<ExportItem>) -> Seq<Seq<char>>
    decreases exports.len(),
{
    if exports.len() == 0 {
        Seq::empty()
    } else {
        let rest = marker_candidates(exports.drop_first());
        if contains_marker(exports[0].name@) {
            seq![exports[0].name@] + rest
        } else {
            rest
        }
    }
}

/// The first export carrying the given name, if any: the exact-name lookup of
/// the export table.
pub open spec fn first_export_named(exports: Seq<ExportItem>, name: Seq<char>) -> Option<ExportItem>
    decreases exports.len(),
{
    if exports.len() == 0 {
        None
    } else if exports[0].name@ == name {
        Some(exports[0])
    } else {
        first_export_named(exports.drop_first(), name)
    }
}

/// What one import contributes to split-point discovery: nothing, one split
/// point, or a fatal error.
pub enum ImportOutcome {
    Skip,
    Point(SplitPointV),
    Fail(AnalysisErrorV),
}

/// The contribution of one import. An import is considered only if its name
/// starts with the marker prefix and it imports a function; a considered name
/// must then decode as an import-directed marker, and its sibling export
/// (same name with the direction tag swapped) must resolve to a function.
pub open spec fn import_step(imp: ImportItem, exports: Seq<ExportItem>) -> ImportOutcome {
    if !marker_prefix().is_prefix_of(imp.name@) {
        ImportOutcome::Skip
    } else {
        match imp.func {
            None => ImportOutcome::Skip,
            Some(import_id) => match parse_marker(imp.name@) {
                None => ImportOutcome::Fail(
                    AnalysisErrorV::MalformedSplitMarkerName { name: imp.name@ },
                ),
                Some(mk) => if !(mk.direction is Import) {
                    ImportOutcome::Fail(AnalysisErrorV::MalformedSplitMarkerName { name: imp.name@ })
                } else {
                    let export_name = encode_marker(
                        SplitMarkerV { direction: Direction::Export, ..mk },
                    );
                    match first_export_named(exports, export_name) {
                        Some(e) => match e.func {
                            Some(export_id) => ImportOutcome::Point(
                                SplitPointV {
                                    module_name: mk.module_name,
                                    import: import_id,
                                    export: export_id,
                                    import_name: imp.name@,
                                    export_name: export_name,
                                    component_name: mk.component_name,
                                },
                            ),
                            None => ImportOutcome::Fail(
                                AnalysisErrorV::UnresolvedSplitPair {
                                    export_name: export_name,
                                    candidates: marker_candidates(exports),
                                },
                            ),
                        },
                        None => ImportOutcome::Fail(
                            AnalysisErrorV::UnresolvedSplitPair {
                                export_name: export_name,
                                candidates: marker_candidates(exports),
                            },
                        ),
                    }
                },
            },
        }
    }
}

/// The split points of a module, in import iteration order, or the first
/// fatal error that discovery meets.
pub open spec fn split_points_spec(imports: Seq<ImportItem>, exports: Seq<ExportItem>) -> Result<
    Seq<SplitPointV>,
    AnalysisErrorV,
>
    decreases imports.len(),
{
    if imports.len() == 0 {
        Ok(Seq::empty())
    } else {
        match import_step(imports[0], exports) {
            ImportOutcome::Skip => split_points_spec(imports.drop_first(), exports),
            ImportOutcome::Fail(e) => Err(e),
            ImportOutcome::Point(sp) => match split_points_spec(imports.drop_first(), exports) {
                Ok(v) => Ok(seq![sp] + v),
                Err(e) => Err(e),
            },
        }
    }
}

/// The mathematical value of a split-point discovery result.
pub open spec fn split_points_result_view(r: Result<Vec<SplitPoint>, AnalysisError>) -> Result<
    Seq<SplitPointV>,
    AnalysisErrorV,
> {
    match r {
        Ok(v) => Ok(v@.map_values(|sp: SplitPoint| sp@)),
        Err(e) => Err(e@),
    }
}

/// The full contract of [`accumulate_split_points`]: the result is exactly
/// what [`split_points_spec`] assigns to the snapshot.
pub open spec fn split_points_post(
    imports: Seq<ImportItem>,
    exports: Seq<ExportItem>,
    r: Result<Vec<SplitPoint>, AnalysisError>,
) -> bool {
    split_points_result_view(r) == split_points_spec(imports, exports)
}

proof fn lemma_marker_candidates_step(exports: Seq<ExportItem>, k: int)
    requires
        0 <= k < exports.len(),
    ensures
        marker_candidates(exports.skip(k)) == if contains_marker(exports[k].name@) {
            seq![exports[k].name@] + marker_candidates(exports.skip(k + 1))
        } else {
            marker_candidates(exports.skip(k + 1))
        },
{
    assert(exports.skip(k).drop_first() =~= exports.skip(k + 1));
    assert(exports.skip(k)[0] == exports[k]);
}

proof fn lemma_first_export_named_step(exports: Seq<ExportItem>, name: Seq<char>, k: int)
    requires
        0 <= k < exports.len(),
    ensures
        first_export_named(exports.skip(k), name) == if exports[k].name@ == name {
            Some(exports[k])
        } else {
            first_export_named(exports.skip(k + 1), name)
        },
{
    assert(exports.skip(k).drop_first() =~= exports.skip(k + 1));
    assert(exports.skip(k)[0] == exports[k]);
}

proof fn lemma_split_points_spec_step(imports: Seq<ImportItem>, exports: Seq<ExportItem>, k: int)
    requires
        0 <= k < imports.len(),
    ensures
        split_points_spec(imports.skip(k), exports) == match import_step(imports[k], exports) {
            ImportOutcome::Skip => split_points_spec(imports.skip(k + 1), exports),
            ImportOutcome::Fail(e) => Err(e),
            ImportOutcome::Point(sp) => match split_points_spec(imports.skip(k + 1), exports) {
                Ok(v) => Ok(seq![sp] + v),
                Err(e) => Err(e),
            },
        },
{
    assert(imports.skip(k).drop_first() =~= imports.skip(k + 1));
    assert(imports.skip(k)[0] == imports[k]);
}

/// The export names that contain the marker prefix, for the unresolved-pair
/// diagnostic.
fn collect_marker_candidates(exports: &Vec<ExportItem>) -> (r: Vec<String>)
    ensures
        r@.map_values(|c: String| c@) == marker_candidates(exports@),
{
    let mut out: Vec<String> = Vec::new();
    let mut k: usize = 0;
    proof {
        assert(exports@.skip(0) =~= exports@);
    }
    while k < exports.len()
        invariant
            k <= exports.len(),
            marker_candidates(exports@) == out@.map_values(|c: String| c@) + marker_candidates(
                exports@.skip(k as int),
            ),
        decreases exports.len() - k,
    {
        proof {
            reveal_strlit("__wasm_split");
            lemma_marker_candidates_step(exports@, k as int);
        }
        let ghost prev = out@;
        if find_token(exports[k].name.as_str(), "__wasm_split").is_some() {
            out.push(exports[k].name.clone());
            proof {
                assert(out@.map_values(|c: String| c@) =~= prev.map_values(|c: String| c@)
                    + seq![exports@[k as int].name@]);
                assert(prev.map_values(|c: String| c@) + (seq![exports@[k as int].name@]
                    + marker_candidates(exports@.skip(k + 1))) =~= (prev.map_values(
                    |c: String| c@,
                ) + seq![exports@[k as int].name@]) + marker_candidates(exports@.skip(k + 1)));
            }
        }
        k += 1;
    }
    proof {
        assert(exports@.skip(exports@.len() as int) =~= Seq::<ExportItem>::empty());
        assert(marker_candidates(exports@) =~= out@.map_values(|c: String| c@));
    }
    out
}

/// The first export named `name`, as an index, if any.
fn find_export_by_name(exports: &Vec<ExportItem>, name: &String) -> (r: Option<usize>)
    ensures
        match r {
            Some(k) => k < exports@.len() && first_export_named(exports@, name@) == Some(
                exports@[k as int],
            ),
            None => first_export_named(exports@, name@) is None,
        },
{
    let mut k: usize = 0;
    proof {
        assert(exports@.skip(0) =~= exports@);
    }
    while k < exports.len()
        invariant
            k <= exports.len(),
            first_export_named(exports@, name@) == first_export_named(
                exports@.skip(k as int),
                name@,
            ),
        decreases exports.len() - k,
    {
        proof {
            lemma_first_export_named_step(exports@, name@, k as int);
        }
        if str_eq(exports[k].name.as_str(), name.as_str()) {
            return Some(k);
        }
        k += 1;
    }
    proof {
        assert(exports@.skip(exports@.len() as int) =~= Seq::<ExportItem>::empty());
    }
    None
}

/// What one import contributes, as executable data.
enum EvalOutcome {
    Skip,
    Point(SplitPoint),
    Fail(AnalysisError),
}

/// Evaluate one import against the export table.
fn eval_import(imp: &ImportItem, exports: &Vec<ExportItem>) -> (r: EvalOutcome)
    ensures
        match r {
            EvalOutcome::Skip => import_step(*imp, exports@) is Skip,
            EvalOutcome::Point(sp) => import_step(*imp, exports@) == ImportOutcome::Point(sp@),
            EvalOutcome::Fail(e) => import_step(*imp, exports@) == ImportOutcome::Fail(e@),
        },
{
    let prefixed = match_at_exec(imp.name.as_str(), "__wasm_split", 0);
    proof {
        lemma_match_at_zero_is_prefix(imp.name@, marker_prefix());
    }
    if !prefixed {
        return EvalOutcome::Skip;
    }
    let import_id = match imp.func {
        Some(id) => id,
        None => {
            return EvalOutcome::Skip;
        },
    };
    let mk = match decode_marker_name(imp.name.as_str()) {
        Some(mk) => mk,
        None => {
            return EvalOutcome::Fail(
                AnalysisError::MalformedSplitMarkerName { name: imp.name.clone() },
            );
        },
    };
    match mk.direction {
        Direction::Import => {},
        Direction::Export => {
            return EvalOutcome::Fail(
                AnalysisError::MalformedSplitMarkerName { name: imp.name.clone() },
            );
        },
    }
    let sibling = SplitMarker {
        module_name: mk.module_name.clone(),
        direction: Direction::Export,
        hash: mk.hash.clone(),
        component_name: mk.component_name.clone(),
    };
    let export_name = encode_marker_name(&sibling);
    proof {
        assert(sibling@ == SplitMarkerV { direction: Direction::Export, ..mk@ });
    }
    match find_export_by_name(exports, &export_name) {
        Some(k) => match exports[k].func {
            Some(export_id) => EvalOutcome::Point(
                SplitPoint {
                    module_name: mk.module_name,
                    import: import_id,
                    export: export_id,
                    import_name: imp.name.clone(),
                    export_name: export_name,
                    component_name: mk.component_name,
                },
            ),
            None => EvalOutcome::Fail(
                AnalysisError::UnresolvedSplitPair {
                    export_name: export_name,
                    candidates: collect_marker_candidates(exports),
                },
            ),
        },
        None => EvalOutcome::Fail(
            AnalysisError::UnresolvedSplitPair {
                export_name: export_name,
                candidates: collect_marker_candidates(exports),
            },
        ),
    }
}

/// Discover the split points of the module: for each function import whose
/// name starts with the marker prefix, decode the marker record and pair the
/// import with its sibling export. Returns the split points in import
/// iteration order, or the first fatal inconsistency: a malformed or
/// export-directed marker name, or an import whose sibling export is missing
/// (with every marker-prefixed export name listed as a candidate).
pub fn accumulate_split_points(m: &ModuleInfo) -> (r: Result<Vec<SplitPoint>, AnalysisError>)
    ensures
        split_points_post(m.imports@, m.exports@, r),
{
    let mut out: Vec<SplitPoint> = Vec::new();
    let mut k: usize = 0;
    proof {
        assert(m.imports@.skip(0) =~= m.imports@);
        assert(out@.map_values(|sp: SplitPoint| sp@) =~= Seq::<SplitPointV>::empty());
    }
    while k < m.imports.len()
        invariant
            k <= m.imports@.len(),
            match split_points_spec(m.imports@.skip(k as int), m.exports@) {
                Ok(v) => split_points_spec(m.imports@, m.exports@) == Ok::<_, AnalysisErrorV>(
                    out@.map_values(|sp: SplitPoint| sp@) + v,
                ),
                Err(e) => split_points_spec(m.imports@, m.exports@) == Err::<Seq<SplitPointV>, _>(
                    e,
                ),
            },
        decreases m.imports@.len() - k,
    {
        proof {
            lemma_split_points_spec_step(m.imports@, m.exports@, k as int);
        }
        let ghost prev = out@;
        match eval_import(&m.imports[k], &m.exports) {
            EvalOutcome::Skip => {},
            EvalOutcome::Point(sp) => {
                let ghost spv = sp@;
                out.push(sp);
                proof {
                    assert(out@.map_values(|sp: SplitPoint| sp@) =~= prev.map_values(
                        |sp: SplitPoint| sp@,
                    ) + seq![spv]);
                    if split_points_spec(m.imports@.skip(k + 1), m.exports@) is Ok {
                        let v = split_points_spec(m.imports@.skip(k + 1), m.exports@)->Ok_0;
                        assert(prev.map_values(|sp: SplitPoint| sp@) + (seq![spv] + v) =~= (
                        prev.map_values(|sp: SplitPoint| sp@) + seq![spv]) + v);
                    }
                }
            },
            EvalOutcome::Fail(e) => {
                return Err(e);
            },
        }
        k += 1;
    }
    proof {
        assert(m.imports@.skip(m.imports@.len() as int) =~= Seq::<ImportItem>::empty());
        assert(out@.map_values(|sp: SplitPoint| sp@) + Seq::<SplitPointV>::empty() =~= out@
            .map_values(|sp: SplitPoint| sp@));
    }
    Ok(out)
}

/// The instruction at `p` is an indirect call immediately preceded by a
/// memory load: the expected shape for dispatch through a function pointer
/// loaded from linear memory.
pub open spec fn is_standard_site(s: Seq<InstrKind>, p: int) -> bool {
    &&& 0 <= p < s.len()
    &&& s[p] is CallIndirect
    &&& p >= 1
    &&& s[p - 1] is Load
}

/// The instruction at `p` is an indirect call preceded by anything else
/// (or by nothing): an unexpected compiled pattern worth manual review.
pub open spec fn is_anomalous_site(s: Seq<InstrKind>, p: int) -> bool {
    &&& 0 <= p < s.len()
    &&& s[p] is CallIndirect
    &&& !(p >= 1 && s[p - 1] is Load)
}

/// How many standard-shaped indirect-call sites a body holds.
pub open spec fn count_standard(s: Seq<InstrKind>) -> nat
    decreases s.len(),
{
    if s.len() == 0 {
        0
    } else {
        count_standard(s.drop_last()) + if is_standard_site(s, s.len() - 1) {
            1nat
        } else {
            0nat
        }
    }
}

/// How many anomalous indirect-call sites a body holds.
pub open spec fn count_anomalous(s: Seq<InstrKind>) -> nat
    decreases s.len(),
{
    if s.len() == 0 {
        0
    } else {
        count_anomalous(s.drop_last()) + if is_anomalous_site(s, s.len() - 1) {
            1nat
        } else {
            0nat
        }
    }
}

/// One function identity per standard-shaped site, grouped by function in
/// declaration order. Only locally-defined functions are scanned.
pub open spec fn standard_occurrences(funcs: Seq<FunctionInfo>) -> Seq<FunctionRef>
    decreases funcs.len(),
{
    if funcs.len() == 0 {
        Seq::empty()
    } else {
        standard_occurrences(funcs.drop_last()) + (match funcs.last().local {
            Some(b) => Seq::new(count_standard(b.instrs@), |q: int| (funcs.len() - 1) as usize),
            None => Seq::empty(),
        })
    }
}

/// One function identity per anomalous site, grouped by function in
/// declaration order.
pub open spec fn anomalous_occurrences(funcs: Seq<FunctionInfo>) -> Seq<FunctionRef>
    decreases funcs.len(),
{
    if funcs.len() == 0 {
        Seq::empty()
    } else {
        anomalous_occurrences(funcs.drop_last()) + (match funcs.last().local {
            Some(b) => Seq::new(count_anomalous(b.instrs@), |q: int| (funcs.len() - 1) as usize),
            None => Seq::empty(),
        })
    }
}

/// The full contract of [`accumulate_indirect_fns`]: anomalous occurrences
/// first, standard occurrences second, exactly as the counting specs say.
pub open spec fn indirect_fns_post(
    funcs: Seq<FunctionInfo>,
    r: (Vec<FunctionRef>, Vec<FunctionRef>),
) -> bool {
    r.0@ == anomalous_occurrences(funcs) && r.1@ == standard_occurrences(funcs)
}

proof fn lemma_count_take_step(s: Seq<InstrKind>, j: int)
    requires
        0 <= j < s.len(),
    ensures
        count_standard(s.take(j + 1)) == count_standard(s.take(j)) + if is_standard_site(s, j) {
            1nat
        } else {
            0nat
        },
        count_anomalous(s.take(j + 1)) == count_anomalous(s.take(j)) + if is_anomalous_site(s, j) {
            1nat
        } else {
            0nat
        },
{
    assert(s.take(j + 1).drop_last() =~= s.take(j));
    assert(s.take(j + 1).last() == s[j]);
    assert(is_standard_site(s.take(j + 1), j) == is_standard_site(s, j));
    assert(is_anomalous_site(s.take(j + 1), j) == is_anomalous_site(s, j));
}

proof fn lemma_occurrences_take_step(funcs: Seq<FunctionInfo>, fi: int)
    requires
        0 <= fi < funcs.len(),
    ensures
        standard_occurrences(funcs.take(fi + 1)) == standard_occurrences(funcs.take(fi)) + (
        match funcs[fi].local {
            Some(b) => Seq::new(count_standard(b.instrs@), |q: int| fi as usize),
            None => Seq::empty(),
        }),
        anomalous_occurrences(funcs.take(fi + 1)) == anomalous_occurrences(funcs.take(fi)) + (
        match funcs[fi].local {
            Some(b) => Seq::new(count_anomalous(b.instrs@), |q: int| fi as usize),
            None => Seq::empty(),
        }),
{
    assert(funcs.take(fi + 1).drop_last() =~= funcs.take(fi));
    assert(funcs.take(fi + 1).last() == funcs[fi]);
    assert(match funcs[fi].local {
        Some(b) => Seq::new(count_standard(b.instrs@), |q: int| (funcs.take(fi + 1).len() - 1) as usize)
            =~= Seq::new(count_standard(b.instrs@), |q: int| fi as usize),
        None => true,
    });
    assert(match funcs[fi].local {
        Some(b) => Seq::new(count_anomalous(b.instrs@), |q: int| (funcs.take(fi + 1).len() - 1) as usize)
            =~= Seq::new(count_anomalous(b.instrs@), |q: int| fi as usize),
        None => true,
    });
}

/// Classify every indirect-call site of every locally-defined function with
/// one left-to-right scan and a single-instruction lookback. Returns
/// `(anomalous, standard)`: the enclosing function's identity is recorded
/// once per site, so a function with mixed-shape sites appears in both, and
/// one with several sites of a shape appears that many times.
pub fn accumulate_indirect_fns(m: &ModuleInfo) -> (r: (Vec<FunctionRef>, Vec<FunctionRef>))
    ensures
        indirect_fns_post(m.functions@, r),
{
    let mut weird_ids: Vec<FunctionRef> = Vec::new();
    let mut ids: Vec<FunctionRef> = Vec::new();
    let mut fi: usize = 0;
    proof {
        assert(m.functions@.take(0) =~= Seq::<FunctionInfo>::empty());
    }
    while fi < m.functions.len()
        invariant
            fi <= m.functions@.len(),
            weird_ids@ == anomalous_occurrences(m.functions@.take(fi as int)),
            ids@ == standard_occurrences(m.functions@.take(fi as int)),
        decreases m.functions@.len() - fi,
    {
        proof {
            lemma_occurrences_take_step(m.functions@, fi as int);
        }
        if let Some(body) = &m.functions[fi].local {
            let instrs = &body.instrs;
            let ghost w0 = weird_ids@;
            let ghost s0 = ids@;
            let mut j: usize = 0;
            proof {
                assert(instrs@.take(0) =~= Seq::<InstrKind>::empty());
                assert(Seq::new(0nat, |q: int| fi as usize) =~= Seq::<FunctionRef>::empty());
                assert(w0 + Seq::new(0nat, |q: int| fi as usize) =~= w0);
                assert(s0 + Seq::new(0nat, |q: int| fi as usize) =~= s0);
            }
            while j < instrs.len()
                invariant
                    j <= instrs@.len(),
                    weird_ids@ == w0 + Seq::new(
                        count_anomalous(instrs@.take(j as int)),
                        |q: int| fi as usize,
                    ),
                    ids@ == s0 + Seq::new(
                        count_standard(instrs@.take(j as int)),
                        |q: int| fi as usize,
                    ),
                decreases instrs@.len() - j,
            {
                proof {
                    lemma_count_take_step(instrs@, j as int);
                }
                if matches!(instrs[j], InstrKind::CallIndirect) {
                    if j > 0 && matches!(instrs[j - 1], InstrKind::Load) {
                        ids.push(fi);
                        proof {
                            assert(s0 + Seq::new(
                                count_standard(instrs@.take(j + 1)),
                                |q: int| fi as usize,
                            ) =~= ids@);
                        }
                    } else {
                        weird_ids.push(fi);
                        proof {
                            assert(w0 + Seq::new(
                                count_anomalous(instrs@.take(j + 1)),
                                |q: int| fi as usize,
                            ) =~= weird_ids@);
                        }
                    }
                }
                j += 1;
            }
            proof {
                assert(instrs@.take(instrs@.len() as int) =~= instrs@);
            }
        }
        fi += 1;
    }
    proof {
        assert(m.functions@.take(m.functions@.len() as int) =~= m.functions@);
    }
    (weird_ids, ids)
}

proof fn lemma_count_standard_positive(s: Seq<InstrKind>, p: int)
    requires
        is_standard_site(s, p),
    ensures
        count_standard(s) >= 1,
    decreases s.len(),
{
    if p == s.len() - 1 {
    } else {
        assert(is_standard_site(s.drop_last(), p)) by {
            assert(s.drop_last()[p] == s[p]);
            assert(s.drop_last()[p - 1] == s[p - 1]);
        }
        lemma_count_standard_positive(s.drop_last(), p);
    }
}

proof fn lemma_count_anomalous_positive(s: Seq<InstrKind>, p: int)
    requires
        is_anomalous_site(s, p),
    ensures
        count_anomalous(s) >= 1,
    decreases s.len(),
{
    if p == s.len() - 1 {
    } else {
        assert(is_anomalous_site(s.drop_last(), p)) by {
            assert(s.drop_last()[p] == s[p]);
            if p >= 1 {
                assert(s.drop_last()[p - 1] == s[p - 1]);
            }
        }
        lemma_count_anomalous_positive(s.drop_last(), p);
    }
}

/// Law: a local function holding an indirect call immediately preceded by a
/// memory load lands in the standard set; one holding an indirect call
/// preceded by any other instruction, or by nothing, lands in the anomalous
/// set.
pub proof fn lemma_call_site_shape_classifies(funcs: Seq<FunctionInfo>, fi: int, p: int)
    requires
        0 <= fi < funcs.len(),
        funcs[fi].local is Some,
    ensures
        is_standard_site(funcs[fi].local->Some_0.instrs@, p) ==> standard_occurrences(
            funcs,
        ).contains(fi as usize),
        is_anomalous_site(funcs[fi].local->Some_0.instrs@, p) ==> anomalous_occurrences(
            funcs,
        ).contains(fi as usize),
    decreases funcs.len(),
{
    let instrs = funcs[fi].local->Some_0.instrs@;
    if fi == funcs.len() - 1 {
        if is_standard_site(instrs, p) {
            lemma_count_standard_positive(instrs, p);
            let tail = Seq::new(count_standard(instrs), |q: int| fi as usize);
            assert(standard_occurrences(funcs)[standard_occurrences(funcs.drop_last()).len()
                as int] == tail[0]);
        }
        if is_anomalous_site(instrs, p) {
            lemma_count_anomalous_positive(instrs, p);
            let tail = Seq::new(count_anomalous(instrs), |q: int| fi as usize);
            assert(anomalous_occurrences(funcs)[anomalous_occurrences(funcs.drop_last()).len()
                as int] == tail[0]);
        }
    } else {
        assert(funcs.drop_last()[fi] == funcs[fi]);
        lemma_call_site_shape_classifies(funcs.drop_last(), fi, p);
        if is_standard_site(instrs, p) {
            let prefix = standard_occurrences(funcs.drop_last());
            let idx = choose|idx: int| 0 <= idx < prefix.len() && prefix[idx] == fi as usize;
            assert(standard_occurrences(funcs)[idx] == prefix[idx]);
        }
        if is_anomalous_site(instrs, p) {
            let prefix = anomalous_occurrences(funcs.drop_last());
            let idx = choose|idx: int| 0 <= idx < prefix.len() && prefix[idx] == fi as usize;
            assert(anomalous_occurrences(funcs)[idx] == prefix[idx]);
        }
    }
}

/// Law: classification is a pure function of the snapshot: any two results
/// that satisfy the contract over the same functions are equal.
pub proof fn lemma_indirect_fns_deterministic(
    funcs: Seq<FunctionInfo>,
    r1: (Vec<FunctionRef>, Vec<FunctionRef>),
    r2: (Vec<FunctionRef>, Vec<FunctionRef>),
)
    requires
        indirect_fns_post(funcs, r1),
        indirect_fns_post(funcs, r2),
    ensures
        r1.0@ == r2.0@,
        r1.1@ == r2.1@,
{
}

/// The declared name of a function, or the empty sequence if it has none.
pub open spec fn declared_name(funcs: Seq<FunctionInfo>, id: FunctionRef) -> Seq<char> {
    if id < funcs.len() {
        match funcs[id as int].name {
            Some(n) => n@,
            None => Seq::empty(),
        }
    } else {
        Seq::empty()
    }
}

/// The active table of the module: the single active function-list element
/// segment rendered as (function, declared-name-or-empty) pairs in
/// table-slot order, or the structural violation that prevents it.
pub open spec fn active_table_spec(m: ModuleInfo) -> Result<
    Seq<(FunctionRef, Seq<char>)>,
    AnalysisErrorV,
> {
    if m.elements@.len() != 1 {
        Err(
            AnalysisErrorV::StructuralAssumptionViolation {
                issue: StructuralIssue::ElementSegmentCount(m.elements@.len() as usize),
            },
        )
    } else if !m.elements@[0].active {
        Err(
            AnalysisErrorV::StructuralAssumptionViolation {
                issue: StructuralIssue::SegmentNotActive,
            },
        )
    } else {
        match m.elements@[0].content {
            ElementContent::Other => Err(
                AnalysisErrorV::StructuralAssumptionViolation {
                    issue: StructuralIssue::ItemsNotFunctions,
                },
            ),
            ElementContent::Functions(fns) => Ok(
                Seq::new(fns@.len(), |k: int| (fns@[k], declared_name(m.functions@, fns@[k]))),
            ),
        }
    }
}

/// The mathematical value of an active-table result.
pub open spec fn active_table_result_view(
    r: Result<Vec<(FunctionRef, String)>, AnalysisError>,
) -> Result<Seq<(FunctionRef, Seq<char>)>, AnalysisErrorV> {
    match r {
        Ok(v) => Ok(v@.map_values(|p: (FunctionRef, String)| (p.0, p.1@))),
        Err(e) => Err(e@),
    }
}

/// The full contract of [`accumulate_active_segments`].
pub open spec fn active_segments_post(
    m: ModuleInfo,
    r: Result<Vec<(FunctionRef, String)>, AnalysisError>,
) -> bool {
    active_table_result_view(r) == active_table_spec(m)
}

/// Enumerate the module's active table: the module must hold exactly one
/// element segment, it must be active, and it must list plain function
/// items; anything else is a fatal structural-assumption violation, since
/// every table-index lookup downstream depends on this mapping. On success
/// the entries come back in table-slot order, each with the declared name of
/// its function (empty if the function has none).
pub fn accumulate_active_segments(m: &ModuleInfo) -> (r: Result<
    Vec<(FunctionRef, String)>,
    AnalysisError,
>)
    requires
        m.wf(),
    ensures
        active_segments_post(*m, r),
{
    if m.elements.len() != 1 {
        return Err(
            AnalysisError::StructuralAssumptionViolation {
                issue: StructuralIssue::ElementSegmentCount(m.elements.len()),
            },
        );
    }
    let seg = &m.elements[0];
    if !seg.active {
        return Err(
            AnalysisError::StructuralAssumptionViolation {
                issue: StructuralIssue::SegmentNotActive,
            },
        );
    }
    match &seg.content {
        ElementContent::Other => Err(
            AnalysisError::StructuralAssumptionViolation {
                issue: StructuralIssue::ItemsNotFunctions,
            },
        ),
        ElementContent::Functions(fns) => {
            let mut out: Vec<(FunctionRef, String)> = Vec::new();
            let mut k: usize = 0;
            while k < fns.len()
                invariant
                    m.wf(),
                    0 < m.elements@.len(),
                    m.elements@[0].content == ElementContent::Functions(*fns),
                    k <= fns@.len(),
                    out@.len() == k,
                    forall|l: int| #![trigger out@[l]] 0 <= l < k ==> out@[l].0 == fns@[l]
                        && out@[l].1@ == declared_name(m.functions@, fns@[l]),
                decreases fns@.len() - k,
            {
                let id: FunctionRef = fns[k];
                proof {
                    assert(id < m.functions@.len()) by {
                        assert(crate::model::element_functions(m.elements@[0].content) == fns@);
                        assert(crate::model::element_functions(m.elements@[0].content)[k as int]
                            < m.functions@.len());
                    }
                }
                let name: String = match &m.functions[id].name {
                    Some(n) => n.clone(),
                    None => String::new(),
                };
                out.push((id, name));
                k += 1;
            }
            proof {
                assert(out@.map_values(|p: (FunctionRef, String)| (p.0, p.1@)) =~= Seq::new(
                    fns@.len(),
                    |k: int| (fns@[k], declared_name(m.functions@, fns@[k])),
                ));
            }
            Ok(out)
        },
    }
}

/// Law: active-table enumeration is a pure function of the snapshot.
pub proof fn lemma_active_segments_deterministic(
    m: ModuleInfo,
    r1: Result<Vec<(FunctionRef, String)>, AnalysisError>,
    r2: Result<Vec<(FunctionRef, String)>, AnalysisError>,
)
    requires
        active_segments_post(m, r1),
        active_segments_post(m, r2),
    ensures
        active_table_result_view(r1) == active_table_result_view(r2),
{
}

/// The demangled rendering of a symbol name: a pure function of the symbol's
/// characters.
pub uninterp spec fn demangled_of(s: Seq<char>) -> Seq<char>;

/// Relies on rustc_demangle::try_demangle and the Display rendering of its
/// result: the demangled form of a symbol depends on the symbol's characters
/// alone, and a name that is not a mangled Rust symbol is returned unchanged.
#[verifier::external_body]
fn demangle_symbol(name: &str) -> (r: String)
    ensures
        r@ == demangled_of(name@),
{
    match rustc_demangle::try_demangle(name) {
        Ok(d) => d.to_string(),
        Err(_) => name.to_string(),
    }
}

/// Recovering a human-readable name from a compiler-mangled symbol: a
/// display concern layered over the passes.
pub trait Demangler: View<V = Seq<char>> {
    /// The demangled rendering of this symbol.
    fn demangle(&self) -> (r: String)
        ensures
            r@ == demangled_of(self@),
    ;
}

impl Demangler for String {
    fn demangle(&self) -> (r: String)
        ensures
            r@ == demangled_of(self@),
    {
        demangle_symbol(self.as_str())
    }
}

/// Law: every produced split point's export name equals its import name with
/// only the direction tag swapped: both names are `a + tag + b` for one
/// common head `a` (the prefix, module name and escape) and one common tail
/// `b` (hash, separator and component name).
pub proof fn lemma_split_point_names_swap_direction(
    imports: Seq<ImportItem>,
    exports: Seq<ExportItem>,
    v: Seq<SplitPointV>,
    idx: int,
)
    requires
        split_points_spec(imports, exports) == Ok::<_, AnalysisErrorV>(v),
        0 <= idx < v.len(),
    ensures
        exists|a: Seq<char>, b: Seq<char>|
            v[idx].import_name == a + crate::marker::direction_tag(Direction::Import) + b
                && v[idx].export_name == a + crate::marker::direction_tag(Direction::Export) + b,
    decreases imports.len(),
{
    if imports.len() == 0 {
        assert(false);
    } else {
    match import_step(imports[0], exports) {
        ImportOutcome::Skip => {
            lemma_split_point_names_swap_direction(imports.drop_first(), exports, v, idx);
        },
        ImportOutcome::Fail(e) => {
            assert(false);
        },
        ImportOutcome::Point(sp) => {
            let rest = split_points_spec(imports.drop_first(), exports)->Ok_0;
            assert(v == seq![sp] + rest);
            if idx == 0 {
                assert(v[0] == sp);
                let mk = parse_marker(imports[0].name@)->Some_0;
                crate::marker::lemma_decode_encode_roundtrip(imports[0].name@);
                assert(SplitMarkerV { direction: Direction::Import, ..mk } == mk);
                crate::marker::lemma_sibling_swaps_direction_only(
                    mk,
                    Direction::Import,
                    Direction::Export,
                );
            } else {
                assert(rest =~= v.drop_first());
                lemma_split_point_names_swap_direction(
                    imports.drop_first(),
                    exports,
                    v.drop_first(),
                    idx - 1,
                );
                assert(v[idx] == v.drop_first()[idx - 1]);
            }
        },
    }
    }
}

/// Law: discovery is a pure function of the snapshot. Any two results that
/// satisfy the contract over the same imports and exports are structurally
/// equal.
pub proof fn lemma_split_points_deterministic(
    imports: Seq<ImportItem>,
    exports: Seq<ExportItem>,
    r1: Result<Vec<SplitPoint>, AnalysisError>,
    r2: Result<Vec<SplitPoint>, AnalysisError>,
)
    requires
        split_points_post(imports, exports, r1),
        split_points_post(imports, exports, r2),
    ensures
        split_points_result_view(r1) == split_points_result_view(r2),
{
}

} // verus!
