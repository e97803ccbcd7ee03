//! The relocation accumulator: decode the two relocation custom sections
//! into offset-keyed maps, then partition the code relocations across the
//! locally-defined functions by byte range, preserving per-function order.

use std::collections::HashMap;
use vstd::prelude::*;
use crate::FunctionRef;
use crate::errors::{AnalysisError, AnalysisErrorV};
use crate::marker::str_eq;
use crate::model::{CustomSection, FunctionInfo, ModuleInfo};

verus! {

broadcast use vstd::std_specs::hash::group_hash_axioms;

/// One relocation record, sourced verbatim from a relocation section: the
/// byte offset it patches, the symbol-table index it refers to, the raw
/// relocation type code, and the addend (zero where the type carries none).
#[derive(Debug, Clone, Copy, PartialEq, Eq, Structural)]
pub struct RelocationEntry {
    pub offset: u32,
    pub symbol_index: u32,
    pub reloc_kind: u8,
    pub addend: i64,
}

/// A half-open byte range `[start, end)` in the code section.
#[derive(Debug, Clone, Copy, PartialEq, Eq, Structural)]
pub struct ByteRange {
    pub start: usize,
    pub end: usize,
}

/// The relocations of one locally-defined function: the entries whose
/// offsets fall in the function's original byte range, in section order, and
/// the same entries keyed by offset.
#[derive(Debug, PartialEq)]
pub struct FunctionRelocations {
    pub func_id: FunctionRef,
    pub original_range: ByteRange,
    pub relocations: Vec<RelocationEntry>,
    pub relocation_map: HashMap<usize, RelocationEntry>,
}

/// The mathematical value of a [`FunctionRelocations`].
#[verifier::ext_equal]
pub struct FunctionRelocationsV {
    pub func_id: FunctionRef,
    pub original_range: ByteRange,
    pub relocations: Seq<RelocationEntry>,
    pub by_offset: Map<usize, RelocationEntry>,
}

impl View for FunctionRelocations {
    type V = FunctionRelocationsV;

    open spec fn view(&self) -> FunctionRelocationsV {
        FunctionRelocationsV {
            func_id: self.func_id,
            original_range: self.original_range,
            relocations: self.relocations@,
            by_offset: self.relocation_map@,
        }
    }
}

/// The decoded relocations of a module: both sections keyed by offset, and
/// the code relocations bucketed per function.
#[derive(Debug, PartialEq)]
pub struct RelocationMap {
    pub code_relocs: HashMap<usize, RelocationEntry>,
    pub data_relocs: HashMap<usize, RelocationEntry>,
    pub functions: HashMap<FunctionRef, FunctionRelocations>,
}

/// The mathematical value of a [`RelocationMap`].
#[verifier::ext_equal]
pub struct RelocationMapV {
    pub code_relocs: Map<usize, RelocationEntry>,
    pub data_relocs: Map<usize, RelocationEntry>,
    pub functions: Map<FunctionRef, FunctionRelocationsV>,
}

impl View for RelocationMap {
    type V = RelocationMapV;

    open spec fn view(&self) -> RelocationMapV {
        RelocationMapV {
            code_relocs: self.code_relocs@,
            data_relocs: self.data_relocs@,
            functions: self.functions@.map_values(|fr: FunctionRelocations| fr@),
        }
    }
}

/// The name of the code relocation custom section.
pub open spec fn code_reloc_section_name() -> Seq<char> {
    "reloc.CODE"@
}

/// The name of the data relocation custom section.
pub open spec fn data_reloc_section_name() -> Seq<char> {
    "reloc.DATA"@
}

/// What a relocation custom section's bytes decode to: the entry sequence in
/// section order, or nothing if the bytes are malformed. A pure function of
/// the bytes alone.
pub uninterp spec fn decoded_relocs(data: Seq<u8>) -> Option<Seq<RelocationEntry>>;

/// Relies on wasmparser's RelocSectionReader: decodes the body of a
/// `reloc.*` custom section into its relocation entries, in section order.
/// The outcome depends on the section bytes alone; any malformed header or
/// entry yields `None`.
#[verifier::external_body]
fn decode_reloc_section(data: &Vec<u8>) -> (r: Option<Vec<RelocationEntry>>)
    ensures
        r is Some ==> decoded_relocs(data@) == Some(r->Some_0@),
        r is None ==> decoded_relocs(data@) is None,
{
    let reader = wasmparser::BinaryReader::new(data.as_slice(), 0);
    let section = wasmparser::RelocSectionReader::new(reader).ok()?;
    let mut out = Vec::new();
    for entry in section.entries() {
        let e = entry.ok()?;
        let converted = RelocationEntry {
            offset: e.offset,
            symbol_index: e.index,
            reloc_kind: e.ty as u8,
            addend: e.addend,
        };
        out.push(converted);
    }
    Some(out)
}

/// The first custom section carrying the given name, if any.
pub open spec fn first_custom_named(customs: Seq<CustomSection>, name: Seq<char>) -> Option<
    CustomSection,
>
    decreases customs.len(),
{
    if customs.len() == 0 {
        None
    } else if customs[0].name@ == name {
        Some(customs[0])
    } else {
        first_custom_named(customs.drop_first(), name)
    }
}

/// The decoded entries of the named relocation section: an absent section is
/// tolerated and yields no entries; a present but malformed one is a decode
/// error.
pub open spec fn section_entries_spec(customs: Seq<CustomSection>, name: Seq<char>) -> Result<
    Seq<RelocationEntry>,
    AnalysisErrorV,
> {
    match first_custom_named(customs, name) {
        None => Ok(Seq::empty()),
        Some(c) => match decoded_relocs(c.data@) {
            None => Err(AnalysisErrorV::RelocationSectionDecodeError { section: name }),
            Some(es) => Ok(es),
        },
    }
}

proof fn lemma_first_custom_named_step(customs: Seq<CustomSection>, name: Seq<char>, k: int)
    requires
        0 <= k < customs.len(),
    ensures
        first_custom_named(customs.skip(k), name) == if customs[k].name@ == name {
            Some(customs[k])
        } else {
            first_custom_named(customs.skip(k + 1), name)
        },
{
    assert(customs.skip(k).drop_first() =~= customs.skip(k + 1));
    assert(customs.skip(k)[0] == customs[k]);
}

/// Decode the named relocation custom section of the module. A module
/// without such a section yields the empty entry list; a present section
/// whose bytes do not decode yields the decode error, naming the section.
pub fn accumulate_relocations_from_section(m: &ModuleInfo, section_name: &str) -> (r: Result<
    Vec<RelocationEntry>,
    AnalysisError,
>)
    ensures
        match r {
            Ok(v) => section_entries_spec(m.customs@, section_name@) == Ok::<_, AnalysisErrorV>(
                v@,
            ),
            Err(e) => section_entries_spec(m.customs@, section_name@) == Err::<
                Seq<RelocationEntry>,
                _,
            >(e@),
        },
{
    let mut k: usize = 0;
    proof {
        assert(m.customs@.skip(0) =~= m.customs@);
    }
    while k < m.customs.len()
        invariant
            k <= m.customs@.len(),
            first_custom_named(m.customs@, section_name@) == first_custom_named(
                m.customs@.skip(k as int),
                section_name@,
            ),
        decreases m.customs@.len() - k,
    {
        proof {
            lemma_first_custom_named_step(m.customs@, section_name@, k as int);
        }
        if str_eq(m.customs[k].name.as_str(), section_name) {
            match decode_reloc_section(&m.customs[k].data) {
                Some(v) => {
                    return Ok(v);
                },
                None => {
                    return Err(
                        AnalysisError::RelocationSectionDecodeError {
                            section: String::from_str(section_name),
                        },
                    );
                },
            }
        }
        k += 1;
    }
    proof {
        assert(m.customs@.skip(m.customs@.len() as int) =~= Seq::<CustomSection>::empty());
    }
    Ok(Vec::new())
}

/// The entries keyed by their offsets; on duplicate offsets the later entry
/// wins, matching insertion order.
pub open spec fn offsets_map(entries: Seq<RelocationEntry>) -> Map<usize, RelocationEntry>
    decreases entries.len(),
{
    if entries.len() == 0 {
        Map::empty()
    } else {
        offsets_map(entries.drop_last()).insert(entries.last().offset as usize, entries.last())
    }
}

/// Key the entries by offset in a hash table.
fn build_offset_map(entries: &Vec<RelocationEntry>) -> (r: HashMap<usize, RelocationEntry>)
    ensures
        r@ == offsets_map(entries@),
{
    let mut out: HashMap<usize, RelocationEntry> = HashMap::new();
    let mut i: usize = 0;
    proof {
        assert(entries@.take(0) =~= Seq::<RelocationEntry>::empty());
    }
    while i < entries.len()
        invariant
            i <= entries@.len(),
            out@ == offsets_map(entries@.take(i as int)),
        decreases entries@.len() - i,
    {
        let e = entries[i];
        out.insert(e.offset as usize, e);
        proof {
            assert(entries@.take(i + 1).drop_last() =~= entries@.take(i as int));
            assert(entries@.take(i + 1).last() == entries@[i as int]);
        }
        i += 1;
    }
    proof {
        assert(entries@.take(entries@.len() as int) =~= entries@);
    }
    out
}

/// The locally-defined functions in declaration order (matching the code
/// section's layout), each with its identity and original byte range.
pub open spec fn locals_of(funcs: Seq<FunctionInfo>) -> Seq<(FunctionRef, ByteRange)>
    decreases funcs.len(),
{
    if funcs.len() == 0 {
        Seq::empty()
    } else {
        locals_of(funcs.drop_last()) + (match funcs.last().local {
            Some(b) => seq![
                (((funcs.len() - 1) as usize), ByteRange { start: b.range_start, end: b.range_end }),
            ],
            None => Seq::empty(),
        })
    }
}

proof fn lemma_locals_of_take_step(funcs: Seq<FunctionInfo>, fi: int)
    requires
        0 <= fi < funcs.len(),
    ensures
        locals_of(funcs.take(fi + 1)) == locals_of(funcs.take(fi)) + (match funcs[fi].local {
            Some(b) => seq![
                ((fi as usize), ByteRange { start: b.range_start, end: b.range_end }),
            ],
            None => Seq::empty(),
        }),
{
    assert(funcs.take(fi + 1).drop_last() =~= funcs.take(fi));
    assert(funcs.take(fi + 1).last() == funcs[fi]);
}

/// The locally-defined functions with their byte ranges, in declaration
/// order.
fn collect_locals(funcs: &Vec<FunctionInfo>) -> (r: Vec<(FunctionRef, ByteRange)>)
    ensures
        r@ == locals_of(funcs@),
{
    let mut out: Vec<(FunctionRef, ByteRange)> = Vec::new();
    let mut fi: usize = 0;
    proof {
        assert(funcs@.take(0) =~= Seq::<FunctionInfo>::empty());
        assert(out@ =~= locals_of(funcs@.take(0)));
    }
    while fi < funcs.len()
        invariant
            fi <= funcs@.len(),
            out@ == locals_of(funcs@.take(fi as int)),
        decreases funcs@.len() - fi,
    {
        proof {
            lemma_locals_of_take_step(funcs@, fi as int);
        }
        if let Some(b) = &funcs[fi].local {
            out.push((fi, ByteRange { start: b.range_start, end: b.range_end }));
        }
        fi += 1;
    }
    proof {
        assert(funcs@.take(funcs@.len() as int) =~= funcs@);
    }
    out
}

/// How many leading entries have offsets strictly below `end`: the window
/// the merge join hands to the current function.
pub open spec fn lt_end_count(entries: Seq<RelocationEntry>, end: int) -> int
    decreases entries.len(),
{
    if entries.len() == 0 {
        0
    } else if (entries[0].offset as int) < end {
        1 + lt_end_count(entries.drop_first(), end)
    } else {
        0
    }
}

/// The first index below `n` whose entry's offset lies below `start`: the
/// first containment violation the scan would meet.
pub open spec fn first_below(entries: Seq<RelocationEntry>, n: int, start: int) -> Option<int>
    decreases n,
{
    if n <= 0 {
        None
    } else {
        match first_below(entries, n - 1, start) {
            Some(i) => Some(i),
            None => if 0 <= n - 1 < entries.len() && (entries[n - 1].offset as int) < start {
                Some(n - 1)
            } else {
                None
            },
        }
    }
}

/// The merge join over the two monotonic streams: for each function in
/// declaration order, consume entries while the next offset is strictly
/// below the function's range end, verifying containment at each
/// assignment; the first violation is a fatal range mismatch naming the
/// offset and the function.
pub open spec fn bucket_spec(
    locals: Seq<(FunctionRef, ByteRange)>,
    entries: Seq<RelocationEntry>,
) -> Result<Seq<Seq<RelocationEntry>>, AnalysisErrorV>
    decreases locals.len(),
{
    if locals.len() == 0 {
        Ok(Seq::empty())
    } else {
        let id = locals[0].0;
        let rng = locals[0].1;
        let n = lt_end_count(entries, rng.end as int);
        match first_below(entries, n, rng.start as int) {
            Some(i) => Err(
                AnalysisErrorV::RelocationRangeMismatch {
                    offset: entries[i].offset as usize,
                    func: id,
                },
            ),
            None => match bucket_spec(locals.drop_first(), entries.skip(n)) {
                Ok(rest) => Ok(seq![entries.take(n)] + rest),
                Err(e) => Err(e),
            },
        }
    }
}

/// The per-function map: each local function keyed to its bucket.
pub open spec fn functions_map_spec(
    locals: Seq<(FunctionRef, ByteRange)>,
    buckets: Seq<Seq<RelocationEntry>>,
) -> Map<FunctionRef, FunctionRelocationsV>
    decreases locals.len(),
{
    if locals.len() == 0 {
        Map::empty()
    } else {
        functions_map_spec(locals.drop_last(), buckets.drop_last()).insert(
            locals.last().0,
            FunctionRelocationsV {
                func_id: locals.last().0,
                original_range: locals.last().1,
                relocations: buckets.last(),
                by_offset: offsets_map(buckets.last()),
            },
        )
    }
}

/// The whole relocation pass at the level of mathematical values: decode the
/// code section, decode the data section, bucket the code entries; the first
/// failure wins.
pub open spec fn relocations_spec(m: ModuleInfo) -> Result<RelocationMapV, AnalysisErrorV> {
    match section_entries_spec(m.customs@, code_reloc_section_name()) {
        Err(e) => Err(e),
        Ok(ces) => match section_entries_spec(m.customs@, data_reloc_section_name()) {
            Err(e) => Err(e),
            Ok(des) => match bucket_spec(locals_of(m.functions@), ces) {
                Err(e) => Err(e),
                Ok(buckets) => Ok(
                    RelocationMapV {
                        code_relocs: offsets_map(ces),
                        data_relocs: offsets_map(des),
                        functions: functions_map_spec(locals_of(m.functions@), buckets),
                    },
                ),
            },
        },
    }
}

/// The mathematical value of a relocation-pass result.
pub open spec fn relocations_result_view(r: Result<RelocationMap, AnalysisError>) -> Result<
    RelocationMapV,
    AnalysisErrorV,
> {
    match r {
        Ok(rm) => Ok(rm@),
        Err(e) => Err(e@),
    }
}

/// The full contract of [`accumulate_relocations`].
pub open spec fn relocations_post(m: ModuleInfo, r: Result<RelocationMap, AnalysisError>) -> bool {
    relocations_result_view(r) == relocations_spec(m)
}

/// Verify one assignment of a relocation offset against the half-open byte
/// range of the function it is bucketed into: succeeds exactly when the
/// range contains the offset, and otherwise reports the fatal mismatch
/// naming the offset and the function.
pub fn check_relocation_range(offset: usize, range: ByteRange, func: FunctionRef) -> (r: Result<
    (),
    AnalysisError,
>)
    ensures
        r is Ok <==> range.start <= offset < range.end,
        r is Err ==> r->Err_0@ == (AnalysisErrorV::RelocationRangeMismatch { offset, func }),
{
    if range.start <= offset && offset < range.end {
        Ok(())
    } else {
        Err(AnalysisError::RelocationRangeMismatch { offset, func })
    }
}

proof fn lemma_lt_end_step(entries: Seq<RelocationEntry>, c: int, end: int)
    requires
        0 <= c < entries.len(),
        (entries[c].offset as int) < end,
    ensures
        lt_end_count(entries.skip(c), end) == 1 + lt_end_count(entries.skip(c + 1), end),
{
    assert(entries.skip(c).drop_first() =~= entries.skip(c + 1));
    assert(entries.skip(c)[0] == entries[c]);
}

proof fn lemma_lt_end_nonneg(entries: Seq<RelocationEntry>, end: int)
    ensures
        0 <= lt_end_count(entries, end) <= entries.len(),
    decreases entries.len(),
{
    if entries.len() > 0 && (entries[0].offset as int) < end {
        lemma_lt_end_nonneg(entries.drop_first(), end);
    }
}

proof fn lemma_first_below_found(entries: Seq<RelocationEntry>, j: int, n: int, start: int)
    requires
        0 <= j < n,
        j < entries.len(),
        first_below(entries, j, start) is None,
        (entries[j].offset as int) < start,
    ensures
        first_below(entries, n, start) == Some(j),
    decreases n,
{
    if n == j + 1 {
    } else {
        lemma_first_below_found(entries, j, n - 1, start);
    }
}

/// Partition the decoded code relocations across the local functions: one
/// cursor walks the entry stream; each entry whose offset lies below the
/// current function's range end is assigned to that function after a
/// containment check.
#[verifier::loop_isolation(false)]
#[verifier::rlimit(60)]
fn partition_code_relocs(
    locals: &Vec<(FunctionRef, ByteRange)>,
    code_entries: &Vec<RelocationEntry>,
) -> (r: Result<HashMap<FunctionRef, FunctionRelocations>, AnalysisError>)
    ensures
        match r {
            Ok(functions) => bucket_spec(locals@, code_entries@) is Ok && functions@.map_values(
                |fr: FunctionRelocations| fr@,
            ) == functions_map_spec(locals@, bucket_spec(locals@, code_entries@)->Ok_0),
            Err(e) => bucket_spec(locals@, code_entries@) == Err::<Seq<Seq<RelocationEntry>>, _>(
                e@,
            ),
        },
{
    let ghost all_locals = locals@;
    let ghost all_entries = code_entries@;
    let mut functions: HashMap<FunctionRef, FunctionRelocations> = HashMap::new();
    let ghost mut bks: Seq<Seq<RelocationEntry>> = Seq::empty();
    let mut cursor: usize = 0;
    let mut k: usize = 0;
    proof {
        assert(all_locals.skip(0) =~= all_locals);
        assert(all_entries.skip(0) =~= all_entries);
        assert(all_locals.take(0) =~= Seq::<(FunctionRef, ByteRange)>::empty());
        assert(functions@.map_values(|fr: FunctionRelocations| fr@) =~= functions_map_spec(
            all_locals.take(0),
            bks,
        ));
    }
    while k < locals.len()
        invariant
            locals@ == all_locals,
            code_entries@ == all_entries,
            k <= all_locals.len(),
            cursor <= all_entries.len(),
            bks.len() == k,
            match bucket_spec(all_locals.skip(k as int), all_entries.skip(cursor as int)) {
                Ok(rest) => bucket_spec(all_locals, all_entries) == Ok::<_, AnalysisErrorV>(
                    bks + rest,
                ),
                Err(e) => bucket_spec(all_locals, all_entries) == Err::<Seq<Seq<RelocationEntry>>, _>(
                    e,
                ),
            },
            functions@.map_values(|fr: FunctionRelocations| fr@) == functions_map_spec(
                all_locals.take(k as int),
                bks,
            ),
        decreases all_locals.len() - k,
    {
        let func_id: FunctionRef = locals[k].0;
        let rng: ByteRange = locals[k].1;
        let ghost c0 = cursor as int;
        let mut relocs: Vec<RelocationEntry> = Vec::new();
        let mut rmap: HashMap<usize, RelocationEntry> = HashMap::new();
        proof {
            assert(all_entries.subrange(c0, c0) =~= Seq::<RelocationEntry>::empty());
            assert(rmap@ =~= offsets_map(relocs@));
        }
        while cursor < code_entries.len() && (code_entries[cursor].offset as usize) < rng.end
            invariant
                code_entries@ == all_entries,
                c0 <= cursor <= all_entries.len(),
                relocs@ == all_entries.subrange(c0, cursor as int),
                rmap@ == offsets_map(relocs@),
                forall|idx: int|
                    #![trigger all_entries[idx]]
                    c0 <= idx < cursor ==> rng.start <= (all_entries[idx].offset as int)
                        < rng.end,
                lt_end_count(all_entries.skip(c0), rng.end as int) == (cursor - c0)
                    + lt_end_count(all_entries.skip(cursor as int), rng.end as int),
                first_below(all_entries.skip(c0), cursor - c0, rng.start as int) is None,
            decreases all_entries.len() - cursor,
        {
            let e = code_entries[cursor];
            proof {
                lemma_lt_end_step(all_entries, cursor as int, rng.end as int);
            }
            match check_relocation_range(e.offset as usize, rng, func_id) {
                Ok(()) => {},
                Err(err) => {
                    proof {
                        let w = all_entries.skip(c0);
                        assert(w[cursor - c0] == all_entries[cursor as int]);
                        assert(lt_end_count(all_entries.skip(cursor as int), rng.end as int)
                            >= 1) by {
                            assert(all_entries.skip(cursor as int)[0] == all_entries[
                            cursor as int]);
                            lemma_lt_end_nonneg(
                                all_entries.skip(cursor as int).drop_first(),
                                rng.end as int,
                            );
                        }
                        lemma_first_below_found(
                            w,
                            cursor - c0,
                            lt_end_count(w, rng.end as int),
                            rng.start as int,
                        );
                        assert(all_locals.skip(k as int)[0] == all_locals[k as int]);
                        assert(bucket_spec(all_locals.skip(k as int), all_entries.skip(c0))
                            == Err::<Seq<Seq<RelocationEntry>>, _>(err@));
                    }
                    return Err(err);
                },
            }
            relocs.push(e);
            rmap.insert(e.offset as usize, e);
            cursor += 1;
            proof {
                assert(relocs@ =~= all_entries.subrange(c0, cursor as int));
                assert(relocs@.drop_last() =~= all_entries.subrange(c0, cursor - 1));
                assert(rmap@ =~= offsets_map(relocs@));
                let w = all_entries.skip(c0);
                assert(first_below(w, cursor - c0, rng.start as int) is None);
            }
        }
        proof {
            let w = all_entries.skip(c0);
            assert(lt_end_count(all_entries.skip(cursor as int), rng.end as int) == 0) by {
                if cursor < all_entries.len() {
                    assert(all_entries.skip(cursor as int)[0] == all_entries[cursor as int]);
                }
            }
            assert(lt_end_count(w, rng.end as int) == cursor - c0);
            assert(w.take(cursor - c0) =~= all_entries.subrange(c0, cursor as int));
            assert(all_locals.skip(k as int)[0] == all_locals[k as int]);
            assert(all_locals.skip(k as int).drop_first() =~= all_locals.skip(k + 1));
            assert(w.skip(cursor - c0) =~= all_entries.skip(cursor as int));
        }
        let fr = FunctionRelocations {
            func_id,
            original_range: rng,
            relocations: relocs,
            relocation_map: rmap,
        };
        let ghost frv = fr@;
        let ghost funcs_prev = functions@;
        functions.insert(func_id, fr);
        proof {
            let x = frv.relocations;
            let bks0 = bks;
            bks = bks.push(x);
            assert(bks.drop_last() =~= bks0);
            let w = all_entries.skip(c0);
            let n = lt_end_count(w, rng.end as int);
            assert(seq![w.take(n)] =~= seq![x]);
            assert(bucket_spec(all_locals.skip(k as int), w) == (
            match bucket_spec(all_locals.skip(k + 1), all_entries.skip(cursor as int)) {
                Ok(rest) => Ok::<_, AnalysisErrorV>(seq![x] + rest),
                Err(e) => Err::<Seq<Seq<RelocationEntry>>, _>(e),
            }));
            match bucket_spec(all_locals.skip(k + 1), all_entries.skip(cursor as int)) {
                Ok(rest) => {
                    assert(bks0 + (seq![x] + rest) =~= bks + rest);
                },
                Err(e) => {},
            }
            assert(all_locals.take(k + 1).drop_last() =~= all_locals.take(k as int));
            assert(all_locals.take(k + 1).last() == all_locals[k as int]);
            assert(functions_map_spec(all_locals.take(k + 1), bks) == functions_map_spec(
                all_locals.take(k as int),
                bks0,
            ).insert(func_id, frv)) by {
                assert(FunctionRelocationsV {
                    func_id: all_locals.take(k + 1).last().0,
                    original_range: all_locals.take(k + 1).last().1,
                    relocations: bks.last(),
                    by_offset: offsets_map(bks.last()),
                } =~= frv);
            }
            assert(functions@.map_values(|fr2: FunctionRelocations| fr2@) =~= funcs_prev
                .map_values(|fr2: FunctionRelocations| fr2@).insert(func_id, frv));
        }
        k += 1;
    }
    proof {
        assert(all_locals.skip(all_locals.len() as int) =~= Seq::<(FunctionRef, ByteRange)>::empty());
        assert(bks + Seq::<Seq<RelocationEntry>>::empty() =~= bks);
        assert(all_locals.take(all_locals.len() as int) =~= all_locals);
    }
    Ok(functions)
}

/// Decode the two relocation custom sections into offset-keyed maps, then
/// partition the code relocations across the locally-defined functions by
/// byte range, preserving per-function order. The first decode failure or
/// containment violation is returned instead.
pub fn accumulate_relocations(m: &ModuleInfo) -> (r: Result<RelocationMap, AnalysisError>)
    ensures
        relocations_post(*m, r),
{
    let code_entries = match accumulate_relocations_from_section(m, "reloc.CODE") {
        Ok(v) => v,
        Err(e) => {
            return Err(e);
        },
    };
    let data_entries = match accumulate_relocations_from_section(m, "reloc.DATA") {
        Ok(v) => v,
        Err(e) => {
            return Err(e);
        },
    };
    let code_relocs = build_offset_map(&code_entries);
    let data_relocs = build_offset_map(&data_entries);
    let locals = collect_locals(&m.functions);
    let functions = match partition_code_relocs(&locals, &code_entries) {
        Ok(functions) => functions,
        Err(e) => {
            return Err(e);
        },
    };
    let rm = RelocationMap { code_relocs, data_relocs, functions };
    proof {
        assert(rm@ =~~= relocations_spec(*m)->Ok_0);
    }
    Ok(rm)
}

/// The per-function buckets flattened back into one stream, in declaration
/// order.
pub open spec fn concat_all(bs: Seq<Seq<RelocationEntry>>) -> Seq<RelocationEntry>
    decreases bs.len(),
{
    if bs.len() == 0 {
        Seq::empty()
    } else {
        bs[0] + concat_all(bs.drop_first())
    }
}

/// The entry stream carries nondecreasing offsets, as the relocation section
/// format promises.
pub open spec fn entries_sorted(entries: Seq<RelocationEntry>) -> bool {
    forall|i: int, j: int|
        #![trigger entries[i], entries[j]]
        0 <= i < j < entries.len() ==> (entries[i].offset as int) <= (entries[j].offset as int)
}

/// The function ranges follow declaration order without overlap: each
/// range ends no later than the next one starts.
pub open spec fn ranges_ordered(locals: Seq<(FunctionRef, ByteRange)>) -> bool {
    forall|i: int, j: int|
        #![trigger locals[i], locals[j]]
        0 <= i < j < locals.len() ==> locals[i].1.end <= locals[j].1.start
}

/// Some function's range contains the entry's offset.
pub open spec fn entry_covered(locals: Seq<(FunctionRef, ByteRange)>, e: RelocationEntry) -> bool {
    exists|i: int|
        #![trigger locals[i]]
        0 <= i < locals.len() && locals[i].1.start <= (e.offset as int) < locals[i].1.end
}

/// No entry's offset falls in a gap or straddles a boundary: every offset
/// lies inside some function's range.
pub open spec fn all_covered(
    locals: Seq<(FunctionRef, ByteRange)>,
    entries: Seq<RelocationEntry>,
) -> bool {
    forall|kk: int|
        #![trigger entries[kk]]
        0 <= kk < entries.len() ==> entry_covered(locals, entries[kk])
}

proof fn lemma_lt_end_window(entries: Seq<RelocationEntry>, end: int)
    ensures
        0 <= lt_end_count(entries, end) <= entries.len(),
        forall|i: int|
            #![trigger entries[i]]
            0 <= i < lt_end_count(entries, end) ==> (entries[i].offset as int) < end,
        lt_end_count(entries, end) < entries.len() ==> (entries[lt_end_count(entries, end)].offset
            as int) >= end,
    decreases entries.len(),
{
    if entries.len() == 0 {
    } else if (entries[0].offset as int) < end {
        let rest = entries.drop_first();
        lemma_lt_end_window(rest, end);
        let n = lt_end_count(entries, end);
        assert forall|i: int| 0 <= i < n implies (#[trigger] entries[i].offset as int) < end by {
            if i > 0 {
                assert(rest[i - 1] == entries[i]);
            }
        }
        if n < entries.len() {
            assert(rest[n - 1] == entries[n]);
        }
    }
}

proof fn lemma_first_below_none(entries: Seq<RelocationEntry>, n: int, start: int)
    requires
        forall|i: int|
            #![trigger entries[i]]
            0 <= i < n ==> (entries[i].offset as int) >= start,
    ensures
        first_below(entries, n, start) is None,
    decreases n,
{
    if n > 0 {
        lemma_first_below_none(entries, n - 1, start);
    }
}

/// Law (partition completeness): when the entry stream carries nondecreasing
/// offsets, the function ranges follow declaration order without overlap,
/// and every offset lies inside some function's range, the merge join
/// succeeds and the per-function buckets concatenate back to exactly the
/// decoded code relocations: no entry duplicated, none omitted.
pub proof fn lemma_partition_complete(
    locals: Seq<(FunctionRef, ByteRange)>,
    entries: Seq<RelocationEntry>,
)
    requires
        entries_sorted(entries),
        ranges_ordered(locals),
        all_covered(locals, entries),
    ensures
        bucket_spec(locals, entries) is Ok,
        concat_all(bucket_spec(locals, entries)->Ok_0) == entries,
    decreases locals.len(),
{
    if locals.len() == 0 {
        if entries.len() > 0 {
            assert(entry_covered(locals, entries[0]));
            assert(false);
        }
        assert(concat_all(bucket_spec(locals, entries)->Ok_0) =~= entries);
    } else {
        let rng = locals[0].1;
        let n = lt_end_count(entries, rng.end as int);
        lemma_lt_end_window(entries, rng.end as int);
        assert forall|i: int| 0 <= i < n implies rng.start <= (#[trigger] entries[i].offset
            as int) < rng.end by {
            assert(entry_covered(locals, entries[i]));
            let j = choose|j: int|
                #![trigger locals[j]]
                0 <= j < locals.len() && locals[j].1.start <= (entries[i].offset as int)
                    < locals[j].1.end;
            if j > 0 {
                assert(locals[0].1.end <= locals[j].1.start);
                assert(false);
            }
        }
        lemma_first_below_none(entries, n, rng.start as int);
        let rest_entries = entries.skip(n);
        let rest_locals = locals.drop_first();
        assert forall|i: int| 0 <= i < rest_entries.len() implies (#[trigger] rest_entries[i].offset
            as int) >= rng.end by {
            assert(rest_entries[i] == entries[n + i]);
            assert((entries[n].offset as int) >= rng.end);
            assert((entries[n].offset as int) <= (entries[n + i].offset as int));
        }
        assert(entries_sorted(rest_entries)) by {
            assert forall|i: int, j: int| 0 <= i < j < rest_entries.len() implies (
            #[trigger] rest_entries[i].offset as int) <= (#[trigger] rest_entries[j].offset
                as int) by {
                assert(rest_entries[i] == entries[n + i]);
                assert(rest_entries[j] == entries[n + j]);
            }
        }
        assert(ranges_ordered(rest_locals)) by {
            assert forall|i: int, j: int| 0 <= i < j < rest_locals.len() implies (
            #[trigger] rest_locals[i]).1.end <= (#[trigger] rest_locals[j]).1.start by {
                assert(rest_locals[i] == locals[i + 1]);
                assert(rest_locals[j] == locals[j + 1]);
            }
        }
        assert(all_covered(rest_locals, rest_entries)) by {
            assert forall|kk: int| 0 <= kk < rest_entries.len() implies entry_covered(
                rest_locals,
                #[trigger] rest_entries[kk],
            ) by {
                assert(rest_entries[kk] == entries[n + kk]);
                assert(entry_covered(locals, entries[n + kk]));
                let j = choose|j: int|
                    #![trigger locals[j]]
                    0 <= j < locals.len() && locals[j].1.start <= (entries[n + kk].offset as int)
                        < locals[j].1.end;
                assert(j != 0) by {
                    assert((rest_entries[kk].offset as int) >= rng.end);
                }
                assert(rest_locals[j - 1] == locals[j]);
            }
        }
        lemma_partition_complete(rest_locals, rest_entries);
        let rest = bucket_spec(rest_locals, rest_entries)->Ok_0;
        let bs = seq![entries.take(n)] + rest;
        assert(bucket_spec(locals, entries) == Ok::<_, AnalysisErrorV>(bs));
        assert(bs[0] == entries.take(n));
        assert(bs.drop_first() =~= rest);
        assert(concat_all(bs) == entries.take(n) + concat_all(rest));
        assert(entries.take(n) + entries.skip(n) =~= entries);
    }
}

proof fn lemma_bucket_spec_len(locals: Seq<(FunctionRef, ByteRange)>, entries: Seq<RelocationEntry>)
    requires
        bucket_spec(locals, entries) is Ok,
    ensures
        bucket_spec(locals, entries)->Ok_0.len() == locals.len(),
    decreases locals.len(),
{
    if locals.len() > 0 {
        let rng = locals[0].1;
        let n = lt_end_count(entries, rng.end as int);
        lemma_bucket_spec_len(locals.drop_first(), entries.skip(n));
    }
}

proof fn lemma_locals_ids_bounded(funcs: Seq<FunctionInfo>)
    ensures
        forall|i: int|
            #![trigger locals_of(funcs)[i]]
            0 <= i < locals_of(funcs).len() ==> locals_of(funcs)[i].0 < funcs.len(),
    decreases funcs.len(),
{
    if funcs.len() > 0 {
        lemma_locals_ids_bounded(funcs.drop_last());
        assert forall|i: int| 0 <= i < locals_of(funcs).len() implies (
        #[trigger] locals_of(funcs)[i]).0 < funcs.len() by {
            let prefix = locals_of(funcs.drop_last());
            if i < prefix.len() {
                assert(locals_of(funcs)[i] == prefix[i]);
            }
        }
    }
}

/// Identities of the local-function list are strictly increasing, hence
/// pairwise distinct.
proof fn lemma_locals_ids_increasing(funcs: Seq<FunctionInfo>)
    requires
        funcs.len() <= usize::MAX,
    ensures
        forall|i: int, j: int|
            #![trigger locals_of(funcs)[i], locals_of(funcs)[j]]
            0 <= i < j < locals_of(funcs).len() ==> locals_of(funcs)[i].0 < locals_of(funcs)[j].0,
    decreases funcs.len(),
{
    if funcs.len() > 0 {
        lemma_locals_ids_increasing(funcs.drop_last());
        lemma_locals_ids_bounded(funcs.drop_last());
        let prefix = locals_of(funcs.drop_last());
        assert forall|i: int, j: int| 0 <= i < j < locals_of(funcs).len() implies (
        #[trigger] locals_of(funcs)[i]).0 < (#[trigger] locals_of(funcs)[j]).0 by {
            if j < prefix.len() {
                assert(locals_of(funcs)[i] == prefix[i]);
                assert(locals_of(funcs)[j] == prefix[j]);
            } else {
                assert(locals_of(funcs)[i] == prefix[i]);
                match funcs.last().local {
                    Some(b) => {
                        let tail = seq![
                            (
                                ((funcs.len() - 1) as usize),
                                ByteRange { start: b.range_start, end: b.range_end },
                            ),
                        ];
                        assert(locals_of(funcs) == prefix + tail);
                        assert(j == prefix.len());
                        assert((prefix + tail)[j] == tail[0]);
                        assert(prefix[i].0 < funcs.drop_last().len());
                    },
                    None => {
                        assert(locals_of(funcs) =~= prefix);
                    },
                }
            }
        }
    }
}

proof fn lemma_functions_map_at(
    locals: Seq<(FunctionRef, ByteRange)>,
    buckets: Seq<Seq<RelocationEntry>>,
    k: int,
)
    requires
        buckets.len() == locals.len(),
        0 <= k < locals.len(),
        forall|i: int, j: int|
            #![trigger locals[i], locals[j]]
            0 <= i < j < locals.len() ==> locals[i].0 != locals[j].0,
    ensures
        functions_map_spec(locals, buckets).contains_key(locals[k].0),
        functions_map_spec(locals, buckets)[locals[k].0] == (FunctionRelocationsV {
            func_id: locals[k].0,
            original_range: locals[k].1,
            relocations: buckets[k],
            by_offset: offsets_map(buckets[k]),
        }),
    decreases locals.len(),
{
    if k == locals.len() - 1 {
    } else {
        assert forall|i: int, j: int|
            0 <= i < j < locals.drop_last().len() implies (#[trigger] locals.drop_last()[i]).0 != (
        #[trigger] locals.drop_last()[j]).0 by {
            assert(locals.drop_last()[i] == locals[i]);
            assert(locals.drop_last()[j] == locals[j]);
        }
        lemma_functions_map_at(locals.drop_last(), buckets.drop_last(), k);
        assert(locals.drop_last()[k] == locals[k]);
        assert(buckets.drop_last()[k] == buckets[k]);
        assert(locals[k].0 != locals.last().0);
    }
}

/// Law (partition completeness, on the pass's own output): when the pass
/// succeeds and the snapshot obeys the no-overlap/no-gap invariant — sorted
/// relocation offsets, ranges in declaration order, every offset inside some
/// local function's range — the per-function relocation lists of the
/// returned map concatenate, in declaration order, to exactly the decoded
/// code relocations: no entry duplicated, none omitted.
pub proof fn lemma_relocation_buckets_partition_code(m: ModuleInfo, rm: RelocationMap)
    requires
        m.functions@.len() <= usize::MAX,
        relocations_post(m, Ok(rm)),
        entries_sorted(section_entries_spec(m.customs@, code_reloc_section_name())->Ok_0),
        ranges_ordered(locals_of(m.functions@)),
        all_covered(
            locals_of(m.functions@),
            section_entries_spec(m.customs@, code_reloc_section_name())->Ok_0,
        ),
    ensures
        ({
            let locals = locals_of(m.functions@);
            let ces = section_entries_spec(m.customs@, code_reloc_section_name())->Ok_0;
            concat_all(
                Seq::new(locals.len(), |k: int| rm@.functions[locals[k].0].relocations),
            ) == ces
        }),
{
    let locals = locals_of(m.functions@);
    let ces = section_entries_spec(m.customs@, code_reloc_section_name())->Ok_0;
    lemma_partition_complete(locals, ces);
    let buckets = bucket_spec(locals, ces)->Ok_0;
    lemma_bucket_spec_len(locals, ces);
    lemma_locals_ids_increasing(m.functions@);
    assert forall|k: int| 0 <= k < locals.len() implies rm@.functions[(
    #[trigger] locals[k]).0].relocations == buckets[k] by {
        lemma_functions_map_at(locals, buckets, k);
    }
    assert(Seq::new(locals.len(), |k: int| rm@.functions[locals[k].0].relocations) =~= buckets);
}

/// Law: the relocation pass is a pure function of the snapshot: any two
/// results that satisfy the contract over the same module are structurally
/// equal.
pub proof fn lemma_relocations_deterministic(
    m: ModuleInfo,
    r1: Result<RelocationMap, AnalysisError>,
    r2: Result<RelocationMap, AnalysisError>,
)
    requires
        relocations_post(m, r1),
        relocations_post(m, r2),
    ensures
        relocations_result_view(r1) == relocations_result_view(r2),
{
}

} // verus!
