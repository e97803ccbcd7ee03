//! The split-marker naming convention.
//!
//! A code-splitting build step marks each lazy-loaded boundary with a pair of
//! symbols that serialize a small record inside a legal symbol string:
//!
//! `__wasm_split_<ESC><module_name><ESC>_<direction>_<hash>_<component_name>`
//!
//! where `<ESC>` is the fixed two-character escape token `00` separating the
//! free-form module name from the structured fields, `<direction>` is `import`
//! or `export`, `<hash>` is a content hash running up to the next `_`, and
//! `<component_name>` is the trailing remainder (it may itself contain
//! separators). This module holds the decoder, the matching encoder, and the
//! laws that tie them together.

use vstd::prelude::*;

verus! {

/// The direction tag of a marker name.
#[derive(Debug, Clone, Copy, PartialEq, Eq, Structural)]
pub enum Direction {
    Import,
    Export,
}

/// The record a well-formed marker name serializes.
#[derive(Debug, Clone)]
pub struct SplitMarker {
    pub module_name: String,
    pub direction: Direction,
    pub hash: String,
    pub component_name: String,
}

/// The mathematical value of a [`SplitMarker`].
pub struct SplitMarkerV {
    pub module_name: Seq<char>,
    pub direction: Direction,
    pub hash: Seq<char>,
    pub component_name: Seq<char>,
}

impl View for SplitMarker {
    type V = SplitMarkerV;

    open spec fn view(&self) -> SplitMarkerV {
        SplitMarkerV {
            module_name: self.module_name@,
            direction: self.direction,
            hash: self.hash@,
            component_name: self.component_name@,
        }
    }
}

/// The marker prefix that singles out split symbols among all names.
pub open spec fn marker_prefix() -> Seq<char> {
    "__wasm_split"@
}

/// The escape token that brackets the free-form module name.
pub open spec fn esc_token() -> Seq<char> {
    "00"@
}

/// The marker prefix followed by `_` and the opening escape token: every
/// well-formed marker name starts with these characters.
pub open spec fn prefix_esc() -> Seq<char> {
    "__wasm_split_00"@
}

/// The field separator of the structured tail.
pub open spec fn sep() -> Seq<char> {
    "_"@
}

/// The full direction tag, separators included.
pub open spec fn direction_tag(d: Direction) -> Seq<char> {
    match d {
        Direction::Import => "_import_"@,
        Direction::Export => "_export_"@,
    }
}

/// The name that a marker record serializes to.
pub open spec fn encode_marker(m: SplitMarkerV) -> Seq<char> {
    prefix_esc() + m.module_name + esc_token() + direction_tag(m.direction) + m.hash + sep()
        + m.component_name
}

/// The pattern `p` occurs in `s` at position `i`.
pub open spec fn match_at(s: Seq<char>, p: Seq<char>, i: int) -> bool {
    0 <= i && i + p.len() <= s.len() && s.subrange(i, i + p.len() as int) == p
}

/// The first position at or after `i` where the non-empty pattern `p` occurs
/// in `s`.
pub open spec fn first_match_from(s: Seq<char>, p: Seq<char>, i: int) -> Option<int>
    decreases s.len() - i,
{
    if i < 0 || p.len() == 0 || i + p.len() > s.len() {
        None
    } else if match_at(s, p, i) {
        Some(i)
    } else {
        first_match_from(s, p, i + 1)
    }
}

/// The first position where `p` occurs in `s`.
pub open spec fn first_match(s: Seq<char>, p: Seq<char>) -> Option<int> {
    first_match_from(s, p, 0)
}

/// What a found position means, and that nothing earlier matches.
pub proof fn lemma_first_match_from(s: Seq<char>, p: Seq<char>, i: int)
    requires
        0 <= i,
        p.len() > 0,
    ensures
        match first_match_from(s, p, i) {
            Some(k) => i <= k && match_at(s, p, k) && forall|j: int|
                i <= j < k ==> !match_at(s, p, j),
            None => forall|j: int| i <= j ==> !match_at(s, p, j),
        },
    decreases s.len() - i,
{
    if p.len() == 0 {
    } else if i + p.len() > s.len() {
        assert forall|j: int| i <= j implies !match_at(s, p, j) by {
            assert(j + p.len() >= i + p.len());
        }
    } else if match_at(s, p, i) {
    } else {
        lemma_first_match_from(s, p, i + 1);
    }
}

/// The decoded record of a marker name, if the name follows the grammar: the
/// state machine runs module-name, direction-tag, hash, component-name in
/// that order.
pub open spec fn parse_marker(name: Seq<char>) -> Option<SplitMarkerV> {
    if !prefix_esc().is_prefix_of(name) {
        None
    } else {
        let rest = name.skip(prefix_esc().len() as int);
        match first_match(rest, esc_token()) {
            Some(i) => parse_after_module(rest.take(i), rest.skip(i + esc_token().len() as int)),
            None => None,
        }
    }
}

/// Second state: strip the direction tag off `after`.
pub open spec fn parse_after_module(module_name: Seq<char>, after: Seq<char>) -> Option<
    SplitMarkerV,
> {
    if direction_tag(Direction::Import).is_prefix_of(after) {
        parse_tail(module_name, Direction::Import, after.skip(direction_tag(Direction::Import).len() as int))
    } else if direction_tag(Direction::Export).is_prefix_of(after) {
        parse_tail(module_name, Direction::Export, after.skip(direction_tag(Direction::Export).len() as int))
    } else {
        None
    }
}

/// Last states: split the tail at its first separator into hash and
/// component name.
pub open spec fn parse_tail(module_name: Seq<char>, d: Direction, tail: Seq<char>) -> Option<
    SplitMarkerV,
> {
    match first_match(tail, sep()) {
        Some(j) => Some(
            SplitMarkerV {
                module_name,
                direction: d,
                hash: tail.take(j),
                component_name: tail.skip(j + 1),
            },
        ),
        None => None,
    }
}

/// Whether `p` occurs in `s` at position `i`, by character comparison.
pub fn match_at_exec(s: &str, p: &str, i: usize) -> (r: bool)
    ensures
        r == match_at(s@, p@, i as int),
{
    let n: usize = s.unicode_len();
    let m: usize = p.unicode_len();
    if i > n || m > n - i {
        proof {
            assert(!match_at(s@, p@, i as int));
        }
        return false;
    }
    let mut j: usize = 0;
    while j < m
        invariant
            i + m <= n,
            n == s@.len(),
            m == p@.len(),
            j <= m,
            forall|k: int| 0 <= k < j ==> s@[i + k] == p@[k],
        decreases m - j,
    {
        if s.get_char(i + j) != p.get_char(j) {
            proof {
                assert(s@.subrange(i as int, i + m) != p@) by {
                    assert(s@.subrange(i as int, i + m)[j as int] == s@[i + j]);
                }
            }
            return false;
        }
        j += 1;
    }
    proof {
        assert(s@.subrange(i as int, i + m) =~= p@);
    }
    true
}

/// Character-for-character equality of two string slices.
pub fn str_eq(a: &str, b: &str) -> (r: bool)
    ensures
        r == (a@ == b@),
{
    let n: usize = a.unicode_len();
    let m: usize = b.unicode_len();
    if n != m {
        return false;
    }
    let r = match_at_exec(a, b, 0);
    proof {
        if r {
            assert(a@.subrange(0, m as int) =~= a@);
        }
        if a@ == b@ {
            assert(a@.subrange(0, m as int) =~= b@);
        }
    }
    r
}

/// A pattern occurs at the head of `s` exactly when it is a prefix of `s`.
pub proof fn lemma_match_at_zero_is_prefix(s: Seq<char>, p: Seq<char>)
    ensures
        match_at(s, p, 0) == p.is_prefix_of(s),
{
    if match_at(s, p, 0) {
        assert(p =~= s.subrange(0, p.len() as int));
    }
    if p.is_prefix_of(s) {
        assert(s.subrange(0, p.len() as int) =~= p);
    }
}

/// The first position where `p` occurs in `s`, or `None` if it never does.
pub fn find_token(s: &str, p: &str) -> (r: Option<usize>)
    requires
        p@.len() > 0,
    ensures
        match r {
            Some(i) => first_match(s@, p@) == Some(i as int),
            None => first_match(s@, p@) is None,
        },
{
    let n: usize = s.unicode_len();
    let m: usize = p.unicode_len();
    if m > n {
        return None;
    }
    let mut i: usize = 0;
    while i <= n - m
        invariant
            n == s@.len(),
            m == p@.len(),
            0 < m <= n,
            i <= n - m + 1,
            first_match(s@, p@) == first_match_from(s@, p@, i as int),
        decreases n - i,
    {
        if match_at_exec(s, p, i) {
            return Some(i);
        }
        i += 1;
    }
    proof {
        assert(first_match_from(s@, p@, i as int) is None);
    }
    None
}

/// Decode a symbol name against the marker grammar. Returns the serialized
/// record exactly when the name is a well-formed marker name.
pub fn decode_marker_name(name: &str) -> (r: Option<SplitMarker>)
    ensures
        match r {
            Some(m) => parse_marker(name@) == Some(m@),
            None => parse_marker(name@) is None,
        },
{
    proof {
        reveal_strlit("__wasm_split_00");
        reveal_strlit("00");
    }
    let prefix = "__wasm_split_00";
    let n: usize = name.unicode_len();
    let pl: usize = prefix.unicode_len();
    if !match_at_exec(name, prefix, 0) {
        proof {
            assert(!prefix_esc().is_prefix_of(name@));
        }
        return None;
    }
    proof {
        assert(prefix_esc().is_prefix_of(name@));
    }
    let rest = name.substring_char(pl, n);
    proof {
        assert(rest@ =~= name@.skip(prefix_esc().len() as int));
    }
    let esc = "00";
    let i: usize = match find_token(rest, esc) {
        Some(i) => i,
        None => {
            return None;
        },
    };
    proof {
        lemma_first_match_from(rest@, esc@, 0);
    }
    let rl: usize = rest.unicode_len();
    let module_part = rest.substring_char(0, i);
    let after = rest.substring_char(i + 2, rl);
    proof {
        assert(module_part@ =~= rest@.take(i as int));
        assert(after@ =~= rest@.skip(i + esc_token().len() as int));
    }
    decode_after_module(module_part, after)
}

/// Decode the direction tag and the structured tail; `module_part` is the
/// recovered module name.
fn decode_after_module(module_part: &str, after: &str) -> (r: Option<SplitMarker>)
    ensures
        match r {
            Some(m) => parse_after_module(module_part@, after@) == Some(m@),
            None => parse_after_module(module_part@, after@) is None,
        },
{
    proof {
        reveal_strlit("_import_");
        reveal_strlit("_export_");
        reveal_strlit("_");
    }
    let import_tag = "_import_";
    let export_tag = "_export_";
    let al: usize = after.unicode_len();
    let tl: usize = import_tag.unicode_len();
    let d: Direction;
    if match_at_exec(after, import_tag, 0) {
        proof {
            assert(direction_tag(Direction::Import).is_prefix_of(after@));
        }
        d = Direction::Import;
    } else if match_at_exec(after, export_tag, 0) {
        proof {
            assert(!direction_tag(Direction::Import).is_prefix_of(after@));
            assert(direction_tag(Direction::Export).is_prefix_of(after@));
        }
        d = Direction::Export;
    } else {
        proof {
            assert(!direction_tag(Direction::Import).is_prefix_of(after@));
            assert(!direction_tag(Direction::Export).is_prefix_of(after@));
        }
        return None;
    }
    let tail = after.substring_char(tl, al);
    proof {
        assert(tail@ =~= after@.skip(direction_tag(d).len() as int));
    }
    let j: usize = match find_token(tail, "_") {
        Some(j) => j,
        None => {
            return None;
        },
    };
    proof {
        lemma_first_match_from(tail@, sep(), 0);
    }
    let tll: usize = tail.unicode_len();
    let hash_part = tail.substring_char(0, j);
    let component_part = tail.substring_char(j + 1, tll);
    proof {
        assert(hash_part@ =~= tail@.take(j as int));
        assert(component_part@ =~= tail@.skip(j + 1));
    }
    Some(
        SplitMarker {
            module_name: String::from_str(module_part),
            direction: d,
            hash: String::from_str(hash_part),
            component_name: String::from_str(component_part),
        },
    )
}

/// Serialize a marker record back into a symbol name.
pub fn encode_marker_name(m: &SplitMarker) -> (r: String)
    ensures
        r@ == encode_marker(m@),
{
    let mut out = String::from_str("__wasm_split_00");
    out.append(m.module_name.as_str());
    out.append("00");
    match m.direction {
        Direction::Import => out.append("_import_"),
        Direction::Export => out.append("_export_"),
    }
    out.append(m.hash.as_str());
    out.append("_");
    out.append(m.component_name.as_str());
    proof {
        assert(out@ =~= encode_marker(m@));
    }
    out
}

/// Law: decoding a well-formed marker name and re-encoding the recovered
/// record gives back the name, character for character.
#[verifier::rlimit(100)]
pub proof fn lemma_decode_encode_roundtrip(name: Seq<char>)
    requires
        parse_marker(name) is Some,
    ensures
        encode_marker(parse_marker(name)->Some_0) == name,
{
    reveal_strlit("00");
    reveal_strlit("_");
    reveal_strlit("_import_");
    reveal_strlit("_export_");
    let rest = name.skip(prefix_esc().len() as int);
    let i = first_match(rest, esc_token())->Some_0;
    lemma_first_match_from(rest, esc_token(), 0);
    let module_name = rest.take(i);
    let after = rest.skip(i + esc_token().len() as int);
    assert(rest =~= module_name + esc_token() + after) by {
        assert(rest.subrange(i, i + esc_token().len() as int) == esc_token());
    }
    let d = parse_marker(name)->Some_0.direction;
    let tail = after.skip(direction_tag(d).len() as int);
    assert(after =~= direction_tag(d) + tail);
    let j = first_match(tail, sep())->Some_0;
    lemma_first_match_from(tail, sep(), 0);
    assert(tail =~= tail.take(j) + sep() + tail.skip(j + 1)) by {
        assert(tail.subrange(j, j + 1)[0] == tail[j]);
        assert(sep().len() == 1);
        assert(tail.subrange(j, j + 1) == sep());
    }
    assert(name =~= prefix_esc() + rest);
    assert(encode_marker(parse_marker(name)->Some_0) =~= name);
}

/// Law: the sibling name of a marker record differs from the record's own
/// name only in the direction tag: both are `a + tag + b` for one common
/// head `a` and one common tail `b`.
pub proof fn lemma_sibling_swaps_direction_only(m: SplitMarkerV, d1: Direction, d2: Direction)
    ensures
        exists|a: Seq<char>, b: Seq<char>|
            encode_marker(SplitMarkerV { direction: d1, ..m }) == a + direction_tag(d1) + b
                && encode_marker(SplitMarkerV { direction: d2, ..m }) == a + direction_tag(d2) + b,
{
    let a = prefix_esc() + m.module_name + esc_token();
    let b = m.hash + sep() + m.component_name;
    assert(encode_marker(SplitMarkerV { direction: d1, ..m }) =~= a + direction_tag(d1) + b);
    assert(encode_marker(SplitMarkerV { direction: d2, ..m }) =~= a + direction_tag(d2) + b);
}

} // verus!
