//! Text positions and incremental edits.
//!
//! Positions address a document by line and by Unicode scalar within the
//! text that follows the line start. Edits replace the span between two
//! positions, or the whole document when they carry no range.

use vstd::prelude::*;
use vstd::string::*;
use vstd::utf8::encode_utf8;

verus! {

/// A (line, character) address in a document. Both counts start at zero;
/// `character` counts Unicode scalars from the start of the line.
#[derive(Clone, Copy, Debug, PartialEq, Eq, Structural)]
pub struct Position {
    pub line: u32,
    pub character: u32,
}

/// The span between two positions: `start` included, `end` excluded.
#[derive(Clone, Copy, Debug, PartialEq, Eq, Structural)]
pub struct TextRange {
    pub start: Position,
    pub end: Position,
}

/// One change to a document: a range replacement, or a full replacement
/// when `range` is `None`.
#[derive(Clone, Debug)]
pub struct TextEdit {
    pub range: Option<TextRange>,
    pub text: String,
}

/// Scanning from scalar index `i` with `seen` newlines already passed, the
/// scalar index just after the `line`-th newline.
pub open spec fn line_start_from(s: Seq<char>, i: int, seen: nat, line: nat) -> Option<int>
    decreases s.len() - i,
{
    if i < 0 || i >= s.len() {
        None
    } else if s[i] == '\n' {
        if seen + 1 == line {
            Some(i + 1)
        } else {
            line_start_from(s, i + 1, seen + 1, line)
        }
    } else {
        line_start_from(s, i + 1, seen, line)
    }
}

/// Scalar index at which line `line` starts: 0 for the first line, else just
/// after the `line`-th newline; `None` when the text has fewer newlines.
pub open spec fn line_start(s: Seq<char>, line: nat) -> Option<int> {
    if line == 0 {
        Some(0)
    } else {
        line_start_from(s, 0, 0, line)
    }
}

/// Scalar index that a position designates: the line start (the end of the
/// text for a missing line) advanced by `character` scalars. An index past
/// the end of the text is clamped to the last scalar (0 for an empty text).
pub open spec fn char_index_of(s: Seq<char>, p: Position) -> int {
    let start = match line_start(s, p.line as nat) {
        Some(k) => k,
        None => s.len() as int,
    };
    let idx = start + p.character;
    if idx > s.len() {
        if s.len() == 0 {
            0
        } else {
            s.len() - 1
        }
    } else {
        idx
    }
}

/// Byte offset, in the UTF-8 encoding of `s`, of scalar index `k`.
pub open spec fn byte_offset(s: Seq<char>, k: int) -> usize {
    encode_utf8(s.subrange(0, k)).len() as usize
}

/// The text that one edit makes of `s`. A range whose end lies before its
/// start replaces nothing and inserts at the start.
pub open spec fn edit_result(s: Seq<char>, e: TextEdit) -> Seq<char> {
    match e.range {
        None => e.text@,
        Some(r) => {
            let a = char_index_of(s, r.start);
            let b = char_index_of(s, r.end);
            let b2 = if b < a {
                a
            } else {
                b
            };
            s.subrange(0, a) + e.text@ + s.subrange(b2, s.len() as int)
        },
    }
}

/// The text that a sequence of edits, applied in order, makes of `s`.
pub open spec fn apply_edits(s: Seq<char>, edits: Seq<TextEdit>) -> Seq<char>
    decreases edits.len(),
{
    if edits.len() == 0 {
        s
    } else {
        edit_result(apply_edits(s, edits.drop_last()), edits.last())
    }
}

proof fn lemma_line_start_from_bound(s: Seq<char>, i: int, seen: nat, line: nat)
    ensures
        line_start_from(s, i, seen, line) matches Some(k) ==> 0 < k <= s.len(),
    decreases s.len() - i,
{
    if 0 <= i < s.len() {
        lemma_line_start_from_bound(s, i + 1, seen + 1, line);
        lemma_line_start_from_bound(s, i + 1, seen, line);
    }
}

proof fn lemma_char_index_bound(s: Seq<char>, p: Position)
    ensures
        0 <= char_index_of(s, p) <= s.len(),
{
    lemma_line_start_from_bound(s, 0, 0, p.line as nat);
}

/// Scalar index at which line `line` of `s` starts, if the text has it.
fn line_start_index(s: &str, line: u32) -> (r: Option<usize>)
    ensures
        r matches Some(k) ==> line_start(s@, line as nat) == Some(k as int),
        r is None ==> line_start(s@, line as nat) is None,
{
    if line == 0 {
        return Some(0);
    }
    let n = s.unicode_len();
    let mut i: usize = 0;
    let mut seen: u32 = 0;
    while i < n
        invariant
            n == s@.len(),
            i <= n,
            seen < line,
            line_start(s@, line as nat) == line_start_from(s@, i as int, seen as nat, line as nat),
        decreases n - i,
    {
        let c = s.get_char(i);
        if c == '\n' {
            if seen + 1 == line {
                return Some(i + 1);
            }
            seen = seen + 1;
        }
        i = i + 1;
    }
    None
}

/// Byte offset at which line `line` of `s` starts: 0 for the first line,
/// else just after the `line`-th newline; `None` when `s` has fewer
/// newlines than `line`.
pub fn index_of_first_char_in_line(s: &str, line: u32) -> (r: Option<usize>)
    ensures
        r is Some <==> line_start(s@, line as nat) is Some,
        r matches Some(b) ==> b == byte_offset(s@, line_start(s@, line as nat).unwrap()),
{
    match line_start_index(s, line) {
        Some(k) => {
            proof {
                lemma_line_start_from_bound(s@, 0, 0, line as nat);
            }
            let prefix = s.substring_char(0, k);
            Some(prefix.len())
        },
        None => None,
    }
}

/// Scalar index that position `p` designates in `s` (see `char_index_of`).
pub fn char_index_of_position(s: &str, p: &Position) -> (r: usize)
    ensures
        r as int == char_index_of(s@, *p),
        r <= s@.len(),
{
    proof {
        lemma_char_index_bound(s@, *p);
    }
    let n = s.unicode_len();
    let start = match line_start_index(s, p.line) {
        Some(k) => k,
        None => n,
    };
    proof {
        lemma_line_start_from_bound(s@, 0, 0, p.line as nat);
    }
    let c = p.character as usize;
    if c > n - start {
        if n == 0 {
            0
        } else {
            n - 1
        }
    } else {
        start + c
    }
}

/// Byte offset in `s` of the scalar that `position` designates: the start
/// of its line advanced by `position.character` scalars, clamped to the
/// last scalar of the text when that runs past the end.
pub fn get_byte_index_from_position(s: &str, position: Position) -> (r: usize)
    ensures
        r == byte_offset(s@, char_index_of(s@, position)),
{
    let k = char_index_of_position(s, &position);
    let prefix = s.substring_char(0, k);
    prefix.len()
}

/// Applies one edit to `s` (see `edit_result`).
pub fn apply_edit(s: &String, e: &TextEdit) -> (r: String)
    ensures
        r@ == edit_result(s@, *e),
{
    match &e.range {
        None => e.text.clone(),
        Some(range) => {
            let t = s.as_str();
            let n = t.unicode_len();
            let a = char_index_of_position(t, &range.start);
            let b = char_index_of_position(t, &range.end);
            let b2 = if b < a {
                a
            } else {
                b
            };
            let mut out = String::from_str(t.substring_char(0, a));
            out.append(e.text.as_str());
            out.append(t.substring_char(b2, n));
            out
        },
    }
}

/// Applies `edits` to `s`, in order.
pub fn apply_edits_in_order(s: &String, edits: &Vec<TextEdit>) -> (r: String)
    ensures
        r@ == apply_edits(s@, edits@),
{
    let mut cur = s.clone();
    let mut i: usize = 0;
    while i < edits.len()
        invariant
            i <= edits@.len(),
            cur@ == apply_edits(s@, edits@.take(i as int)),
        decreases edits@.len() - i,
    {
        proof {
            assert(edits@.take(i as int + 1).drop_last() =~= edits@.take(i as int));
        }
        cur = apply_edit(&cur, &edits[i]);
        i = i + 1;
    }
    proof {
        assert(edits@.take(edits@.len() as int) =~= edits@);
    }
    cur
}

/// A full replacement discards what came before it: applying it and then
/// `edits` to any document gives what `edits` alone make of its text, so
/// replaying the same edits after the same replacement always ends in the
/// same text.
pub proof fn lemma_full_replacement_resets(doc: Seq<char>, replacement: TextEdit, edits: Seq<TextEdit>)
    requires
        replacement.range is None,
    ensures
        apply_edits(doc, seq![replacement] + edits) == apply_edits(replacement.text@, edits),
    decreases edits.len(),
{
    if edits.len() == 0 {
        let es = seq![replacement] + edits;
        assert(es.drop_last() =~= Seq::<TextEdit>::empty());
    } else {
        let es = seq![replacement] + edits;
        assert(es.drop_last() =~= seq![replacement] + edits.drop_last());
        lemma_full_replacement_resets(doc, replacement, edits.drop_last());
    }
}

} // verus!
