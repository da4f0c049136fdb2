//! The gitattributes file grammar, as spec functions, and a parser proved
//! against it.
//!
//! Per line: optional leading blanks; `#` opens a comment; otherwise the
//! first blank-delimited token is the glob — optionally double-quoted with
//! C-style escapes — and the remaining tokens are attribute specs of the form
//! `name`, `-name`, `!name` or `name=value`. Malformed lines (a negated or
//! empty glob, an invalid attribute name, an unterminated quote treated as a
//! macro) are skipped silently; the parser never rejects a file.
use vstd::prelude::*;

use crate::model::Assignment;
use crate::model::AssignmentModel;
use crate::model::AttrState;
use crate::model::Pattern;
use crate::model::PatternList;
use crate::model::PatternModel;
use crate::model::StateModel;
use crate::scan::contains_byte;
use crate::scan::find_blank_from;
use crate::scan::find_byte_from;
use crate::scan::find_non_blank_from;
use crate::scan::is_ascii_ws_byte;
use crate::scan::is_blank_byte;
use crate::scan::lemma_find_blank_bounds;
use crate::scan::lemma_find_byte_bounds;

verus! {

/// A line's content without its terminator: a carriage return right before
/// the line feed is dropped too.
pub open spec fn strip_cr(line: Seq<u8>) -> Seq<u8> {
    if line.len() > 0 && line.last() == 13 {
        line.drop_last()
    } else {
        line
    }
}

/// The byte a single-character C-style escape stands for, or `None` if the
/// character does not open a valid escape.
pub open spec fn escape_byte(c: u8) -> Option<u8> {
    if c == 110 {
        Some(10u8)  // \n
    } else if c == 114 {
        Some(13u8)  // \r
    } else if c == 116 {
        Some(9u8)  // \t
    } else if c == 97 {
        Some(7u8)  // \a
    } else if c == 98 {
        Some(8u8)  // \b
    } else if c == 118 {
        Some(11u8)  // \v
    } else if c == 102 {
        Some(12u8)  // \f
    } else if c == 34 {
        Some(34u8)  // \"
    } else if c == 92 {
        Some(92u8)  // a doubled backslash
    } else {
        None
    }
}

pub open spec fn is_octal_digit(b: u8) -> bool {
    48 <= b <= 55
}

/// The byte written as three octal digits; the leading digit is at most `3`,
/// so the value fits in one byte.
pub open spec fn octal_byte(d0: u8, d1: u8, d2: u8) -> u8 {
    ((d0 - 48) * 64 + (d1 - 48) * 8 + (d2 - 48)) as u8
}

/// Unquotes the C-style quoted string opened right before index `i`:
/// `acc` holds what was unquoted so far. Returns the unquoted bytes and the
/// index right after the closing quote, or `None` when the quote never closes
/// or an escape is invalid.
pub open spec fn unquote_from(s: Seq<u8>, i: int, acc: Seq<u8>) -> Option<(Seq<u8>, int)>
    decreases s.len() - i,
{
    if i < 0 || i >= s.len() {
        None
    } else if s[i] == 34 {
        Some((acc, i + 1))
    } else if s[i] == 92 {
        if i + 1 >= s.len() {
            None
        } else {
            let c = s[i + 1];
            match escape_byte(c) {
                Some(b) => unquote_from(s, i + 2, acc.push(b)),
                None => {
                    if 48 <= c <= 51 && i + 3 < s.len() && is_octal_digit(s[i + 2])
                        && is_octal_digit(s[i + 3]) {
                        unquote_from(s, i + 4, acc.push(octal_byte(c, s[i + 2], s[i + 3])))
                    } else {
                        None
                    }
                },
            }
        }
    } else {
        unquote_from(s, i + 1, acc.push(s[i]))
    }
}

pub proof fn lemma_unquote_bounds(s: Seq<u8>, i: int, acc: Seq<u8>)
    requires
        0 <= i,
    ensures
        match unquote_from(s, i, acc) {
            Some((g, c)) => i < c <= s.len(),
            None => true,
        },
    decreases s.len() - i,
{
    if 0 <= i < s.len() && s[i] != 34 {
        if s[i] == 92 {
            if i + 1 < s.len() {
                let c = s[i + 1];
                match escape_byte(c) {
                    Some(b) => lemma_unquote_bounds(s, i + 2, acc.push(b)),
                    None => {
                        if 48 <= c <= 51 && i + 3 < s.len() && is_octal_digit(s[i + 2])
                            && is_octal_digit(s[i + 3]) {
                            lemma_unquote_bounds(s, i + 4, acc.push(octal_byte(c, s[i + 2], s[i + 3])));
                        }
                    },
                }
            }
        } else {
            lemma_unquote_bounds(s, i + 1, acc.push(s[i]));
        }
    }
}

/// Splits `l` at its first blank: the glob token and the remainder.
pub open spec fn split_unquoted(l: Seq<u8>) -> (Seq<u8>, Seq<u8>) {
    let j = find_blank_from(l, 0);
    (l.subrange(0, j), l.subrange(j, l.len() as int))
}

/// The glob token of a line (whose leading blanks are gone) and the remainder
/// holding the attribute specs. A leading `"` opens a quoted glob; if its
/// quoting is malformed, the token is read as a plain one.
pub open spec fn split_glob(l: Seq<u8>) -> (Seq<u8>, Seq<u8>) {
    if l.len() > 0 && l[0] == 34 {
        match unquote_from(l, 1, Seq::empty()) {
            Some((g, consumed)) => (g, l.subrange(consumed, l.len() as int)),
            None => split_unquoted(l),
        }
    } else {
        split_unquoted(l)
    }
}

/// The bytes of `[attr]`, the prefix that opens a macro definition.
pub open spec fn macro_prefix() -> Seq<u8> {
    seq![91u8, 97u8, 116u8, 116u8, 114u8, 93u8]
}

/// A glob token that begins a macro definition line. Macro attributes are
/// out of this crate's scope; such lines are skipped.
pub open spec fn is_macro_token(t: Seq<u8>) -> bool {
    t.len() > 6 && t.subrange(0, 6) == macro_prefix()
}

/// Whether every byte of `t` is ASCII whitespace.
pub open spec fn all_ws(t: Seq<u8>) -> bool {
    forall|j: int| 0 <= j < t.len() ==> is_ascii_ws_byte(t[j])
}

/// A normalized glob: its text after stripping a leading `!` escape, a
/// leading `/` and a trailing `/`, with the two flags the strips leave.
pub struct GlobParts {
    pub text: Seq<u8>,
    pub anchored: bool,
    pub dir_only: bool,
}

/// Normalizes a glob token. `None` stands for a token that yields no
/// pattern: an empty or all-whitespace token, or a negated one (`!` cannot
/// negate a gitattributes pattern; the line is dropped).
pub open spec fn normalize_glob(tok: Seq<u8>) -> Option<GlobParts> {
    if tok.len() == 0 {
        None
    } else if tok[0] == 33 {
        None
    } else {
        let t0 = if tok[0] == 92 && tok.len() >= 2 && (tok[1] == 33 || tok[1] == 35) {
            tok.drop_first()
        } else {
            tok
        };
        if all_ws(t0) {
            None
        } else {
            let abs = t0[0] == 47;
            let t1 = if abs {
                t0.drop_first()
            } else {
                t0
            };
            let dir = t1.len() > 0 && t1.last() == 47;
            let t2 = if dir {
                t1.drop_last()
            } else {
                t1
            };
            Some(GlobParts { text: t2, anchored: abs || contains_byte(t2, 47), dir_only: dir })
        }
    }
}

/// A byte allowed in an attribute name: `-`, `.`, `_`, a digit or an ASCII
/// letter.
pub open spec fn valid_name_byte(b: u8) -> bool {
    b == 45 || b == 46 || b == 95 || (48 <= b <= 57) || (65 <= b <= 90) || (97 <= b <= 122)
}

/// The bytes of `builtin_`, a reserved attribute-name prefix.
pub open spec fn builtin_prefix() -> Seq<u8> {
    seq![98u8, 117u8, 105u8, 108u8, 116u8, 105u8, 110u8, 95u8]
}

/// A well-formed attribute name: non-empty, not starting with `-`, made of
/// allowed bytes, and not using the reserved `builtin_` prefix.
pub open spec fn valid_attr_name(n: Seq<u8>) -> bool {
    &&& n.len() > 0
    &&& n[0] != 45
    &&& (forall|j: int| 0 <= j < n.len() ==> valid_name_byte(n[j]))
    &&& !(n.len() >= 8 && n.subrange(0, 8) == builtin_prefix())
}

/// Parses one attribute spec token: `name` sets, `-name` unsets, `!name`
/// returns to unspecified, `name=value` attaches a value (a value after
/// `-name` or `!name` is ignored). `None` for an invalid name, which drops
/// the whole line.
pub open spec fn parse_one_attr(tok: Seq<u8>) -> Option<AssignmentModel> {
    let e = find_byte_from(tok, 61, 0);
    let head = tok.subrange(0, e);
    let stripped = if head.len() > 0 && (head[0] == 45 || head[0] == 33) {
        head.drop_first()
    } else {
        head
    };
    let state = if head.len() > 0 && head[0] == 45 {
        StateModel::UnsetAttr
    } else if head.len() > 0 && head[0] == 33 {
        StateModel::Unspecified
    } else if e < tok.len() {
        StateModel::Value(tok.subrange(e + 1, tok.len() as int))
    } else {
        StateModel::SetAttr
    };
    if valid_attr_name(stripped) {
        Some(AssignmentModel { name: stripped, state })
    } else {
        None
    }
}

/// Parses the attribute specs of a line from index `i` on: blank-separated
/// tokens, each an assignment. One invalid token makes the whole line
/// invalid.
pub open spec fn parse_attrs_from(s: Seq<u8>, i: int) -> Option<Seq<AssignmentModel>>
    decreases s.len() - i,
    via parse_attrs_from_decreases
{
    if i < 0 || i >= s.len() {
        Some(Seq::empty())
    } else if is_blank_byte(s[i]) {
        parse_attrs_from(s, i + 1)
    } else {
        let j = find_blank_from(s, i);
        match parse_one_attr(s.subrange(i, j)) {
            None => None,
            Some(a) => match parse_attrs_from(s, j) {
                None => None,
                Some(rest) => Some(seq![a] + rest),
            },
        }
    }
}

#[via_fn]
proof fn parse_attrs_from_decreases(s: Seq<u8>, i: int) {
    if 0 <= i < s.len() && !is_blank_byte(s[i]) {
        lemma_find_blank_bounds(s, i);
    }
}

/// Parses one raw line into a pattern, or `None` where the line yields none:
/// blank lines, comments, macro definitions and malformed lines.
pub open spec fn parse_line_spec(raw: Seq<u8>) -> Option<PatternModel> {
    let line = strip_cr(raw);
    let b = find_non_blank_from(line, 0);
    if b >= line.len() {
        None
    } else if line[b] == 35 {
        None
    } else {
        let l = line.subrange(b, line.len() as int);
        let (tok, rest) = split_glob(l);
        if is_macro_token(tok) {
            None
        } else {
            match normalize_glob(tok) {
                None => None,
                Some(parts) => match parse_attrs_from(rest, 0) {
                    None => None,
                    Some(asgns) => Some(
                        PatternModel {
                            text: parts.text,
                            anchored: parts.anchored,
                            dir_only: parts.dir_only,
                            assignments: asgns,
                        },
                    ),
                },
            }
        }
    }
}

/// The length of a leading UTF-8 byte-order mark, which is skipped.
pub open spec fn bom_len(input: Seq<u8>) -> int {
    if input.len() >= 3 && input[0] == 239 && input[1] == 187 && input[2] == 191 {
        3
    } else {
        0
    }
}

/// Parses the lines of `input` from index `i` on, in file order, keeping the
/// patterns of the lines that yield one.
pub open spec fn parse_file_from(input: Seq<u8>, i: int) -> Seq<PatternModel>
    decreases input.len() - i,
    via parse_file_from_decreases
{
    if i < 0 || i >= input.len() {
        Seq::empty()
    } else {
        let j = find_byte_from(input, 10, i);
        let here = match parse_line_spec(input.subrange(i, j)) {
            Some(p) => seq![p],
            None => Seq::<PatternModel>::empty(),
        };
        if j >= input.len() {
            here
        } else {
            here + parse_file_from(input, j + 1)
        }
    }
}

#[via_fn]
proof fn parse_file_from_decreases(input: Seq<u8>, i: int) {
    if 0 <= i < input.len() {
        lemma_find_byte_bounds(input, 10, i);
    }
}

/// The patterns one gitattributes file holds, in file order.
pub open spec fn parse_file_spec(input: Seq<u8>) -> Seq<PatternModel> {
    parse_file_from(input, bom_len(input))
}

/// Unquotes the quoted glob that opens `l`. Returns the glob's bytes and the
/// index right after the closing quote.
fn unquote(l: &[u8]) -> (r: Option<(Vec<u8>, usize)>)
    requires
        l@.len() > 0,
        l@[0] == 34,
    ensures
        match r {
            Some((g, c)) => unquote_from(l@, 1, Seq::empty()) == Some((g@, c as int)),
            None => unquote_from(l@, 1, Seq::empty()) is None,
        },
{
    let mut out: Vec<u8> = Vec::new();
    let mut i: usize = 1;
    while i < l.len()
        invariant
            1 <= i <= l@.len(),
            unquote_from(l@, 1, Seq::empty()) == unquote_from(l@, i as int, out@),
        decreases l@.len() - i,
    {
        let c: u8 = l[i];
        if c == 34 {
            return Some((out, i + 1));
        } else if c == 92 {
            if i + 1 >= l.len() {
                return None;
            }
            let e: u8 = l[i + 1];
            let esc = match e {
                110u8 => Some(10u8),
                114u8 => Some(13u8),
                116u8 => Some(9u8),
                97u8 => Some(7u8),
                98u8 => Some(8u8),
                118u8 => Some(11u8),
                102u8 => Some(12u8),
                34u8 => Some(34u8),
                92u8 => Some(92u8),
                _ => None,
            };
            assert(esc == escape_byte(e));
            match esc {
                Some(b) => {
                    out.push(b);
                    i += 2;
                },
                None => {
                    if 48 <= e && e <= 51 && l.len() - i > 3 {
                        let d1: u8 = l[i + 2];
                        let d2: u8 = l[i + 3];
                        if 48 <= d1 && d1 <= 55 && 48 <= d2 && d2 <= 55 {
                            let v: u8 = (e - 48) * 64 + (d1 - 48) * 8 + (d2 - 48);
                            assert(v == octal_byte(e, d1, d2));
                            out.push(v);
                            i += 4;
                        } else {
                            return None;
                        }
                    } else {
                        return None;
                    }
                },
            }
        } else {
            out.push(c);
            i += 1;
        }
    }
    None
}

/// Splits the glob token off a line whose leading blanks are gone. Returns
/// the token and the index where the attribute specs begin.
fn split_glob_exec(l: &[u8]) -> (r: (Vec<u8>, usize))
    requires
        l@.len() > 0,
    ensures
        r.1 <= l@.len(),
        split_glob(l@) == (r.0@, l@.subrange(r.1 as int, l@.len() as int)),
{
    if l[0] == 34 {
        match unquote(l) {
            Some((g, c)) => {
                proof {
                    lemma_unquote_bounds(l@, 1, Seq::empty());
                }
                return (g, c);
            },
            None => {},
        }
    }
    let j: usize = crate::scan::find_blank(l, 0);
    proof {
        lemma_find_blank_bounds(l@, 0);
    }
    let tok = crate::scan::copy_bytes(vstd::slice::slice_subrange(l, 0, j));
    (tok, j)
}

/// Decides whether `n` is a well-formed attribute name.
fn is_valid_attr_name(n: &[u8]) -> (r: bool)
    ensures
        r == valid_attr_name(n@),
{
    if n.len() == 0 {
        return false;
    }
    if n[0] == 45 {
        return false;
    }
    let mut i: usize = 0;
    while i < n.len()
        invariant
            i <= n@.len(),
            forall|j: int| 0 <= j < i ==> valid_name_byte(n@[j]),
        decreases n@.len() - i,
    {
        let c: u8 = n[i];
        if !(c == 45 || c == 46 || c == 95 || (48 <= c && c <= 57) || (65 <= c && c <= 90) || (97
            <= c && c <= 122)) {
            return false;
        }
        i += 1;
    }
    let mut builtin: Vec<u8> = Vec::new();
    builtin.push(98);
    builtin.push(117);
    builtin.push(105);
    builtin.push(108);
    builtin.push(116);
    builtin.push(105);
    builtin.push(110);
    builtin.push(95);
    assert(builtin@ =~= builtin_prefix());
    !crate::scan::starts_with_bytes(n, builtin.as_slice())
}

/// Parses one attribute spec token.
fn parse_one_attr_exec(tok: &[u8]) -> (r: Option<Assignment>)
    ensures
        match r {
            Some(a) => parse_one_attr(tok@) == Some(a@),
            None => parse_one_attr(tok@) is None,
        },
{
    let e: usize = crate::scan::find_byte(tok, 61, 0);
    proof {
        lemma_find_byte_bounds(tok@, 61, 0);
    }
    let head = vstd::slice::slice_subrange(tok, 0, e);
    let unset = head.len() > 0 && head[0] == 45;
    let unspec = head.len() > 0 && head[0] == 33;
    let name_slice = if unset || unspec {
        vstd::slice::slice_subrange(tok, 1, e)
    } else {
        head
    };
    proof {
        if unset || unspec {
            assert(tok@.subrange(1, e as int) =~= tok@.subrange(0, e as int).drop_first());
        }
    }
    if !is_valid_attr_name(name_slice) {
        return None;
    }
    let state = if unset {
        AttrState::UnsetAttr
    } else if unspec {
        AttrState::Unspecified
    } else if e < tok.len() {
        AttrState::Value(crate::scan::copy_bytes(vstd::slice::slice_subrange(tok, e + 1, tok.len())))
    } else {
        AttrState::SetAttr
    };
    Some(Assignment { name: crate::scan::copy_bytes(name_slice), state })
}

/// Prepends already-parsed assignments to the outcome of the rest of the
/// line.
pub open spec fn prepend_attrs(a: Seq<AssignmentModel>, r: Option<Seq<AssignmentModel>>) -> Option<
    Seq<AssignmentModel>,
> {
    match r {
        Some(rest) => Some(a + rest),
        None => None,
    }
}

/// Parses all attribute specs of a line's remainder.
fn parse_attrs_exec(s: &[u8]) -> (r: Option<Vec<Assignment>>)
    ensures
        match r {
            Some(v) => parse_attrs_from(s@, 0) == Some(v@.map_values(|a: Assignment| a@)),
            None => parse_attrs_from(s@, 0) is None,
        },
{
    let mut acc: Vec<Assignment> = Vec::new();
    let mut i: usize = 0;
    proof {
        assert(acc@.map_values(|a: Assignment| a@) =~= Seq::<AssignmentModel>::empty());
        match parse_attrs_from(s@, 0) {
            Some(r0) => {
                assert(Seq::<AssignmentModel>::empty() + r0 =~= r0);
            },
            None => {},
        }
    }
    while i < s.len()
        invariant
            i <= s@.len(),
            parse_attrs_from(s@, 0) == prepend_attrs(
                acc@.map_values(|a: Assignment| a@),
                parse_attrs_from(s@, i as int),
            ),
        decreases s@.len() - i,
    {
        let c: u8 = s[i];
        if c == 32 || c == 9 || c == 13 {
            i += 1;
        } else {
            let j: usize = crate::scan::find_blank(s, i);
            proof {
                lemma_find_blank_bounds(s@, i as int);
            }
            let tok = vstd::slice::slice_subrange(s, i, j);
            match parse_one_attr_exec(tok) {
                None => {
                    return None;
                },
                Some(a) => {
                    proof {
                        let old_models = acc@.map_values(|x: Assignment| x@);
                        assert((acc@.push(a)).map_values(|x: Assignment| x@) =~= old_models
                            + seq![a@]);
                        match parse_attrs_from(s@, j as int) {
                            Some(rest) => {
                                assert(old_models + (seq![a@] + rest) =~= (old_models + seq![a@])
                                    + rest);
                            },
                            None => {},
                        }
                    }
                    acc.push(a);
                    i = j;
                },
            }
        }
    }
    proof {
        assert(acc@.map_values(|a: Assignment| a@) + Seq::<AssignmentModel>::empty() =~= acc@.map_values(
            |a: Assignment| a@,
        ));
    }
    Some(acc)
}

/// Parses one raw line.
fn parse_line(raw: &[u8]) -> (r: Option<Pattern>)
    ensures
        match r {
            Some(p) => parse_line_spec(raw@) == Some(p@),
            None => parse_line_spec(raw@) is None,
        },
{
    let line = if raw.len() > 0 && raw[raw.len() - 1] == 13 {
        proof {
            assert(raw@.subrange(0, raw@.len() - 1) =~= raw@.drop_last());
        }
        vstd::slice::slice_subrange(raw, 0, raw.len() - 1)
    } else {
        raw
    };
    let b: usize = crate::scan::find_non_blank(line, 0);
    proof {
        crate::scan::lemma_find_non_blank_bounds(line@, 0);
    }
    if b >= line.len() {
        return None;
    }
    if line[b] == 35 {
        return None;
    }
    let l = vstd::slice::slice_subrange(line, b, line.len());
    let (tok, rest_start): (Vec<u8>, usize) = split_glob_exec(l);
    let mut mac: Vec<u8> = Vec::new();
    mac.push(91);
    mac.push(97);
    mac.push(116);
    mac.push(116);
    mac.push(114);
    mac.push(93);
    assert(mac@ =~= macro_prefix());
    if tok.len() > 6 && crate::scan::starts_with_bytes(tok.as_slice(), mac.as_slice()) {
        return None;
    }
    assert(!is_macro_token(tok@));
    match normalize_glob_exec(tok.as_slice()) {
        None => None,
        Some((text, anchored, dir_only)) => {
            let rest = vstd::slice::slice_subrange(l, rest_start, l.len());
            match parse_attrs_exec(rest) {
                None => None,
                Some(assignments) => {
                    let p = Pattern { text, anchored, dir_only, assignments };
                    Some(p)
                },
            }
        },
    }
}

/// Normalizes a glob token into its text and flags.
fn normalize_glob_exec(tok: &[u8]) -> (r: Option<(Vec<u8>, bool, bool)>)
    ensures
        match r {
            Some((text, anchored, dir_only)) => normalize_glob(tok@) == Some(
                GlobParts { text: text@, anchored, dir_only },
            ),
            None => normalize_glob(tok@) is None,
        },
{
    if tok.len() == 0 {
        return None;
    }
    if tok[0] == 33 {
        return None;
    }
    let t0 = if tok[0] == 92 && tok.len() >= 2 && (tok[1] == 33 || tok[1] == 35) {
        proof {
            assert(tok@.subrange(1, tok@.len() as int) =~= tok@.drop_first());
        }
        vstd::slice::slice_subrange(tok, 1, tok.len())
    } else {
        tok
    };
    if crate::scan::all_ascii_ws(t0) {
        return None;
    }
    let abs = t0[0] == 47;
    let t1 = if abs {
        proof {
            assert(t0@.subrange(1, t0@.len() as int) =~= t0@.drop_first());
        }
        vstd::slice::slice_subrange(t0, 1, t0.len())
    } else {
        t0
    };
    let dir = t1.len() > 0 && t1[t1.len() - 1] == 47;
    let t2 = if dir {
        proof {
            assert(t1@.subrange(0, t1@.len() - 1) =~= t1@.drop_last());
        }
        vstd::slice::slice_subrange(t1, 0, t1.len() - 1)
    } else {
        t1
    };
    let anchored = abs || crate::scan::has_byte(t2, 47);
    Some((crate::scan::copy_bytes(t2), anchored, dir))
}

/// Parses a whole gitattributes file into its patterns, in file order.
pub fn parse_file(input: &[u8]) -> (r: Vec<Pattern>)
    ensures
        r@.map_values(|p: Pattern| p@) == parse_file_spec(input@),
{
    let mut acc: Vec<Pattern> = Vec::new();
    let mut i: usize = if input.len() >= 3 && input[0] == 239 && input[1] == 187 && input[2]
        == 191 {
        3
    } else {
        0
    };
    proof {
        assert(i as int == bom_len(input@));
        assert(acc@.map_values(|p: Pattern| p@) =~= Seq::<PatternModel>::empty());
        assert(Seq::<PatternModel>::empty() + parse_file_from(input@, i as int)
            =~= parse_file_from(input@, i as int));
    }
    while i < input.len()
        invariant
            i <= input@.len(),
            parse_file_spec(input@) == acc@.map_values(|p: Pattern| p@) + parse_file_from(
                input@,
                i as int,
            ),
        decreases input@.len() - i,
    {
        let j: usize = crate::scan::find_byte(input, 10, i);
        proof {
            lemma_find_byte_bounds(input@, 10, i as int);
        }
        let line = vstd::slice::slice_subrange(input, i, j);
        let ghost old_models = acc@.map_values(|p: Pattern| p@);
        match parse_line(line) {
            Some(p) => {
                proof {
                    assert((acc@.push(p)).map_values(|x: Pattern| x@) =~= old_models + seq![p@]);
                    assert(old_models + (seq![p@] + parse_file_from(input@, j + 1)) =~= (old_models
                        + seq![p@]) + parse_file_from(input@, j + 1));
                    assert(old_models + seq![p@] + Seq::<PatternModel>::empty() =~= old_models
                        + seq![p@]);
                }
                acc.push(p);
            },
            None => {
                proof {
                    assert(old_models + (Seq::<PatternModel>::empty() + parse_file_from(
                        input@,
                        j + 1,
                    )) =~= old_models + parse_file_from(input@, j + 1));
                    assert(old_models + Seq::<PatternModel>::empty() =~= old_models);
                }
            },
        }
        if j == input.len() {
            proof {
                assert(parse_file_spec(input@) == acc@.map_values(|p: Pattern| p@));
            }
            return acc;
        }
        i = j + 1;
    }
    proof {
        assert(acc@.map_values(|p: Pattern| p@) + Seq::<PatternModel>::empty() =~= acc@.map_values(
            |p: Pattern| p@,
        ));
    }
    acc
}

/// Parses the contents of one gitattributes file into a pattern list scoped
/// to `prefix`, the workspace-relative directory the file belongs to.
pub fn parse_pattern_list(input: &[u8], prefix: &[u8]) -> (r: PatternList)
    ensures
        r@.prefix == prefix@,
        r@.patterns == parse_file_spec(input@),
{
    PatternList { source_prefix: crate::scan::copy_bytes(prefix), patterns: parse_file(input) }
}

} // verus!
