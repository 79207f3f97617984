//! Lexing: source text → per-line `(label, mnemonic, operand-field)`, plus a
//! helper to split an operand field into individual operands.
//!
//! Source-line format (Editor/Assembler): up to four whitespace-separated fields
//! — label, mnemonic, operands, comment. A label is present only when the line
//! begins in column 1 with a non-blank, non-`*` character (a trailing `:` on the
//! label is accepted and dropped). A `*` in column 1 makes the whole line a
//! comment; a `;` (extension) starts a trailing comment anywhere outside quotes.
//! Operands carry no internal spaces except inside single-quoted constants.

use vstd::prelude::*;

use crate::strings::{
    chars_of, line_bounds, lines, skip_ws, skip_ws_back, string_range, trim, trim_end,
    trim_start,
};

verus! {

/// One source line, decomposed into its fields. Blank/comment lines yield a
/// `Line` with no label/mnemonic (kept so line numbers stay accurate).
#[derive(Debug, Clone)]
pub struct Line {
    /// 1-based source line number.
    pub num: usize,
    pub label: Option<String>,
    pub mnemonic: Option<String>,
    /// The raw operand field, with the trailing comment removed.
    pub operands: Option<String>,
}

/// The fields of a [`Line`] as character sequences.
pub struct LineView {
    pub num: usize,
    pub label: Option<Seq<char>>,
    pub mnemonic: Option<Seq<char>>,
    pub operands: Option<Seq<char>>,
}

/// The characters of an optional string.
pub open spec fn opt_chars(o: Option<String>) -> Option<Seq<char>> {
    match o {
        Some(s) => Some(s@),
        None => None,
    }
}

impl View for Line {
    type V = LineView;

    open spec fn view(&self) -> LineView {
        LineView {
            num: self.num,
            label: opt_chars(self.label),
            mnemonic: opt_chars(self.mnemonic),
            operands: opt_chars(self.operands),
        }
    }
}

/// A field separator inside a line: a space or a tab.
pub open spec fn is_blank(c: char) -> bool {
    c == ' ' || c == '\t'
}

/// Length of the leading run of `s` up to the first space or tab.
pub open spec fn token_len(s: Seq<char>) -> nat
    decreases s.len(),
{
    if s.len() == 0 || is_blank(s[0]) {
        0
    } else {
        1 + token_len(s.drop_first())
    }
}

/// `s` with every trailing `':'` removed.
pub open spec fn strip_colons(s: Seq<char>) -> Seq<char>
    decreases s.len(),
{
    if s.len() > 0 && s.last() == ':' {
        strip_colons(s.drop_last())
    } else {
        s
    }
}

/// Length of the operand field at the start of `s`: up to the first space,
/// tab or `;` that is outside a single-quoted constant (`in_quote` says
/// whether `s` starts inside one).
pub open spec fn field_len(s: Seq<char>, in_quote: bool) -> nat
    decreases s.len(),
{
    if s.len() == 0 {
        0
    } else if s[0] == '\'' {
        1 + field_len(s.drop_first(), !in_quote)
    } else if !in_quote && (is_blank(s[0]) || s[0] == ';') {
        0
    } else {
        1 + field_len(s.drop_first(), in_quote)
    }
}

/// The operand field at the start of `s`, trailing white space removed.
pub open spec fn operand_field(s: Seq<char>) -> Seq<char> {
    trim_end(s.take(field_len(s, false) as int))
}

/// A line with no fields.
pub open spec fn blank_line(num: usize) -> LineView {
    LineView { num, label: None, mnemonic: None, operands: None }
}

/// The decomposition of source line `raw`, numbered `num`.
pub open spec fn parse_line_spec(num: usize, raw: Seq<char>) -> LineView {
    let t = trim_start(raw);
    if t.len() == 0 || raw[0] == '*' || t[0] == ';' {
        blank_line(num)
    } else {
        let lab_len: int = if is_blank(raw[0]) {
            0
        } else {
            token_len(raw) as int
        };
        let label = if is_blank(raw[0]) {
            None
        } else {
            Some(strip_colons(raw.take(lab_len)))
        };
        let rest = trim_start(raw.skip(lab_len));
        if rest.len() == 0 || rest[0] == ';' {
            LineView { num, label, mnemonic: None, operands: None }
        } else {
            let m = token_len(rest) as int;
            let field = operand_field(trim_start(rest.skip(m)));
            LineView {
                num,
                label,
                mnemonic: Some(rest.take(m)),
                operands: if field.len() == 0 {
                    None
                } else {
                    Some(field)
                },
            }
        }
    }
}

/// The views of a list of parsed source lines.
pub open spec fn lines_view(v: Seq<Line>) -> Seq<LineView> {
    v.map_values(|l: Line| l@)
}

/// Every source line of `src`, decomposed, numbered from 1.
pub open spec fn parse_spec(src: Seq<char>) -> Seq<LineView> {
    Seq::new(lines(src).len(), |i: int| parse_line_spec((i + 1) as usize, lines(src)[i]))
}

/// Decompose every source line.
pub fn parse(src: &str) -> (out: Vec<Line>)
    ensures
        lines_view(out@) == parse_spec(src@),
{
    let v = chars_of(src);
    let bounds = line_bounds(&v);
    let mut out: Vec<Line> = Vec::new();
    let mut i: usize = 0;
    while i < bounds.len()
        invariant
            i <= bounds@.len(),
            v@ == src@,
            bounds@.len() == lines(v@).len(),
            forall|k: int|
                #![trigger bounds@[k]]
                0 <= k < bounds@.len() ==> {
                    &&& bounds@[k].0 <= bounds@[k].1 <= v@.len()
                    &&& lines(v@)[k] == v@.subrange(bounds@[k].0 as int, bounds@[k].1 as int)
                },
            out@.len() == i,
            forall|k: int| 0 <= k < i ==> #[trigger] out@[k]@ == parse_spec(src@)[k],
        decreases bounds@.len() - i,
    {
        let (a, b) = bounds[i];
        let l = parse_line(i + 1, &v, a, b);
        out.push(l);
        i += 1;
    }
    assert(lines_view(out@) =~= parse_spec(src@));
    out
}

/// Index of the first space or tab in `v[from..to]` (or `to`).
fn token_end(v: &[char], from: usize, to: usize) -> (e: usize)
    requires
        from <= to <= v@.len(),
    ensures
        from <= e <= to,
        e == from + token_len(v@.subrange(from as int, to as int)),
{
    let mut e = from;
    while e < to && !(v[e] == ' ' || v[e] == '\t')
        invariant
            from <= e <= to <= v@.len(),
            token_len(v@.subrange(from as int, to as int)) == (e - from) + token_len(
                v@.subrange(e as int, to as int),
            ),
        decreases to - e,
    {
        assert(v@.subrange(e as int, to as int).drop_first() =~= v@.subrange(e + 1, to as int));
        e += 1;
    }
    e
}

/// One past the last character of `v[from..to]` that is not a trailing `':'`.
fn colons_end(v: &[char], from: usize, to: usize) -> (e: usize)
    requires
        from <= to <= v@.len(),
    ensures
        from <= e <= to,
        strip_colons(v@.subrange(from as int, to as int)) == v@.subrange(from as int, e as int),
{
    let mut e = to;
    while e > from && v[e - 1] == ':'
        invariant
            from <= e <= to <= v@.len(),
            strip_colons(v@.subrange(from as int, to as int)) == strip_colons(
                v@.subrange(from as int, e as int),
            ),
        decreases e - from,
    {
        assert(v@.subrange(from as int, e as int).drop_last() =~= v@.subrange(
            from as int,
            e - 1,
        ));
        e -= 1;
    }
    e
}

/// End of the operand field starting at `v[from]` (within `..to`).
fn field_end(v: &[char], from: usize, to: usize) -> (e: usize)
    requires
        from <= to <= v@.len(),
    ensures
        from <= e <= to,
        e == from + field_len(v@.subrange(from as int, to as int), false),
{
    let mut in_quote = false;
    let mut e = from;
    while e < to
        invariant
            from <= e <= to <= v@.len(),
            field_len(v@.subrange(from as int, to as int), false) == (e - from) + field_len(
                v@.subrange(e as int, to as int),
                in_quote,
            ),
        decreases to - e,
    {
        let c = v[e];
        assert(v@.subrange(e as int, to as int).drop_first() =~= v@.subrange(e + 1, to as int));
        if c == '\'' {
            in_quote = !in_quote;
        } else if !in_quote && (c == ' ' || c == '\t' || c == ';') {
            return e;
        }
        e += 1;
    }
    e
}

/// Decompose the source line `v[from..to]`, numbered `num`.
fn parse_line(num: usize, v: &[char], from: usize, to: usize) -> (l: Line)
    requires
        from <= to <= v@.len(),
    ensures
        l@ == parse_line_spec(num, v@.subrange(from as int, to as int)),
{
    let ghost raw = v@.subrange(from as int, to as int);
    let t = skip_ws(v, from, to);
    if t == to || v[from] == '*' || v[t] == ';' {
        return Line { num, label: None, mnemonic: None, operands: None };
    }
    let first_blank = v[from] == ' ' || v[from] == '\t';
    let mut rest = from;
    let label = if !first_blank {
        let e = token_end(v, from, to);
        let ce = colons_end(v, from, e);
        rest = e;
        proof {
            assert(raw.take(e - from) =~= v@.subrange(from as int, e as int));
        }
        Some(string_range(v, from, ce))
    } else {
        None
    };
    proof {
        assert(raw.skip(rest - from) =~= v@.subrange(rest as int, to as int));
    }
    let r = skip_ws(v, rest, to);
    if r == to || v[r] == ';' {
        return Line { num, label, mnemonic: None, operands: None };
    }
    let m = token_end(v, r, to);
    let mnemonic = string_range(v, r, m);
    let f = skip_ws(v, m, to);
    let fe = field_end(v, f, to);
    let fe2 = skip_ws_back(v, f, fe);
    proof {
        let rest_s = v@.subrange(r as int, to as int);
        assert(rest_s.take(m - r) =~= v@.subrange(r as int, m as int));
        assert(rest_s.skip(m - r) =~= v@.subrange(m as int, to as int));
        let fs = v@.subrange(f as int, to as int);
        assert(fs.take(fe - f) =~= v@.subrange(f as int, fe as int));
    }
    let operands = if fe2 == f {
        None
    } else {
        Some(string_range(v, f, fe2))
    };
    Line { num, label, mnemonic: Some(mnemonic), operands }
}

// ---- operand splitting ------------------------------------------------------

/// The operands of `s[start..]` given the scan state at `i`: pieces between
/// commas that are outside quotes and at parenthesis depth 0, each trimmed.
pub open spec fn split_from(s: Seq<char>, i: int, start: int, depth: int, q: bool) -> Seq<
    Seq<char>,
>
    decreases s.len() - i,
{
    if i >= s.len() {
        seq![trim(s.subrange(start, s.len() as int))]
    } else {
        let c = s[i];
        if c == '\'' {
            split_from(s, i + 1, start, depth, !q)
        } else if c == '(' && !q {
            split_from(s, i + 1, start, depth + 1, q)
        } else if c == ')' && !q {
            split_from(s, i + 1, start, depth - 1, q)
        } else if c == ',' && !q && depth == 0 {
            seq![trim(s.subrange(start, i))] + split_from(s, i + 1, i + 1, depth, q)
        } else {
            split_from(s, i + 1, start, depth, q)
        }
    }
}

/// The operands of an operand field.
pub open spec fn split_spec(s: Seq<char>) -> Seq<Seq<char>> {
    split_from(s, 0, 0, 0, false)
}

/// Split an operand field on commas that are not inside a quote or parentheses.
pub fn split_operands(field: &str) -> (out: Vec<String>)
    ensures
        out.deep_view() == split_spec(field@),
{
    let v = chars_of(field);
    split_chars(&v)
}

/// [`split_operands`] over a character slice.
pub fn split_chars(v: &[char]) -> (out: Vec<String>)
    ensures
        out.deep_view() == split_spec(v@),
{
    let mut out: Vec<String> = Vec::new();
    let mut depth: i128 = 0;
    let mut in_quote = false;
    let mut start: usize = 0;
    let mut i: usize = 0;
    while i < v.len()
        invariant
            start <= i <= v@.len(),
            -(i as int) <= depth <= i as int,
            split_spec(v@) == out.deep_view() + split_from(
                v@,
                i as int,
                start as int,
                depth as int,
                in_quote,
            ),
        decreases v@.len() - i,
    {
        let c = v[i];
        if c == '\'' {
            in_quote = !in_quote;
        } else if c == '(' && !in_quote {
            depth += 1;
        } else if c == ')' && !in_quote {
            depth -= 1;
        } else if c == ',' && !in_quote && depth == 0 {
            let (a, b) = crate::strings::trim_bounds(v, start, i);
            let piece = string_range(v, a, b);
            let ghost before = out.deep_view();
            out.push(piece);
            proof {
                assert(out.deep_view() =~= before.push(trim(v@.subrange(start as int, i as int))));
                assert(out.deep_view() + split_from(v@, i + 1, i + 1, depth as int, in_quote)
                    =~= before + (seq![trim(v@.subrange(start as int, i as int))] + split_from(
                    v@,
                    i + 1,
                    i + 1,
                    depth as int,
                    in_quote,
                )));
            }
            start = i + 1;
        }
        i += 1;
    }
    let (a, b) = crate::strings::trim_bounds(v, start, v.len());
    let piece = string_range(v, a, b);
    let ghost before = out.deep_view();
    out.push(piece);
    proof {
        assert(out.deep_view() =~= before + seq![trim(v@.subrange(start as int, v@.len() as int))]);
    }
    out
}

} // verus!
