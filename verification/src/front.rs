//! Front-end pieces shared by the assembler's directive handlers:
//!
//! * [`operands`] — split a line's operand field into individual operands.
//! * [`string_operand`] — parse a single-quoted string literal.

use vstd::prelude::*;

use crate::lex::{self, split_chars, split_spec, Line};
use crate::strings::{chars_of, owned, push_chars, push_str, string_from, trim, trim_bounds};

verus! {

/// The operands of a line: its operand field split at top-level commas, or
/// none when the line has no operand field.
pub open spec fn operands_spec(l: lex::LineView) -> Seq<Seq<char>> {
    match l.operands {
        Some(f) => split_spec(f),
        None => seq![],
    }
}

/// Split a line's operand field into individual operands.
pub fn operands(l: &Line) -> (out: Vec<String>)
    ensures
        out.deep_view() == operands_spec(l@),
{
    match &l.operands {
        Some(f) => {
            let v = chars_of(f.as_str());
            split_chars(&v)
        },
        None => {
            let out: Vec<String> = Vec::new();
            assert(out.deep_view() =~= Seq::<Seq<char>>::empty());
            out
        },
    }
}

/// The body of a quoted string with each doubled quote `''` read as one
/// quote; `None` when a quote stands alone.
pub open spec fn unescape(s: Seq<char>) -> Option<Seq<char>>
    decreases s.len(),
{
    if s.len() == 0 {
        Some(seq![])
    } else if s[0] == '\'' {
        if s.len() >= 2 && s[1] == '\'' {
            match unescape(s.skip(2)) {
                Some(r) => Some(seq!['\''] + r),
                None => None,
            }
        } else {
            None
        }
    } else {
        match unescape(s.drop_first()) {
            Some(r) => Some(seq![s[0]] + r),
            None => None,
        }
    }
}

/// The message for an operand that is not a quoted string.
pub open spec fn not_quoted_msg(t: Seq<char>) -> Seq<char> {
    "expected a single-quoted string, found `"@ + t + "`"@
}

/// What [`string_operand`] returns for `s`.
pub open spec fn string_operand_spec(s: Seq<char>) -> Result<Seq<char>, Seq<char>> {
    let t = trim(s);
    if t.len() < 2 || t[0] != '\'' || t.last() != '\'' {
        Err(not_quoted_msg(t))
    } else {
        match unescape(t.subrange(1, t.len() - 1)) {
            Some(r) => Ok(r),
            None => Err("unbalanced quote in string"@),
        }
    }
}

/// The quoted form of `t`: each quote doubled, the whole wrapped in quotes.
pub open spec fn quote(t: Seq<char>) -> Seq<char> {
    seq!['\''] + escape(t) + seq!['\'']
}

/// `t` with each quote doubled.
pub open spec fn escape(t: Seq<char>) -> Seq<char>
    decreases t.len(),
{
    if t.len() == 0 {
        seq![]
    } else if t[0] == '\'' {
        seq!['\'', '\''] + escape(t.drop_first())
    } else {
        seq![t[0]] + escape(t.drop_first())
    }
}

/// Parse a single-quoted string operand (`'…'`), unescaping doubled quotes.
pub fn string_operand(s: &str) -> (r: Result<String, String>)
    ensures
        match r {
            Ok(v) => string_operand_spec(s@) == Ok::<Seq<char>, Seq<char>>(v@),
            Err(e) => string_operand_spec(s@) == Err::<Seq<char>, Seq<char>>(e@),
        },
{
    let v = chars_of(s);
    let (a, b) = trim_bounds(&v, 0, v.len());
    assert(v@.subrange(0, v@.len() as int) =~= v@);
    let ghost t = v@.subrange(a as int, b as int);
    if b - a < 2 || v[a] != '\'' || v[b - 1] != '\'' {
        let mut m = owned("expected a single-quoted string, found `");
        push_chars(&mut m, &v[a..b]);
        push_str(&mut m, "`");
        return Err(m);
    }
    let mut out: Vec<char> = Vec::new();
    let mut i = a + 1;
    let end = b - 1;
    proof {
        assert(t.subrange(1, t.len() - 1) =~= v@.subrange(a + 1, end as int));
    }
    while i < end
        invariant
            a + 1 <= i <= end <= v@.len(),
            v@ == s@,
            end == b - 1,
            b - a >= 2,
            b <= v@.len(),
            v@[a as int] == '\'',
            v@[b - 1] == '\'',
            t == v@.subrange(a as int, b as int),
            trim(s@) == t,
            t.subrange(1, t.len() - 1) == v@.subrange(a + 1, end as int),
            unescape(v@.subrange(a + 1, end as int)) == match unescape(
                v@.subrange(i as int, end as int),
            ) {
                Some(r) => Some(out@ + r),
                None => None,
            },
        decreases end - i,
    {
        let ghost rest = v@.subrange(i as int, end as int);
        if v[i] == '\'' {
            if i + 1 < end && v[i + 1] == '\'' {
                out.push('\'');
                proof {
                    assert(rest.skip(2) =~= v@.subrange(i + 2, end as int));
                }
                i += 2;
            } else {
                proof {
                    assert(unescape(rest) is None);
                    assert(trim(s@) == t);
                    assert(unescape(t.subrange(1, t.len() - 1)) is None);
                }
                return Err(owned("unbalanced quote in string"));
            }
        } else {
            out.push(v[i]);
            proof {
                assert(rest.drop_first() =~= v@.subrange(i + 1, end as int));
            }
            i += 1;
        }
    }
    proof {
        assert(v@.subrange(i as int, end as int) =~= Seq::<char>::empty());
        assert(out@ + Seq::<char>::empty() =~= out@);
    }
    Ok(string_from(&out))
}

/// Quoting then parsing gives the text back: a string literal written by
/// doubling each quote and wrapping the result in quotes reads back as the
/// original text.
pub proof fn lemma_quote_round_trip(t: Seq<char>)
    ensures
        string_operand_spec(quote(t)) == Ok::<Seq<char>, Seq<char>>(t),
{
    let q = quote(t);
    assert(q[0] == '\'');
    assert(q.last() == '\'');
    lemma_trim_quoted(q);
    assert(q.subrange(1, q.len() - 1) =~= escape(t));
    lemma_unescape_escape(t);
}

proof fn lemma_trim_quoted(q: Seq<char>)
    requires
        q.len() >= 2,
        q[0] == '\'',
        q.last() == '\'',
    ensures
        trim(q) == q,
{
    assert(!crate::strings::is_ws(q[0]));
    assert(crate::strings::trim_start(q) == q);
    assert(!crate::strings::is_ws(q.last()));
}

proof fn lemma_unescape_escape(t: Seq<char>)
    ensures
        unescape(escape(t)) == Some(t),
    decreases t.len(),
{
    if t.len() > 0 {
        lemma_unescape_escape(t.drop_first());
        let e = escape(t);
        if t[0] == '\'' {
            assert(e.skip(2) =~= escape(t.drop_first()));
            assert(seq!['\''] + t.drop_first() =~= t);
        } else {
            assert(e.drop_first() =~= escape(t.drop_first()));
            assert(seq![t[0]] + t.drop_first() =~= t);
        }
    } else {
        assert(escape(t) =~= Seq::<char>::empty());
        assert(t =~= Seq::<char>::empty());
    }
}

} // verus!
