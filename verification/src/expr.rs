//! Editor/Assembler expression evaluation.
//!
//! Operands are expressions over constants (`>`hex, decimal, `'c'`/`'cc'` chars),
//! symbols, and the location counter `$`, combined with `+ - * /` (and unary
//! `±`). Evaluation is **strictly left to right with no operator precedence**, as
//! the TI E/A specifies: `2+3*4` is `20`, not `14`; `7+1/2` is `4`. Division
//! truncates toward zero. Arithmetic is done in `i64` and range-checked by the
//! caller per context (a `BYTE` must fit 8 bits, a `DATA` 16, etc.).

use vstd::prelude::*;
use vstd::utf8::encode_utf8;
use vstd::wrapping::i64_specs;

use crate::strings::{owned, push_chars, push_str, str_eq, string_from};

verus! {

// ---- the symbol table -------------------------------------------------------

/// A symbol table: names bound to values, each name at most once.
pub struct Symbols {
    entries: Vec<(String, i64)>,
}

/// The map a list of bindings denotes (a later binding of a name wins).
pub open spec fn bindings_map(s: Seq<(Seq<char>, i64)>) -> Map<Seq<char>, i64>
    decreases s.len(),
{
    if s.len() == 0 {
        Map::empty()
    } else {
        bindings_map(s.drop_last()).insert(s.last().0, s.last().1)
    }
}

/// The bindings of a list of `(name, value)` pairs, names by their characters.
pub open spec fn pairs_view(v: Seq<(String, i64)>) -> Seq<(Seq<char>, i64)> {
    v.map_values(|p: (String, i64)| (p.0@, p.1))
}

/// No name occurs twice.
pub open spec fn distinct_names(s: Seq<(Seq<char>, i64)>) -> bool {
    forall|i: int, j: int| 0 <= i < j < s.len() ==> s[i].0 != s[j].0
}

/// A name is bound exactly when some binding in the list carries it.
pub(crate) proof fn lemma_bindings_contains(s: Seq<(Seq<char>, i64)>, k: Seq<char>)
    ensures
        bindings_map(s).contains_key(k) <==> exists|i: int| 0 <= i < s.len() && s[i].0 == k,
    decreases s.len(),
{
    if s.len() > 0 {
        lemma_bindings_contains(s.drop_last(), k);
        if bindings_map(s.drop_last()).contains_key(k) {
            let i = choose|i: int| 0 <= i < s.drop_last().len() && s.drop_last()[i].0 == k;
            assert(s[i].0 == k);
        }
        if exists|i: int| 0 <= i < s.len() && s[i].0 == k {
            let i = choose|i: int| 0 <= i < s.len() && s[i].0 == k;
            if i < s.len() - 1 {
                assert(s.drop_last()[i].0 == k);
            }
        }
    }
}

/// With distinct names, each binding in the list is what its name maps to.
pub(crate) proof fn lemma_bindings_at(s: Seq<(Seq<char>, i64)>, i: int)
    requires
        distinct_names(s),
        0 <= i < s.len(),
    ensures
        bindings_map(s).contains_key(s[i].0),
        bindings_map(s)[s[i].0] == s[i].1,
    decreases s.len(),
{
    if i < s.len() - 1 {
        lemma_bindings_at(s.drop_last(), i);
    }
}

proof fn lemma_bindings_update(s: Seq<(Seq<char>, i64)>, i: int, v: i64)
    requires
        distinct_names(s),
        0 <= i < s.len(),
    ensures
        bindings_map(s.update(i, (s[i].0, v))) == bindings_map(s).insert(s[i].0, v),
    decreases s.len(),
{
    let t = s.update(i, (s[i].0, v));
    if i == s.len() - 1 {
        assert(t.drop_last() =~= s.drop_last());
        assert(bindings_map(t) =~= bindings_map(s).insert(s[i].0, v));
    } else {
        lemma_bindings_update(s.drop_last(), i, v);
        assert(t.drop_last() =~= s.drop_last().update(i, (s[i].0, v)));
        assert(s.last().0 != s[i].0);
        assert(bindings_map(t) =~= bindings_map(s).insert(s[i].0, v));
    }
}

impl View for Symbols {
    type V = Map<Seq<char>, i64>;

    closed spec fn view(&self) -> Map<Seq<char>, i64> {
        bindings_map(pairs_view(self.entries@))
    }
}

impl Symbols {
    /// The bindings in the order they were made.
    pub closed spec fn bindings(&self) -> Seq<(Seq<char>, i64)> {
        pairs_view(self.entries@)
    }

    /// Every name is bound once.
    #[verifier::type_invariant]
    spec fn wf(&self) -> bool {
        distinct_names(pairs_view(self.entries@))
    }

    /// An empty table.
    pub fn new() -> (s: Symbols)
        ensures
            s@ == Map::<Seq<char>, i64>::empty(),
            s.bindings() == Seq::<(Seq<char>, i64)>::empty(),
    {
        let s = Symbols { entries: Vec::new() };
        assert(pairs_view(s.entries@) =~= Seq::<(Seq<char>, i64)>::empty());
        s
    }

    /// The bindings in the order they were made, as a map.
    pub proof fn lemma_view(&self)
        ensures
            self@ == bindings_map(self.bindings()),
    {
    }

    /// Position of `name` among the bindings.
    fn find(&self, name: &str) -> (r: Option<usize>)
        ensures
            match r {
                Some(i) => i < self.entries@.len() && self.entries@[i as int].0@ == name@,
                None => !self@.contains_key(name@),
            },
    {
        let mut i: usize = 0;
        while i < self.entries.len()
            invariant
                i <= self.entries@.len(),
                forall|j: int| 0 <= j < i ==> self.entries@[j].0@ != name@,
            decreases self.entries@.len() - i,
        {
            if str_eq(self.entries[i].0.as_str(), name) {
                return Some(i);
            }
            i += 1;
        }
        proof {
            let s = pairs_view(self.entries@);
            lemma_bindings_contains(s, name@);
            if self@.contains_key(name@) {
                let j = choose|j: int| 0 <= j < s.len() && s[j].0 == name@;
                assert(self.entries@[j].0@ == name@);
            }
        }
        None
    }

    /// The value bound to `name`, if any.
    pub fn get(&self, name: &str) -> (r: Option<i64>)
        ensures
            r == (if self@.contains_key(name@) {
                Some(self@[name@])
            } else {
                None
            }),
    {
        proof {
            use_type_invariant(self);
        }
        match self.find(name) {
            Some(i) => {
                proof {
                    lemma_bindings_at(pairs_view(self.entries@), i as int);
                }
                Some(self.entries[i].1)
            },
            None => None,
        }
    }

    /// Whether `name` is bound.
    pub fn contains(&self, name: &str) -> (r: bool)
        ensures
            r == self@.contains_key(name@),
    {
        proof {
            use_type_invariant(self);
        }
        match self.find(name) {
            Some(i) => {
                proof {
                    lemma_bindings_at(pairs_view(self.entries@), i as int);
                }
                true
            },
            None => false,
        }
    }

    /// Bind `name` to `value`, replacing any earlier binding of it.
    pub fn insert(&mut self, name: String, value: i64)
        ensures
            final(self)@ == old(self)@.insert(name@, value),
            !old(self)@.contains_key(name@) ==> final(self).bindings() == old(self).bindings().push(
                (name@, value),
            ),
            old(self)@.contains_key(name@) ==> final(self).bindings().len() == old(
                self,
            ).bindings().len(),
    {
        proof {
            use_type_invariant(&*self);
        }
        let found = self.find(name.as_str());
        let ghost s = pairs_view(self.entries@);
        let mut entries: Vec<(String, i64)> = Vec::new();
        std::mem::swap(&mut entries, &mut self.entries);
        assert(pairs_view(entries@) == s);
        match found {
            Some(i) => {
                entries.set(i, (name, value));
                proof {
                    assert(pairs_view(entries@) =~= s.update(i as int, (s[i as int].0, value)));
                    lemma_bindings_update(s, i as int, value);
                    lemma_bindings_at(s, i as int);
                }
            },
            None => {
                proof {
                    lemma_bindings_contains(s, name@);
                }
                entries.push((name, value));
                proof {
                    let t = pairs_view(entries@);
                    assert(t =~= s.push((name@, value)));
                    assert(t.drop_last() =~= s);
                    assert forall|a: int, b: int| 0 <= a < b < t.len() implies t[a].0 != t[b].0 by {
                        if b == t.len() - 1 {
                            assert(s[a].0 == t[a].0);
                        }
                    }
                }
            },
        }
        self.entries = entries;
    }

    /// The bindings, in the order they were made.
    pub fn pairs(&self) -> (r: Vec<(String, i64)>)
        ensures
            pairs_view(r@) == self.bindings(),
            distinct_names(self.bindings()),
    {
        proof {
            use_type_invariant(self);
        }
        let mut r: Vec<(String, i64)> = Vec::new();
        let mut i: usize = 0;
        while i < self.entries.len()
            invariant
                i <= self.entries@.len(),
                pairs_view(r@) == pairs_view(self.entries@).take(i as int),
            decreases self.entries@.len() - i,
        {
            let n2 = string_from(&crate::strings::chars_of(self.entries[i].0.as_str()));
            let v = self.entries[i].1;
            let ghost old_r = r@;
            r.push((n2, v));
            proof {
                assert(r@ == old_r.push((n2, v)));
                assert(pairs_view(r@) =~= pairs_view(old_r).push((n2@, v)));
                assert(pairs_view(self.entries@)[i as int] == (self.entries@[i as int].0@, v));
            }
            i += 1;
            assert(pairs_view(r@) =~= pairs_view(self.entries@).take(i as int));
        }
        assert(pairs_view(self.entries@).take(i as int) =~= pairs_view(self.entries@));
        r
    }
}

// ---- tokens -----------------------------------------------------------------

/// An expression token.
pub enum Token {
    Num(i64),
    Sym(Seq<char>),
    Dollar,
    Op(char),
}

enum Tok {
    Num(i64),
    Sym(String),
    Dollar,
    Op(char),
}

spec fn tok_view(t: Tok) -> Token {
    match t {
        Tok::Num(n) => Token::Num(n),
        Tok::Sym(s) => Token::Sym(s@),
        Tok::Dollar => Token::Dollar,
        Tok::Op(c) => Token::Op(c),
    }
}

spec fn toks_view(v: Seq<Tok>) -> Seq<Token> {
    v.map_values(|t: Tok| tok_view(t))
}

/// An ASCII decimal digit byte.
pub open spec fn is_digit(c: u8) -> bool {
    48 <= c <= 57
}

/// An ASCII hexadecimal digit byte.
pub open spec fn is_hex(c: u8) -> bool {
    is_digit(c) || (65 <= c <= 70) || (97 <= c <= 102)
}

/// An ASCII letter byte.
pub open spec fn is_alpha(c: u8) -> bool {
    (65 <= c <= 90) || (97 <= c <= 122)
}

/// A byte that may continue a symbol name.
pub open spec fn is_ident(c: u8) -> bool {
    is_alpha(c) || is_digit(c) || c == 95
}

/// Value of a hexadecimal digit byte.
pub open spec fn hex_val(c: u8) -> nat {
    if is_digit(c) {
        (c - 48) as nat
    } else if 65 <= c <= 70 {
        (c - 55) as nat
    } else {
        (c - 87) as nat
    }
}

/// Value of a run of decimal digits.
pub open spec fn dec_value(s: Seq<u8>) -> nat
    decreases s.len(),
{
    if s.len() == 0 {
        0
    } else {
        dec_value(s.drop_last()) * 10 + (s.last() - 48) as nat
    }
}

/// Value of a run of hexadecimal digits.
pub open spec fn hex_value(s: Seq<u8>) -> nat
    decreases s.len(),
{
    if s.len() == 0 {
        0
    } else {
        hex_value(s.drop_last()) * 16 + hex_val(s.last())
    }
}

/// First index at or after `i` whose byte is not a decimal digit.
pub open spec fn digit_end(b: Seq<u8>, i: int) -> int
    decreases b.len() - i,
{
    if i < b.len() && is_digit(b[i]) {
        digit_end(b, i + 1)
    } else {
        i
    }
}

/// First index at or after `i` whose byte is not a hexadecimal digit.
pub open spec fn hex_end(b: Seq<u8>, i: int) -> int
    decreases b.len() - i,
{
    if i < b.len() && is_hex(b[i]) {
        hex_end(b, i + 1)
    } else {
        i
    }
}

/// First index at or after `i` whose byte cannot continue a symbol name.
pub open spec fn ident_end(b: Seq<u8>, i: int) -> int
    decreases b.len() - i,
{
    if i < b.len() && is_ident(b[i]) {
        ident_end(b, i + 1)
    } else {
        i
    }
}

/// The end of a digit, hex-digit or identifier run starting at `i` lies
/// between `i` and the end of the input.
pub proof fn lemma_run_ends(b: Seq<u8>, i: int)
    ensures
        i <= digit_end(b, i),
        i <= hex_end(b, i),
        i <= ident_end(b, i),
        i <= b.len() ==> digit_end(b, i) <= b.len(),
        i <= b.len() ==> hex_end(b, i) <= b.len(),
        i <= b.len() ==> ident_end(b, i) <= b.len(),
    decreases b.len() - i,
{
    if i < b.len() {
        lemma_run_ends(b, i + 1);
    }
}

/// Scan the body of a character constant from `i` (just past the opening
/// quote), collecting bytes into `acc`: a doubled quote is one quote, a lone
/// quote closes it. Gives the bytes and the index after the closing quote, or
/// `None` when the text ends first.
pub open spec fn char_body(b: Seq<u8>, i: int, acc: Seq<u8>) -> Option<(Seq<u8>, int)>
    decreases b.len() - i,
{
    if i < 0 || i >= b.len() {
        None
    } else if b[i] == 39 {
        if i + 1 < b.len() && b[i + 1] == 39 {
            char_body(b, i + 2, acc.push(39))
        } else {
            Some((acc, i + 1))
        }
    } else {
        char_body(b, i + 1, acc.push(b[i]))
    }
}

/// A character constant's body that closes ends past where it started and
/// within the input.
pub proof fn lemma_char_body(b: Seq<u8>, i: int, acc: Seq<u8>)
    ensures
        char_body(b, i, acc) matches Some((_, next)) ==> i < next <= b.len(),
    decreases b.len() - i,
{
    if 0 <= i < b.len() {
        if b[i] == 39 {
            if i + 1 < b.len() && b[i + 1] == 39 {
                lemma_char_body(b, i + 2, acc.push(39));
            }
        } else {
            lemma_char_body(b, i + 1, acc.push(b[i]));
        }
    }
}

/// The value of up to two character bytes, packed big-endian.
pub open spec fn pack(chars: Seq<u8>) -> i64 {
    if chars.len() == 0 {
        0
    } else if chars.len() == 1 {
        chars[0] as i64
    } else {
        (chars[0] as int * 256 + chars[1] as int) as i64
    }
}

/// The character constant whose opening quote is `b[i]`: its value and the
/// index after it.
pub open spec fn char_const_spec(b: Seq<u8>, i: int) -> Result<(i64, int), Seq<char>> {
    match char_body(b, i + 1, seq![]) {
        None => Err("unterminated character constant"@),
        Some((chars, next)) => if chars.len() > 2 {
            Err("character constant longer than two characters"@)
        } else {
            Ok((pack(chars), next))
        },
    }
}

/// The message for a byte that starts no token.
pub open spec fn unexpected_msg(c: u8) -> Seq<char> {
    "unexpected character '"@ + seq![c as char] + "' in expression"@
}

/// `t` in front of the tokens of a successful tokenization.
pub open spec fn cons_tok(t: Token, rest: Result<Seq<Token>, Seq<char>>) -> Result<
    Seq<Token>,
    Seq<char>,
> {
    match rest {
        Ok(r) => Ok(seq![t] + r),
        Err(e) => Err(e),
    }
}

/// The tokens of `b[i..]`.
pub open spec fn tokenize_from(b: Seq<u8>, i: int) -> Result<Seq<Token>, Seq<char>>
    decreases b.len() - i,
{
    if i < 0 || i >= b.len() {
        Ok(seq![])
    } else {
        let c = b[i];
        if c == 32 || c == 9 {
            tokenize_from(b, i + 1)
        } else if c == 43 || c == 45 || c == 42 || c == 47 {
            cons_tok(Token::Op(c as char), tokenize_from(b, i + 1))
        } else if c == 36 {
            cons_tok(Token::Dollar, tokenize_from(b, i + 1))
        } else if c == 62 {
            let e = hex_end(b, i + 1);
            proof {
                lemma_run_ends(b, i + 1);
            }
            if e == i + 1 {
                Err("malformed hexadecimal constant"@)
            } else if hex_value(b.subrange(i + 1, e)) > i64::MAX {
                Err("number too large to fit in target type"@)
            } else {
                cons_tok(Token::Num(hex_value(b.subrange(i + 1, e)) as i64), tokenize_from(b, e))
            }
        } else if c == 39 {
            proof {
                lemma_char_body(b, i + 1, seq![]);
            }
            match char_const_spec(b, i) {
                Err(m) => Err(m),
                Ok((v, next)) => cons_tok(Token::Num(v), tokenize_from(b, next)),
            }
        } else if is_digit(c) {
            let e = digit_end(b, i);
            proof {
                lemma_run_ends(b, i + 1);
            }
            if dec_value(b.subrange(i, e)) > i64::MAX {
                Err("number out of range"@)
            } else {
                cons_tok(Token::Num(dec_value(b.subrange(i, e)) as i64), tokenize_from(b, e))
            }
        } else if is_alpha(c) || c == 95 {
            let e = ident_end(b, i);
            proof {
                lemma_run_ends(b, i + 1);
            }
            cons_tok(
                Token::Sym(b.subrange(i, e).map_values(|x: u8| x as char)),
                tokenize_from(b, e),
            )
        } else {
            Err(unexpected_msg(c))
        }
    }
}

// ---- evaluation -------------------------------------------------------------

/// `a / b` truncated toward zero, wrapped to 64 bits (`b != 0`).
pub open spec fn trunc_div(a: i64, b: i64) -> i64 {
    let x = a as int;
    let d = b as int;
    let q = if x == 0 {
        0
    } else if x > 0 && d > 0 {
        x / d
    } else if x < 0 && d < 0 {
        (-x) / (-d)
    } else if x < 0 {
        -((-x) / d)
    } else {
        -(x / (-d))
    };
    if q > i64::MAX {
        i64::MIN
    } else {
        q as i64
    }
}

/// The value of the token at `k` as an operand.
pub open spec fn term_spec(toks: Seq<Token>, k: int, syms: Map<Seq<char>, i64>, lc: u16) -> Result<
    i64,
    Seq<char>,
> {
    if k < 0 || k >= toks.len() {
        Err("unexpected end of expression"@)
    } else {
        match toks[k] {
            Token::Num(n) => Ok(n),
            Token::Dollar => Ok(lc as i64),
            Token::Sym(name) => if syms.contains_key(name) {
                Ok(syms[name])
            } else {
                Err("undefined symbol '"@ + name + "'"@)
            },
            Token::Op(_) => Err("expected a value, found an operator"@),
        }
    }
}

/// `acc op rhs`.
pub open spec fn apply_op(op: char, acc: i64, rhs: i64) -> Result<i64, Seq<char>> {
    if op == '+' {
        Ok(i64_specs::wrapping_add(acc, rhs))
    } else if op == '-' {
        Ok(i64_specs::wrapping_sub(acc, rhs))
    } else if op == '*' {
        Ok(i64_specs::wrapping_mul(acc, rhs))
    } else if op == '/' {
        if rhs == 0 {
            Err("division by zero"@)
        } else {
            Ok(trunc_div(acc, rhs))
        }
    } else {
        Err("unknown operator '"@ + seq![op] + "'"@)
    }
}

/// Fold the `operator operand` pairs from `i` into `acc`, left to right.
pub open spec fn eval_rest(toks: Seq<Token>, i: int, acc: i64, syms: Map<Seq<char>, i64>, lc: u16) -> Result<
    i64,
    Seq<char>,
>
    decreases toks.len() - i,
{
    if i < 0 || i >= toks.len() {
        Ok(acc)
    } else {
        match toks[i] {
            Token::Op(c) => match term_spec(toks, i + 1, syms, lc) {
                Err(e) => Err(e),
                Ok(r) => match apply_op(c, acc, r) {
                    Err(e) => Err(e),
                    Ok(a) => eval_rest(toks, i + 2, a, syms, lc),
                },
            },
            _ => Err("expected an operator in expression"@),
        }
    }
}

/// The value of a token sequence.
pub open spec fn eval_toks(toks: Seq<Token>, syms: Map<Seq<char>, i64>, lc: u16) -> Result<
    i64,
    Seq<char>,
> {
    if toks.len() == 0 {
        Err("empty expression"@)
    } else if toks[0] == Token::Op('+') {
        match term_spec(toks, 1, syms, lc) {
            Err(e) => Err(e),
            Ok(v) => eval_rest(toks, 2, v, syms, lc),
        }
    } else if toks[0] == Token::Op('-') {
        match term_spec(toks, 1, syms, lc) {
            Err(e) => Err(e),
            Ok(v) => eval_rest(toks, 2, i64_specs::wrapping_sub(0, v), syms, lc),
        }
    } else {
        match term_spec(toks, 0, syms, lc) {
            Err(e) => Err(e),
            Ok(v) => eval_rest(toks, 1, v, syms, lc),
        }
    }
}

/// What a value token denotes as an operand, on its own.
pub open spec fn operand_value(t: Token, syms: Map<Seq<char>, i64>, lc: u16) -> Result<i64, Seq<char>> {
    term_spec(seq![t], 0, syms, lc)
}

proof fn lemma_rest_extends(
    toks: Seq<Token>,
    ext: Seq<Token>,
    i: int,
    acc: i64,
    syms: Map<Seq<char>, i64>,
    lc: u16,
)
    requires
        0 <= i,
        eval_rest(toks, i, acc, syms, lc) is Ok,
    ensures
        eval_rest(toks + ext, i, acc, syms, lc) == eval_rest(
            toks + ext,
            if i < toks.len() { toks.len() as int } else { i },
            eval_rest(toks, i, acc, syms, lc)->Ok_0,
            syms,
            lc,
        ),
        i >= toks.len() ==> eval_rest(toks, i, acc, syms, lc)->Ok_0 == acc,
    decreases toks.len() - i,
{
    if i < toks.len() {
        let all = toks + ext;
        assert(all[i] == toks[i]);
        match toks[i] {
            Token::Op(c) => {
                let r = term_spec(toks, i + 1, syms, lc)->Ok_0;
                assert(i + 1 < toks.len());
                assert(all[i + 1] == toks[i + 1]);
                assert(term_spec(all, i + 1, syms, lc) == term_spec(toks, i + 1, syms, lc));
                let a = apply_op(c, acc, r)->Ok_0;
                lemma_rest_extends(toks, ext, i + 2, a, syms, lc);
            },
            _ => {},
        }
    }
}

/// Evaluation runs strictly left to right, with no precedence: appending an
/// operator and an operand to an expression that evaluates applies that
/// operator to the value of everything before it.
pub proof fn lemma_left_to_right(
    toks: Seq<Token>,
    op: char,
    operand: Token,
    syms: Map<Seq<char>, i64>,
    lc: u16,
)
    requires
        eval_toks(toks, syms, lc) is Ok,
    ensures
        eval_toks(toks + seq![Token::Op(op), operand], syms, lc) == match operand_value(
            operand,
            syms,
            lc,
        ) {
            Err(e) => Err(e),
            Ok(r) => apply_op(op, eval_toks(toks, syms, lc)->Ok_0, r),
        },
{
    let ext = seq![Token::Op(op), operand];
    let all = toks + ext;
    let n = toks.len() as int;
    assert(all[0] == toks[0]);
    assert(all[n] == Token::Op(op));
    assert(all[n + 1] == operand);
    assert(term_spec(all, n + 1, syms, lc) == operand_value(operand, syms, lc));
    let start: int = if toks[0] == Token::Op('+') || toks[0] == Token::Op('-') { 2 } else { 1 };
    if toks[0] == Token::Op('+') || toks[0] == Token::Op('-') {
        assert(1 < toks.len());
        assert(all[1] == toks[1]);
        assert(term_spec(all, 1, syms, lc) == term_spec(toks, 1, syms, lc));
    } else {
        assert(term_spec(all, 0, syms, lc) == term_spec(toks, 0, syms, lc));
    }
    let v0 = if toks[0] == Token::Op('+') {
        term_spec(toks, 1, syms, lc)->Ok_0
    } else if toks[0] == Token::Op('-') {
        i64_specs::wrapping_sub(0, term_spec(toks, 1, syms, lc)->Ok_0)
    } else {
        term_spec(toks, 0, syms, lc)->Ok_0
    };
    lemma_rest_extends(toks, ext, start, v0, syms, lc);
    let v = eval_toks(toks, syms, lc)->Ok_0;
    assert(eval_rest(all, n + 2, 0, syms, lc) == Ok::<i64, Seq<char>>(0i64));
    match operand_value(operand, syms, lc) {
        Err(e) => {},
        Ok(r) => {
            match apply_op(op, v, r) {
                Err(e) => {},
                Ok(a) => {
                    assert(eval_rest(all, n + 2, a, syms, lc) == Ok::<i64, Seq<char>>(a));
                },
            }
        },
    }
}

/// An operator byte: `+`, `-`, `*` or `/`.
pub open spec fn is_op_byte(c: u8) -> bool {
    c == 43 || c == 45 || c == 42 || c == 47
}

proof fn lemma_runs_extend(b: Seq<u8>, x: Seq<u8>, i: int)
    requires
        0 <= i <= b.len(),
        x.len() > 0,
        is_op_byte(x[0]),
    ensures
        digit_end(b + x, i) == digit_end(b, i),
        hex_end(b + x, i) == hex_end(b, i),
        ident_end(b + x, i) == ident_end(b, i),
    decreases b.len() - i,
{
    if i < b.len() {
        assert((b + x)[i] == b[i]);
        lemma_runs_extend(b, x, i + 1);
    } else {
        assert((b + x)[i] == x[0]);
    }
}

proof fn lemma_char_body_extend(b: Seq<u8>, x: Seq<u8>, i: int, acc: Seq<u8>)
    requires
        0 <= i,
        x.len() > 0,
        is_op_byte(x[0]),
        char_body(b, i, acc) is Some,
    ensures
        char_body(b + x, i, acc) == char_body(b, i, acc),
    decreases b.len() - i,
{
    if i < b.len() {
        assert((b + x)[i] == b[i]);
        if b[i] == 39 {
            if i + 1 < b.len() && b[i + 1] == 39 {
                assert((b + x)[i + 1] == b[i + 1]);
                lemma_char_body_extend(b, x, i + 2, acc.push(39));
            } else if i + 1 < b.len() {
                assert((b + x)[i + 1] == b[i + 1]);
            } else {
                assert((b + x)[i + 1] == x[0]);
            }
        } else {
            lemma_char_body_extend(b, x, i + 1, acc.push(b[i]));
        }
    }
}

proof fn lemma_tokens_extend(b: Seq<u8>, x: Seq<u8>, i: int)
    requires
        0 <= i <= b.len(),
        x.len() > 0,
        is_op_byte(x[0]),
        tokenize_from(b, i) is Ok,
    ensures
        tokenize_from(b + x, i) == match tokenize_from(b + x, b.len() as int) {
            Ok(u) => Ok(tokenize_from(b, i)->Ok_0 + u),
            Err(e) => Err(e),
        },
    decreases b.len() - i,
{
    let bx = b + x;
    let n = b.len() as int;
    if i == n {
        assert(tokenize_from(b, i)->Ok_0 =~= seq![]);
        match tokenize_from(bx, n) {
            Ok(u) => assert(seq![] + u =~= u),
            Err(e) => {},
        }
    } else {
        let c = b[i];
        assert(bx[i] == c);
        lemma_runs_extend(b, x, i + 1);
        lemma_runs_extend(b, x, i);
        lemma_run_ends(b, i + 1);
        lemma_run_ends(b, i);
        if c == 32 || c == 9 {
            lemma_tokens_extend(b, x, i + 1);
        } else if is_op_byte(c) || c == 36 {
            lemma_tokens_extend(b, x, i + 1);
            let t0 = if c == 36 {
                Token::Dollar
            } else {
                Token::Op(c as char)
            };
            match tokenize_from(bx, n) {
                Ok(u) => assert(seq![t0] + (tokenize_from(b, i + 1)->Ok_0 + u) =~= (seq![t0]
                    + tokenize_from(b, i + 1)->Ok_0) + u),
                Err(e) => {},
            }
        } else if c == 62 {
            let e = hex_end(b, i + 1);
            assert(bx.subrange(i + 1, e) =~= b.subrange(i + 1, e));
            lemma_tokens_extend(b, x, e);
            let t0 = Token::Num(hex_value(b.subrange(i + 1, e)) as i64);
            match tokenize_from(bx, n) {
                Ok(u) => assert(seq![t0] + (tokenize_from(b, e)->Ok_0 + u) =~= (seq![t0] + tokenize_from(
                    b,
                    e,
                )->Ok_0) + u),
                Err(er) => {},
            }
        } else if c == 39 {
            lemma_char_body(b, i + 1, seq![]);
            lemma_char_body_extend(b, x, i + 1, seq![]);
            let (v, next) = char_const_spec(b, i)->Ok_0;
            assert(char_const_spec(bx, i) == char_const_spec(b, i));
            lemma_tokens_extend(b, x, next);
            match tokenize_from(bx, n) {
                Ok(u) => assert(seq![Token::Num(v)] + (tokenize_from(b, next)->Ok_0 + u) =~= (seq![
                    Token::Num(v),
                ] + tokenize_from(b, next)->Ok_0) + u),
                Err(er) => {},
            }
        } else if is_digit(c) {
            let e = digit_end(b, i);
            assert(bx.subrange(i, e) =~= b.subrange(i, e));
            lemma_tokens_extend(b, x, e);
            let t0 = Token::Num(dec_value(b.subrange(i, e)) as i64);
            match tokenize_from(bx, n) {
                Ok(u) => assert(seq![t0] + (tokenize_from(b, e)->Ok_0 + u) =~= (seq![t0] + tokenize_from(
                    b,
                    e,
                )->Ok_0) + u),
                Err(er) => {},
            }
        } else if is_alpha(c) || c == 95 {
            let e = ident_end(b, i);
            assert(bx.subrange(i, e) =~= b.subrange(i, e));
            lemma_tokens_extend(b, x, e);
            let t0 = Token::Sym(b.subrange(i, e).map_values(|y: u8| y as char));
            match tokenize_from(bx, n) {
                Ok(u) => assert(seq![t0] + (tokenize_from(b, e)->Ok_0 + u) =~= (seq![t0] + tokenize_from(
                    b,
                    e,
                )->Ok_0) + u),
                Err(er) => {},
            }
        }
    }
}

pub(crate) proof fn lemma_digits_run(b: Seq<u8>, i: int)
    requires
        0 <= i <= b.len(),
        forall|j: int| i <= j < b.len() ==> is_digit(#[trigger] b[j]),
    ensures
        digit_end(b, i) == b.len(),
    decreases b.len() - i,
{
    if i < b.len() {
        lemma_digits_run(b, i + 1);
    }
}

/// Appending an operator and a decimal number to an expression that
/// evaluates applies that operator to the whole value so far (strictly left
/// to right, no precedence; `/` truncates toward zero, and dividing by zero
/// is an error). `b` is the expression's UTF-8 text, `op` one of `+ - * /`,
/// `digits` the decimal numeral of a value that fits an `i64`.
pub proof fn lemma_append_operand(
    b: Seq<u8>,
    op: u8,
    digits: Seq<u8>,
    syms: Map<Seq<char>, i64>,
    lc: u16,
)
    requires
        eval_spec(b, syms, lc) is Ok,
        is_op_byte(op),
        digits.len() > 0,
        forall|j: int| 0 <= j < digits.len() ==> is_digit(#[trigger] digits[j]),
        dec_value(digits) <= i64::MAX,
    ensures
        eval_spec(b + seq![op] + digits, syms, lc) == apply_op(
            op as char,
            eval_spec(b, syms, lc)->Ok_0,
            dec_value(digits) as i64,
        ),
{
    let x = seq![op] + digits;
    let bx = b + x;
    let n = b.len() as int;
    assert(b + seq![op] + digits =~= bx);
    assert(x[0] == op);
    let t = tokenize_from(b, 0)->Ok_0;
    lemma_tokens_extend(b, x, 0);
    assert(bx[n] == op);
    assert forall|j: int| n + 1 <= j < bx.len() implies is_digit(#[trigger] bx[j]) by {
        assert(bx[j] == digits[j - n - 1]);
    }
    lemma_digits_run(bx, n + 1);
    assert(bx[n + 1] == digits[0]);
    assert(bx.subrange(n + 1, bx.len() as int) =~= digits);
    let k = dec_value(digits) as i64;
    assert(tokenize_from(bx, bx.len() as int) == Ok::<Seq<Token>, Seq<char>>(seq![]));
    assert(tokenize_from(bx, n + 1) == Ok::<Seq<Token>, Seq<char>>(seq![Token::Num(k)])) by {
        assert(seq![Token::Num(k)] + seq![] =~= seq![Token::Num(k)]);
    }
    assert(tokenize_from(bx, n) == Ok::<Seq<Token>, Seq<char>>(seq![Token::Op(op as char), Token::Num(k)])) by {
        assert(seq![Token::Op(op as char)] + seq![Token::Num(k)] =~= seq![Token::Op(op as char), Token::Num(k)]);
    }
    lemma_left_to_right(t, op as char, Token::Num(k), syms, lc);
    assert(operand_value(Token::Num(k), syms, lc) == Ok::<i64, Seq<char>>(k));
}

/// The value of the expression whose UTF-8 bytes are `b`, with `$` = `lc`.
pub open spec fn eval_spec(b: Seq<u8>, syms: Map<Seq<char>, i64>, lc: u16) -> Result<
    i64,
    Seq<char>,
> {
    match tokenize_from(b, 0) {
        Err(e) => Err(e),
        Ok(t) => eval_toks(t, syms, lc),
    }
}

/// A `Result` of strings by the characters of its error.
pub open spec fn res_view<T>(r: Result<T, String>) -> Result<T, Seq<char>> {
    match r {
        Ok(v) => Ok(v),
        Err(e) => Err(e@),
    }
}

/// Evaluate `s` against the symbol table, with `$` resolving to `lc`.
pub fn eval(s: &str, syms: &Symbols, lc: u16) -> (r: Result<i64, String>)
    ensures
        res_view(r) == eval_spec(encode_utf8(s@), syms@, lc),
{
    let toks = match tokenize(s.as_bytes()) {
        Ok(t) => t,
        Err(e) => return Err(e),
    };
    if toks.len() == 0 {
        return Err(owned("empty expression"));
    }
    let ghost tv = toks_view(toks@);
    let mut i: usize;
    let mut acc: i64;
    let first_plus = match &toks[0] {
        Tok::Op(c) => *c == '+',
        _ => false,
    };
    let first_minus = match &toks[0] {
        Tok::Op(c) => *c == '-',
        _ => false,
    };
    if first_plus {
        assert(tv[0] == Token::Op('+'));
        acc = match term(&toks, 1, syms, lc) {
            Ok(v) => v,
            Err(e) => return Err(e),
        };
        i = 2;
    } else if first_minus {
        assert(tv[0] == Token::Op('-'));
        acc = match term(&toks, 1, syms, lc) {
            Ok(v) => 0i64.wrapping_sub(v),
            Err(e) => return Err(e),
        };
        i = 2;
    } else {
        acc = match term(&toks, 0, syms, lc) {
            Ok(v) => v,
            Err(e) => return Err(e),
        };
        i = 1;
    }
    while i < toks.len()
        invariant
            tv == toks_view(toks@),
            eval_toks(tv, syms@, lc) == eval_rest(tv, i as int, acc, syms@, lc),
            eval_spec(encode_utf8(s@), syms@, lc) == eval_toks(tv, syms@, lc),
        decreases toks@.len() - i,
    {
        let op = match &toks[i] {
            Tok::Op(c) => *c,
            _ => return Err(owned("expected an operator in expression")),
        };
        let rhs = match term(&toks, i + 1, syms, lc) {
            Ok(v) => v,
            Err(e) => return Err(e),
        };
        acc = if op == '+' {
            acc.wrapping_add(rhs)
        } else if op == '-' {
            acc.wrapping_sub(rhs)
        } else if op == '*' {
            acc.wrapping_mul(rhs)
        } else if op == '/' {
            if rhs == 0 {
                return Err(owned("division by zero"));
            }
            div_trunc(acc, rhs)
        } else {
            let mut m = owned("unknown operator '");
            m.push(op);
            push_str(&mut m, "'");
            assert(m@ =~= "unknown operator '"@ + seq![op] + "'"@);
            return Err(m);
        };
        i = i + 2;
    }
    Ok(acc)
}

fn div_trunc(a: i64, b: i64) -> (q: i64)
    requires
        b != 0,
    ensures
        q == trunc_div(a, b),
{
    match a.checked_div(b) {
        Some(q) => q,
        None => i64::MIN,
    }
}

fn term(toks: &Vec<Tok>, k: usize, syms: &Symbols, lc: u16) -> (r: Result<i64, String>)
    ensures
        res_view(r) == term_spec(toks_view(toks@), k as int, syms@, lc),
{
    if k >= toks.len() {
        return Err(owned("unexpected end of expression"));
    }
    match &toks[k] {
        Tok::Num(n) => Ok(*n),
        Tok::Dollar => Ok(lc as i64),
        Tok::Sym(name) => match syms.get(name.as_str()) {
            Some(v) => Ok(v),
            None => {
                let mut m = owned("undefined symbol '");
                push_str(&mut m, name.as_str());
                push_str(&mut m, "'");
                Err(m)
            },
        },
        Tok::Op(_) => Err(owned("expected a value, found an operator")),
    }
}

fn tokenize(b: &[u8]) -> (r: Result<Vec<Tok>, String>)
    ensures
        match r {
            Ok(t) => tokenize_from(b@, 0) == Ok::<Seq<Token>, Seq<char>>(toks_view(t@)),
            Err(e) => tokenize_from(b@, 0) == Err::<Seq<Token>, Seq<char>>(e@),
        },
{
    let mut out: Vec<Tok> = Vec::new();
    let mut i: usize = 0;
    while i < b.len()
        invariant
            i <= b@.len(),
            tokenize_from(b@, 0) == match tokenize_from(b@, i as int) {
                Ok(t) => Ok(toks_view(out@) + t),
                Err(e) => Err(e),
            },
        decreases b@.len() - i,
    {
        let c = b[i];
        let ghost old_out = toks_view(out@);
        if c == 32 || c == 9 {
            i += 1;
        } else if c == 43 || c == 45 || c == 42 || c == 47 {
            out.push(Tok::Op(c as char));
            proof {
                assert(toks_view(out@) =~= old_out.push(Token::Op(c as char)));
                lemma_cons_assoc(old_out, Token::Op(c as char), tokenize_from(b@, i + 1));
            }
            i += 1;
        } else if c == 36 {
            out.push(Tok::Dollar);
            proof {
                assert(toks_view(out@) =~= old_out.push(Token::Dollar));
                lemma_cons_assoc(old_out, Token::Dollar, tokenize_from(b@, i + 1));
            }
            i += 1;
        } else if c == 62 {
            let start = i + 1;
            let (e, v, over) = scan_hex(b, start);
            if e == start {
                return Err(owned("malformed hexadecimal constant"));
            }
            if over {
                return Err(owned("number too large to fit in target type"));
            }
            out.push(Tok::Num(v));
            proof {
                assert(toks_view(out@) =~= old_out.push(Token::Num(v)));
                lemma_cons_assoc(old_out, Token::Num(v), tokenize_from(b@, e as int));
            }
            i = e;
        } else if c == 39 {
            match char_const(b, i) {
                Ok((v, next)) => {
                    out.push(Tok::Num(v));
                    proof {
                        lemma_char_body(b@, i + 1, seq![]);
                        assert(toks_view(out@) =~= old_out.push(Token::Num(v)));
                        lemma_cons_assoc(old_out, Token::Num(v), tokenize_from(b@, next as int));
                    }
                    i = next;
                },
                Err(e) => return Err(e),
            }
        } else if 48 <= c && c <= 57 {
            let (e, v, over) = scan_dec(b, i);
            if over {
                return Err(owned("number out of range"));
            }
            out.push(Tok::Num(v));
            proof {
                assert(toks_view(out@) =~= old_out.push(Token::Num(v)));
                lemma_cons_assoc(old_out, Token::Num(v), tokenize_from(b@, e as int));
            }
            i = e;
        } else if (65 <= c && c <= 90) || (97 <= c && c <= 122) || c == 95 {
            let e = scan_ident(b, i);
            let mut name = String::new();
            let mut k = i;
            while k < e
                invariant
                    i <= k <= e <= b@.len(),
                    name@ == b@.subrange(i as int, k as int).map_values(|x: u8| x as char),
                decreases e - k,
            {
                name.push(b[k] as char);
                k += 1;
                assert(name@ =~= b@.subrange(i as int, k as int).map_values(|x: u8| x as char));
            }
            let ghost nm = name@;
            out.push(Tok::Sym(name));
            proof {
                assert(toks_view(out@) =~= old_out.push(Token::Sym(nm)));
                lemma_cons_assoc(old_out, Token::Sym(nm), tokenize_from(b@, e as int));
            }
            i = e;
        } else {
            let mut m = owned("unexpected character '");
            m.push(c as char);
            push_str(&mut m, "' in expression");
            assert(m@ =~= unexpected_msg(c));
            return Err(m);
        }
    }
    proof {
        assert(toks_view(out@) + Seq::<Token>::empty() =~= toks_view(out@));
    }
    Ok(out)
}

proof fn lemma_cons_assoc(done: Seq<Token>, t: Token, rest: Result<Seq<Token>, Seq<char>>)
    ensures
        (match cons_tok(t, rest) {
            Ok(r) => Ok::<Seq<Token>, Seq<char>>(done + r),
            Err(e) => Err(e),
        }) == (match rest {
            Ok(r) => Ok::<Seq<Token>, Seq<char>>(done.push(t) + r),
            Err(e) => Err(e),
        }),
{
    if let Ok(r) = rest {
        assert(done + (seq![t] + r) =~= done.push(t) + r);
    }
}

/// Scan hex digits from `start`: the end index, the value (when it fits) and
/// whether it overflowed `i64`.
fn scan_hex(b: &[u8], start: usize) -> (r: (usize, i64, bool))
    requires
        start <= b@.len(),
    ensures
        start <= r.0 <= b@.len(),
        r.0 == hex_end(b@, start as int),
        r.2 == (hex_value(b@.subrange(start as int, r.0 as int)) > i64::MAX),
        !r.2 ==> r.1 == hex_value(b@.subrange(start as int, r.0 as int)),
{
    let mut i = start;
    let mut v: i64 = 0;
    let mut over = false;
    while i < b.len() && is_hex_byte(b[i])
        invariant
            start <= i <= b@.len(),
            hex_end(b@, start as int) == hex_end(b@, i as int),
            over == (hex_value(b@.subrange(start as int, i as int)) > i64::MAX),
            !over ==> v == hex_value(b@.subrange(start as int, i as int)),
        decreases b@.len() - i,
    {
        let d = hex_digit_value(b[i]);
        let ghost prev = b@.subrange(start as int, i as int);
        assert(b@.subrange(start as int, i + 1).drop_last() =~= prev);
        if !over {
            if v > (i64::MAX - d) / 16 {
                over = true;
            } else {
                v = v * 16 + d;
            }
        }
        i += 1;
    }
    (i, v, over)
}

/// Scan decimal digits from `start` (a digit): end, value, overflow.
fn scan_dec(b: &[u8], start: usize) -> (r: (usize, i64, bool))
    requires
        start < b@.len(),
        is_digit(b@[start as int]),
    ensures
        start < r.0 <= b@.len(),
        r.0 == digit_end(b@, start as int),
        r.2 == (dec_value(b@.subrange(start as int, r.0 as int)) > i64::MAX),
        !r.2 ==> r.1 == dec_value(b@.subrange(start as int, r.0 as int)),
{
    let mut i = start;
    let mut v: i64 = 0;
    let mut over = false;
    while i < b.len() && 48 <= b[i] && b[i] <= 57
        invariant
            start <= i <= b@.len(),
            digit_end(b@, start as int) == digit_end(b@, i as int),
            over == (dec_value(b@.subrange(start as int, i as int)) > i64::MAX),
            !over ==> v == dec_value(b@.subrange(start as int, i as int)),
        decreases b@.len() - i,
    {
        let d = (b[i] - 48) as i64;
        let ghost prev = b@.subrange(start as int, i as int);
        assert(b@.subrange(start as int, i + 1).drop_last() =~= prev);
        if !over {
            if v > (i64::MAX - d) / 10 {
                over = true;
            } else {
                v = v * 10 + d;
            }
        }
        i += 1;
    }
    (i, v, over)
}

/// End of the symbol name starting at `start`.
fn scan_ident(b: &[u8], start: usize) -> (e: usize)
    requires
        start < b@.len(),
        is_ident(b@[start as int]),
    ensures
        e == ident_end(b@, start as int),
        start < e <= b@.len(),
{
    let mut i = start;
    while i < b.len() && ((65 <= b[i] && b[i] <= 90) || (97 <= b[i] && b[i] <= 122) || (48
        <= b[i] && b[i] <= 57) || b[i] == 95)
        invariant
            start <= i <= b@.len(),
            ident_end(b@, start as int) == ident_end(b@, i as int),
        decreases b@.len() - i,
    {
        i += 1;
    }
    i
}

fn is_hex_byte(c: u8) -> (r: bool)
    ensures
        r == is_hex(c),
{
    (48 <= c && c <= 57) || (65 <= c && c <= 70) || (97 <= c && c <= 102)
}

fn hex_digit_value(c: u8) -> (v: i64)
    requires
        is_hex(c),
    ensures
        v == hex_val(c),
        0 <= v < 16,
{
    if 48 <= c && c <= 57 {
        (c - 48) as i64
    } else if 65 <= c && c <= 70 {
        (c - 55) as i64
    } else {
        (c - 87) as i64
    }
}

/// Parse a character constant starting at `b[i] == '\''`; return `(value,
/// next-index)`. Up to two characters, packed big-endian; a doubled `''` inside is
/// a literal quote; an empty constant `''` is `0`.
fn char_const(b: &[u8], i: usize) -> (r: Result<(i64, usize), String>)
    requires
        i < b@.len(),
        b@[i as int] == 39,
    ensures
        match r {
            Ok((v, n)) => char_const_spec(b@, i as int) == Ok::<(i64, int), Seq<char>>(
                (v, n as int),
            ),
            Err(e) => char_const_spec(b@, i as int) == Err::<(i64, int), Seq<char>>(e@),
        },
{
    let n = b.len();
    let mut j = i + 1;
    let mut chars: Vec<u8> = Vec::new();
    loop
        invariant
            i < j <= b@.len() + 1,
            char_body(b@, i + 1, seq![]) == char_body(b@, j as int, chars@),
        decreases b@.len() + 1 - j,
    {
        if j >= b.len() {
            return Err(owned("unterminated character constant"));
        }
        if b[j] == 39 {
            if j + 1 < b.len() && b[j + 1] == 39 {
                chars.push(39);
                j += 2;
            } else {
                if chars.len() > 2 {
                    return Err(owned("character constant longer than two characters"));
                }
                let mut v: i64 = 0;
                if chars.len() >= 1 {
                    v = chars[0] as i64;
                }
                if chars.len() == 2 {
                    v = v * 256 + chars[1] as i64;
                }
                return Ok((v, j + 1));
            }
        } else {
            chars.push(b[j]);
            j += 1;
        }
    }
}


/// A byte with ASCII lower-case letters upper-cased.
pub open spec fn upper_byte(b: u8) -> u8 {
    if 97 <= b <= 122 {
        (b - 32) as u8
    } else {
        b
    }
}

/// The bytes of `s` with ASCII lower-case letters upper-cased.
pub open spec fn upper_bytes(s: Seq<u8>) -> Seq<u8> {
    s.map_values(|b: u8| upper_byte(b))
}

/// Hexadecimal digits are case-insensitive and run `0`–`9` then `A`–`F`:
/// a digit and its upper-case form have the same value, the sixteen
/// upper-case digits `0123456789ABCDEF` have the values 0 to 15 in that
/// order, and every digit's value is below 16.
pub proof fn lemma_hex_digit_values(c: u8, d: nat)
    requires
        d < 16,
    ensures
        is_hex(c) ==> is_hex(upper_byte(c)) && hex_val(c) == hex_val(upper_byte(c)),
        is_hex(c) ==> hex_val(c) < 16,
        hex_val((if d < 10 { 48 + d } else { 55 + d }) as u8) == d,
        is_hex((if d < 10 { 48 + d } else { 55 + d }) as u8),
{
}

proof fn lemma_hex_value_upper(s: Seq<u8>)
    requires
        forall|i: int| 0 <= i < s.len() ==> is_hex(#[trigger] s[i]),
    ensures
        hex_value(s) == hex_value(upper_bytes(s)),
        forall|i: int| 0 <= i < s.len() ==> is_hex(#[trigger] upper_bytes(s)[i]),
    decreases s.len(),
{
    let u = upper_bytes(s);
    if s.len() > 0 {
        lemma_hex_value_upper(s.drop_last());
        assert(u.drop_last() =~= upper_bytes(s.drop_last()));
        lemma_hex_digit_values(s.last(), 0);
    }
    assert forall|i: int| 0 <= i < s.len() implies is_hex(#[trigger] u[i]) by {
        lemma_hex_digit_values(s[i], 0);
    }
}

proof fn lemma_hex_run_to_end(b: Seq<u8>, i: int)
    requires
        0 <= i <= b.len(),
        forall|j: int| i <= j < b.len() ==> is_hex(#[trigger] b[j]),
    ensures
        hex_end(b, i) == b.len(),
    decreases b.len() - i,
{
    if i < b.len() {
        lemma_hex_run_to_end(b, i + 1);
    }
}

proof fn lemma_hex_constant_value(s: Seq<u8>, syms: Map<Seq<char>, i64>, lc: u16)
    requires
        s.len() > 0,
        forall|i: int| 0 <= i < s.len() ==> is_hex(#[trigger] s[i]),
    ensures
        hex_value(s) <= i64::MAX ==> eval_spec(seq![62u8] + s, syms, lc) == Ok::<i64, Seq<char>>(hex_value(s) as i64),
        hex_value(s) > i64::MAX ==> eval_spec(seq![62u8] + s, syms, lc) == Err::<i64, Seq<char>>(
            "number too large to fit in target type"@,
        ),
{
    let b = seq![62u8] + s;
    assert forall|j: int| 1 <= j < b.len() implies is_hex(#[trigger] b[j]) by {
        assert(b[j] == s[j - 1]);
    }
    lemma_hex_run_to_end(b, 1);
    assert(b.subrange(1, b.len() as int) =~= s);
    assert(tokenize_from(b, b.len() as int) == Ok::<Seq<Token>, Seq<char>>(seq![]));
    if hex_value(s) <= i64::MAX {
        assert(tokenize_from(b, 0) == Ok::<Seq<Token>, Seq<char>>(seq![Token::Num(hex_value(s) as i64)]));
    }
}

/// A hexadecimal constant `>digits` evaluates the same whatever the case of
/// its letter digits, to the number the digits spell in base 16 (when it
/// fits in 63 bits); so `>ff`, `>Ff` and `>FF` are all 255.
pub proof fn lemma_hex_constant_ignores_case(s: Seq<u8>, syms: Map<Seq<char>, i64>, lc: u16)
    requires
        s.len() > 0,
        forall|i: int| 0 <= i < s.len() ==> is_hex(#[trigger] s[i]),
    ensures
        eval_spec(seq![62u8] + s, syms, lc) == eval_spec(seq![62u8] + upper_bytes(s), syms, lc),
        hex_value(s) <= i64::MAX ==> eval_spec(seq![62u8] + s, syms, lc) == Ok::<i64, Seq<char>>(hex_value(s) as i64),
{
    lemma_hex_value_upper(s);
    let u = upper_bytes(s);
    lemma_hex_constant_value(s, syms, lc);
    lemma_hex_constant_value(u, syms, lc);
}

} // verus!
