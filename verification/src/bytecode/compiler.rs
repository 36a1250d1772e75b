//! The single-pass Pratt-parsing compiler: consumes tokens one at a time,
//! applies precedence climbing, and emits instructions and constants into a
//! chunk.
//!
//! The reference semantics is the spec-level evaluating parser
//! `sp_parse_prec` / `sp_infix`: it walks the same token stream with the
//! same one-token lookahead, error latch and panic mode as the executable
//! compiler, but instead of emitting code it computes the value of the
//! expression under standard precedence (`*` and `/` before `+` and `-`,
//! unary minus tighter than both, grouping by parentheses), together with
//! the operand-stack depth the compiled code needs. The executable compiler
//! is proved to leave the parser in exactly the mirrored state and, on a
//! clean parse, to emit a code segment whose machine semantics (`sp_exec`)
//! is precisely "push that value" — that is the compiling-equals-evaluating
//! theorem, finished off in the machine's `interpret`.
//!
//! The spec parser takes a fuel argument only to convince the termination
//! checker; `lemma_parse_fuel` and `lemma_infix_fuel` show any fuel past
//! `sp_fuel` gives the same answer.

use vstd::prelude::*;

use crate::bytecode::chunk::{opcode_byte, Chunk, OpCode, SpChunk};
use crate::bytecode::scanner::{
    is_digit_c, lemma_scan_props, num_lexeme_shape, sp_digits_end, sp_scan, ScanNote, Scanner,
    STok, Token, TokenType,
};
use crate::bytecode::value::{norm, norm_fits, Rat, Rational, SpVal, Value};
use crate::bytecode::vm::{lemma_exec_append, lemma_seg_ok_concat, sp_bin_val, sp_exec, sp_seg_ok, STACK_MAX};

verus! {

/// Precedence levels, lowest to highest.
#[derive(Clone, Copy, Debug, PartialEq, Eq, Structural)]
pub enum Precedence {
    Lowest,
    Assignment,
    Or,
    And,
    Equality,
    Comparison,
    Term,
    Factor,
    Unary,
    Call,
    Primary,
}

/// The numeric rank of a precedence level.
pub open spec fn prec_level(p: Precedence) -> int {
    match p {
        Precedence::Lowest => 0,
        Precedence::Assignment => 1,
        Precedence::Or => 2,
        Precedence::And => 3,
        Precedence::Equality => 4,
        Precedence::Comparison => 5,
        Precedence::Term => 6,
        Precedence::Factor => 7,
        Precedence::Unary => 8,
        Precedence::Call => 9,
        Precedence::Primary => 10,
    }
}

/// Prefix parse actions.
#[derive(Clone, Copy, Debug, PartialEq, Eq, Structural)]
pub enum PrefixFn {
    Grouping,
    Unary,
    Number,
}

/// Infix parse actions.
#[derive(Clone, Copy, Debug, PartialEq, Eq, Structural)]
pub enum InfixFn {
    Binary,
}

/// One row of the precedence table.
#[derive(Clone, Copy, Debug, PartialEq, Eq, Structural)]
pub struct ParseRule {
    pub prefix: Option<PrefixFn>,
    pub infix: Option<InfixFn>,
    pub precedence: Precedence,
}

/// The prefix action of a token kind.
pub open spec fn sp_prefix_rule(kind: TokenType) -> Option<PrefixFn> {
    match kind {
        TokenType::LeftParen => Some(PrefixFn::Grouping),
        TokenType::Minus => Some(PrefixFn::Unary),
        TokenType::Number => Some(PrefixFn::Number),
        _ => None,
    }
}

/// The infix action of a token kind.
pub open spec fn sp_infix_rule(kind: TokenType) -> Option<InfixFn> {
    match kind {
        TokenType::Minus => Some(InfixFn::Binary),
        TokenType::Plus => Some(InfixFn::Binary),
        TokenType::Slash => Some(InfixFn::Binary),
        TokenType::Star => Some(InfixFn::Binary),
        _ => None,
    }
}

/// The infix precedence of a token kind.
pub open spec fn sp_rule_prec(kind: TokenType) -> int {
    match kind {
        TokenType::Minus => 6,
        TokenType::Plus => 6,
        TokenType::Slash => 7,
        TokenType::Star => 7,
        _ => 0,
    }
}

/// What a diagnostic reports.
#[derive(Clone, Copy, Debug, PartialEq, Eq, Structural)]
pub enum DiagKind {
    UnexpectedCharacter,
    UnterminatedString,
    ExpectedExpression,
    ExpectedRightParen,
    ExpectedEndOfExpression,
    TooManyConstants,
    NumberOutOfRange,
}

/// One recorded compile diagnostic: what went wrong, the source line, and
/// the span of the token it was reported at (`at_end` marks the
/// end-of-input token, `at_error` an error token with no printable lexeme).
#[derive(Clone, Copy, Debug, PartialEq, Eq, Structural)]
pub struct Diagnostic {
    pub kind: DiagKind,
    pub line: usize,
    pub at_start: usize,
    pub at_length: usize,
    pub at_end: bool,
    pub at_error: bool,
}

impl DiagKind {
    /// The diagnostic's message text.
    pub fn message(&self) -> (r: &'static str)
        ensures
            r@ == match *self {
                DiagKind::UnexpectedCharacter => "Unexpected character."@,
                DiagKind::UnterminatedString => "Unterminated string."@,
                DiagKind::ExpectedExpression => "Expect expression."@,
                DiagKind::ExpectedRightParen => "Expect ')' after expression."@,
                DiagKind::ExpectedEndOfExpression => "Expect end of expression."@,
                DiagKind::TooManyConstants => "Too many constants in one chunk."@,
                DiagKind::NumberOutOfRange => "Number literal out of range."@,
            },
    {
        match *self {
            DiagKind::UnexpectedCharacter => "Unexpected character.",
            DiagKind::UnterminatedString => "Unterminated string.",
            DiagKind::ExpectedExpression => "Expect expression.",
            DiagKind::ExpectedRightParen => "Expect ')' after expression.",
            DiagKind::ExpectedEndOfExpression => "Expect end of expression.",
            DiagKind::TooManyConstants => "Too many constants in one chunk.",
            DiagKind::NumberOutOfRange => "Number literal out of range.",
        }
    }
}

/// The diagnostic a scanner error token turns into.
pub open spec fn sp_note_diag(n: ScanNote) -> DiagKind {
    match n {
        ScanNote::UnterminatedString => DiagKind::UnterminatedString,
        _ => DiagKind::UnexpectedCharacter,
    }
}

/// The ghost-level parser state: scanner cursor, the one-token lookahead,
/// the error latch and panic flag, the number of pooled constants, and the
/// kinds of the diagnostics reported so far.
pub ghost struct SpP {
    pub pos: int,
    pub line: int,
    pub cur: STok,
    pub prev: STok,
    pub err: bool,
    pub panic: bool,
    pub nconsts: int,
    pub diags: Seq<DiagKind>,
}

/// A token whose span lies inside the source.
pub open spec fn tok_ok(src: Seq<char>, t: STok) -> bool {
    0 <= t.start && 0 <= t.tlen && t.start + t.tlen <= src.len()
}

/// A parser state consistent with its source.
pub open spec fn sp_valid(src: Seq<char>, st: SpP) -> bool {
    &&& 0 <= st.pos <= src.len()
    &&& tok_ok(src, st.cur)
    &&& tok_ok(src, st.prev)
    &&& 0 <= st.nconsts
    &&& (st.panic ==> st.err)
    &&& (st.cur.kind == TokenType::Number ==> num_lexeme_shape(
        src.subrange(st.cur.start, st.cur.start + st.cur.tlen),
    ))
    &&& (st.prev.kind == TokenType::Number ==> num_lexeme_shape(
        src.subrange(st.prev.start, st.prev.start + st.prev.tlen),
    ))
}

/// Reports one diagnostic: sets the error latch and enters panic mode;
/// while panicking, reports are suppressed (first error wins).
pub open spec fn sp_report(st: SpP, k: DiagKind) -> SpP {
    if st.panic {
        st
    } else {
        SpP { err: true, panic: true, diags: st.diags.push(k), ..st }
    }
}

/// The token-pulling part of `advance`: scans tokens, reporting and
/// skipping error tokens, until a non-error token lands in `cur`.
pub open spec fn sp_advance_tail(src: Seq<char>, st: SpP) -> SpP
    decreases src.len() - st.pos,
    via sp_advance_tail_dec
{
    if !(0 <= st.pos <= src.len()) {
        st
    } else {
        let sc = sp_scan(src, st.pos, st.line);
        let st1 = SpP { pos: sc.pos, line: sc.line, cur: sc.tok, ..st };
        if sc.tok.kind != TokenType::Error {
            st1
        } else {
            sp_advance_tail(src, sp_report(st1, sp_note_diag(sc.tok.note)))
        }
    }
}

#[via_fn]
proof fn sp_advance_tail_dec(src: Seq<char>, st: SpP) {
    if 0 <= st.pos <= src.len() {
        lemma_scan_props(src, st.pos, st.line);
    }
}

/// One step of the lookahead: the previous token becomes the old current
/// one, and the next non-error token is pulled in.
pub open spec fn sp_advance(src: Seq<char>, st: SpP) -> SpP {
    sp_advance_tail(src, SpP { prev: st.cur, ..st })
}

/// Consumes the current token when it has the expected kind, else reports.
pub open spec fn sp_consume(src: Seq<char>, st: SpP, kind: TokenType, k: DiagKind) -> SpP {
    if st.cur.kind == kind {
        sp_advance(src, st)
    } else {
        sp_report(st, k)
    }
}

/// The value of an expression, or the mark that running its code faults
/// (on arithmetic the value representation cannot hold, or a division by
/// zero).
pub ghost enum SpArith {
    Val(Rat),
    Fault,
}

/// A parse outcome: the parser state after it, the expression's value, and
/// the operand-stack depth its compiled code needs.
pub ghost struct SpOut {
    pub st: SpP,
    pub ev: SpArith,
    pub dep: int,
}

/// The larger of two integers.
pub open spec fn sp_max(a: int, b: int) -> int {
    if a >= b {
        a
    } else {
        b
    }
}

/// Applies a binary operator token to two evaluated operands.
pub open spec fn sp_apply_bin(op: TokenType, a: SpArith, b: SpArith) -> SpArith {
    match (a, b) {
        (SpArith::Val(x), SpArith::Val(y)) => match op {
            TokenType::Plus => if crate::bytecode::value::fits_i64(
                crate::bytecode::value::sp_add(x, y),
            ) {
                SpArith::Val(crate::bytecode::value::sp_add(x, y))
            } else {
                SpArith::Fault
            },
            TokenType::Minus => if crate::bytecode::value::fits_i64(
                crate::bytecode::value::sp_sub(x, y),
            ) {
                SpArith::Val(crate::bytecode::value::sp_sub(x, y))
            } else {
                SpArith::Fault
            },
            TokenType::Star => if crate::bytecode::value::fits_i64(
                crate::bytecode::value::sp_mul(x, y),
            ) {
                SpArith::Val(crate::bytecode::value::sp_mul(x, y))
            } else {
                SpArith::Fault
            },
            TokenType::Slash => if y.n == 0 {
                SpArith::Fault
            } else if crate::bytecode::value::fits_i64(crate::bytecode::value::sp_div(x, y)) {
                SpArith::Val(crate::bytecode::value::sp_div(x, y))
            } else {
                SpArith::Fault
            },
            _ => SpArith::Fault,
        },
        _ => SpArith::Fault,
    }
}

/// Applies unary negation to an evaluated operand.
pub open spec fn sp_apply_neg(a: SpArith) -> SpArith {
    match a {
        SpArith::Val(x) => if crate::bytecode::value::fits_i64(
            crate::bytecode::value::sp_neg(x),
        ) {
            SpArith::Val(crate::bytecode::value::sp_neg(x))
        } else {
            SpArith::Fault
        },
        SpArith::Fault => SpArith::Fault,
    }
}

/// The value of a digit string, most significant first.
pub open spec fn sp_dval(s: Seq<char>) -> int
    decreases s.len(),
{
    if s.len() == 0 {
        0
    } else {
        10 * sp_dval(s.drop_last()) + (s.last() as u32 - 48)
    }
}

/// Ten to the `k`.
pub open spec fn pow10(k: nat) -> int
    decreases k,
{
    if k == 0 {
        1
    } else {
        10 * pow10((k - 1) as nat)
    }
}

/// The numerator and denominator a number lexeme denotes: the digits with
/// the dot struck out, over ten to the number of fractional digits.
pub open spec fn sp_lit_num(lex: Seq<char>) -> int {
    let dp = sp_digits_end(lex, 0);
    if dp >= lex.len() {
        sp_dval(lex)
    } else {
        sp_dval(lex.subrange(0, dp) + lex.subrange(dp + 1, lex.len() as int))
    }
}

/// See `sp_lit_num`.
pub open spec fn sp_lit_den(lex: Seq<char>) -> int {
    let dp = sp_digits_end(lex, 0);
    if dp >= lex.len() {
        1
    } else {
        pow10((lex.len() - dp - 1) as nat)
    }
}

/// How many digits a number lexeme holds.
pub open spec fn sp_lit_ndigits(lex: Seq<char>) -> int {
    let dp = sp_digits_end(lex, 0);
    if dp >= lex.len() {
        lex.len() as int
    } else {
        lex.len() - 1
    }
}

/// Whether a number lexeme's value is representable: not too many digits,
/// and the reduced fraction fits the value representation.
pub open spec fn sp_lit_ok(lex: Seq<char>) -> bool {
    sp_lit_ndigits(lex) <= 38 && norm_fits(sp_lit_num(lex), sp_lit_den(lex))
}

/// The reduced value of a representable number lexeme.
pub open spec fn sp_lit_val(lex: Seq<char>) -> Rat {
    norm(sp_lit_num(lex), sp_lit_den(lex))
}

/// The number-literal prefix action: pools the literal's value and counts
/// it; a literal out of range, or a pool already holding 255 constants, is
/// a compile error.
pub open spec fn sp_number_step(src: Seq<char>, st: SpP) -> SpOut {
    let lex = src.subrange(st.prev.start, st.prev.start + st.prev.tlen);
    if !sp_lit_ok(lex) {
        SpOut { st: sp_report(st, DiagKind::NumberOutOfRange), ev: SpArith::Fault, dep: 0 }
    } else {
        let st1 = SpP { nconsts: st.nconsts + 1, ..st };
        let st2 = if st.nconsts > 254 {
            sp_report(st1, DiagKind::TooManyConstants)
        } else {
            st1
        };
        SpOut { st: st2, ev: SpArith::Val(sp_lit_val(lex)), dep: 1 }
    }
}

/// The lookahead-weighted distance to the end of input: what one call of
/// `advance` can only shrink, and shrinks strictly while the current token
/// is not the end-of-input marker.
pub open spec fn sp_m(src: Seq<char>, st: SpP) -> int {
    src.len() - st.pos + if st.cur.kind == TokenType::EOF {
        0int
    } else {
        1int
    }
}

/// Fuel that provably suffices for a whole parse from `st`.
pub open spec fn sp_fuel(src: Seq<char>, st: SpP) -> nat {
    (2 * sp_m(src, st) + 2) as nat
}

/// The evaluating Pratt parser: consume one token, apply its prefix action
/// (number literal, grouping, or unary minus — anything else is "Expect
/// expression"), then fold in infix operators of at least `minp` binding
/// power via `sp_infix`.
pub open spec fn sp_parse_prec(src: Seq<char>, st: SpP, minp: int, fuel: nat) -> SpOut
    decreases fuel, 1nat,
{
    if fuel == 0 {
        SpOut { st: st, ev: SpArith::Fault, dep: 0 }
    } else {
        let st1 = sp_advance(src, st);
        match sp_prefix_rule(st1.prev.kind) {
            None => SpOut {
                st: sp_report(st1, DiagKind::ExpectedExpression),
                ev: SpArith::Fault,
                dep: 0,
            },
            Some(PrefixFn::Number) => {
                let o = sp_number_step(src, st1);
                sp_infix(src, o.st, o.ev, o.dep, minp, (fuel - 1) as nat)
            },
            Some(PrefixFn::Grouping) => {
                let r = sp_parse_prec(src, st1, 1, (fuel - 1) as nat);
                let st2 = sp_consume(
                    src,
                    r.st,
                    TokenType::RightParen,
                    DiagKind::ExpectedRightParen,
                );
                sp_infix(src, st2, r.ev, r.dep, minp, (fuel - 1) as nat)
            },
            Some(PrefixFn::Unary) => {
                let r = sp_parse_prec(src, st1, 8, (fuel - 1) as nat);
                sp_infix(src, r.st, sp_apply_neg(r.ev), r.dep, minp, (fuel - 1) as nat)
            },
        }
    }
}

/// The infix loop: while the current token is a binary operator binding at
/// least as tightly as `minp`, consume it, parse its right operand one
/// level tighter, and fold the operator into the accumulated value; the
/// depth accounts for the left value sitting on the stack while the right
/// operand's code runs.
pub open spec fn sp_infix(
    src: Seq<char>,
    st: SpP,
    ev: SpArith,
    dep: int,
    minp: int,
    fuel: nat,
) -> SpOut
    decreases fuel, 0nat,
{
    if fuel == 0 {
        SpOut { st: st, ev: SpArith::Fault, dep: dep }
    } else {
        if sp_rule_prec(st.cur.kind) >= minp && sp_infix_rule(st.cur.kind) is Some {
            let st1 = sp_advance(src, st);
            let op = st1.prev.kind;
            let r = sp_parse_prec(src, st1, sp_rule_prec(op) + 1, (fuel - 1) as nat);
            sp_infix(
                src,
                r.st,
                sp_apply_bin(op, ev, r.ev),
                sp_max(dep, 1 + r.dep),
                minp,
                (fuel - 1) as nat,
            )
        } else {
            SpOut { st: st, ev: ev, dep: dep }
        }
    }
}

/// Properties of the token-pulling loop: the state stays valid, the cursor
/// only moves forward, and the lookahead-weighted distance never exceeds
/// the plain distance before the pull.
proof fn lemma_advance_tail_props(src: Seq<char>, st: SpP)
    requires
        sp_valid(src, st),
    ensures
        ({
            let r = sp_advance_tail(src, st);
            &&& sp_valid(src, r)
            &&& st.pos <= r.pos
            &&& sp_m(src, r) <= src.len() - st.pos
            &&& r.prev == st.prev
            &&& r.nconsts == st.nconsts
            &&& r.cur.kind != TokenType::Error
            &&& (st.err ==> r.err)
        }),
    decreases src.len() - st.pos,
{
    lemma_scan_props(src, st.pos, st.line);
    crate::bytecode::scanner::lemma_scan_number_shape(src, st.pos, st.line);
    let sc = sp_scan(src, st.pos, st.line);
    let st1 = SpP { pos: sc.pos, line: sc.line, cur: sc.tok, ..st };
    if sc.tok.kind != TokenType::Error {
    } else {
        lemma_advance_tail_props(src, sp_report(st1, sp_note_diag(sc.tok.note)));
    }
}

/// `sp_advance` keeps the state valid and shrinks the lookahead-weighted
/// distance, strictly while the current token is not the end marker.
pub proof fn lemma_advance_props(src: Seq<char>, st: SpP)
    requires
        sp_valid(src, st),
    ensures
        ({
            let r = sp_advance(src, st);
            &&& sp_valid(src, r)
            &&& st.pos <= r.pos
            &&& sp_m(src, r) <= src.len() - st.pos
            &&& sp_m(src, r) <= sp_m(src, st)
            &&& st.cur.kind != TokenType::EOF ==> sp_m(src, r) <= sp_m(src, st) - 1
            &&& r.prev == st.cur
            &&& r.nconsts == st.nconsts
            &&& r.cur.kind != TokenType::Error
            &&& (st.err ==> r.err)
        }),
{
    lemma_advance_tail_props(src, SpP { prev: st.cur, ..st });
}

/// `sp_consume` keeps the state valid and never grows the distance.
pub proof fn lemma_consume_props(src: Seq<char>, st: SpP, kind: TokenType, k: DiagKind)
    requires
        sp_valid(src, st),
    ensures
        ({
            let r = sp_consume(src, st, kind, k);
            &&& sp_valid(src, r)
            &&& sp_m(src, r) <= sp_m(src, st)
            &&& r.nconsts == st.nconsts
            &&& (st.err ==> r.err)
        }),
{
    if st.cur.kind == kind {
        lemma_advance_props(src, st);
    }
}

/// Any fuel at or past `sp_fuel` gives the parse the same answer; the
/// result is valid and the distance shrinks by at least the prefix token.
pub proof fn lemma_parse_fuel(src: Seq<char>, st: SpP, minp: int, f: nat)
    requires
        sp_valid(src, st),
        1 <= minp,
        f >= 2 * sp_m(src, st) + 2,
    ensures
        ({
            let o = sp_parse_prec(src, st, minp, f);
            &&& o == sp_parse_prec(src, st, minp, sp_fuel(src, st))
            &&& sp_valid(src, o.st)
            &&& sp_m(src, o.st) <= sp_m(src, st)
            &&& st.cur.kind != TokenType::EOF ==> sp_m(src, o.st) <= sp_m(src, st) - 1
            &&& st.nconsts <= o.st.nconsts
            &&& (st.err ==> o.st.err)
        }),
    decreases f, 1nat,
{
    let m = sp_m(src, st);
    let cf = sp_fuel(src, st);
    lemma_advance_props(src, st);
    let st1 = sp_advance(src, st);
    let m1 = sp_m(src, st1);
    match sp_prefix_rule(st1.prev.kind) {
        None => {},
        Some(PrefixFn::Number) => {
            let o = sp_number_step(src, st1);
            assert(sp_m(src, o.st) == m1);
            assert(sp_valid(src, o.st));
            lemma_infix_fuel(src, o.st, o.ev, o.dep, minp, (f - 1) as nat);
            lemma_infix_fuel(src, o.st, o.ev, o.dep, minp, (cf - 1) as nat);
        },
        Some(PrefixFn::Grouping) => {
            lemma_parse_fuel(src, st1, 1, (f - 1) as nat);
            lemma_parse_fuel(src, st1, 1, (cf - 1) as nat);
            let r = sp_parse_prec(src, st1, 1, (f - 1) as nat);
            lemma_consume_props(src, r.st, TokenType::RightParen, DiagKind::ExpectedRightParen);
            let st2 = sp_consume(src, r.st, TokenType::RightParen, DiagKind::ExpectedRightParen);
            lemma_infix_fuel(src, st2, r.ev, r.dep, minp, (f - 1) as nat);
            lemma_infix_fuel(src, st2, r.ev, r.dep, minp, (cf - 1) as nat);
        },
        Some(PrefixFn::Unary) => {
            lemma_parse_fuel(src, st1, 8, (f - 1) as nat);
            lemma_parse_fuel(src, st1, 8, (cf - 1) as nat);
            let r = sp_parse_prec(src, st1, 8, (f - 1) as nat);
            lemma_infix_fuel(src, r.st, sp_apply_neg(r.ev), r.dep, minp, (f - 1) as nat);
            lemma_infix_fuel(src, r.st, sp_apply_neg(r.ev), r.dep, minp, (cf - 1) as nat);
        },
    }
}

/// Any fuel at or past `2 * sp_m + 1` gives the infix loop the same answer;
/// the result is valid and the distance never grows.
pub proof fn lemma_infix_fuel(
    src: Seq<char>,
    st: SpP,
    ev: SpArith,
    dep: int,
    minp: int,
    f: nat,
)
    requires
        sp_valid(src, st),
        1 <= minp,
        f >= 2 * sp_m(src, st) + 1,
    ensures
        ({
            let o = sp_infix(src, st, ev, dep, minp, f);
            &&& o == sp_infix(src, st, ev, dep, minp, (2 * sp_m(src, st) + 1) as nat)
            &&& sp_valid(src, o.st)
            &&& sp_m(src, o.st) <= sp_m(src, st)
            &&& st.nconsts <= o.st.nconsts
            &&& (st.err ==> o.st.err)
        }),
    decreases f, 0nat,
{
    let m = sp_m(src, st);
    let cf = (2 * m + 1) as nat;
    if sp_rule_prec(st.cur.kind) >= minp && sp_infix_rule(st.cur.kind) is Some {
        assert(st.cur.kind != TokenType::EOF);
        lemma_advance_props(src, st);
        let st1 = sp_advance(src, st);
        let op = st1.prev.kind;
        lemma_parse_fuel(src, st1, sp_rule_prec(op) + 1, (f - 1) as nat);
        lemma_parse_fuel(src, st1, sp_rule_prec(op) + 1, (cf - 1) as nat);
        let r = sp_parse_prec(src, st1, sp_rule_prec(op) + 1, (f - 1) as nat);
        lemma_infix_fuel(src, r.st, sp_apply_bin(op, ev, r.ev), sp_max(dep, 1 + r.dep), minp, (
        f - 1) as nat);
        lemma_infix_fuel(src, r.st, sp_apply_bin(op, ev, r.ev), sp_max(dep, 1 + r.dep), minp, (
        cf - 1) as nat);
    }
}

/// The whole compilation of a source text, at spec level: pull the first
/// token, parse one expression at the lowest real precedence, then demand
/// the end of input and the terminal instruction.
pub ghost struct SpC {
    pub st: SpP,
    pub ev: SpArith,
    pub dep: int,
}

/// The parser state a fresh compilation starts from.
pub open spec fn sp_start() -> SpP {
    SpP {
        pos: 0,
        line: 1,
        cur: STok {
            kind: TokenType::EOF,
            start: 0,
            tlen: 0,
            line: 0,
            note: ScanNote::Clean,
        },
        prev: STok {
            kind: TokenType::EOF,
            start: 0,
            tlen: 0,
            line: 0,
            note: ScanNote::Clean,
        },
        err: false,
        panic: false,
        nconsts: 0,
        diags: Seq::empty(),
    }
}

/// The mirrored outcome of `compile` on a source text.
pub open spec fn sp_compile(src: Seq<char>) -> SpC {
    let st1 = sp_advance(src, sp_start());
    let o = sp_parse_prec(src, st1, 1, sp_fuel(src, st1));
    let st2 = sp_consume(src, o.st, TokenType::EOF, DiagKind::ExpectedEndOfExpression);
    SpC { st: st2, ev: o.ev, dep: o.dep }
}

/// A code segment realizes an evaluation outcome against a constant pool:
/// under any extension of the pool and from any starting stack, running the
/// segment pushes exactly the computed value — or faults, when the
/// expression's arithmetic faults or the stack cannot take the needed
/// depth.
pub open spec fn seg_realizes(seg: Seq<u8>, consts: Seq<SpVal>, ev: SpArith, dep: int) -> bool {
    &&& sp_seg_ok(seg, 0)
    &&& forall|kk: Seq<SpVal>, s: Seq<SpVal>|
        consts.is_prefix_of(kk) ==> #[trigger] sp_exec(seg, kk, s) == (match ev {
            SpArith::Val(r) => if s.len() + dep <= STACK_MAX {
                Some(s.push(SpVal::Num(r)))
            } else {
                None::<Seq<SpVal>>
            },
            SpArith::Fault => None::<Seq<SpVal>>,
        })
}

/// Transitivity of the sequence-prefix order.
pub proof fn lemma_prefix_trans<A>(a: Seq<A>, b: Seq<A>, c: Seq<A>)
    requires
        a.is_prefix_of(b),
        b.is_prefix_of(c),
    ensures
        a.is_prefix_of(c),
{
    assert(a =~= c.subrange(0, a.len() as int)) by {
        assert(forall|i: int| 0 <= i < a.len() ==> a[i] == #[trigger] b[i]);
        assert(forall|i: int| 0 <= i < b.len() ==> b[i] == #[trigger] c[i]);
    }
}

/// Ten to the `k` is positive and monotone in `k`.
pub proof fn lemma_pow10_pos(k: nat)
    ensures
        pow10(k) >= 1,
    decreases k,
{
    if k > 0 {
        lemma_pow10_pos((k - 1) as nat);
    }
}

/// See `lemma_pow10_pos`.
pub proof fn lemma_pow10_mono(a: nat, b: nat)
    requires
        a <= b,
    ensures
        pow10(a) <= pow10(b),
    decreases b,
{
    if a < b {
        lemma_pow10_mono(a, (b - 1) as nat);
        lemma_pow10_pos((b - 1) as nat);
    }
}

/// A digit string's value is nonnegative and below ten to its length.
pub proof fn lemma_dval_bound(s: Seq<char>)
    requires
        forall|j: int| 0 <= j < s.len() ==> is_digit_c(#[trigger] s[j]),
    ensures
        0 <= sp_dval(s) < pow10(s.len()),
    decreases s.len(),
{
    if s.len() > 0 {
        assert(is_digit_c(s.last()));
        assert(forall|j: int| 0 <= j < s.drop_last().len() ==> is_digit_c(
            #[trigger] s.drop_last()[j],
        ));
        lemma_dval_bound(s.drop_last());
    }
}

/// Parses a number lexeme to its reduced rational value; `None` when the
/// literal is not representable.
fn parse_decimal(lex: &str) -> (r: Option<Rational>)
    requires
        num_lexeme_shape(lex@),
        lex@.len() < usize::MAX,
    ensures
        r is Some <==> sp_lit_ok(lex@),
        r matches Some(q) ==> q@ == sp_lit_val(lex@) && q.wf(),
{
    let ghost dp = sp_digits_end(lex@, 0);
    proof {
        crate::bytecode::scanner::lemma_digits_end_range(lex@, 0);
        if dp < lex@.len() {
            crate::bytecode::scanner::lemma_digits_end_range(lex@, dp + 1);
        }
        assert(forall|j: int| 0 <= j < dp ==> is_digit_c(#[trigger] lex@[j]));
        assert(dp < lex@.len() ==> lex@[dp] == '.' && !is_digit_c(lex@[dp]) && dp + 2 <= lex@.len()
            && (forall|j: int| dp + 1 <= j < lex@.len() ==> is_digit_c(#[trigger] lex@[j])));
    }
    let n: usize = lex.unicode_len();
    // Find the dot, which sits exactly at the end of the leading digit run.
    let mut dot: usize = 0;
    loop
        invariant_except_break
            n == lex@.len(),
            0 <= dot <= dp,
            dp <= n,
            dp == sp_digits_end(lex@, 0),
            forall|j: int| 0 <= j < dp ==> is_digit_c(#[trigger] lex@[j]),
            dp < lex@.len() ==> lex@[dp] == '.' && !is_digit_c(lex@[dp]),
        ensures
            n == lex@.len(),
            dot == dp || (dot == n && dp >= n),
            dot <= n,
        decreases n - dot,
    {
        if dot >= n {
            proof {
                assert(dp >= n);
            }
            break ;
        }
        let c: char = lex.get_char(dot);
        if c == '.' {
            proof {
                assert(!is_digit_c(lex@[dot as int]));
                assert(dot == dp) by {
                    if dot < dp {
                        assert(is_digit_c(lex@[dot as int]));
                    }
                }
            }
            break ;
        }
        proof {
            assert(dot < dp) by {
                if dp < lex@.len() && dp == dot {
                    assert(lex@[dp] == '.');
                }
            }
        }
        dot = dot + 1;
    }
    let ndigits: usize = if dot < n {
        n - 1
    } else {
        n
    };
    proof {
        assert(ndigits == sp_lit_ndigits(lex@));
    }
    if ndigits > 38 {
        return None;
    }
    proof {
        lemma_pow10_bound38();
    }
    // Accumulate every digit, most significant first, skipping the dot.
    let ghost stripped: Seq<char> = if dp >= lex@.len() {
        lex@
    } else {
        lex@.subrange(0, dp) + lex@.subrange(dp + 1, lex@.len() as int)
    };
    proof {
        assert(sp_lit_num(lex@) == sp_dval(stripped));
        assert(forall|j: int| 0 <= j < stripped.len() ==> is_digit_c(#[trigger] stripped[j]));
        assert(stripped.len() == ndigits);
    }
    let mut acc: i128 = 0;
    let mut j: usize = 0;
    let ghost done: Seq<char> = Seq::empty();
    let mut k: usize = 0;
    loop
        invariant_except_break
            n == lex@.len(),
            dot == dp || (dot == n && dp >= n),
            0 <= j <= n,
            dot < n ==> (k == if j <= dot {
                j as int
            } else {
                j - 1
            }),
            dot >= n ==> k == j,
            dp == sp_digits_end(lex@, 0),
            forall|j2: int| 0 <= j2 < dp ==> is_digit_c(#[trigger] lex@[j2]),
            dp < lex@.len() ==> dp + 2 <= lex@.len() && (forall|j2: int|
                dp + 1 <= j2 < lex@.len() ==> is_digit_c(#[trigger] lex@[j2])),
            k <= ndigits,
            ndigits <= 38,
            ndigits == stripped.len(),
            stripped == (if dp >= lex@.len() {
                lex@
            } else {
                lex@.subrange(0, dp) + lex@.subrange(dp + 1, lex@.len() as int)
            }),
            acc == sp_dval(stripped.subrange(0, k as int)),
            0 <= acc < pow10(k as nat),
            pow10(38) < 0x7fffffffffffffffffffffffffffffff,
        ensures
            k == ndigits,
            acc == sp_dval(stripped),
            0 <= acc < pow10(ndigits as nat),
            pow10(38) < 0x7fffffffffffffffffffffffffffffff,
            n == lex@.len(),
            dot == dp || (dot == n && dp >= n),
        decreases n - j,
    {
        if j >= n {
            proof {
                assert(k == ndigits);
                assert(stripped.subrange(0, k as int) =~= stripped);
            }
            break ;
        }
        if dot < n && j == dot {
            j = j + 1;
            continue ;
        }
        let c: char = lex.get_char(j);
        proof {
            assert(stripped[k as int] == lex@[j as int]) by {
                if dp < lex@.len() {
                    if j < dot {
                        assert(stripped[k as int] == lex@.subrange(0, dp)[k as int]);
                    } else {
                        assert(stripped[k as int] == lex@.subrange(
                            dp + 1,
                            lex@.len() as int,
                        )[k - dp]);
                    }
                }
            }
            assert(is_digit_c(c));
            assert(k < ndigits);
            lemma_pow10_mono((k + 1) as nat, 38nat);
        }
        let d: u32 = c as u32 - 48;
        acc = acc * 10 + d as i128;
        proof {
            assert(stripped.subrange(0, k + 1).drop_last() =~= stripped.subrange(0, k as int));
            assert(stripped.subrange(0, k + 1).last() == stripped[k as int]);
        }
        j = j + 1;
        k = k + 1;
    }
    // The denominator: ten to the number of fractional digits.
    let mut den: i128 = 1;
    if dot < n {
        let flen: usize = n - dot - 1;
        proof {
            assert(flen <= ndigits);
        }
        let mut i: usize = 0;
        while i < flen
            invariant
                0 <= i <= flen,
                flen <= 38,
                den == pow10(i as nat),
                pow10(38) < 0x7fffffffffffffffffffffffffffffff,
            decreases flen - i,
        {
            proof {
                lemma_pow10_mono((i + 1) as nat, 38nat);
                lemma_pow10_pos(i as nat);
            }
            den = den * 10;
            i = i + 1;
        }
        proof {
            assert(den == sp_lit_den(lex@));
        }
    } else {
        proof {
            assert(den == sp_lit_den(lex@));
        }
    }
    proof {
        lemma_pow10_pos((if dot < n {
            (n - dot - 1) as nat
        } else {
            0nat
        }));
        assert(acc == sp_lit_num(lex@));
    }
    Rational::from_large(acc, den)
}

/// Ten to the 38 fits a 128-bit signed word.
proof fn lemma_pow10_bound38()
    ensures
        pow10(38) < 0x7fffffffffffffffffffffffffffffff,
        pow10(38) == 0x4b3b4ca85a86c47a098a224000000000,
{
    reveal_with_fuel(pow10, 40);
}

/// The compiler: single mutable context threaded through every parsing
/// step — the one-token lookahead, the target chunk, the error latch and
/// panic flag, the lexer, and the recorded diagnostics.
pub struct Parser {
    current: Token,
    previous: Token,
    chunk: Chunk,
    had_error: bool,
    panic_mode: bool,
    scanner: Scanner,
    diags: Vec<Diagnostic>,
}

impl View for Parser {
    type V = SpP;

    closed spec fn view(&self) -> SpP {
        SpP {
            pos: self.scanner@.pos,
            line: self.scanner@.line,
            cur: self.current@,
            prev: self.previous@,
            err: self.had_error,
            panic: self.panic_mode,
            nconsts: self.chunk@.consts.len() as int,
            diags: self.diags@.map(|i: int, d: Diagnostic| d.kind),
        }
    }
}

impl Parser {
    /// The source text under compilation.
    pub closed spec fn srcv(self) -> Seq<char> {
        self.scanner@.src
    }

    /// The chunk written so far.
    pub closed spec fn chunkv(self) -> SpChunk {
        self.chunk@
    }

    /// The recorded diagnostics.
    pub closed spec fn diagsv(self) -> Seq<Diagnostic> {
        self.diags@
    }

    /// The lexer's and the chunk's own invariants.
    pub closed spec fn inner_wf(self) -> bool {
        self.scanner.wf() && self.chunk.wf()
    }

    /// The parser's invariant.
    pub open spec fn wf(self) -> bool {
        &&& self.inner_wf()
        &&& sp_valid(self.srcv(), self@)
        &&& self@.nconsts == self.chunkv().consts.len()
        &&& self.chunkv().wf()
        &&& self.srcv().len() < usize::MAX
    }

    /// A fresh parser with no source.
    pub fn new() -> (p: Parser)
        ensures
            p.wf(),
            p@ == sp_start(),
            p.srcv() == Seq::<char>::empty(),
            p.chunkv() == SpChunk::empty(),
    {
        let dummy = Token {
            type_of: TokenType::EOF,
            start: 0,
            length: 0,
            line: 0,
            note: ScanNote::Clean,
        };
        let p = Parser {
            current: dummy,
            previous: dummy,
            chunk: Chunk::new(),
            had_error: false,
            panic_mode: false,
            scanner: Scanner::new(),
            diags: Vec::new(),
        };
        proof {
            assert(p@.diags =~= Seq::<DiagKind>::empty());
        }
        p
    }

    /// Hands the compiled chunk out, leaving an empty one behind.
    pub fn take_chunk(&mut self) -> (c: Chunk)
        ensures
            c@ == old(self).chunkv(),
            old(self).wf() ==> c.wf(),
            final(self).chunkv() == SpChunk::empty(),
    {
        let mut c = Chunk::new();
        core::mem::swap(&mut self.chunk, &mut c);
        c
    }

    /// Read access to the chunk written so far.
    pub fn chunk(&self) -> (c: &Chunk)
        ensures
            c@ == self.chunkv(),
            self.wf() ==> c.wf(),
    {
        &self.chunk
    }

    /// Read access to the recorded diagnostics.
    pub fn diagnostics(&self) -> (d: &Vec<Diagnostic>)
        ensures
            d@ == self.diagsv(),
    {
        &self.diags
    }

    /// Records a diagnostic at `token`, unless already panicking.
    fn error_at(&mut self, token: Token, kind: DiagKind)
        requires
            old(self).wf(),
        ensures
            final(self).wf(),
            final(self)@ == sp_report(old(self)@, kind),
            final(self).srcv() == old(self).srcv(),
            final(self).chunkv() == old(self).chunkv(),
    {
        if self.panic_mode {
            return ;
        }
        self.panic_mode = true;
        self.diags.push(
            Diagnostic {
                kind,
                line: token.line,
                at_start: token.start,
                at_length: token.length,
                at_end: token.type_of == TokenType::EOF,
                at_error: token.type_of == TokenType::Error,
            },
        );
        self.had_error = true;
        proof {
            assert(final(self)@.diags =~= old(self)@.diags.push(kind));
        }
    }

    /// Records a diagnostic at the current token.
    fn error_at_current(&mut self, kind: DiagKind)
        requires
            old(self).wf(),
        ensures
            final(self).wf(),
            final(self)@ == sp_report(old(self)@, kind),
            final(self).srcv() == old(self).srcv(),
            final(self).chunkv() == old(self).chunkv(),
    {
        let t = self.current;
        self.error_at(t, kind);
    }

    /// Records a diagnostic at the previous token.
    fn error(&mut self, kind: DiagKind)
        requires
            old(self).wf(),
        ensures
            final(self).wf(),
            final(self)@ == sp_report(old(self)@, kind),
            final(self).srcv() == old(self).srcv(),
            final(self).chunkv() == old(self).chunkv(),
    {
        let t = self.previous;
        self.error_at(t, kind);
    }

    /// Steps the lookahead: the previous token takes the current one's
    /// place, and tokens are pulled until a non-error one arrives, each
    /// error token reported once (first error wins).
    pub fn advance(&mut self)
        requires
            old(self).wf(),
        ensures
            final(self).wf(),
            final(self)@ == sp_advance(old(self).srcv(), old(self)@),
            final(self).srcv() == old(self).srcv(),
            final(self).chunkv() == old(self).chunkv(),
    {
        self.previous = self.current;
        let ghost src = self.srcv();
        let ghost entry = self@;
        proof {
            assert(entry == (SpP { prev: old(self)@.cur, ..old(self)@ }));
        }
        loop
            invariant_except_break
                self.wf(),
                src == old(self).srcv(),
                entry == (SpP { prev: old(self)@.cur, ..old(self)@ }),
                self.srcv() == src,
                self.chunkv() == old(self).chunkv(),
                sp_advance_tail(src, self@) == sp_advance_tail(src, entry),
            ensures
                self.wf(),
                self.srcv() == src,
                src == old(self).srcv(),
                entry == (SpP { prev: old(self)@.cur, ..old(self)@ }),
                self.chunkv() == old(self).chunkv(),
                self@ == sp_advance_tail(src, entry),
            decreases src.len() - self@.pos,
        {
            let ghost before = self@;
            let t: Token = self.scanner.scan_token();
            self.current = t;
            proof {
                lemma_scan_props(src, before.pos, before.line);
                crate::bytecode::scanner::lemma_scan_number_shape(src, before.pos, before.line);
                let sc = sp_scan(src, before.pos, before.line);
                assert(self@ == (SpP { pos: sc.pos, line: sc.line, cur: sc.tok, ..before }));
            }
            if t.type_of != TokenType::Error {
                break ;
            }
            let kind = match t.note {
                ScanNote::UnterminatedString => DiagKind::UnterminatedString,
                _ => DiagKind::UnexpectedCharacter,
            };
            self.error_at_current(kind);
        }
    }

    /// Consumes the current token when it has the expected kind, else
    /// reports `kind` at it.
    fn consume(&mut self, type_of: TokenType, kind: DiagKind)
        requires
            old(self).wf(),
        ensures
            final(self).wf(),
            final(self)@ == sp_consume(old(self).srcv(), old(self)@, type_of, kind),
            final(self).srcv() == old(self).srcv(),
            final(self).chunkv() == old(self).chunkv(),
    {
        if self.current.type_of == type_of {
            self.advance();
            return ;
        }
        self.error_at_current(kind);
    }

    /// The fixed precedence table: one row per token kind.
    fn get_rule(&self, type_of: TokenType) -> (r: ParseRule)
        ensures
            r.prefix == sp_prefix_rule(type_of),
            r.infix == sp_infix_rule(type_of),
            prec_level(r.precedence) == sp_rule_prec(type_of),
    {
        match type_of {
            TokenType::LeftParen => ParseRule {
                prefix: Some(PrefixFn::Grouping),
                infix: None,
                precedence: Precedence::Lowest,
            },
            TokenType::Minus => ParseRule {
                prefix: Some(PrefixFn::Unary),
                infix: Some(InfixFn::Binary),
                precedence: Precedence::Term,
            },
            TokenType::Plus => ParseRule {
                prefix: None,
                infix: Some(InfixFn::Binary),
                precedence: Precedence::Term,
            },
            TokenType::Slash => ParseRule {
                prefix: None,
                infix: Some(InfixFn::Binary),
                precedence: Precedence::Factor,
            },
            TokenType::Star => ParseRule {
                prefix: None,
                infix: Some(InfixFn::Binary),
                precedence: Precedence::Factor,
            },
            TokenType::Number => ParseRule {
                prefix: Some(PrefixFn::Number),
                infix: None,
                precedence: Precedence::Lowest,
            },
            _ => ParseRule { prefix: None, infix: None, precedence: Precedence::Lowest },
        }
    }

    /// The prefix action of a token kind.
    fn get_rule_prefix(&self, type_of: TokenType) -> (r: Option<PrefixFn>)
        ensures
            r == sp_prefix_rule(type_of),
    {
        self.get_rule(type_of).prefix
    }

    /// The infix action of a token kind.
    fn get_rule_infix(&self, type_of: TokenType) -> (r: Option<InfixFn>)
        ensures
            r == sp_infix_rule(type_of),
    {
        self.get_rule(type_of).infix
    }

    /// The infix precedence of a token kind.
    fn get_rule_precedence(&self, type_of: TokenType) -> (r: Precedence)
        ensures
            prec_level(r) == sp_rule_prec(type_of),
    {
        self.get_rule(type_of).precedence
    }

    /// The numeric rank of a precedence level.
    fn rank(&self, p: Precedence) -> (r: u8)
        ensures
            r as int == prec_level(p),
    {
        match p {
            Precedence::Lowest => 0,
            Precedence::Assignment => 1,
            Precedence::Or => 2,
            Precedence::And => 3,
            Precedence::Equality => 4,
            Precedence::Comparison => 5,
            Precedence::Term => 6,
            Precedence::Factor => 7,
            Precedence::Unary => 8,
            Precedence::Call => 9,
            Precedence::Primary => 10,
        }
    }

    /// Appends one instruction byte, tagged with the previous token's line.
    fn emit_byte(&mut self, byte: OpCode)
        requires
            old(self).wf(),
        ensures
            final(self).wf(),
            final(self)@ == old(self)@,
            final(self).srcv() == old(self).srcv(),
            final(self).chunkv().code == old(self).chunkv().code.push(opcode_byte(byte)),
            final(self).chunkv().consts == old(self).chunkv().consts,
    {
        let line: usize = self.previous.line;
        self.chunk.write(byte, line);
    }

    /// Appends the terminal instruction.
    fn emit_return(&mut self)
        requires
            old(self).wf(),
        ensures
            final(self).wf(),
            final(self)@ == old(self)@,
            final(self).srcv() == old(self).srcv(),
            final(self).chunkv().code == old(self).chunkv().code.push(opcode_byte(OpCode::Return)),
            final(self).chunkv().consts == old(self).chunkv().consts,
    {
        self.emit_byte(OpCode::Return);
    }

    /// Pools a constant and returns its one-byte index; a pool already
    /// holding 255 entries is a compile error, and index zero stands in.
    fn make_constant(&mut self, value: Value) -> (idx: usize)
        requires
            old(self).wf(),
            value.wf(),
        ensures
            final(self).wf(),
            final(self).srcv() == old(self).srcv(),
            final(self).chunkv().code == old(self).chunkv().code,
            final(self).chunkv().consts == old(self).chunkv().consts.push(value@),
            idx <= 254,
            ({
                let st1 = SpP { nconsts: old(self)@.nconsts + 1, ..old(self)@ };
                &&& final(self)@ == (if old(self)@.nconsts > 254 {
                    sp_report(st1, DiagKind::TooManyConstants)
                } else {
                    st1
                })
                &&& (old(self)@.nconsts <= 254 ==> idx == old(self)@.nconsts)
                &&& (old(self)@.nconsts > 254 ==> idx == 0)
            }),
    {
        let constant: usize = self.chunk.add_constant(value);
        if constant > 254 {
            self.error(DiagKind::TooManyConstants);
            return 0;
        }
        constant
    }

    /// Emits a constant instruction for `value`.
    fn emit_constant(&mut self, value: Value)
        requires
            old(self).wf(),
            value.wf(),
        ensures
            final(self).wf(),
            final(self).srcv() == old(self).srcv(),
            final(self).chunkv().consts == old(self).chunkv().consts.push(value@),
            ({
                let st1 = SpP { nconsts: old(self)@.nconsts + 1, ..old(self)@ };
                let idx: int = if old(self)@.nconsts <= 254 {
                    old(self)@.nconsts
                } else {
                    0int
                };
                &&& final(self)@ == (if old(self)@.nconsts > 254 {
                    sp_report(st1, DiagKind::TooManyConstants)
                } else {
                    st1
                })
                &&& final(self).chunkv().code == old(self).chunkv().code.push(
                    opcode_byte(OpCode::Constant),
                ).push(idx as u8)
            }),
    {
        let constant: usize = self.make_constant(value);
        self.emit_byte(OpCode::Constant);
        let line: usize = self.previous.line;
        self.chunk.write_constant(constant, line);
        proof {
            let idx: int = if old(self)@.nconsts <= 254 {
                old(self)@.nconsts
            } else {
                0int
            };
            assert(constant as int == idx);
            assert(constant < 256);
            assert(constant as u8 == constant as int as u8);
            assert(constant as int as u8 == idx as u8);
        }
    }
}

/// The common shape of one parse step's effect: the parser lands in the
/// mirrored state, the chunk grows append-only, and — on a clean parse —
/// the appended code segment realizes the step's value and depth.
pub open spec fn parse_step_post(pre: Parser, post: Parser, o_st: SpP, ev: SpArith, dep: int) -> bool {
    &&& post.wf()
    &&& post.srcv() == pre.srcv()
    &&& post@ == o_st
    &&& pre.chunkv().consts.is_prefix_of(post.chunkv().consts)
    &&& pre.chunkv().code.is_prefix_of(post.chunkv().code)
    &&& (!post@.err ==> seg_realizes(
        post.chunkv().code.skip(pre.chunkv().code.len() as int),
        post.chunkv().consts,
        ev,
        dep,
    ))
}

/// A sequence is a prefix of itself extended.
pub proof fn lemma_prefix_extend<A>(a: Seq<A>, b: Seq<A>)
    requires
        a.len() <= b.len(),
        forall|i: int| 0 <= i < a.len() ==> a[i] == #[trigger] b[i],
    ensures
        a.is_prefix_of(b),
{
    assert(a =~= b.subrange(0, a.len() as int));
}

/// The opcode a binary operator token compiles to.
pub open spec fn op_token_code(op: TokenType) -> OpCode {
    match op {
        TokenType::Plus => OpCode::Add,
        TokenType::Minus => OpCode::Subtract,
        TokenType::Star => OpCode::Multiply,
        TokenType::Slash => OpCode::Divide,
        _ => OpCode::Unknown,
    }
}

/// Appending a `Negate` to a segment that realizes an operand makes a
/// segment that realizes its negation.
proof fn lemma_realizes_neg(sub: Seq<u8>, consts: Seq<SpVal>, ev: SpArith, dep: int)
    requires
        seg_realizes(sub, consts, ev, dep),
    ensures
        seg_realizes(sub.push(opcode_byte(OpCode::Negate)), consts, sp_apply_neg(ev), dep),
{
    let tail = seq![opcode_byte(OpCode::Negate)];
    let seg = sub.push(opcode_byte(OpCode::Negate));
    assert(seg =~= sub + tail);
    assert(tail[0] == 1u8);
    assert(sp_seg_ok(tail, 0)) by {
        reveal_with_fuel(sp_seg_ok, 3);
        assert(tail.len() == 1);
        assert(crate::bytecode::chunk::byte_opcode(tail[0]) == OpCode::Negate);
    }
    lemma_seg_ok_concat(sub, tail, 0);
    assert forall|kk: Seq<SpVal>, s: Seq<SpVal>|
        consts.is_prefix_of(kk) implies #[trigger] sp_exec(seg, kk, s) == (match sp_apply_neg(ev) {
        SpArith::Val(r) => if s.len() + dep <= STACK_MAX {
            Some(s.push(SpVal::Num(r)))
        } else {
            None::<Seq<SpVal>>
        },
        SpArith::Fault => None::<Seq<SpVal>>,
    }) by {
        reveal_with_fuel(sp_exec, 3);
        lemma_exec_append(sub, tail, kk, s);
        assert(sp_exec(sub, kk, s) == (match ev {
            SpArith::Val(r) => if s.len() + dep <= STACK_MAX {
                Some(s.push(SpVal::Num(r)))
            } else {
                None::<Seq<SpVal>>
            },
            SpArith::Fault => None::<Seq<SpVal>>,
        }));
        match ev {
            SpArith::Val(x) => {
                if s.len() + dep <= STACK_MAX {
                    let s2 = s.push(SpVal::Num(x));
                    assert(s2.last() == SpVal::Num(x));
                    assert(tail.skip(1) =~= Seq::<u8>::empty());
                    if crate::bytecode::value::fits_i64(crate::bytecode::value::sp_neg(x)) {
                        assert(sp_exec(tail, kk, s2) == Some(
                            s2.drop_last().push(SpVal::Num(crate::bytecode::value::sp_neg(x))),
                        ));
                        assert(s2.drop_last().push(SpVal::Num(crate::bytecode::value::sp_neg(x)))
                            =~= s.push(SpVal::Num(crate::bytecode::value::sp_neg(x))));
                    } else {
                        assert(sp_exec(tail, kk, s2) is None);
                    }
                }
            },
            SpArith::Fault => {},
        }
    }
}

/// What the code of one infix step promises: run on a stack holding the
/// left value on top, it folds the operator over that value and the right
/// operand the segment computes.
pub open spec fn binseg_realizes(
    seg: Seq<u8>,
    consts: Seq<SpVal>,
    op: TokenType,
    rev: SpArith,
    rdep: int,
) -> bool {
    &&& sp_seg_ok(seg, 0)
    &&& forall|kk: Seq<SpVal>, t: Seq<SpVal>, a: Rat|
        consts.is_prefix_of(kk) ==> #[trigger] sp_exec(seg, kk, t.push(SpVal::Num(a))) == (
        match sp_apply_bin(op, SpArith::Val(a), rev) {
            SpArith::Val(res) => if t.len() + 1 + rdep <= STACK_MAX {
                Some(t.push(SpVal::Num(res)))
            } else {
                None::<Seq<SpVal>>
            },
            SpArith::Fault => None::<Seq<SpVal>>,
        })
}

/// Appending the operator's opcode to a segment that realizes the right
/// operand makes the code of one infix step.
proof fn lemma_realizes_binstep(
    sub: Seq<u8>,
    consts: Seq<SpVal>,
    rev: SpArith,
    rdep: int,
    op: TokenType,
)
    requires
        seg_realizes(sub, consts, rev, rdep),
        sp_infix_rule(op) is Some,
    ensures
        binseg_realizes(sub.push(opcode_byte(op_token_code(op))), consts, op, rev, rdep),
{
    let opc = op_token_code(op);
    let tail = seq![opcode_byte(opc)];
    let seg = sub.push(opcode_byte(opc));
    assert(seg =~= sub + tail);
    assert(sp_seg_ok(tail, 0)) by {
        reveal_with_fuel(sp_seg_ok, 3);
        assert(tail.len() == 1);
        assert(crate::bytecode::chunk::byte_opcode(tail[0]) == opc);
    }
    lemma_seg_ok_concat(sub, tail, 0);
    assert forall|kk: Seq<SpVal>, t: Seq<SpVal>, a: Rat|
        consts.is_prefix_of(kk) implies #[trigger] sp_exec(seg, kk, t.push(SpVal::Num(a))) == (
    match sp_apply_bin(op, SpArith::Val(a), rev) {
        SpArith::Val(res) => if t.len() + 1 + rdep <= STACK_MAX {
            Some(t.push(SpVal::Num(res)))
        } else {
            None::<Seq<SpVal>>
        },
        SpArith::Fault => None::<Seq<SpVal>>,
    }) by {
        reveal_with_fuel(sp_exec, 3);
        let s = t.push(SpVal::Num(a));
        lemma_exec_append(sub, tail, kk, s);
        match rev {
            SpArith::Val(y) => {
                if s.len() + rdep <= STACK_MAX {
                    let s2 = s.push(SpVal::Num(y));
                    assert(s2.last() == SpVal::Num(y));
                    assert(s2[s2.len() - 2] == SpVal::Num(a));
                    assert(tail.skip(1) =~= Seq::<u8>::empty());
                    assert(crate::bytecode::chunk::byte_opcode(tail[0]) == opc);
                    match sp_bin_val(opc, SpVal::Num(a), SpVal::Num(y)) {
                        Some(res) => {
                            assert(sp_exec(tail, kk, s2) == Some(
                                s2.drop_last().drop_last().push(SpVal::Num(res)),
                            ));
                            assert(s2.drop_last().drop_last().push(SpVal::Num(res)) =~= t.push(
                                SpVal::Num(res),
                            ));
                            assert(sp_apply_bin(op, SpArith::Val(a), rev) == SpArith::Val(res));
                        },
                        None => {
                            assert(sp_exec(tail, kk, s2) is None);
                            assert(sp_apply_bin(op, SpArith::Val(a), rev) is Fault);
                        },
                    }
                } else {
                    assert(sp_exec(sub, kk, s) is None);
                }
            },
            SpArith::Fault => {
                assert(sp_exec(sub, kk, s) is None);
                assert(sp_apply_bin(op, SpArith::Val(a), rev) is Fault);
            },
        }
    }
}

/// Chaining the accumulated expression code with one infix step's code
/// realizes the folded value, at the depth the deeper of the two sides
/// needs.
proof fn lemma_realizes_chain(
    acc_seg: Seq<u8>,
    bin_seg: Seq<u8>,
    consts_mid: Seq<SpVal>,
    consts_new: Seq<SpVal>,
    gev: SpArith,
    gdep: int,
    op: TokenType,
    rev: SpArith,
    rdep: int,
)
    requires
        seg_realizes(acc_seg, consts_mid, gev, gdep),
        binseg_realizes(bin_seg, consts_new, op, rev, rdep),
        consts_mid.is_prefix_of(consts_new),
    ensures
        seg_realizes(
            acc_seg + bin_seg,
            consts_new,
            sp_apply_bin(op, gev, rev),
            sp_max(gdep, 1 + rdep),
        ),
{
    let seg = acc_seg + bin_seg;
    let ev2 = sp_apply_bin(op, gev, rev);
    let dep2 = sp_max(gdep, 1 + rdep);
    lemma_seg_ok_concat(acc_seg, bin_seg, 0);
    assert forall|kk: Seq<SpVal>, s: Seq<SpVal>|
        consts_new.is_prefix_of(kk) implies #[trigger] sp_exec(seg, kk, s) == (match ev2 {
        SpArith::Val(r) => if s.len() + dep2 <= STACK_MAX {
            Some(s.push(SpVal::Num(r)))
        } else {
            None::<Seq<SpVal>>
        },
        SpArith::Fault => None::<Seq<SpVal>>,
    }) by {
        lemma_prefix_trans(consts_mid, consts_new, kk);
        lemma_exec_append(acc_seg, bin_seg, kk, s);
        assert(sp_exec(acc_seg, kk, s) == (match gev {
            SpArith::Val(r) => if s.len() + gdep <= STACK_MAX {
                Some(s.push(SpVal::Num(r)))
            } else {
                None::<Seq<SpVal>>
            },
            SpArith::Fault => None::<Seq<SpVal>>,
        }));
        match gev {
            SpArith::Val(a) => {
                if s.len() + gdep <= STACK_MAX {
                    assert(sp_exec(bin_seg, kk, s.push(SpVal::Num(a))) == (match sp_apply_bin(
                        op,
                        SpArith::Val(a),
                        rev,
                    ) {
                        SpArith::Val(res) => if s.len() + 1 + rdep <= STACK_MAX {
                            Some(s.push(SpVal::Num(res)))
                        } else {
                            None::<Seq<SpVal>>
                        },
                        SpArith::Fault => None::<Seq<SpVal>>,
                    }));
                }
            },
            SpArith::Fault => {
                assert(ev2 is Fault);
            },
        }
    }
}

impl Parser {
    /// Number-literal prefix action: parses the previous token's lexeme and
    /// emits it as a constant.
    fn number(&mut self)
        requires
            old(self).wf(),
            old(self)@.prev.kind == TokenType::Number,
        ensures
            ({
                let o = sp_number_step(old(self).srcv(), old(self)@);
                parse_step_post(*old(self), *final(self), o.st, o.ev, o.dep)
            }),
    {
        let ghost src = old(self).srcv();
        let ghost lexg = src.subrange(old(self)@.prev.start, old(self)@.prev.start
            + old(self)@.prev.tlen);
        let tok: Token = self.previous;
        let end: usize = tok.start + tok.length;
        let lex: String = self.scanner.substr(tok.start, end);
        proof {
            assert(lex@ == lexg);
        }
        let r: Option<Rational> = parse_decimal(lex.as_str());
        match r {
            Some(v) => {
                self.emit_constant(Value::Number(v));
                proof {
                    let o = sp_number_step(src, old(self)@);
                    assert(sp_lit_ok(lexg));
                    assert(self@ == o.st);
                    let l0 = old(self).chunkv().code.len() as int;
                    let seg = self.chunkv().code.skip(l0);
                    let idx: int = if old(self)@.nconsts <= 254 {
                        old(self)@.nconsts
                    } else {
                        0int
                    };
                    assert(seg =~= seq![opcode_byte(OpCode::Constant), idx as u8]);
                    lemma_prefix_extend(old(self).chunkv().code, self.chunkv().code);
                    lemma_prefix_extend(old(self).chunkv().consts, self.chunkv().consts);
                    if !self@.err {
                        assert(idx == old(self)@.nconsts);
                        assert(0 <= idx <= 254);
                        let nc = self.chunkv().consts;
                        assert(nc[idx] == SpVal::Num(sp_lit_val(lexg)));
                        assert(sp_seg_ok(seg, 0)) by {
                            reveal_with_fuel(sp_seg_ok, 3);
                            assert(crate::bytecode::chunk::byte_opcode(seg[0]) == OpCode::Constant);
                        }
                        assert forall|kk: Seq<SpVal>, s: Seq<SpVal>|
                            nc.is_prefix_of(kk) implies #[trigger] sp_exec(seg, kk, s) == (
                        match o.ev {
                            SpArith::Val(rr) => if s.len() + o.dep <= STACK_MAX {
                                Some(s.push(SpVal::Num(rr)))
                            } else {
                                None::<Seq<SpVal>>
                            },
                            SpArith::Fault => None::<Seq<SpVal>>,
                        }) by {
                            reveal_with_fuel(sp_exec, 3);
                            assert(crate::bytecode::chunk::byte_opcode(seg[0]) == OpCode::Constant);
                            assert(seg[1] == idx as u8);
                            assert(seg[1] as int == idx);
                            assert(idx < nc.len());
                            assert(nc.len() <= kk.len());
                            assert(kk[idx] == nc[idx]) by {
                                assert(nc =~= kk.subrange(0, nc.len() as int));
                            }
                            assert(seg.skip(2) =~= Seq::<u8>::empty());
                            if s.len() < STACK_MAX {
                                assert(sp_exec(seg, kk, s) == Some(s.push(kk[seg[1] as int])));
                            }
                        }
                    }
                }
            },
            None => {
                self.error(DiagKind::NumberOutOfRange);
                proof {
                    let o = sp_number_step(src, old(self)@);
                    assert(!sp_lit_ok(lexg));
                    assert(self@ == o.st);
                    assert(self@.err);
                    assert(self.chunkv().code.skip(old(self).chunkv().code.len() as int)
                        =~= Seq::<u8>::empty());
                    lemma_prefix_extend(old(self).chunkv().code, self.chunkv().code);
                    lemma_prefix_extend(old(self).chunkv().consts, self.chunkv().consts);
                }
            },
        }
    }

    /// Grouping prefix action: a nested expression and its closing
    /// parenthesis.
    fn grouping(&mut self)
        requires
            old(self).wf(),
        ensures
            ({
                let src = old(self).srcv();
                let r = sp_parse_prec(src, old(self)@, 1, sp_fuel(src, old(self)@));
                let st2 = sp_consume(src, r.st, TokenType::RightParen, DiagKind::ExpectedRightParen);
                parse_step_post(*old(self), *final(self), st2, r.ev, r.dep)
            }),
        decreases sp_m(old(self).srcv(), old(self)@), 2int,
    {
        let ghost src = old(self).srcv();
        self.expression();
        self.consume(TokenType::RightParen, DiagKind::ExpectedRightParen);
        proof {
            let r = sp_parse_prec(src, old(self)@, 1, sp_fuel(src, old(self)@));
            lemma_parse_fuel(src, old(self)@, 1, sp_fuel(src, old(self)@));
            lemma_consume_props(src, r.st, TokenType::RightParen, DiagKind::ExpectedRightParen);
            if !self@.err {
                assert(!r.st.err);
            }
        }
    }

    /// Unary prefix action: the operand at unary precedence, then `Negate`.
    fn unary(&mut self)
        requires
            old(self).wf(),
            old(self)@.prev.kind == TokenType::Minus,
        ensures
            ({
                let src = old(self).srcv();
                let r = sp_parse_prec(src, old(self)@, 8, sp_fuel(src, old(self)@));
                parse_step_post(*old(self), *final(self), r.st, sp_apply_neg(r.ev), r.dep)
            }),
        decreases sp_m(old(self).srcv(), old(self)@), 2int,
    {
        let ghost src = old(self).srcv();
        let operator_type: TokenType = self.previous.type_of;
        self.parse_precedence(Precedence::Unary);
        let ghost mid = *self;
        match operator_type {
            TokenType::Minus => {
                self.emit_byte(OpCode::Negate);
            },
            _ => {},
        }
        proof {
            let r = sp_parse_prec(src, old(self)@, 8, sp_fuel(src, old(self)@));
            lemma_parse_fuel(src, old(self)@, 8, sp_fuel(src, old(self)@));
            let l0 = old(self).chunkv().code.len() as int;
            let sub = mid.chunkv().code.skip(l0);
            let seg = self.chunkv().code.skip(l0);
            assert(seg =~= sub.push(opcode_byte(OpCode::Negate)));
            lemma_prefix_extend(old(self).chunkv().code, self.chunkv().code);
            if !self@.err {
                lemma_realizes_neg(sub, mid.chunkv().consts, r.ev, r.dep);
            }
        }
    }

    /// Infix action for the four arithmetic operators: the right operand,
    /// one level tighter, then the operator's opcode.
    fn binary(&mut self)
        requires
            old(self).wf(),
            sp_infix_rule(old(self)@.prev.kind) is Some,
        ensures
            ({
                let src = old(self).srcv();
                let op = old(self)@.prev.kind;
                let r = sp_parse_prec(src, old(self)@, sp_rule_prec(op) + 1, sp_fuel(src, old(self)@));
                &&& final(self).wf()
                &&& final(self).srcv() == src
                &&& final(self)@ == r.st
                &&& old(self).chunkv().consts.is_prefix_of(final(self).chunkv().consts)
                &&& old(self).chunkv().code.is_prefix_of(final(self).chunkv().code)
                &&& (!final(self)@.err ==> binseg_realizes(
                    final(self).chunkv().code.skip(old(self).chunkv().code.len() as int),
                    final(self).chunkv().consts,
                    op,
                    r.ev,
                    r.dep,
                ))
            }),
        decreases sp_m(old(self).srcv(), old(self)@), 2int,
    {
        let ghost src = old(self).srcv();
        let operator_type: TokenType = self.previous.type_of;
        let precedence: Precedence = self.get_rule_precedence(operator_type);
        let next: Precedence = match precedence {
            Precedence::Lowest => Precedence::Assignment,
            Precedence::Assignment => Precedence::Or,
            Precedence::Or => Precedence::And,
            Precedence::And => Precedence::Equality,
            Precedence::Equality => Precedence::Comparison,
            Precedence::Comparison => Precedence::Term,
            Precedence::Term => Precedence::Factor,
            Precedence::Factor => Precedence::Unary,
            Precedence::Unary => Precedence::Call,
            Precedence::Call => Precedence::Primary,
            Precedence::Primary => Precedence::Lowest,
        };
        proof {
            assert(prec_level(next) == sp_rule_prec(operator_type) + 1);
        }
        self.parse_precedence(next);
        let ghost mid = *self;
        match operator_type {
            TokenType::Plus => self.emit_byte(OpCode::Add),
            TokenType::Minus => self.emit_byte(OpCode::Subtract),
            TokenType::Star => self.emit_byte(OpCode::Multiply),
            TokenType::Slash => self.emit_byte(OpCode::Divide),
            _ => {},
        }
        proof {
            let op = old(self)@.prev.kind;
            let r = sp_parse_prec(src, old(self)@, sp_rule_prec(op) + 1, sp_fuel(src, old(self)@));
            lemma_parse_fuel(src, old(self)@, sp_rule_prec(op) + 1, sp_fuel(src, old(self)@));
            let l0 = old(self).chunkv().code.len() as int;
            let sub = mid.chunkv().code.skip(l0);
            let seg = self.chunkv().code.skip(l0);
            assert(seg =~= sub.push(opcode_byte(op_token_code(op))));
            lemma_prefix_extend(old(self).chunkv().code, self.chunkv().code);
            if !self@.err {
                lemma_realizes_binstep(sub, mid.chunkv().consts, r.ev, r.dep, op);
            }
        }
    }

    /// Parses one expression at the lowest real precedence.
    fn expression(&mut self)
        requires
            old(self).wf(),
        ensures
            ({
                let src = old(self).srcv();
                let o = sp_parse_prec(src, old(self)@, 1, sp_fuel(src, old(self)@));
                parse_step_post(*old(self), *final(self), o.st, o.ev, o.dep)
            }),
        decreases sp_m(old(self).srcv(), old(self)@), 1int,
    {
        self.parse_precedence(Precedence::Assignment);
    }

    /// The heart of the Pratt parser: one prefix action for the token just
    /// consumed, then the infix loop while the next token binds at least as
    /// tightly as `precedence`.
    fn parse_precedence(&mut self, precedence: Precedence)
        requires
            old(self).wf(),
            1 <= prec_level(precedence),
        ensures
            ({
                let src = old(self).srcv();
                let o = sp_parse_prec(src, old(self)@, prec_level(precedence), sp_fuel(src, old(self)@));
                parse_step_post(*old(self), *final(self), o.st, o.ev, o.dep)
            }),
        decreases sp_m(old(self).srcv(), old(self)@), 0int,
    {
        let ghost src = old(self).srcv();
        let ghost minp = prec_level(precedence);
        let ghost st0 = old(self)@;
        let ghost target = sp_parse_prec(src, st0, minp, sp_fuel(src, st0));
        let ghost l0 = old(self).chunkv().code.len() as int;
        proof {
            lemma_advance_props(src, st0);
        }
        self.advance();
        let ghost st1 = self@;
        let prefix_rule: Option<PrefixFn> = self.get_rule_prefix(self.previous.type_of);
        let ghost mut gev: SpArith = SpArith::Fault;
        let ghost mut gdep: int = 0;
        match prefix_rule {
            None => {
                self.error(DiagKind::ExpectedExpression);
                proof {
                    assert(self@ == target.st);
                    assert(self@.err);
                    assert(self.chunkv().code.skip(l0) =~= Seq::<u8>::empty());
                    lemma_prefix_extend(old(self).chunkv().code, self.chunkv().code);
                    lemma_prefix_extend(old(self).chunkv().consts, self.chunkv().consts);
                }
                return ;
            },
            Some(PrefixFn::Number) => {
                proof {
                    assert(st0.cur.kind != TokenType::EOF);
                }
                self.number();
                proof {
                    let o1 = sp_number_step(src, st1);
                    gev = o1.ev;
                    gdep = o1.dep;
                    assert(sp_m(src, self@) == sp_m(src, st1));
                }
            },
            Some(PrefixFn::Grouping) => {
                proof {
                    assert(st0.cur.kind != TokenType::EOF);
                }
                self.grouping();
                proof {
                    let r = sp_parse_prec(src, st1, 1, sp_fuel(src, st1));
                    lemma_parse_fuel(src, st1, 1, sp_fuel(src, st1));
                    lemma_parse_fuel(src, st1, 1, (sp_fuel(src, st0) - 1) as nat);
                    lemma_consume_props(src, r.st, TokenType::RightParen, DiagKind::ExpectedRightParen);
                    gev = r.ev;
                    gdep = r.dep;
                }
            },
            Some(PrefixFn::Unary) => {
                proof {
                    assert(st0.cur.kind != TokenType::EOF);
                }
                self.unary();
                proof {
                    let r = sp_parse_prec(src, st1, 8, sp_fuel(src, st1));
                    lemma_parse_fuel(src, st1, 8, sp_fuel(src, st1));
                    lemma_parse_fuel(src, st1, 8, (sp_fuel(src, st0) - 1) as nat);
                    gev = sp_apply_neg(r.ev);
                    gdep = r.dep;
                }
            },
        }
        proof {
            lemma_infix_fuel(src, self@, gev, gdep, minp, (sp_fuel(src, st0) - 1) as nat);
            lemma_infix_fuel(src, self@, gev, gdep, minp, (2 * sp_m(src, self@) + 1) as nat);
            assert(target == sp_infix(src, self@, gev, gdep, minp, (2 * sp_m(src, self@)
                + 1) as nat));
        }
        loop
            invariant_except_break
                self.wf(),
                src == old(self).srcv(),
                self.srcv() == src,
                st0 == old(self)@,
                minp == prec_level(precedence),
                1 <= minp,
                l0 == old(self).chunkv().code.len() as int,
                target == sp_parse_prec(src, st0, minp, sp_fuel(src, st0)),
                old(self).chunkv().code.is_prefix_of(self.chunkv().code),
                old(self).chunkv().consts.is_prefix_of(self.chunkv().consts),
                !self@.err ==> seg_realizes(self.chunkv().code.skip(l0), self.chunkv().consts, gev, gdep),
                target == sp_infix(src, self@, gev, gdep, minp, (2 * sp_m(src, self@) + 1) as nat),
                sp_m(src, self@) <= sp_m(src, st0) - 1,
            ensures
                self.wf(),
                src == old(self).srcv(),
                self.srcv() == src,
                st0 == old(self)@,
                l0 == old(self).chunkv().code.len() as int,
                old(self).chunkv().code.is_prefix_of(self.chunkv().code),
                old(self).chunkv().consts.is_prefix_of(self.chunkv().consts),
                !self@.err ==> seg_realizes(self.chunkv().code.skip(l0), self.chunkv().consts, gev, gdep),
                target == (SpOut { st: self@, ev: gev, dep: gdep }),
            decreases sp_m(src, self@),
        {
            let cur_prec: Precedence = self.get_rule_precedence(self.current.type_of);
            if self.rank(precedence) > self.rank(cur_prec) {
                proof {
                    assert(sp_rule_prec(self@.cur.kind) < minp);
                    assert(target == (SpOut { st: self@, ev: gev, dep: gdep }));
                }
                break ;
            }
            let ghost stl = self@;
            let ghost csl = *self;
            proof {
                assert(sp_rule_prec(stl.cur.kind) >= minp);
                assert(sp_infix_rule(stl.cur.kind) is Some);
                assert(stl.cur.kind != TokenType::EOF);
                lemma_advance_props(src, stl);
            }
            self.advance();
            let ghost stm = self@;
            self.binary();
            proof {
                let op = stm.prev.kind;
                assert(op == stl.cur.kind);
                let r = sp_parse_prec(src, stm, sp_rule_prec(op) + 1, sp_fuel(src, stm));
                lemma_parse_fuel(src, stm, sp_rule_prec(op) + 1, sp_fuel(src, stm));
                lemma_parse_fuel(src, stm, sp_rule_prec(op) + 1, (2 * sp_m(src, stl) + 1 - 1) as nat);
                let acc_seg = csl.chunkv().code.skip(l0);
                let bin_seg = self.chunkv().code.skip(csl.chunkv().code.len() as int);
                assert(self.chunkv().code.skip(l0) =~= acc_seg + bin_seg);
                lemma_prefix_trans(old(self).chunkv().code, csl.chunkv().code, self.chunkv().code);
                lemma_prefix_trans(old(self).chunkv().consts, csl.chunkv().consts, self.chunkv().consts);
                if !self@.err {
                    assert(!stl.err);
                    lemma_realizes_chain(
                        acc_seg,
                        bin_seg,
                        csl.chunkv().consts,
                        self.chunkv().consts,
                        gev,
                        gdep,
                        op,
                        r.ev,
                        r.dep,
                    );
                }
                gev = sp_apply_bin(op, gev, r.ev);
                gdep = sp_max(gdep, 1 + r.dep);
                lemma_infix_fuel(src, self@, gev, gdep, minp, (2 * sp_m(src, stl) + 1 - 1) as nat);
                lemma_infix_fuel(src, self@, gev, gdep, minp, (2 * sp_m(src, self@) + 1) as nat);
            }
        }
    }

    /// Finishes a compilation: emits the terminal instruction.
    fn end_compiler(&mut self)
        requires
            old(self).wf(),
        ensures
            final(self).wf(),
            final(self)@ == old(self)@,
            final(self).srcv() == old(self).srcv(),
            final(self).chunkv().code == old(self).chunkv().code.push(opcode_byte(OpCode::Return)),
            final(self).chunkv().consts == old(self).chunkv().consts,
    {
        self.emit_return();
    }

    /// Compiles a source text into this parser's chunk: one expression,
    /// then the end of input, then the terminal instruction. Returns
    /// whether the pass recorded no error; on a clean pass the chunk's code
    /// is a segment realizing the expression's value, closed by `Return`.
    pub fn compile(&mut self, source: String) -> (ok: bool)
        requires
            source@.len() < usize::MAX,
        ensures
            final(self).wf(),
            final(self).srcv() == source@,
            final(self)@ == sp_compile(source@).st,
            ok == !sp_compile(source@).st.err,
            final(self).chunkv().code.len() >= 1,
            final(self).chunkv().code.last() == opcode_byte(OpCode::Return),
            !final(self)@.err ==> seg_realizes(
                final(self).chunkv().code.drop_last(),
                final(self).chunkv().consts,
                sp_compile(source@).ev,
                sp_compile(source@).dep,
            ),
    {
        let ghost src = source@;
        self.scanner.init(source);
        self.chunk.free();
        self.diags = Vec::new();
        self.had_error = false;
        self.panic_mode = false;
        let dummy = Token {
            type_of: TokenType::EOF,
            start: 0,
            length: 0,
            line: 0,
            note: ScanNote::Clean,
        };
        self.current = dummy;
        self.previous = dummy;
        proof {
            assert(self@.diags =~= Seq::<DiagKind>::empty());
            assert(self@ == sp_start());
        }
        self.advance();
        let ghost st1 = self@;
        self.expression();
        let ghost afterexpr = *self;
        self.consume(TokenType::EOF, DiagKind::ExpectedEndOfExpression);
        let ghost aftercons = *self;
        self.end_compiler();
        proof {
            let o = sp_parse_prec(src, st1, 1, sp_fuel(src, st1));
            lemma_parse_fuel(src, st1, 1, sp_fuel(src, st1));
            lemma_consume_props(src, o.st, TokenType::EOF, DiagKind::ExpectedEndOfExpression);
            assert(self@ == sp_compile(src).st);
            assert(self.chunkv().code.drop_last() =~= afterexpr.chunkv().code.skip(0));
            if !self@.err {
                assert(!afterexpr@.err);
                assert(seg_realizes(
                    afterexpr.chunkv().code.skip(0),
                    afterexpr.chunkv().consts,
                    o.ev,
                    o.dep,
                ));
            }
        }
        !self.had_error
    }
}

} // verus!
