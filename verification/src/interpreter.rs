use vstd::prelude::*;

use crate::context::{Context, bind};
use crate::error::{Error, ErrorModel};
use crate::tokenizer::{Kind, ScanModel, Tok, Token, Scan, scan, next_token, lemma_scan_bounds};
use crate::value::{Json, Num, Value};

verus! {

/// Binding power of the operators: the position of their row in the
/// precedence table, counted from 1; 0 for tokens that are no operator.
pub open spec fn binding(k: Kind) -> int {
    match k {
        Kind::Or => 1,
        Kind::And => 2,
        Kind::In => 3,
        Kind::Equal | Kind::NotEqual => 4,
        Kind::GreaterEq | Kind::LessEq | Kind::Less | Kind::Greater => 5,
        Kind::Plus | Kind::Minus => 6,
        Kind::Times | Kind::Divide => 7,
        Kind::Power => 9,
        Kind::LBracket | Kind::Dot => 10,
        Kind::LParen => 11,
        _ => 0,
    }
}

/// Binding power with which the right operand of `**` is read (its
/// right-associative row).
pub const POWER_RIGHT: u8 = 8;

/// Binding power with which the operand of a prefix operator is read.
pub const UNARY: u8 = 12;

/// The tokens that have an infix rule.
pub open spec fn has_infix(k: Kind) -> bool {
    k == Kind::Plus || k == Kind::Times || k == Kind::Power || k == Kind::LBracket
}

/// The tokens that have a prefix rule.
pub open spec fn has_prefix(k: Kind) -> bool {
    ||| k == Kind::Number
    ||| k == Kind::Not
    ||| k == Kind::Minus
    ||| k == Kind::Plus
    ||| k == Kind::Identifier
    ||| k == Kind::Null
    ||| k == Kind::LBracket
    ||| k == Kind::LParen
    ||| k == Kind::LBrace
    ||| k == Kind::Str
    ||| k == Kind::True
    ||| k == Kind::False
}

pub open spec fn msg_unexpected() -> Seq<char> {
    "Unexpected token error"@
}

pub open spec fn msg_unmatched(src: Seq<char>, p: int) -> Seq<char> {
    "unexpected EOF for "@ + src + " at "@ + src.subrange(p, src.len() as int)
}

pub open spec fn msg_unknown(name: Seq<char>) -> Seq<char> {
    "unknown context value "@ + name
}

pub open spec fn msg_expects_number() -> Seq<char> {
    "This operator expects a number"@
}

pub open spec fn msg_plus() -> Seq<char> {
    "infix: +', 'number/string + number/string"@
}

pub open spec fn msg_times() -> Seq<char> {
    "infix: *', 'number + number"@
}

pub open spec fn msg_power() -> Seq<char> {
    "infix: **', 'number + number"@
}

pub open spec fn msg_integer_index() -> Seq<char> {
    "should only use integers to access arrays or strings"@
}

pub open spec fn msg_left_part() -> Seq<char> {
    "left part of slice operator is not a number"@
}

pub open spec fn msg_integer_interval() -> Seq<char> {
    "cannot perform interval access with non-integers"@
}

pub open spec fn msg_right_part() -> Seq<char> {
    "right part of slice operator is not a number"@
}

pub open spec fn msg_out_of_bounds() -> Seq<char> {
    "index out of bounds"@
}

/// A floating-point computation that evaluation needs: reading a number
/// literal, or adding, multiplying or raising two numbers.
pub enum FloatOp {
    Literal(String),
    Add(Num, Num),
    Mul(Num, Num),
    Pow(Num, Num),
}

pub enum FloatOpModel {
    Literal(Seq<char>),
    Add(Num, Num),
    Mul(Num, Num),
    Pow(Num, Num),
}

impl View for FloatOp {
    type V = FloatOpModel;

    open spec fn view(&self) -> FloatOpModel {
        match self {
            FloatOp::Literal(s) => FloatOpModel::Literal(s@),
            FloatOp::Add(a, b) => FloatOpModel::Add(*a, *b),
            FloatOp::Mul(a, b) => FloatOpModel::Mul(*a, *b),
            FloatOp::Pow(a, b) => FloatOpModel::Pow(*a, *b),
        }
    }
}

/// What evaluating a source text comes to, given the results of the
/// floating-point computations asked for so far: a value or an error; the
/// next floating-point computation to perform; or an abort, where the
/// expression uses what is not implemented (interval access, indexing
/// anything but an array), or a number whose conversion to an index or whose
/// comparison with zero overflows.
pub enum Step {
    Finished(Result<Value, Error>),
    Compute(FloatOp),
    Abort,
}

pub enum StepModel {
    Finished(Result<Json, ErrorModel>),
    Compute(FloatOpModel),
    Abort,
}

impl View for Step {
    type V = StepModel;

    open spec fn view(&self) -> StepModel {
        match self {
            Step::Finished(Ok(v)) => StepModel::Finished(Ok(v@)),
            Step::Finished(Err(e)) => StepModel::Finished(Err(e@)),
            Step::Compute(op) => StepModel::Compute(op@),
            Step::Abort => StepModel::Abort,
        }
    }
}

/// What evaluation works on: the source text, the context, and the results
/// of the floating-point computations (in the order they were asked for).
pub struct Env {
    pub src: Seq<char>,
    pub ctx: Map<Seq<char>, Json>,
    pub tape: Seq<Num>,
}

/// The outcome of reading part of an expression: a value with the offset
/// where scanning goes on and the number of results used; an error; a
/// floating-point computation to perform; or an abort.
pub enum Flow {
    Done(Json, int, int),
    Fail(ErrorModel),
    Compute(FloatOpModel),
    Abort,
}

/// The outcome of taking a token: the token and the offset after it; no
/// token of the kind asked for; or an error.
pub enum Take {
    Got(Tok, int),
    Absent,
    Fail(ErrorModel),
}

pub open spec fn text_of(env: Env, t: Tok) -> Seq<char> {
    env.src.subrange(t.start, t.end)
}

/// Consumes token `t`, scanning what follows it: text that no token
/// matches is an error as soon as the token before it is consumed.
pub open spec fn advance(env: Env, t: Tok) -> Take {
    match scan(env.src, t.end) {
        ScanModel::Unmatched(p) => Take::Fail(ErrorModel::Syntax(msg_unmatched(env.src, p))),
        _ => Take::Got(t, t.end),
    }
}

/// Consumes the next token if it has kind `k`.
pub open spec fn attempt(env: Env, o: int, k: Kind) -> Take {
    match scan(env.src, o) {
        ScanModel::Found(t) => if t.kind == k {
            advance(env, t)
        } else {
            Take::Absent
        },
        _ => Take::Absent,
    }
}

/// Consumes the next token, which must have kind `k`.
pub open spec fn require(env: Env, o: int, k: Kind) -> Take {
    match attempt(env, o, k) {
        Take::Absent => Take::Fail(ErrorModel::Syntax(msg_unexpected())),
        r => r,
    }
}

/// Consumes the next token, whatever it is.
pub open spec fn require_any(env: Env, o: int) -> Take {
    match scan(env.src, o) {
        ScanModel::Found(t) => advance(env, t),
        _ => Take::Fail(ErrorModel::Syntax(msg_unexpected())),
    }
}

/// Consumes the next token, which must be a key of an object: an
/// identifier or a string.
pub open spec fn require_key(env: Env, o: int) -> Take {
    match scan(env.src, o) {
        ScanModel::Found(t) => if t.kind == Kind::Identifier || t.kind == Kind::Str {
            advance(env, t)
        } else {
            Take::Fail(ErrorModel::Syntax(msg_unexpected()))
        },
        _ => Take::Fail(ErrorModel::Syntax(msg_unexpected())),
    }
}

/// Token `t` is a string token as the scanner finds one: quotes around its
/// text.
pub open spec fn string_token(src: Seq<char>, t: Tok) -> bool {
    &&& 0 <= t.start
    &&& t.start + 2 <= t.end <= src.len()
    &&& is_quote(src[t.start])
    &&& src[t.end - 1] == src[t.start]
}

/// The characters that open and close a string token.
pub open spec fn is_quote(c: char) -> bool {
    c == '\'' || c == '"'
}

/// The text between the quotes of a string token.
pub open spec fn unquote(text: Seq<char>) -> Seq<char> {
    text.subrange(1, text.len() - 1)
}

/// What `!` gives for a value: whether it is null, false, zero, or empty.
pub open spec fn is_empty_json(v: Json) -> bool {
    match v {
        Json::Null => true,
        Json::Boolean(b) => !b,
        Json::Number(n) => n.spec_is_zero(),
        Json::Short(s) => s.len() == 0,
        Json::Str(s) => s.len() == 0,
        Json::Array(a) => a.len() == 0,
        Json::Object(o) => o.len() == 0,
    }
}

/// The element of `items` at `index`, a negative index counting from the
/// end.
pub open spec fn element_model(items: Seq<Json>, index: i64) -> Option<Json> {
    let a = if index < 0 {
        index + items.len()
    } else {
        index as int
    };
    if a >= items.len() || a < 0 {
        None
    } else {
        Some(items[a])
    }
}

/// A negative index `-k` selects what index `len - k` selects.
pub proof fn law_negative_index(items: Seq<Json>, k: i64)
    requires
        0 < k <= items.len() <= i64::MAX,
    ensures
        element_model(items, -k as i64) == element_model(items, (items.len() - k) as i64),
        element_model(items, -k as i64) == Some(items[items.len() - k]),
{
}

/// The value of a literal, or, when all results are used up, the request to
/// compute it.
pub open spec fn number_literal(env: Env, text: Seq<char>, o: int, u: int) -> Flow {
    if 0 <= u < env.tape.len() {
        Flow::Done(Json::Number(env.tape[u]), o, u + 1)
    } else {
        Flow::Compute(FloatOpModel::Literal(text))
    }
}

/// The result of a floating-point operation, or the request to compute it.
pub open spec fn float_result(env: Env, op: FloatOpModel, o: int, u: int) -> Flow {
    if 0 <= u < env.tape.len() {
        Flow::Done(Json::Number(env.tape[u]), o, u + 1)
    } else {
        Flow::Compute(op)
    }
}

/// Reads an expression from offset `o` on, binding only operators of
/// binding power above `prec`. Here and below, a test that an offset
/// returned by a recursive reading lies ahead is there to make termination
/// evident: it always holds (see `replay.rs`).
pub open spec fn expr(env: Env, o: int, u: int, prec: int) -> Flow
    decreases env.src.len() - o, 0nat
    when 0 <= o <= env.src.len()
{
    proof {
        lemma_scan_bounds(env.src, o);
    }
    match require_any(env, o) {
        Take::Got(t, o1) => match prefix(env, t, o1, u) {
            Flow::Done(left, o2, u2) => if o < o2 <= env.src.len() {
                infix_loop(env, left, prec, o2, u2)
            } else {
                Flow::Abort
            },
            r => r,
        },
        Take::Fail(e) => Flow::Fail(e),
        Take::Absent => Flow::Fail(ErrorModel::Syntax(msg_unexpected())),
    }
}

/// Applies infix operators to `left` while the next token has an infix rule
/// that binds more strongly than `prec`.
pub open spec fn infix_loop(env: Env, left: Json, prec: int, o: int, u: int) -> Flow
    decreases env.src.len() - o, 0nat
    when 0 <= o <= env.src.len()
{
    proof {
        lemma_scan_bounds(env.src, o);
    }
    match scan(env.src, o) {
        ScanModel::Found(t) => if has_infix(t.kind) && binding(t.kind) > prec {
            match advance(env, t) {
                Take::Got(_, o1) => match infix(env, t.kind, left, o1, u) {
                    Flow::Done(v, o2, u2) => if o < o2 <= env.src.len() {
                        infix_loop(env, v, prec, o2, u2)
                    } else {
                        Flow::Abort
                    },
                    r => r,
                },
                Take::Fail(e) => Flow::Fail(e),
                Take::Absent => Flow::Abort,
            }
        } else {
            Flow::Done(left, o, u)
        },
        _ => Flow::Done(left, o, u),
    }
}

/// The prefix rule of token `t`, its operands read from offset `o` on.
pub open spec fn prefix(env: Env, t: Tok, o: int, u: int) -> Flow
    decreases env.src.len() - o, 2nat
    when 0 <= o <= env.src.len()
{
    proof {
        lemma_scan_bounds(env.src, o);
    }
    let text = text_of(env, t);
    match t.kind {
        Kind::Number => number_literal(env, text, o, u),
        Kind::Not => match expr(env, o, u, UNARY as int) {
            Flow::Done(v, o2, u2) => if v matches Json::Number(n) && n.spec_zero_test_overflows() {
                Flow::Abort
            } else {
                Flow::Done(Json::Boolean(is_empty_json(v)), o2, u2)
            },
            r => r,
        },
        Kind::Minus => match expr(env, o, u, UNARY as int) {
            Flow::Done(Json::Number(n), o2, u2) => Flow::Done(Json::Number(n.spec_negate()), o2, u2),
            Flow::Done(_, _, _) => Flow::Fail(ErrorModel::Interpreter(msg_expects_number())),
            r => r,
        },
        Kind::Plus => match expr(env, o, u, UNARY as int) {
            Flow::Done(Json::Number(n), o2, u2) => Flow::Done(Json::Number(n), o2, u2),
            Flow::Done(_, _, _) => Flow::Fail(ErrorModel::Interpreter(msg_expects_number())),
            r => r,
        },
        Kind::Identifier => if env.ctx.dom().contains(text) {
            Flow::Done(env.ctx[text], o, u)
        } else {
            Flow::Fail(ErrorModel::Interpreter(msg_unknown(text)))
        },
        Kind::Null => Flow::Done(Json::Null, o, u),
        Kind::True => Flow::Done(Json::Boolean(true), o, u),
        Kind::False => Flow::Done(Json::Boolean(false), o, u),
        Kind::Str => Flow::Done(Json::Str(unquote(text)), o, u),
        Kind::LBracket => match attempt(env, o, Kind::RBracket) {
            Take::Got(_, o1) => Flow::Done(Json::Array(Seq::empty()), o1, u),
            Take::Fail(e) => Flow::Fail(e),
            Take::Absent => list_items(env, o, u, Seq::empty()),
        },
        Kind::LBrace => match attempt(env, o, Kind::RBrace) {
            Take::Got(_, o1) => Flow::Done(Json::Object(Seq::empty()), o1, u),
            Take::Fail(e) => Flow::Fail(e),
            Take::Absent => object_items(env, o, u, Seq::empty()),
        },
        Kind::LParen => match expr(env, o, u, 0) {
            Flow::Done(v, o2, u2) => match require(env, o2, Kind::RParen) {
                Take::Got(_, o3) => Flow::Done(v, o3, u2),
                Take::Fail(e) => Flow::Fail(e),
                Take::Absent => Flow::Fail(ErrorModel::Syntax(msg_unexpected())),
            },
            r => r,
        },
        _ => Flow::Fail(ErrorModel::Syntax(msg_unexpected())),
    }
}

/// The elements of an array after `[` (and the first of them), up to and
/// including the closing `]`; `acc` holds the elements read so far.
pub open spec fn list_items(env: Env, o: int, u: int, acc: Seq<Json>) -> Flow
    decreases env.src.len() - o, 1nat
    when 0 <= o <= env.src.len()
{
    match expr(env, o, u, 0) {
        Flow::Done(v, o1, u1) => match attempt(env, o1, Kind::Comma) {
            Take::Got(_, o2) => if o < o2 <= env.src.len() {
                list_items(env, o2, u1, acc.push(v))
            } else {
                Flow::Abort
            },
            Take::Fail(e) => Flow::Fail(e),
            Take::Absent => match require(env, o1, Kind::RBracket) {
                Take::Got(_, o2) => Flow::Done(Json::Array(acc.push(v)), o2, u1),
                Take::Fail(e) => Flow::Fail(e),
                Take::Absent => Flow::Fail(ErrorModel::Syntax(msg_unexpected())),
            },
        },
        r => r,
    }
}

/// The key that a key token names: an identifier's text, or a string's text
/// between its quotes.
pub open spec fn key_name(env: Env, k: Tok) -> Seq<char> {
    if k.kind == Kind::Str {
        unquote(text_of(env, k))
    } else {
        text_of(env, k)
    }
}

/// The entries of an object after `{`, up to and including the closing
/// `}`; `acc` holds the entries read so far, a later entry replacing the
/// value of an earlier one with the same key.
pub open spec fn object_items(env: Env, o: int, u: int, acc: Seq<(Seq<char>, Json)>) -> Flow
    decreases env.src.len() - o, 1nat
    when 0 <= o <= env.src.len()
{
    proof {
        lemma_scan_bounds(env.src, o);
    }
    match require_key(env, o) {
        Take::Got(k, o1) => {
            let name = key_name(env, k);
            match require(env, o1, Kind::Colon) {
                Take::Got(_, o2) => if o < o2 <= env.src.len() {
                    match expr(env, o2, u, 0) {
                        Flow::Done(v, o3, u3) => {
                            let acc2 = bind(acc, name, v);
                            match attempt(env, o3, Kind::Comma) {
                                Take::Got(_, o4) => if o < o4 <= env.src.len() {
                                    object_items(env, o4, u3, acc2)
                                } else {
                                    Flow::Abort
                                },
                                Take::Fail(e) => Flow::Fail(e),
                                Take::Absent => match require(env, o3, Kind::RBrace) {
                                    Take::Got(_, o5) => Flow::Done(Json::Object(acc2), o5, u3),
                                    Take::Fail(e) => Flow::Fail(e),
                                    Take::Absent => Flow::Fail(ErrorModel::Syntax(msg_unexpected())),
                                },
                            }
                        },
                        r => r,
                    }
                } else {
                    Flow::Abort
                },
                Take::Fail(e) => Flow::Fail(e),
                Take::Absent => Flow::Fail(ErrorModel::Syntax(msg_unexpected())),
            }
        },
        Take::Fail(e) => Flow::Fail(e),
        Take::Absent => Flow::Fail(ErrorModel::Syntax(msg_unexpected())),
    }
}

/// The infix rule of a token of kind `k` applied to `left`, its right
/// operand read from offset `o` on.
pub open spec fn infix(env: Env, k: Kind, left: Json, o: int, u: int) -> Flow
    decreases env.src.len() - o, 2nat
    when 0 <= o <= env.src.len()
{
    match k {
        Kind::Plus => match expr(env, o, u, binding(Kind::Plus)) {
            Flow::Done(right, o2, u2) => match (left, right) {
                (Json::Number(a), Json::Number(b)) => float_result(env, FloatOpModel::Add(a, b), o2, u2),
                (Json::Str(a), Json::Str(b)) => Flow::Done(Json::Str(a + b), o2, u2),
                _ => Flow::Fail(ErrorModel::Interpreter(msg_plus())),
            },
            r => r,
        },
        Kind::Times => match expr(env, o, u, binding(Kind::Times)) {
            Flow::Done(right, o2, u2) => match (left, right) {
                (Json::Number(a), Json::Number(b)) => float_result(env, FloatOpModel::Mul(a, b), o2, u2),
                _ => Flow::Fail(ErrorModel::Interpreter(msg_times())),
            },
            r => r,
        },
        Kind::Power => match expr(env, o, u, POWER_RIGHT as int) {
            Flow::Done(right, o2, u2) => match (left, right) {
                (Json::Number(a), Json::Number(b)) => float_result(env, FloatOpModel::Pow(a, b), o2, u2),
                _ => Flow::Fail(ErrorModel::Interpreter(msg_power())),
            },
            r => r,
        },
        Kind::LBracket => index_rule(env, left, o, u),
        _ => Flow::Abort,
    }
}

/// The `[` rule: an index, or an interval `a:b` with either bound left out.
pub open spec fn index_rule(env: Env, left: Json, o: int, u: int) -> Flow
    decreases env.src.len() - o, 1nat
    when 0 <= o <= env.src.len()
{
    match attempt(env, o, Kind::Colon) {
        Take::Got(_, o1) => if o < o1 <= env.src.len() {
            interval_rest(env, o1, u)
        } else {
            Flow::Abort
        },
        Take::Fail(e) => Flow::Fail(e),
        Take::Absent => match expr(env, o, u, 0) {
            Flow::Done(Json::Number(n), o1, u1) => if !n.spec_is_integral() {
                Flow::Fail(ErrorModel::Interpreter(msg_integer_index()))
            } else if n.spec_overflows_index() {
                Flow::Abort
            } else {
                match attempt(env, o1, Kind::Colon) {
                    Take::Got(_, o2) => if o < o2 <= env.src.len() {
                        interval_rest(env, o2, u1)
                    } else {
                        Flow::Abort
                    },
                    Take::Fail(e) => Flow::Fail(e),
                    Take::Absent => select(left, n.spec_index(), o1, u1),
                }
            },
            Flow::Done(_, _, _) => Flow::Fail(ErrorModel::Interpreter(msg_left_part())),
            r => r,
        },
    }
}

/// The rest of an interval after its `:`; intervals are not implemented.
pub open spec fn interval_rest(env: Env, o: int, u: int) -> Flow
    decreases env.src.len() - o, 1nat
    when 0 <= o <= env.src.len()
{
    match attempt(env, o, Kind::RBracket) {
        Take::Got(_, _) => Flow::Abort,
        Take::Fail(e) => Flow::Fail(e),
        Take::Absent => match expr(env, o, u, 0) {
            Flow::Done(Json::Number(n), o2, _) => if !n.spec_is_integral() {
                Flow::Fail(ErrorModel::Interpreter(msg_integer_interval()))
            } else if n.spec_overflows_index() {
                Flow::Abort
            } else {
                match require(env, o2, Kind::RBracket) {
                    Take::Fail(e) => Flow::Fail(e),
                    _ => Flow::Abort,
                }
            },
            Flow::Done(_, _, _) => Flow::Fail(ErrorModel::Interpreter(msg_right_part())),
            r => r,
        },
    }
}

/// Indexing: only arrays are implemented.
pub open spec fn select(left: Json, index: i64, o: int, u: int) -> Flow {
    match left {
        Json::Array(items) => match element_model(items, index) {
            Some(v) => Flow::Done(v, o, u),
            None => Flow::Fail(ErrorModel::Interpreter(msg_out_of_bounds())),
        },
        _ => Flow::Abort,
    }
}

/// Evaluation of a whole source text: the first token is scanned, then an
/// expression is read. What follows the expression is not read.
pub open spec fn evaluate(src: Seq<char>, ctx: Map<Seq<char>, Json>, tape: Seq<Num>) -> StepModel {
    let env = Env { src, ctx, tape };
    let flow = match scan(src, 0) {
        ScanModel::Unmatched(p) => Flow::Fail(ErrorModel::Syntax(msg_unmatched(src, p))),
        _ => expr(env, 0, 0, 0),
    };
    finish(flow)
}

/// What the outcome of reading the whole expression comes to.
pub open spec fn finish(flow: Flow) -> StepModel {
    match flow {
        Flow::Done(v, _, _) => StepModel::Finished(Ok(v)),
        Flow::Fail(e) => StepModel::Finished(Err(e)),
        Flow::Compute(op) => StepModel::Compute(op),
        Flow::Abort => StepModel::Abort,
    }
}

} // verus!

verus! {

/// The outcome of reading part of an expression (see `Flow`).
enum Eval {
    Done(Value, usize, usize),
    Fail(Error),
    Compute(FloatOp),
    Abort,
}

impl View for Eval {
    type V = Flow;

    closed spec fn view(&self) -> Flow {
        match self {
            Eval::Done(v, o, u) => Flow::Done(v@, *o as int, *u as int),
            Eval::Fail(e) => Flow::Fail(e@),
            Eval::Compute(op) => Flow::Compute(op@),
            Eval::Abort => Flow::Abort,
        }
    }
}

/// The outcome of taking a token (see `Take`).
enum Taken {
    Got(Token, usize),
    Absent,
    Fail(Error),
}

impl View for Taken {
    type V = Take;

    closed spec fn view(&self) -> Take {
        match self {
            Taken::Got(t, o) => Take::Got(t@, *o as int),
            Taken::Absent => Take::Absent,
            Taken::Fail(e) => Take::Fail(e@),
        }
    }
}

fn unexpected() -> (r: Error)
    ensures
        r@ == ErrorModel::Syntax(msg_unexpected()),
{
    Error::SyntaxError(String::from_str("Unexpected token error"))
}

fn interpreter_error(msg: &str) -> (r: Error)
    ensures
        r@ == ErrorModel::Interpreter(msg@),
{
    Error::InterpreterError(String::from_str(msg))
}

/// The element of `items` at `index`, a negative index counting from the
/// end; an error where there is no such element.
pub fn element_at(items: &Vec<Value>, index: i64) -> (r: Result<Value, Error>)
    ensures
        match r {
            Ok(v) => element_model(crate::value::jsons_of(items@), index) == Some(v@),
            Err(e) => element_model(crate::value::jsons_of(items@), index) is None && e@
                == ErrorModel::Interpreter(msg_out_of_bounds()),
        },
{
    proof {
        crate::value::lemma_jsons_len_index(items@);
    }
    let len = items.len() as i128;
    let a: i128 = if index < 0 {
        index as i128 + len
    } else {
        index as i128
    };
    if a >= len || a < 0 {
        Err(interpreter_error("index out of bounds"))
    } else {
        Ok(crate::value::copy_value(&items[a as usize]))
    }
}

/// The value of a string token, or of any text of two or more characters
/// whose first and last characters take one byte: the text between them.
pub fn parse_string(string: &str) -> (r: Result<Value, Error>)
    requires
        string@.len() >= 2,
        string@[0] < '\u{80}',
        string@[string@.len() - 1] < '\u{80}',
    ensures
        r matches Ok(v) && v@ == Json::Str(unquote(string@)),
{
    let n = string.unicode_len();
    Ok(Value::Str(String::from_str(string.substring_char(1, n - 1))))
}

/// Whether `!` gives true for a value: it is null, false, zero, or empty.
pub fn is_empty_value(v: &Value) -> (r: bool)
    ensures
        r == is_empty_json(v@),
        v@ is Null ==> r,
        v@ matches Json::Boolean(b) ==> r == !b,
        v@ matches Json::Str(s) ==> r == (s.len() == 0),
        v@ matches Json::Short(s) ==> r == (s.len() == 0),
        v@ matches Json::Array(a) ==> r == (a.len() == 0),
        v@ matches Json::Object(o) ==> r == (o.len() == 0),
        v@ matches Json::Number(n) ==> r == n.spec_is_zero(),
{
    proof {
        match v {
            Value::Array(items) => crate::value::lemma_jsons_len_index(items@),
            Value::Object(entries) => crate::value::lemma_entries_len_index(entries@),
            _ => {},
        }
    }
    match v {
        Value::Null => true,
        Value::Boolean(b) => !*b,
        Value::Number(n) => n.is_zero(),
        Value::Short(s) => s.as_str().unicode_len() == 0,
        Value::Str(s) => s.as_str().unicode_len() == 0,
        Value::Array(a) => a.len() == 0,
        Value::Object(o) => o.len() == 0,
    }
}

fn binding_power(k: Kind) -> (r: u8)
    ensures
        r as int == binding(k),
{
    match k {
        Kind::Or => 1,
        Kind::And => 2,
        Kind::In => 3,
        Kind::Equal | Kind::NotEqual => 4,
        Kind::GreaterEq | Kind::LessEq | Kind::Less | Kind::Greater => 5,
        Kind::Plus | Kind::Minus => 6,
        Kind::Times | Kind::Divide => 7,
        Kind::Power => 9,
        Kind::LBracket | Kind::Dot => 10,
        Kind::LParen => 11,
        _ => 0,
    }
}

fn infix_rule_exists(k: Kind) -> (r: bool)
    ensures
        r == has_infix(k),
{
    k == Kind::Plus || k == Kind::Times || k == Kind::Power || k == Kind::LBracket
}

/// The state of one evaluation: the source text (also as characters), the
/// context, and the floating-point results supplied so far.
struct Parser<'a> {
    source: &'a str,
    chars: Vec<char>,
    context: &'a Context,
    answers: &'a Vec<Num>,
}

impl<'a> Parser<'a> {
    spec fn env(&self) -> Env {
        Env { src: self.chars@, ctx: self.context@, tape: self.answers@ }
    }

    spec fn wf(&self) -> bool {
        &&& self.chars@ == self.source@
        &&& self.chars.len() < usize::MAX
    }

    fn text(&self, t: Token) -> (r: &str)
        requires
            self.wf(),
            t.start <= t.end <= self.chars.len(),
        ensures
            r@ == text_of(self.env(), t@),
    {
        self.source.substring_char(t.start, t.end)
    }

    fn unmatched(&self, p: usize) -> (r: Error)
        requires
            self.wf(),
            p <= self.chars.len(),
        ensures
            r@ == ErrorModel::Syntax(msg_unmatched(self.env().src, p as int)),
    {
        let rest = self.source.substring_char(p, self.chars.len());
        let m = String::from_str("unexpected EOF for ").concat(self.source).concat(" at ").concat(
            rest,
        );
        Error::SyntaxError(m)
    }

    fn scan(&self, o: usize) -> (r: Scan)
        requires
            self.wf(),
            o <= self.chars.len(),
        ensures
            r@ == scan(self.env().src, o as int),
            r matches Scan::Found(t) ==> o <= t.start < t.end <= self.chars.len(),
            r matches Scan::Unmatched(p) ==> o <= p < self.chars.len(),
            r matches Scan::Found(t) ==> (t.kind == Kind::Str ==> string_token(self.env().src, t@)),
    {
        proof {
            lemma_scan_bounds(self.chars@, o as int);
        }
        next_token(&self.chars, o)
    }

    fn advance(&self, t: Token) -> (r: Taken)
        requires
            self.wf(),
            t.end <= self.chars.len(),
        ensures
            r@ == advance(self.env(), t@),
            r matches Taken::Got(_, o) ==> o == t.end,
    {
        match self.scan(t.end) {
            Scan::Unmatched(p) => Taken::Fail(self.unmatched(p)),
            _ => Taken::Got(t, t.end),
        }
    }

    fn attempt(&self, o: usize, k: Kind) -> (r: Taken)
        requires
            self.wf(),
            o <= self.chars.len(),
        ensures
            r@ == attempt(self.env(), o as int, k),
            r matches Taken::Got(_, o2) ==> o < o2 <= self.chars.len(),
    {
        match self.scan(o) {
            Scan::Found(t) => if t.kind == k {
                self.advance(t)
            } else {
                Taken::Absent
            },
            _ => Taken::Absent,
        }
    }

    fn require(&self, o: usize, k: Kind) -> (r: Taken)
        requires
            self.wf(),
            o <= self.chars.len(),
        ensures
            r@ == require(self.env(), o as int, k),
            r matches Taken::Got(_, o2) ==> o < o2 <= self.chars.len(),
    {
        match self.attempt(o, k) {
            Taken::Absent => Taken::Fail(unexpected()),
            r => r,
        }
    }

    fn require_any(&self, o: usize) -> (r: Taken)
        requires
            self.wf(),
            o <= self.chars.len(),
        ensures
            r@ == require_any(self.env(), o as int),
            r matches Taken::Got(t, o2) ==> o <= t.start < t.end == o2 <= self.chars.len(),
            r matches Taken::Got(t, _) ==> (t.kind == Kind::Str ==> string_token(self.env().src, t@)),
    {
        match self.scan(o) {
            Scan::Found(t) => self.advance(t),
            _ => Taken::Fail(unexpected()),
        }
    }

    fn require_key(&self, o: usize) -> (r: Taken)
        requires
            self.wf(),
            o <= self.chars.len(),
        ensures
            r@ == require_key(self.env(), o as int),
            r matches Taken::Got(t, o2) ==> o <= t.start < t.end == o2 <= self.chars.len(),
            r matches Taken::Got(t, _) ==> (t.kind == Kind::Str ==> string_token(self.env().src, t@)),
    {
        match self.scan(o) {
            Scan::Found(t) => if t.kind == Kind::Identifier || t.kind == Kind::Str {
                self.advance(t)
            } else {
                Taken::Fail(unexpected())
            },
            _ => Taken::Fail(unexpected()),
        }
    }

    fn float_result(&self, op: FloatOp, o: usize, u: usize) -> (r: Eval)
        ensures
            r@ == float_result(self.env(), op@, o as int, u as int),
            r matches Eval::Done(_, o2, u2) ==> o2 == o && u2 == u + 1,
    {
        if u < self.answers.len() {
            Eval::Done(Value::Number(self.answers[u]), o, u + 1)
        } else {
            Eval::Compute(op)
        }
    }

    /// Reads an expression (see `expr`).
    fn parse(&self, o: usize, u: usize, prec: u8) -> (r: Eval)
        requires
            self.wf(),
            o <= self.chars.len(),
        ensures
            r@ == expr(self.env(), o as int, u as int, prec as int),
            r matches Eval::Done(_, o2, _) ==> o < o2 <= self.chars.len(),
        decreases self.chars.len() - o, 0nat,
    {
        proof {
            lemma_scan_bounds(self.chars@, o as int);
        }
        match self.require_any(o) {
            Taken::Got(t, o1) => match self.prefix(t, o1, u) {
                Eval::Done(left, o2, u2) => self.infix_loop(left, prec, o2, u2),
                r => r,
            },
            Taken::Fail(e) => Eval::Fail(e),
            Taken::Absent => Eval::Fail(unexpected()),
        }
    }

    fn infix_loop(&self, left: Value, prec: u8, o: usize, u: usize) -> (r: Eval)
        requires
            self.wf(),
            o <= self.chars.len(),
        ensures
            r@ == infix_loop(self.env(), left@, prec as int, o as int, u as int),
            r matches Eval::Done(_, o2, _) ==> o <= o2 <= self.chars.len(),
        decreases self.chars.len() - o, 0nat,
    {
        match self.scan(o) {
            Scan::Found(t) => if infix_rule_exists(t.kind) && binding_power(t.kind) > prec {
                match self.advance(t) {
                    Taken::Got(_, o1) => match self.infix(t.kind, left, o1, u) {
                        Eval::Done(v, o2, u2) => self.infix_loop(v, prec, o2, u2),
                        r => r,
                    },
                    Taken::Fail(e) => Eval::Fail(e),
                    Taken::Absent => Eval::Abort,
                }
            } else {
                Eval::Done(left, o, u)
            },
            _ => Eval::Done(left, o, u),
        }
    }

    fn prefix(&self, t: Token, o: usize, u: usize) -> (r: Eval)
        requires
            self.wf(),
            t.start <= t.end <= o <= self.chars.len(),
            t.kind == Kind::Str ==> string_token(self.env().src, t@),
        ensures
            r@ == prefix(self.env(), t@, o as int, u as int),
            r matches Eval::Done(_, o2, _) ==> o <= o2 <= self.chars.len(),
        decreases self.chars.len() - o, 2nat,
    {
        match t.kind {
            Kind::Number => {
                if u < self.answers.len() {
                    Eval::Done(Value::Number(self.answers[u]), o, u + 1)
                } else {
                    Eval::Compute(FloatOp::Literal(String::from_str(self.text(t))))
                }
            },
            Kind::Not => match self.parse(o, u, UNARY) {
                Eval::Done(v, o2, u2) => {
                    let overflows = match &v {
                        Value::Number(n) => !n.nan && n.positive && n.mantissa != 0 && n.exponent
                            == i16::MIN,
                        _ => false,
                    };
                    if overflows {
                        Eval::Abort
                    } else {
                        Eval::Done(Value::Boolean(is_empty_value(&v)), o2, u2)
                    }
                },
                r => r,
            },
            Kind::Minus => match self.parse(o, u, UNARY) {
                Eval::Done(Value::Number(n), o2, u2) => Eval::Done(Value::Number(n.negate()), o2, u2),
                Eval::Done(_, _, _) => Eval::Fail(interpreter_error("This operator expects a number")),
                r => r,
            },
            Kind::Plus => match self.parse(o, u, UNARY) {
                Eval::Done(Value::Number(n), o2, u2) => Eval::Done(Value::Number(n), o2, u2),
                Eval::Done(_, _, _) => Eval::Fail(interpreter_error("This operator expects a number")),
                r => r,
            },
            Kind::Identifier => {
                let name = self.text(t);
                match self.context.get(name) {
                    Some(v) => Eval::Done(v, o, u),
                    None => {
                        let m = String::from_str("unknown context value ").concat(name);
                        Eval::Fail(Error::InterpreterError(m))
                    },
                }
            },
            Kind::Null => Eval::Done(Value::Null, o, u),
            Kind::True => Eval::Done(Value::Boolean(true), o, u),
            Kind::False => Eval::Done(Value::Boolean(false), o, u),
            Kind::Str => {
                match parse_string(self.text(t)) {
                    Ok(v) => Eval::Done(v, o, u),
                    Err(e) => Eval::Fail(e),
                }
            },
            Kind::LBracket => match self.attempt(o, Kind::RBracket) {
                Taken::Got(_, o1) => Eval::Done(Value::Array(Vec::new()), o1, u),
                Taken::Fail(e) => Eval::Fail(e),
                Taken::Absent => self.parse_list(o, u, Vec::new()),
            },
            Kind::LBrace => match self.attempt(o, Kind::RBrace) {
                Taken::Got(_, o1) => Eval::Done(Value::Object(Vec::new()), o1, u),
                Taken::Fail(e) => Eval::Fail(e),
                Taken::Absent => self.parse_object(o, u, Vec::new()),
            },
            Kind::LParen => match self.parse(o, u, 0) {
                Eval::Done(v, o2, u2) => match self.require(o2, Kind::RParen) {
                    Taken::Got(_, o3) => Eval::Done(v, o3, u2),
                    Taken::Fail(e) => Eval::Fail(e),
                    Taken::Absent => Eval::Fail(unexpected()),
                },
                r => r,
            },
            _ => Eval::Fail(unexpected()),
        }
    }

    /// The elements of an array (see `list_items`).
    fn parse_list(&self, o: usize, u: usize, acc: Vec<Value>) -> (r: Eval)
        requires
            self.wf(),
            o <= self.chars.len(),
        ensures
            r@ == list_items(self.env(), o as int, u as int, crate::value::jsons_of(acc@)),
            r matches Eval::Done(_, o2, _) ==> o < o2 <= self.chars.len(),
        decreases self.chars.len() - o, 1nat,
    {
        match self.parse(o, u, 0) {
            Eval::Done(v, o1, u1) => {
                proof {
                    crate::value::lemma_jsons_push(acc@, v);
                }
                let mut acc = acc;
                match self.attempt(o1, Kind::Comma) {
                    Taken::Got(_, o2) => {
                        acc.push(v);
                        self.parse_list(o2, u1, acc)
                    },
                    Taken::Fail(e) => Eval::Fail(e),
                    Taken::Absent => match self.require(o1, Kind::RBracket) {
                        Taken::Got(_, o2) => {
                            acc.push(v);
                            Eval::Done(Value::Array(acc), o2, u1)
                        },
                        Taken::Fail(e) => Eval::Fail(e),
                        Taken::Absent => Eval::Fail(unexpected()),
                    },
                }
            },
            r => r,
        }
    }

    /// The entries of an object (see `object_items`).
    fn parse_object(&self, o: usize, u: usize, acc: Vec<(String, Value)>) -> (r: Eval)
        requires
            self.wf(),
            o <= self.chars.len(),
        ensures
            r@ == object_items(self.env(), o as int, u as int, crate::value::entries_of(acc@)),
            r matches Eval::Done(_, o2, _) ==> o < o2 <= self.chars.len(),
        decreases self.chars.len() - o, 1nat,
    {
        proof {
            lemma_scan_bounds(self.chars@, o as int);
        }
        match self.require_key(o) {
            Taken::Got(k, o1) => {
                let text = self.text(k);
                let name = if k.kind == Kind::Str {
                    let n = text.unicode_len();
                    String::from_str(text.substring_char(1, n - 1))
                } else {
                    String::from_str(text)
                };
                match self.require(o1, Kind::Colon) {
                    Taken::Got(_, o2) => match self.parse(o2, u, 0) {
                        Eval::Done(v, o3, u3) => {
                            let mut acc = acc;
                            crate::context::bind_entry(&mut acc, name, v);
                            match self.attempt(o3, Kind::Comma) {
                                Taken::Got(_, o4) => self.parse_object(o4, u3, acc),
                                Taken::Fail(e) => Eval::Fail(e),
                                Taken::Absent => match self.require(o3, Kind::RBrace) {
                                    Taken::Got(_, o5) => Eval::Done(Value::Object(acc), o5, u3),
                                    Taken::Fail(e) => Eval::Fail(e),
                                    Taken::Absent => Eval::Fail(unexpected()),
                                },
                            }
                        },
                        r => r,
                    },
                    Taken::Fail(e) => Eval::Fail(e),
                    Taken::Absent => Eval::Fail(unexpected()),
                }
            },
            Taken::Fail(e) => Eval::Fail(e),
            Taken::Absent => Eval::Fail(unexpected()),
        }
    }

    fn infix(&self, k: Kind, left: Value, o: usize, u: usize) -> (r: Eval)
        requires
            self.wf(),
            o <= self.chars.len(),
        ensures
            r@ == infix(self.env(), k, left@, o as int, u as int),
            r matches Eval::Done(_, o2, _) ==> o <= o2 <= self.chars.len(),
        decreases self.chars.len() - o, 2nat,
    {
        match k {
            Kind::Plus => match self.parse(o, u, binding_power(Kind::Plus)) {
                Eval::Done(right, o2, u2) => match (left, right) {
                    (Value::Number(a), Value::Number(b)) => self.float_result(FloatOp::Add(a, b), o2, u2),
                    (Value::Str(a), Value::Str(b)) => Eval::Done(Value::Str(a.concat(b.as_str())), o2, u2),
                    _ => Eval::Fail(interpreter_error("infix: +', 'number/string + number/string")),
                },
                r => r,
            },
            Kind::Times => match self.parse(o, u, binding_power(Kind::Times)) {
                Eval::Done(right, o2, u2) => match (left, right) {
                    (Value::Number(a), Value::Number(b)) => self.float_result(FloatOp::Mul(a, b), o2, u2),
                    _ => Eval::Fail(interpreter_error("infix: *', 'number + number")),
                },
                r => r,
            },
            Kind::Power => match self.parse(o, u, POWER_RIGHT) {
                Eval::Done(right, o2, u2) => match (left, right) {
                    (Value::Number(a), Value::Number(b)) => self.float_result(FloatOp::Pow(a, b), o2, u2),
                    _ => Eval::Fail(interpreter_error("infix: **', 'number + number")),
                },
                r => r,
            },
            Kind::LBracket => self.index_rule(left, o, u),
            _ => Eval::Abort,
        }
    }

    /// The `[` rule (see `index_rule`).
    fn index_rule(&self, left: Value, o: usize, u: usize) -> (r: Eval)
        requires
            self.wf(),
            o <= self.chars.len(),
        ensures
            r@ == index_rule(self.env(), left@, o as int, u as int),
            r matches Eval::Done(_, o2, _) ==> o <= o2 <= self.chars.len(),
        decreases self.chars.len() - o, 1nat,
    {
        match self.attempt(o, Kind::Colon) {
            Taken::Got(_, o1) => self.interval_rest(o1, u),
            Taken::Fail(e) => Eval::Fail(e),
            Taken::Absent => match self.parse(o, u, 0) {
                Eval::Done(Value::Number(n), o1, u1) => if n.nan || n.exponent < 0 {
                    Eval::Fail(interpreter_error("should only use integers to access arrays or strings"))
                } else if !n.positive && n.mantissa == 0x8000_0000_0000_0000 {
                    Eval::Abort
                } else {
                    let a = n.as_index();
                    match self.attempt(o1, Kind::Colon) {
                        Taken::Got(_, o2) => self.interval_rest(o2, u1),
                        Taken::Fail(e) => Eval::Fail(e),
                        Taken::Absent => match left {
                            Value::Array(items) => match element_at(&items, a) {
                                Ok(v) => Eval::Done(v, o1, u1),
                                Err(e) => Eval::Fail(e),
                            },
                            _ => Eval::Abort,
                        },
                    }
                },
                Eval::Done(_, _, _) => Eval::Fail(interpreter_error("left part of slice operator is not a number")),
                r => r,
            },
        }
    }

    fn interval_rest(&self, o: usize, u: usize) -> (r: Eval)
        requires
            self.wf(),
            o <= self.chars.len(),
        ensures
            r@ == interval_rest(self.env(), o as int, u as int),
            r matches Eval::Done(_, o2, _) ==> o <= o2 <= self.chars.len(),
        decreases self.chars.len() - o, 1nat,
    {
        match self.attempt(o, Kind::RBracket) {
            Taken::Got(_, _) => Eval::Abort,
            Taken::Fail(e) => Eval::Fail(e),
            Taken::Absent => match self.parse(o, u, 0) {
                Eval::Done(Value::Number(n), o2, _) => if n.nan || n.exponent < 0 {
                    Eval::Fail(interpreter_error("cannot perform interval access with non-integers"))
                } else if !n.positive && n.mantissa == 0x8000_0000_0000_0000 {
                    Eval::Abort
                } else {
                    match self.require(o2, Kind::RBracket) {
                        Taken::Fail(e) => Eval::Fail(e),
                        _ => Eval::Abort,
                    }
                },
                Eval::Done(_, _, _) => Eval::Fail(interpreter_error("right part of slice operator is not a number")),
                r => r,
            },
        }
    }
}

} // verus!

verus! {

/// The interpreter of the expression language: its grammar, operators and
/// precedence table are fixed.
pub struct Interpreter {}

/// Builds the interpreter.
pub fn create_interpreter() -> (r: Result<Interpreter, Error>)
    ensures
        r == Ok::<Interpreter, Error>(Interpreter {}),
{
    Ok(Interpreter {})
}

impl Interpreter {
    pub fn new() -> (r: Interpreter)
        ensures
            r == (Interpreter {}),
    {
        Interpreter {}
    }

    /// Evaluates `source` with the given context, the floating-point
    /// computations asked for so far answered by `answers`, in order.
    /// Starting from no answers, a caller performs each computation that
    /// comes back as `Step::Compute`, appends its result to the answers and
    /// evaluates again, until a value or an error comes back.
    pub fn parse(&self, source: &str, context: &Context, answers: &Vec<Num>) -> (r: Step)
        requires
            source@.len() < usize::MAX,
        ensures
            r@ == evaluate(source@, context@, answers@),
    {
        let n = source.unicode_len();
        let mut chars: Vec<char> = Vec::new();
        let mut i: usize = 0;
        while i < n
            invariant
                n == source@.len(),
                i <= n,
                chars@ == source@.subrange(0, i as int),
            decreases n - i,
        {
            chars.push(source.get_char(i));
            i = i + 1;
        }
        assert(chars@ =~= source@);
        let p = Parser { source, chars, context, answers };
        let flow = match p.scan(0) {
            Scan::Unmatched(q) => Eval::Fail(p.unmatched(q)),
            _ => p.parse(0, 0, 0),
        };
        match flow {
            Eval::Done(v, _, _) => Step::Finished(Ok(v)),
            Eval::Fail(e) => Step::Finished(Err(e)),
            Eval::Compute(op) => Step::Compute(op),
            Eval::Abort => Step::Abort,
        }
    }
}

} // verus!
