use vstd::prelude::*;

use crate::interpreter::{
    Env, Flow, Take, POWER_RIGHT, UNARY, advance, attempt, binding, evaluate, expr, has_infix, index_rule,
    infix, infix_loop, interval_rest, list_items, object_items, prefix, require, require_any, require_key,
    key_name,
};
use crate::tokenizer::{Kind, ScanModel, Tok, scan, lemma_scan_bounds};
use crate::value::{Json, Num};

verus! {

/// `e2` is `e` with more floating-point results supplied after the ones `e`
/// has.
pub open spec fn extends(e: Env, e2: Env) -> bool {
    &&& e2.src == e.src
    &&& e2.ctx == e.ctx
    &&& e.tape.len() <= e2.tape.len()
    &&& forall|i: int| 0 <= i < e.tape.len() ==> #[trigger] e2.tape[i] == e.tape[i]
}

/// What reading part of an expression from offset `o` with `u` results
/// used promises: a value ends further on and uses at most one result per
/// character read (plus `credit`, for a token read just before `o`); a
/// request for a computation comes only once the results run out within
/// that budget; and, where no computation is requested, more results change
/// nothing.
pub open spec fn replays(f: Flow, f2: Flow, e: Env, o: int, u: int, credit: int) -> bool {
    &&& f matches Flow::Done(_, o2, u2) ==> o <= o2 <= e.src.len() && u <= u2 && u2 - u <= o2 - o + credit
    &&& f is Compute ==> e.tape.len() <= u + (e.src.len() - o) + credit
    &&& !(f is Compute) ==> f2 == f
}

proof fn lemma_expr(e: Env, e2: Env, o: int, u: int, prec: int)
    requires
        0 <= o <= e.src.len(),
        0 <= u,
        extends(e, e2),
    ensures
        replays(expr(e, o, u, prec), expr(e2, o, u, prec), e, o, u, 0),
        expr(e, o, u, prec) matches Flow::Done(_, o2, _) ==> o < o2,
    decreases e.src.len() - o, 0nat,
{
    lemma_scan_bounds(e.src, o);
    match require_any(e, o) {
        Take::Got(t, o1) => {
            lemma_prefix(e, e2, t, o1, u);
            match prefix(e, t, o1, u) {
                Flow::Done(left, o2, u2) => {
                    lemma_infix_loop(e, e2, left, prec, o2, u2);
                },
                _ => {},
            }
        },
        _ => {},
    }
}

proof fn lemma_infix_loop(e: Env, e2: Env, left: Json, prec: int, o: int, u: int)
    requires
        0 <= o <= e.src.len(),
        0 <= u,
        extends(e, e2),
    ensures
        replays(infix_loop(e, left, prec, o, u), infix_loop(e2, left, prec, o, u), e, o, u, 0),
    decreases e.src.len() - o, 0nat,
{
    lemma_scan_bounds(e.src, o);
    match scan(e.src, o) {
        ScanModel::Found(t) => if has_infix(t.kind) && binding(t.kind) > prec {
            lemma_scan_bounds(e.src, t.end);
            match advance(e, t) {
                Take::Got(_, o1) => {
                    lemma_infix(e, e2, t.kind, left, o1, u);
                    match infix(e, t.kind, left, o1, u) {
                        Flow::Done(v, o2, u2) => {
                            lemma_infix_loop(e, e2, v, prec, o2, u2);
                        },
                        _ => {},
                    }
                },
                _ => {},
            }
        },
        _ => {},
    }
}

proof fn lemma_prefix(e: Env, e2: Env, t: Tok, o: int, u: int)
    requires
        0 <= o <= e.src.len(),
        0 <= u,
        extends(e, e2),
    ensures
        replays(prefix(e, t, o, u), prefix(e2, t, o, u), e, o, u, 1),
    decreases e.src.len() - o, 2nat,
{
    lemma_scan_bounds(e.src, o);
    match t.kind {
        Kind::Not | Kind::Minus | Kind::Plus => {
            lemma_expr(e, e2, o, u, UNARY as int);
        },
        Kind::LBracket => {
            if attempt(e, o, Kind::RBracket) is Absent {
                lemma_list_items(e, e2, o, u, Seq::empty());
            }
        },
        Kind::LBrace => {
            if attempt(e, o, Kind::RBrace) is Absent {
                lemma_object_items(e, e2, o, u, Seq::empty());
            }
        },
        Kind::LParen => {
            lemma_expr(e, e2, o, u, 0);
            match expr(e, o, u, 0) {
                Flow::Done(v, o2, u2) => {
                    lemma_scan_bounds(e.src, o2);
                },
                _ => {},
            }
        },
        _ => {},
    }
}

pub(crate) proof fn lemma_list_items(e: Env, e2: Env, o: int, u: int, acc: Seq<Json>)
    requires
        0 <= o <= e.src.len(),
        0 <= u,
        extends(e, e2),
    ensures
        replays(list_items(e, o, u, acc), list_items(e2, o, u, acc), e, o, u, 0),
    decreases e.src.len() - o, 1nat,
{
    lemma_expr(e, e2, o, u, 0);
    match expr(e, o, u, 0) {
        Flow::Done(v, o1, u1) => {
            lemma_scan_bounds(e.src, o1);
            match attempt(e, o1, Kind::Comma) {
                Take::Got(_, o2) => {
                    lemma_list_items(e, e2, o2, u1, acc.push(v));
                },
                _ => {},
            }
        },
        _ => {},
    }
}

pub(crate) proof fn lemma_object_items(e: Env, e2: Env, o: int, u: int, acc: Seq<(Seq<char>, Json)>)
    requires
        0 <= o <= e.src.len(),
        0 <= u,
        extends(e, e2),
    ensures
        replays(object_items(e, o, u, acc), object_items(e2, o, u, acc), e, o, u, 0),
    decreases e.src.len() - o, 1nat,
{
    lemma_scan_bounds(e.src, o);
    match require_key(e, o) {
        Take::Got(k, o1) => {
            lemma_scan_bounds(e.src, o1);
            match require(e, o1, Kind::Colon) {
                Take::Got(_, o2) => {
                    lemma_expr(e, e2, o2, u, 0);
                    match expr(e, o2, u, 0) {
                        Flow::Done(v, o3, u3) => {
                            lemma_scan_bounds(e.src, o3);
                            let acc2 = crate::context::bind(acc, key_name(e, k), v);
                            match attempt(e, o3, Kind::Comma) {
                                Take::Got(_, o4) => {
                                    lemma_object_items(e, e2, o4, u3, acc2);
                                },
                                _ => {},
                            }
                        },
                        _ => {},
                    }
                },
                _ => {},
            }
        },
        _ => {},
    }
}

pub(crate) proof fn lemma_infix(e: Env, e2: Env, k: Kind, left: Json, o: int, u: int)
    requires
        0 <= o <= e.src.len(),
        0 <= u,
        extends(e, e2),
    ensures
        replays(infix(e, k, left, o, u), infix(e2, k, left, o, u), e, o, u, 1),
    decreases e.src.len() - o, 2nat,
{
    match k {
        Kind::Plus => lemma_expr(e, e2, o, u, binding(Kind::Plus)),
        Kind::Times => lemma_expr(e, e2, o, u, binding(Kind::Times)),
        Kind::Power => lemma_expr(e, e2, o, u, POWER_RIGHT as int),
        Kind::LBracket => lemma_index_rule(e, e2, left, o, u),
        _ => {},
    }
}

proof fn lemma_index_rule(e: Env, e2: Env, left: Json, o: int, u: int)
    requires
        0 <= o <= e.src.len(),
        0 <= u,
        extends(e, e2),
    ensures
        replays(index_rule(e, left, o, u), index_rule(e2, left, o, u), e, o, u, 0),
    decreases e.src.len() - o, 1nat,
{
    lemma_scan_bounds(e.src, o);
    match attempt(e, o, Kind::Colon) {
        Take::Got(_, o1) => {
            lemma_interval_rest(e, e2, o1, u);
        },
        Take::Absent => {
            lemma_expr(e, e2, o, u, 0);
            match expr(e, o, u, 0) {
                Flow::Done(Json::Number(n), o1, u1) => {
                    lemma_scan_bounds(e.src, o1);
                    match attempt(e, o1, Kind::Colon) {
                        Take::Got(_, o2) => {
                            lemma_interval_rest(e, e2, o2, u1);
                        },
                        _ => {},
                    }
                },
                _ => {},
            }
        },
        _ => {},
    }
}

proof fn lemma_interval_rest(e: Env, e2: Env, o: int, u: int)
    requires
        0 <= o <= e.src.len(),
        0 <= u,
        extends(e, e2),
    ensures
        replays(interval_rest(e, o, u), interval_rest(e2, o, u), e, o, u, 0),
        !(interval_rest(e, o, u) is Done),
    decreases e.src.len() - o, 1nat,
{
    lemma_scan_bounds(e.src, o);
    if attempt(e, o, Kind::RBracket) is Absent {
        lemma_expr(e, e2, o, u, 0);
    }
}

/// Once evaluation comes to a value, an error or an abort, supplying more
/// floating-point results than it asked for changes nothing: a caller that
/// answers each request in turn reaches the same outcome whatever it
/// supplies after the last request.
pub proof fn law_extra_results_ignored(src: Seq<char>, ctx: Map<Seq<char>, Json>, tape: Seq<Num>, more: Seq<Num>)
    requires
        !(evaluate(src, ctx, tape) is Compute),
    ensures
        evaluate(src, ctx, tape + more) == evaluate(src, ctx, tape),
{
    let e = Env { src, ctx, tape };
    let e2 = Env { src, ctx, tape: tape + more };
    lemma_scan_bounds(src, 0);
    lemma_expr(e, e2, 0, 0, 0);
}

/// Reading an expression consumes at least one token: a value ends further
/// on, within the source. So the tests in the specification that an offset
/// returned by a recursive reading lies ahead always hold.
pub proof fn law_expr_advances(env: Env, o: int, u: int, prec: int)
    requires
        0 <= o <= env.src.len(),
        0 <= u,
    ensures
        expr(env, o, u, prec) matches Flow::Done(_, o2, u2) ==> o < o2 <= env.src.len() && u <= u2,
{
    lemma_expr(env, env, o, u, prec);
}

/// Evaluation asks for a floating-point computation only while fewer results
/// have been supplied than the source text has characters: a caller that
/// answers each request in turn is done after at most that many rounds.
pub proof fn law_requests_bounded(src: Seq<char>, ctx: Map<Seq<char>, Json>, tape: Seq<Num>)
    requires
        evaluate(src, ctx, tape) is Compute,
    ensures
        tape.len() <= src.len(),
{
    let e = Env { src, ctx, tape };
    lemma_scan_bounds(src, 0);
    lemma_expr(e, e, 0, 0, 0);
}

} // verus!
