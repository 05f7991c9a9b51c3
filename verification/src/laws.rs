use vstd::prelude::*;

use crate::context::{bind, law_bind_lookup, lookup};
use crate::error::ErrorModel;
use crate::interpreter::{
    Env, FloatOpModel, Flow, Take, POWER_RIGHT, UNARY, advance, attempt, binding, element_model, evaluate, expr,
    finish, has_infix, index_rule, infix, infix_loop, key_name, list_items, prefix,
    msg_out_of_bounds, msg_unexpected, object_items, require, require_key, StepModel, text_of,
    unquote,
};
use crate::replay::{law_expr_advances, lemma_infix, lemma_list_items, lemma_object_items};
use crate::tokenizer::{
    Kind, ScanModel, scan, lemma_scan_bounds, lemma_word_end_chars, lemma_digits_end_chars,
    lemma_quote_end_chars, lemma_quote_end, skip_space,
};
use crate::value::{Json, Num};

verus! {

/// Indexing: an index `i` of an array of `n` elements selects element `i`
/// when `0 <= i < n`, element `n + i` when `-n <= i < 0`, and nothing
/// otherwise.
pub proof fn law_element_model(items: Seq<Json>, i: i64)
    requires
        items.len() <= i64::MAX,
    ensures
        element_model(items, i) == (if -items.len() <= i < items.len() {
            Some(items[if i < 0 { i + items.len() } else { i as int }])
        } else {
            None
        }),
{
}

/// `a[i]` on an array `a`, where the index is an integral number not
/// followed by `:`, gives the element `element_model` selects, or the error
/// "index out of bounds"; what follows the index is left unread.
pub proof fn law_index_array(env: Env, items: Seq<Json>, o: int, u: int, n: Num, o1: int, u1: int)
    requires
        0 <= o <= env.src.len(),
        attempt(env, o, Kind::Colon) is Absent,
        expr(env, o, u, 0) == Flow::Done(Json::Number(n), o1, u1),
        n.spec_is_integral(),
        !n.spec_overflows_index(),
        attempt(env, o1, Kind::Colon) is Absent,
    ensures
        index_rule(env, Json::Array(items), o, u) == match element_model(items, n.spec_index()) {
            Some(v) => Flow::Done(v, o1, u1),
            None => Flow::Fail(ErrorModel::Interpreter(msg_out_of_bounds())),
        },
{
}

/// A token was taken, and scanning goes on at `s`.
pub open spec fn lands_at(t: Take, s: int) -> bool {
    t matches Take::Got(_, x) && x == s
}

/// The elements of a list, read one after the other in source order:
/// `starts[i]` is where element `i` begins, `ends[i]` where it ends, and
/// `uses[i]` how many floating-point results are used before it.
pub open spec fn list_elements_read(
    env: Env,
    vs: Seq<Json>,
    starts: Seq<int>,
    ends: Seq<int>,
    uses: Seq<int>,
) -> bool {
    &&& vs.len() >= 1
    &&& starts.len() == vs.len()
    &&& ends.len() == vs.len()
    &&& uses.len() == vs.len() + 1
    &&& 0 <= starts[0] <= env.src.len()
    &&& forall|i: int|
        0 <= i < vs.len() ==> #[trigger] expr(env, starts[i], uses[i], 0) == Flow::Done(
            vs[i],
            ends[i],
            uses[i + 1],
        )
    &&& forall|i: int|
        0 <= i < vs.len() - 1 ==> lands_at(#[trigger] attempt(env, ends[i], Kind::Comma), starts[i + 1])
    &&& attempt(env, ends[vs.len() - 1], Kind::Comma) is Absent
}

proof fn lemma_list_from(
    env: Env,
    acc: Seq<Json>,
    vs: Seq<Json>,
    starts: Seq<int>,
    ends: Seq<int>,
    uses: Seq<int>,
    k: int,
)
    requires
        list_elements_read(env, vs, starts, ends, uses),
        0 <= k < vs.len(),
        0 <= starts[k] <= env.src.len(),
        0 <= uses[k],
    ensures
        list_items(env, starts[k], uses[k], acc + vs.subrange(0, k)) == match require(
            env,
            ends[vs.len() - 1],
            Kind::RBracket,
        ) {
            Take::Got(_, f) => Flow::Done(Json::Array(acc + vs), f, uses[vs.len() as int]),
            Take::Fail(e) => Flow::Fail(e),
            Take::Absent => Flow::Fail(ErrorModel::Syntax(msg_unexpected())),
        },
    decreases vs.len() - k,
{
    let n = vs.len() as int;
    assert(expr(env, starts[k], uses[k], 0) == Flow::Done(vs[k], ends[k], uses[k + 1]));
    law_expr_advances(env, starts[k], uses[k], 0);
    lemma_scan_bounds(env.src, ends[k]);
    assert(acc + vs.subrange(0, k) + seq![vs[k]] =~= acc + vs.subrange(0, k + 1));
    assert((acc + vs.subrange(0, k)).push(vs[k]) =~= acc + vs.subrange(0, k + 1));
    if k < n - 1 {
        assert(lands_at(attempt(env, ends[k], Kind::Comma), starts[k + 1]));
        lemma_list_from(env, acc, vs, starts, ends, uses, k + 1);
    } else {
        assert(vs.subrange(0, n) =~= vs);
    }
}

/// A list of n elements, each read in turn and separated by `,`, gives the
/// array of their values in source order once `]` follows the last one;
/// otherwise the error of requiring `]`.
pub proof fn law_list_in_order(
    env: Env,
    vs: Seq<Json>,
    starts: Seq<int>,
    ends: Seq<int>,
    uses: Seq<int>,
)
    requires
        list_elements_read(env, vs, starts, ends, uses),
        0 <= uses[0],
    ensures
        list_items(env, starts[0], uses[0], Seq::empty()) == match require(
            env,
            ends[vs.len() - 1],
            Kind::RBracket,
        ) {
            Take::Got(_, f) => Flow::Done(Json::Array(vs), f, uses[vs.len() as int]),
            Take::Fail(e) => Flow::Fail(e),
            Take::Absent => Flow::Fail(ErrorModel::Syntax(msg_unexpected())),
        },
{
    lemma_list_from(env, Seq::empty(), vs, starts, ends, uses, 0);
    assert(Seq::<Json>::empty() + vs.subrange(0, 0) =~= Seq::<Json>::empty());
    assert(Seq::<Json>::empty() + vs =~= vs);
}


/// An element that does not come to a value ends the list with what it came
/// to: its error passes on unchanged, and no later element is read.
pub proof fn law_list_element_error(env: Env, o: int, u: int, acc: Seq<Json>)
    requires
        0 <= o <= env.src.len(),
        !(expr(env, o, u, 0) is Done),
    ensures
        list_items(env, o, u, acc) == expr(env, o, u, 0),
{
}

/// After an element, a token that is neither `,` nor `]` (or the end of the
/// input) is the error "Unexpected token error": a list must be closed.
pub proof fn law_list_unclosed(env: Env, o: int, u: int, acc: Seq<Json>, v: Json, o1: int, u1: int)
    requires
        0 <= o <= env.src.len(),
        expr(env, o, u, 0) == Flow::Done(v, o1, u1),
        !(scan(env.src, o1) matches ScanModel::Found(t) && (t.kind == Kind::Comma || t.kind
            == Kind::RBracket)),
    ensures
        list_items(env, o, u, acc) == Flow::Fail(ErrorModel::Syntax(msg_unexpected())),
{
}

/// A `,` right before `]` is the error "Unexpected token error": `]` starts
/// no element.
pub proof fn law_list_trailing_comma(
    env: Env,
    o: int,
    u: int,
    acc: Seq<Json>,
    v: Json,
    o1: int,
    u1: int,
    o2: int,
)
    requires
        0 <= o <= env.src.len(),
        0 <= u,
        expr(env, o, u, 0) == Flow::Done(v, o1, u1),
        lands_at(attempt(env, o1, Kind::Comma), o2),
        scan(env.src, o2) matches ScanModel::Found(t) && t.kind == Kind::RBracket && !(scan(
            env.src,
            t.end,
        ) is Unmatched),
    ensures
        list_items(env, o, u, acc) == Flow::Fail(ErrorModel::Syntax(msg_unexpected())),
{
    law_expr_advances(env, o, u, 0);
    lemma_scan_bounds(env.src, o1);
    lemma_scan_bounds(env.src, o2);
    let t = scan(env.src, o2)->Found_0;
    lemma_scan_bounds(env.src, t.end);
    assert(prefix(env, t, t.end, u1) == Flow::Fail(ErrorModel::Syntax(msg_unexpected())));
    assert(expr(env, o2, u1, 0) == Flow::Fail(ErrorModel::Syntax(msg_unexpected())));
    assert(list_items(env, o2, u1, acc.push(v)) == Flow::Fail(ErrorModel::Syntax(msg_unexpected())));
}

/// Object entries bound in turn, a later one replacing the value of an
/// earlier one with the same key.
pub open spec fn bind_all(acc: Seq<(Seq<char>, Json)>, keys: Seq<Seq<char>>, vs: Seq<Json>) -> Seq<(Seq<char>, Json)>
    decreases keys.len(),
{
    if keys.len() == 0 || vs.len() == 0 {
        acc
    } else {
        bind(
            bind_all(acc, keys.subrange(0, keys.len() - 1), vs.subrange(0, vs.len() - 1)),
            keys[keys.len() - 1],
            vs[vs.len() - 1],
        )
    }
}

/// The last position of key `k` in `keys`, or -1.
pub open spec fn last_key_index(keys: Seq<Seq<char>>, k: Seq<char>) -> int
    decreases keys.len(),
{
    if keys.len() == 0 {
        -1
    } else if keys[keys.len() - 1] == k {
        keys.len() - 1
    } else {
        last_key_index(keys.subrange(0, keys.len() - 1), k)
    }
}

/// After binding `keys` to `vs` in turn, a key has the value of its last
/// binding; a key never bound keeps what it had.
pub proof fn law_bind_all_lookup(acc: Seq<(Seq<char>, Json)>, keys: Seq<Seq<char>>, vs: Seq<Json>, k: Seq<char>)
    requires
        keys.len() == vs.len(),
    ensures
        -1 <= last_key_index(keys, k) < keys.len(),
        lookup(bind_all(acc, keys, vs), k) == (if last_key_index(keys, k) >= 0 {
            Some(vs[last_key_index(keys, k)])
        } else {
            lookup(acc, k)
        }),
    decreases keys.len(),
{
    if keys.len() > 0 {
        let n = keys.len() - 1;
        let ks = keys.subrange(0, n);
        let vs2 = vs.subrange(0, n);
        law_bind_all_lookup(acc, ks, vs2, k);
        law_bind_lookup(bind_all(acc, ks, vs2), keys[n], vs[n], k);
        if keys[n] != k && last_key_index(ks, k) >= 0 {
            assert(vs2[last_key_index(ks, k)] == vs[last_key_index(ks, k)]);
        }
    }
}

/// The entries of an object, read one after the other: entry `i` has its
/// key token at `starts[i]`, naming `keys[i]`; its value begins at
/// `vstarts[i]` and ends at `ends[i]`; `uses[i]` results are used before it.
pub open spec fn object_entries_read(
    env: Env,
    keys: Seq<Seq<char>>,
    vs: Seq<Json>,
    starts: Seq<int>,
    vstarts: Seq<int>,
    ends: Seq<int>,
    uses: Seq<int>,
) -> bool {
    &&& vs.len() >= 1
    &&& keys.len() == vs.len()
    &&& starts.len() == vs.len()
    &&& vstarts.len() == vs.len()
    &&& ends.len() == vs.len()
    &&& uses.len() == vs.len() + 1
    &&& 0 <= starts[0] <= env.src.len()
    &&& forall|i: int|
        0 <= i < vs.len() ==> (#[trigger] require_key(env, starts[i]) matches Take::Got(k, c) && key_name(env, k)
            == keys[i] && lands_at(require(env, c, Kind::Colon), vstarts[i]))
    &&& forall|i: int|
        0 <= i < vs.len() ==> #[trigger] expr(env, vstarts[i], uses[i], 0) == Flow::Done(
            vs[i],
            ends[i],
            uses[i + 1],
        )
    &&& forall|i: int|
        0 <= i < vs.len() - 1 ==> lands_at(#[trigger] attempt(env, ends[i], Kind::Comma), starts[i + 1])
    &&& attempt(env, ends[vs.len() - 1], Kind::Comma) is Absent
}

proof fn lemma_object_from(
    env: Env,
    acc: Seq<(Seq<char>, Json)>,
    keys: Seq<Seq<char>>,
    vs: Seq<Json>,
    starts: Seq<int>,
    vstarts: Seq<int>,
    ends: Seq<int>,
    uses: Seq<int>,
    k: int,
)
    requires
        object_entries_read(env, keys, vs, starts, vstarts, ends, uses),
        0 <= k < vs.len(),
        0 <= starts[k] <= env.src.len(),
        0 <= uses[k],
    ensures
        object_items(env, starts[k], uses[k], bind_all(acc, keys.subrange(0, k), vs.subrange(0, k)))
            == match require(env, ends[vs.len() - 1], Kind::RBrace) {
            Take::Got(_, f) => Flow::Done(Json::Object(bind_all(acc, keys, vs)), f, uses[vs.len() as int]),
            Take::Fail(e) => Flow::Fail(e),
            Take::Absent => Flow::Fail(ErrorModel::Syntax(msg_unexpected())),
        },
    decreases vs.len() - k,
{
    let n = vs.len() as int;
    lemma_scan_bounds(env.src, starts[k]);
    assert(require_key(env, starts[k]) matches Take::Got(t, c) && key_name(env, t) == keys[k] && lands_at(
        require(env, c, Kind::Colon),
        vstarts[k],
    ));
    let c = require_key(env, starts[k])->Got_1;
    lemma_scan_bounds(env.src, c);
    assert(expr(env, vstarts[k], uses[k], 0) == Flow::Done(vs[k], ends[k], uses[k + 1]));
    law_expr_advances(env, vstarts[k], uses[k], 0);
    lemma_scan_bounds(env.src, ends[k]);
    assert(keys.subrange(0, k + 1).subrange(0, k) =~= keys.subrange(0, k));
    assert(vs.subrange(0, k + 1).subrange(0, k) =~= vs.subrange(0, k));
    if k < n - 1 {
        assert(lands_at(attempt(env, ends[k], Kind::Comma), starts[k + 1]));
        lemma_object_from(env, acc, keys, vs, starts, vstarts, ends, uses, k + 1);
    } else {
        assert(keys.subrange(0, n) =~= keys);
        assert(vs.subrange(0, n) =~= vs);
    }
}

/// An object of n entries, each read in turn and separated by `,`, gives
/// the entries bound in turn, so a repeated key keeps its last value (see
/// `law_bind_all_lookup`), once `}` follows the last one; otherwise the
/// error of requiring `}`.
pub proof fn law_object_entries(
    env: Env,
    keys: Seq<Seq<char>>,
    vs: Seq<Json>,
    starts: Seq<int>,
    vstarts: Seq<int>,
    ends: Seq<int>,
    uses: Seq<int>,
)
    requires
        object_entries_read(env, keys, vs, starts, vstarts, ends, uses),
        0 <= uses[0],
    ensures
        object_items(env, starts[0], uses[0], Seq::empty()) == match require(
            env,
            ends[vs.len() - 1],
            Kind::RBrace,
        ) {
            Take::Got(_, f) => Flow::Done(Json::Object(bind_all(Seq::empty(), keys, vs)), f, uses[vs.len() as int]),
            Take::Fail(e) => Flow::Fail(e),
            Take::Absent => Flow::Fail(ErrorModel::Syntax(msg_unexpected())),
        },
{
    lemma_object_from(env, Seq::empty(), keys, vs, starts, vstarts, ends, uses, 0);
}

/// A key that is neither an identifier nor a string (or a missing key) is
/// the error "Unexpected token error".
pub proof fn law_object_bad_key(env: Env, o: int, u: int, acc: Seq<(Seq<char>, Json)>)
    requires
        0 <= o <= env.src.len(),
        !(scan(env.src, o) matches ScanModel::Found(t) && (t.kind == Kind::Identifier || t.kind
            == Kind::Str)),
    ensures
        object_items(env, o, u, acc) == Flow::Fail(ErrorModel::Syntax(msg_unexpected())),
{
}

/// A key not followed by `:` is the error "Unexpected token error".
pub proof fn law_object_missing_colon(env: Env, o: int, u: int, acc: Seq<(Seq<char>, Json)>, o1: int)
    requires
        0 <= o <= env.src.len(),
        lands_at(require_key(env, o), o1),
        !(scan(env.src, o1) matches ScanModel::Found(t) && t.kind == Kind::Colon),
    ensures
        object_items(env, o, u, acc) == Flow::Fail(ErrorModel::Syntax(msg_unexpected())),
{
}

/// A value that does not come to a value ends the object with what it came
/// to: its error passes on unchanged.
pub proof fn law_object_value_error(env: Env, o: int, u: int, acc: Seq<(Seq<char>, Json)>, o1: int, o2: int)
    requires
        0 <= o <= env.src.len(),
        lands_at(require_key(env, o), o1),
        lands_at(require(env, o1, Kind::Colon), o2),
        !(expr(env, o2, u, 0) is Done),
    ensures
        object_items(env, o, u, acc) == expr(env, o2, u, 0),
{
    lemma_scan_bounds(env.src, o);
    lemma_scan_bounds(env.src, o1);
}

/// After a value, a token that is neither `,` nor `}` (or the end of the
/// input) is the error "Unexpected token error".
pub proof fn law_object_unclosed(
    env: Env,
    o: int,
    u: int,
    acc: Seq<(Seq<char>, Json)>,
    o1: int,
    o2: int,
    v: Json,
    o3: int,
    u3: int,
)
    requires
        0 <= o <= env.src.len(),
        lands_at(require_key(env, o), o1),
        lands_at(require(env, o1, Kind::Colon), o2),
        expr(env, o2, u, 0) == Flow::Done(v, o3, u3),
        !(scan(env.src, o3) matches ScanModel::Found(t) && (t.kind == Kind::Comma || t.kind
            == Kind::RBrace)),
    ensures
        object_items(env, o, u, acc) == Flow::Fail(ErrorModel::Syntax(msg_unexpected())),
{
    lemma_scan_bounds(env.src, o);
    lemma_scan_bounds(env.src, o1);
}

/// A source that is one string token and nothing else evaluates to the text
/// between its quotes, which is what `parse_string` gives for that token.
pub proof fn law_string_source(src: Seq<char>, ctx: Map<Seq<char>, Json>, tape: Seq<Num>)
    requires
        scan(src, 0) matches ScanModel::Found(t) && t.kind == Kind::Str && t.end == src.len(),
    ensures
        evaluate(src, ctx, tape) == StepModel::Finished(Ok(Json::Str(unquote(src.subrange(
            scan(src, 0)->Found_0.start,
            src.len() as int,
        ))))),
{
    lemma_scan_bounds(src, 0);
    let t = scan(src, 0)->Found_0;
    lemma_scan_bounds(src, t.end);
    let env = Env { src, ctx, tape };
    assert(text_of(env, t) == src.subrange(t.start, src.len() as int));
}


/// No operator with an infix rule follows at offset `f`, so an expression
/// read up to `f` is complete there.
pub open spec fn no_infix_at(src: Seq<char>, f: int) -> bool {
    !(scan(src, f) matches ScanModel::Found(t) && has_infix(t.kind))
}

/// A source that starts with `[` (and not `[]`) evaluates as the list that
/// follows it: to its array where the list is read and no operator follows
/// its `]`, and otherwise to what reading the list comes to, an error passed
/// on unchanged. With `law_list_in_order`, `law_list_unclosed`,
/// `law_list_element_error` and `law_list_trailing_comma` this gives the
/// outcome of `Interpreter::parse` for every such list.
pub proof fn law_source_list(src: Seq<char>, ctx: Map<Seq<char>, Json>, tape: Seq<Num>)
    requires
        scan(src, 0) matches ScanModel::Found(t) && t.kind == Kind::LBracket && !(scan(src, t.end) is Unmatched),
        attempt(Env { src, ctx, tape }, scan(src, 0)->Found_0.end, Kind::RBracket) is Absent,
    ensures
        ({
            let env = Env { src, ctx, tape };
            let l = list_items(env, scan(src, 0)->Found_0.end, 0, Seq::empty());
            &&& l matches Flow::Done(v, f, _) ==> (no_infix_at(src, f) ==> evaluate(src, ctx, tape)
                == StepModel::Finished(Ok(v)))
            &&& !(l is Done) ==> evaluate(src, ctx, tape) == finish(l)
        }),
{
    let env = Env { src, ctx, tape };
    let t = scan(src, 0)->Found_0;
    lemma_scan_bounds(src, 0);
    lemma_scan_bounds(src, t.end);
    lemma_list_items(env, env, t.end, 0, Seq::empty());
    let l = list_items(env, t.end, 0, Seq::empty());
    assert(prefix(env, t, t.end, 0) == l);
    if let Flow::Done(v, f, u) = l {
        lemma_scan_bounds(src, f);
    }
}

/// A source that starts with `{` (and not `{}`) evaluates as the object
/// that follows it: to that object where its entries are read and no
/// operator follows its `}`, and otherwise to what reading the entries comes
/// to, an error passed on unchanged. With `law_object_entries`,
/// `law_bind_all_lookup` and the error laws of objects this gives the
/// outcome of `Interpreter::parse` for every such object.
pub proof fn law_source_object(src: Seq<char>, ctx: Map<Seq<char>, Json>, tape: Seq<Num>)
    requires
        scan(src, 0) matches ScanModel::Found(t) && t.kind == Kind::LBrace && !(scan(src, t.end) is Unmatched),
        attempt(Env { src, ctx, tape }, scan(src, 0)->Found_0.end, Kind::RBrace) is Absent,
    ensures
        ({
            let env = Env { src, ctx, tape };
            let l = object_items(env, scan(src, 0)->Found_0.end, 0, Seq::empty());
            &&& l matches Flow::Done(v, f, _) ==> (no_infix_at(src, f) ==> evaluate(src, ctx, tape)
                == StepModel::Finished(Ok(v)))
            &&& !(l is Done) ==> evaluate(src, ctx, tape) == finish(l)
        }),
{
    let env = Env { src, ctx, tape };
    let t = scan(src, 0)->Found_0;
    lemma_scan_bounds(src, 0);
    lemma_scan_bounds(src, t.end);
    lemma_object_items(env, env, t.end, 0, Seq::empty());
    let l = object_items(env, t.end, 0, Seq::empty());
    assert(prefix(env, t, t.end, 0) == l);
    if let Flow::Done(v, f, u) = l {
        lemma_scan_bounds(src, f);
    }
}

/// A source `a[e]`, where the context binds `a` to an array and `e` reads
/// as an integral number not followed by `:`, evaluates to the element that
/// `element_model` selects (see `law_element_model`) or to the error "index
/// out of bounds"; an index that fits in an `i64` is its exact integer (see
/// `Num::spec_index`).
pub proof fn law_source_index(
    src: Seq<char>,
    ctx: Map<Seq<char>, Json>,
    tape: Seq<Num>,
    items: Seq<Json>,
    n: Num,
    o1: int,
    u1: int,
)
    requires
        scan(src, 0) matches ScanModel::Found(a) && a.kind == Kind::Identifier && !(scan(src, a.end) is Unmatched),
        ctx.dom().contains(src.subrange(scan(src, 0)->Found_0.start, scan(src, 0)->Found_0.end)),
        ctx[src.subrange(scan(src, 0)->Found_0.start, scan(src, 0)->Found_0.end)] == Json::Array(items),
        scan(src, scan(src, 0)->Found_0.end) matches ScanModel::Found(b) && b.kind == Kind::LBracket
            && !(scan(src, b.end) is Unmatched),
        attempt(Env { src, ctx, tape }, scan(src, scan(src, 0)->Found_0.end)->Found_0.end, Kind::Colon) is Absent,
        expr(Env { src, ctx, tape }, scan(src, scan(src, 0)->Found_0.end)->Found_0.end, 0, 0)
            == Flow::Done(Json::Number(n), o1, u1),
        n.spec_is_integral(),
        !n.spec_overflows_index(),
        attempt(Env { src, ctx, tape }, o1, Kind::Colon) is Absent,
        no_infix_at(src, o1),
    ensures
        evaluate(src, ctx, tape) == match element_model(items, n.spec_index()) {
            Some(v) => StepModel::Finished(Ok(v)),
            None => StepModel::Finished(Err(ErrorModel::Interpreter(msg_out_of_bounds()))),
        },
{
    let env = Env { src, ctx, tape };
    let a = scan(src, 0)->Found_0;
    lemma_scan_bounds(src, 0);
    lemma_scan_bounds(src, a.end);
    let b = scan(src, a.end)->Found_0;
    lemma_scan_bounds(src, b.end);
    law_expr_advances(env, b.end, 0, 0);
    lemma_scan_bounds(src, o1);
    let r = match element_model(items, n.spec_index()) {
        Some(v) => Flow::Done(v, o1, u1),
        None => Flow::Fail(ErrorModel::Interpreter(msg_out_of_bounds())),
    };
    assert(index_rule(env, Json::Array(items), b.end, 0) == r);
    assert(infix(env, Kind::LBracket, Json::Array(items), b.end, 0) == r);
    assert(prefix(env, a, a.end, 0) == Flow::Done(Json::Array(items), a.end, 0));
    if let Flow::Done(v, f, u) = r {
        assert(infix_loop(env, v, 0, o1, u1) == Flow::Done(v, o1, u1));
    }
    assert(infix_loop(env, Json::Array(items), 0, a.end, 0) == r);
}

/// The order in which operators bind, from the precedence table: `*` binds
/// more strongly than `+`, `**` more strongly than `*`, `[` more strongly
/// than `**`, and a prefix operator's operand is read above all of them, so
/// `-2**2` is `(-2)**2`. `+` and `*` group to the left, as an
/// operator does not bind more strongly than itself; `**` groups to the
/// right, as its right operand is read below its own binding power.
pub proof fn law_precedence()
    ensures
        binding(Kind::Plus) < binding(Kind::Times) < binding(Kind::Power) < binding(Kind::LBracket)
            < UNARY,
        !(binding(Kind::Plus) > binding(Kind::Plus)),
        !(binding(Kind::Times) > binding(Kind::Times)),
        binding(Kind::Times) < POWER_RIGHT < binding(Kind::Power),
{
}

/// How far an operand reaches: at an operator with an infix rule, reading
/// at binding power `prec` stops when the operator does not bind more
/// strongly than `prec`, and otherwise applies it and reads on.
pub proof fn law_operand_extent(env: Env, left: Json, prec: int, o: int, u: int)
    requires
        0 <= o <= env.src.len(),
        0 <= u,
        scan(env.src, o) matches ScanModel::Found(t) && has_infix(t.kind),
    ensures
        ({
            let t = scan(env.src, o)->Found_0;
            &&& binding(t.kind) <= prec ==> infix_loop(env, left, prec, o, u) == Flow::Done(left, o, u)
            &&& binding(t.kind) > prec && advance(env, t) is Got ==> infix_loop(env, left, prec, o, u)
                == match infix(env, t.kind, left, t.end, u) {
                Flow::Done(v, o2, u2) => infix_loop(env, v, prec, o2, u2),
                r => r,
            }
        }),
{
    lemma_scan_bounds(env.src, o);
    let t = scan(env.src, o)->Found_0;
    lemma_scan_bounds(env.src, t.end);
    lemma_infix(env, env, t.kind, left, t.end, u);
}


/// At offset `o` the scanner finds a token of kind `k` that ends at `e`.
pub open spec fn token_at(src: Seq<char>, o: int, k: Kind, e: int) -> bool {
    scan(src, o) matches ScanModel::Found(t) && t.kind == k && t.end == e
}

/// Five tokens, `x op1 y op2 z`, numbers and two operators, and nothing
/// after them; `ends` holds where each token ends.
pub open spec fn three_numbers(src: Seq<char>, op1: Kind, op2: Kind, ends: Seq<int>) -> bool {
    &&& ends.len() == 5
    &&& token_at(src, 0, Kind::Number, ends[0])
    &&& token_at(src, ends[0], op1, ends[1])
    &&& token_at(src, ends[1], Kind::Number, ends[2])
    &&& token_at(src, ends[2], op2, ends[3])
    &&& token_at(src, ends[3], Kind::Number, ends[4])
    &&& scan(src, ends[4]) is End
}

proof fn lemma_three_bounds(src: Seq<char>, op1: Kind, op2: Kind, ends: Seq<int>)
    requires
        three_numbers(src, op1, op2, ends),
    ensures
        0 < ends[0] < ends[1] < ends[2] < ends[3] < ends[4] <= src.len(),
{
    lemma_scan_bounds(src, 0);
    lemma_scan_bounds(src, ends[0]);
    lemma_scan_bounds(src, ends[1]);
    lemma_scan_bounds(src, ends[2]);
    lemma_scan_bounds(src, ends[3]);
}

/// `x + y * z`: the product is asked for first, `y * z`, and its result is
/// then added to `x`: `*` binds more strongly than `+`.
pub proof fn law_product_before_sum(src: Seq<char>, ctx: Map<Seq<char>, Json>, x: Num, y: Num, z: Num, w: Num, ends: Seq<int>)
    requires
        three_numbers(src, Kind::Plus, Kind::Times, ends),
    ensures
        evaluate(src, ctx, seq![x, y, z]) == StepModel::Compute(FloatOpModel::Mul(y, z)),
        evaluate(src, ctx, seq![x, y, z, w]) == StepModel::Compute(FloatOpModel::Add(x, w)),
{
    lemma_three_bounds(src, Kind::Plus, Kind::Times, ends);
    let e = ends;
    let env = Env { src, ctx, tape: seq![x, y, z] };
    let env2 = Env { src, ctx, tape: seq![x, y, z, w] };
    let tx = scan(src, 0)->Found_0;
    let tp = scan(src, e[0])->Found_0;
    let ty = scan(src, e[1])->Found_0;
    let tm = scan(src, e[2])->Found_0;
    let tz = scan(src, e[3])->Found_0;
    // z, read as the right operand of `*`
    assert(prefix(env, tz, e[4], 2) == Flow::Done(Json::Number(z), e[4], 3));
    assert(infix_loop(env, Json::Number(z), 7, e[4], 3) == Flow::Done(Json::Number(z), e[4], 3));
    assert(expr(env, e[3], 2, 7) == Flow::Done(Json::Number(z), e[4], 3));
    assert(infix(env, Kind::Times, Json::Number(y), e[3], 2) == Flow::Compute(FloatOpModel::Mul(y, z)));
    assert(infix_loop(env, Json::Number(y), 6, e[2], 2) == Flow::Compute(FloatOpModel::Mul(y, z)));
    assert(prefix(env, ty, e[2], 1) == Flow::Done(Json::Number(y), e[2], 2));
    assert(expr(env, e[1], 1, 6) == Flow::Compute(FloatOpModel::Mul(y, z)));
    assert(infix(env, Kind::Plus, Json::Number(x), e[1], 1) == Flow::Compute(FloatOpModel::Mul(y, z)));
    assert(infix_loop(env, Json::Number(x), 0, e[0], 1) == Flow::Compute(FloatOpModel::Mul(y, z)));
    assert(prefix(env, tx, e[0], 0) == Flow::Done(Json::Number(x), e[0], 1));
    assert(expr(env, 0, 0, 0) == Flow::Compute(FloatOpModel::Mul(y, z)));
    // with the product supplied
    assert(prefix(env2, tz, e[4], 2) == Flow::Done(Json::Number(z), e[4], 3));
    assert(infix_loop(env2, Json::Number(z), 7, e[4], 3) == Flow::Done(Json::Number(z), e[4], 3));
    assert(expr(env2, e[3], 2, 7) == Flow::Done(Json::Number(z), e[4], 3));
    assert(infix(env2, Kind::Times, Json::Number(y), e[3], 2) == Flow::Done(Json::Number(w), e[4], 4));
    assert(infix_loop(env2, Json::Number(w), 6, e[4], 4) == Flow::Done(Json::Number(w), e[4], 4));
    assert(infix_loop(env2, Json::Number(y), 6, e[2], 2) == Flow::Done(Json::Number(w), e[4], 4));
    assert(prefix(env2, ty, e[2], 1) == Flow::Done(Json::Number(y), e[2], 2));
    assert(expr(env2, e[1], 1, 6) == Flow::Done(Json::Number(w), e[4], 4));
    assert(infix(env2, Kind::Plus, Json::Number(x), e[1], 1) == Flow::Compute(FloatOpModel::Add(x, w)));
    assert(infix_loop(env2, Json::Number(x), 0, e[0], 1) == Flow::Compute(FloatOpModel::Add(x, w)));
    assert(prefix(env2, tx, e[0], 0) == Flow::Done(Json::Number(x), e[0], 1));
    assert(expr(env2, 0, 0, 0) == Flow::Compute(FloatOpModel::Add(x, w)));
}


/// `x ** y ** z`: `y ** z` is asked for first, and `x` is then raised to
/// its result: `**` groups to the right.
pub proof fn law_power_groups_right(src: Seq<char>, ctx: Map<Seq<char>, Json>, x: Num, y: Num, z: Num, w: Num, ends: Seq<int>)
    requires
        three_numbers(src, Kind::Power, Kind::Power, ends),
    ensures
        evaluate(src, ctx, seq![x, y, z]) == StepModel::Compute(FloatOpModel::Pow(y, z)),
        evaluate(src, ctx, seq![x, y, z, w]) == StepModel::Compute(FloatOpModel::Pow(x, w)),
{
    lemma_three_bounds(src, Kind::Power, Kind::Power, ends);
    let e = ends;
    let env = Env { src, ctx, tape: seq![x, y, z] };
    let env2 = Env { src, ctx, tape: seq![x, y, z, w] };
    let tx = scan(src, 0)->Found_0;
    let ty = scan(src, e[1])->Found_0;
    let tz = scan(src, e[3])->Found_0;
    assert(prefix(env, tz, e[4], 2) == Flow::Done(Json::Number(z), e[4], 3));
    assert(infix_loop(env, Json::Number(z), 8, e[4], 3) == Flow::Done(Json::Number(z), e[4], 3));
    assert(expr(env, e[3], 2, 8) == Flow::Done(Json::Number(z), e[4], 3));
    assert(infix(env, Kind::Power, Json::Number(y), e[3], 2) == Flow::Compute(FloatOpModel::Pow(y, z)));
    assert(infix_loop(env, Json::Number(y), 8, e[2], 2) == Flow::Compute(FloatOpModel::Pow(y, z)));
    assert(prefix(env, ty, e[2], 1) == Flow::Done(Json::Number(y), e[2], 2));
    assert(expr(env, e[1], 1, 8) == Flow::Compute(FloatOpModel::Pow(y, z)));
    assert(infix(env, Kind::Power, Json::Number(x), e[1], 1) == Flow::Compute(FloatOpModel::Pow(y, z)));
    assert(infix_loop(env, Json::Number(x), 0, e[0], 1) == Flow::Compute(FloatOpModel::Pow(y, z)));
    assert(prefix(env, tx, e[0], 0) == Flow::Done(Json::Number(x), e[0], 1));
    assert(expr(env, 0, 0, 0) == Flow::Compute(FloatOpModel::Pow(y, z)));
    assert(prefix(env2, tz, e[4], 2) == Flow::Done(Json::Number(z), e[4], 3));
    assert(infix_loop(env2, Json::Number(z), 8, e[4], 3) == Flow::Done(Json::Number(z), e[4], 3));
    assert(expr(env2, e[3], 2, 8) == Flow::Done(Json::Number(z), e[4], 3));
    assert(infix(env2, Kind::Power, Json::Number(y), e[3], 2) == Flow::Done(Json::Number(w), e[4], 4));
    assert(infix_loop(env2, Json::Number(w), 8, e[4], 4) == Flow::Done(Json::Number(w), e[4], 4));
    assert(infix_loop(env2, Json::Number(y), 8, e[2], 2) == Flow::Done(Json::Number(w), e[4], 4));
    assert(prefix(env2, ty, e[2], 1) == Flow::Done(Json::Number(y), e[2], 2));
    assert(expr(env2, e[1], 1, 8) == Flow::Done(Json::Number(w), e[4], 4));
    assert(infix(env2, Kind::Power, Json::Number(x), e[1], 1) == Flow::Compute(FloatOpModel::Pow(x, w)));
    assert(infix_loop(env2, Json::Number(x), 0, e[0], 1) == Flow::Compute(FloatOpModel::Pow(x, w)));
    assert(prefix(env2, tx, e[0], 0) == Flow::Done(Json::Number(x), e[0], 1));
    assert(expr(env2, 0, 0, 0) == Flow::Compute(FloatOpModel::Pow(x, w)));
}

/// `x + y + z`: `x + y` is asked for first, and `z` is then added to its
/// result: `+` groups to the left.
pub proof fn law_sum_groups_left(src: Seq<char>, ctx: Map<Seq<char>, Json>, x: Num, y: Num, w: Num, z: Num, ends: Seq<int>)
    requires
        three_numbers(src, Kind::Plus, Kind::Plus, ends),
    ensures
        evaluate(src, ctx, seq![x, y]) == StepModel::Compute(FloatOpModel::Add(x, y)),
        evaluate(src, ctx, seq![x, y, w, z]) == StepModel::Compute(FloatOpModel::Add(w, z)),
{
    lemma_three_bounds(src, Kind::Plus, Kind::Plus, ends);
    let e = ends;
    let env = Env { src, ctx, tape: seq![x, y] };
    let env2 = Env { src, ctx, tape: seq![x, y, w, z] };
    let tx = scan(src, 0)->Found_0;
    let ty = scan(src, e[1])->Found_0;
    let tz = scan(src, e[3])->Found_0;
    assert(prefix(env, ty, e[2], 1) == Flow::Done(Json::Number(y), e[2], 2));
    assert(infix_loop(env, Json::Number(y), 6, e[2], 2) == Flow::Done(Json::Number(y), e[2], 2));
    assert(expr(env, e[1], 1, 6) == Flow::Done(Json::Number(y), e[2], 2));
    assert(infix(env, Kind::Plus, Json::Number(x), e[1], 1) == Flow::Compute(FloatOpModel::Add(x, y)));
    assert(infix_loop(env, Json::Number(x), 0, e[0], 1) == Flow::Compute(FloatOpModel::Add(x, y)));
    assert(prefix(env, tx, e[0], 0) == Flow::Done(Json::Number(x), e[0], 1));
    assert(expr(env, 0, 0, 0) == Flow::Compute(FloatOpModel::Add(x, y)));
    assert(prefix(env2, ty, e[2], 1) == Flow::Done(Json::Number(y), e[2], 2));
    assert(infix_loop(env2, Json::Number(y), 6, e[2], 2) == Flow::Done(Json::Number(y), e[2], 2));
    assert(expr(env2, e[1], 1, 6) == Flow::Done(Json::Number(y), e[2], 2));
    assert(infix(env2, Kind::Plus, Json::Number(x), e[1], 1) == Flow::Done(Json::Number(w), e[2], 3));
    assert(prefix(env2, tz, e[4], 3) == Flow::Done(Json::Number(z), e[4], 4));
    assert(infix_loop(env2, Json::Number(z), 6, e[4], 4) == Flow::Done(Json::Number(z), e[4], 4));
    assert(expr(env2, e[3], 3, 6) == Flow::Done(Json::Number(z), e[4], 4));
    assert(infix(env2, Kind::Plus, Json::Number(w), e[3], 3) == Flow::Compute(FloatOpModel::Add(w, z)));
    assert(infix_loop(env2, Json::Number(w), 0, e[2], 3) == Flow::Compute(FloatOpModel::Add(w, z)));
    assert(infix_loop(env2, Json::Number(x), 0, e[0], 1) == Flow::Compute(FloatOpModel::Add(w, z)));
    assert(prefix(env2, tx, e[0], 0) == Flow::Done(Json::Number(x), e[0], 1));
    assert(expr(env2, 0, 0, 0) == Flow::Compute(FloatOpModel::Add(w, z)));
}


/// The characters of Unicode's `White_Space` set, listed.
pub open spec fn unicode_white_space(c: char) -> bool {
    ||| c == '\t'
    ||| c == '\n'
    ||| c == '\u{b}'
    ||| c == '\u{c}'
    ||| c == '\r'
    ||| c == ' '
    ||| c == '\u{85}'
    ||| c == '\u{a0}'
    ||| c == '\u{1680}'
    ||| '\u{2000}' <= c <= '\u{200a}'
    ||| c == '\u{2028}'
    ||| c == '\u{2029}'
    ||| c == '\u{202f}'
    ||| c == '\u{205f}'
    ||| c == '\u{3000}'
}

/// A white-space character where scanning starts is passed over: what the
/// scanner finds there is what it finds right after it. So such characters
/// separate tokens and may be added or removed between tokens.
pub proof fn law_white_space_skipped(s: Seq<char>, o: int)
    requires
        0 <= o < s.len(),
        unicode_white_space(s[o]),
    ensures
        scan(s, o) == scan(s, o + 1),
{
    assert(skip_space(s, o) == skip_space(s, o + 1));
}

/// Any other character where scanning starts is not passed over: a token,
/// or text that no token matches, begins right there.
pub proof fn law_other_char_not_skipped(s: Seq<char>, o: int)
    requires
        0 <= o < s.len(),
        !unicode_white_space(s[o]),
    ensures
        !(scan(s, o) is End),
        scan(s, o) matches ScanModel::Found(t) ==> t.start == o,
        scan(s, o) matches ScanModel::Unmatched(p) ==> p == o,
{
    assert(skip_space(s, o) == o);
}

/// The characters of an identifier: ASCII letters, digits and `_`.
pub open spec fn identifier_char(c: char) -> bool {
    ('a' <= c <= 'z') || ('A' <= c <= 'Z') || ('0' <= c <= '9') || c == '_'
}

/// An identifier token starts with a letter or `_` and runs over every
/// following letter, digit and `_`: it stops only at another character or
/// at the end of the input.
pub proof fn law_identifier_extent(s: Seq<char>, o: int)
    requires
        0 <= o <= s.len(),
        scan(s, o) matches ScanModel::Found(t) && t.kind == Kind::Identifier,
    ensures
        ({
            let t = scan(s, o)->Found_0;
            &&& ('a' <= s[t.start] <= 'z') || ('A' <= s[t.start] <= 'Z') || s[t.start] == '_'
            &&& forall|i: int| t.start <= i < t.end ==> #[trigger] identifier_char(s[i])
            &&& t.end < s.len() ==> !identifier_char(s[t.end])
        }),
{
    lemma_scan_bounds(s, o);
    let t = scan(s, o)->Found_0;
    lemma_word_end_chars(s, t.start);
    assert forall|i: int| t.start <= i < t.end implies #[trigger] identifier_char(s[i]) by {
        assert(crate::tokenizer::is_word_char(s[i]));
    }
}

/// The key of an object entry: an identifier key is its text, all of it;
/// a string key is its text without the first and last character (its
/// quotes).
pub proof fn law_key_name(env: Env, k: crate::tokenizer::Tok)
    requires
        0 <= k.start <= k.end <= env.src.len(),
    ensures
        k.kind == Kind::Identifier ==> key_name(env, k) == env.src.subrange(k.start, k.end),
        k.kind == Kind::Str && k.start + 2 <= k.end ==> key_name(env, k) == env.src.subrange(
            k.start + 1,
            k.end - 1,
        ),
{
    if k.kind == Kind::Str && k.start + 2 <= k.end {
        assert(key_name(env, k) =~= env.src.subrange(k.start + 1, k.end - 1));
    }
}

/// An object of one entry `{k: e}` is bound under exactly the key's text
/// for an identifier key, and under the text between the quotes for a
/// string key, with the value of `e`.
pub proof fn law_object_single_entry(
    env: Env,
    o: int,
    u: int,
    k: crate::tokenizer::Tok,
    o1: int,
    o2: int,
    v: Json,
    o3: int,
    u3: int,
    f: int,
)
    requires
        0 <= o <= env.src.len(),
        require_key(env, o) == Take::Got(k, o1),
        lands_at(require(env, o1, Kind::Colon), o2),
        expr(env, o2, u, 0) == Flow::Done(v, o3, u3),
        attempt(env, o3, Kind::Comma) is Absent,
        lands_at(require(env, o3, Kind::RBrace), f),
    ensures
        k.kind == Kind::Identifier ==> object_items(env, o, u, Seq::empty()) == Flow::Done(
            Json::Object(seq![(env.src.subrange(k.start, k.end), v)]),
            f,
            u3,
        ),
        k.kind == Kind::Str ==> object_items(env, o, u, Seq::empty()) == Flow::Done(
            Json::Object(seq![(env.src.subrange(k.start + 1, k.end - 1), v)]),
            f,
            u3,
        ),
{
    lemma_scan_bounds(env.src, o);
    lemma_scan_bounds(env.src, o1);
    let name = key_name(env, k);
    assert(crate::context::key_index(Seq::<(Seq<char>, Json)>::empty(), name) == -1);
    assert(bind(Seq::empty(), name, v) =~= seq![(name, v)]);
    if k.kind == Kind::Str {
        assert(name =~= env.src.subrange(k.start + 1, k.end - 1));
    }
}

/// `!` of a value read as its operand: true for null; the negation of a
/// boolean; whether a string, an array or an object has no element or
/// entry; for a number, false for not-a-number, true for a zero mantissa,
/// false for a negative number, a non-positive exponent or a product that
/// fits in 64 bits, and otherwise json's comparison with zero; an abort
/// where that comparison overflows.
pub proof fn law_not(env: Env, t: crate::tokenizer::Tok, o: int, u: int, v: Json, o2: int, u2: int)
    requires
        0 <= o <= env.src.len(),
        t.kind == Kind::Not,
        expr(env, o, u, UNARY as int) == Flow::Done(v, o2, u2),
    ensures
        prefix(env, t, o, u) == match v {
            Json::Null => Flow::Done(Json::Boolean(true), o2, u2),
            Json::Boolean(b) => Flow::Done(Json::Boolean(!b), o2, u2),
            Json::Str(s) => Flow::Done(Json::Boolean(s.len() == 0), o2, u2),
            Json::Short(s) => Flow::Done(Json::Boolean(s.len() == 0), o2, u2),
            Json::Array(a) => Flow::Done(Json::Boolean(a.len() == 0), o2, u2),
            Json::Object(es) => Flow::Done(Json::Boolean(es.len() == 0), o2, u2),
            Json::Number(n) => if !n.nan && n.positive && n.mantissa != 0 && n.exponent == i16::MIN {
                Flow::Abort
            } else if n.nan {
                Flow::Done(Json::Boolean(false), o2, u2)
            } else if n.mantissa == 0 {
                Flow::Done(Json::Boolean(true), o2, u2)
            } else if !n.positive || n.exponent <= 0 || n.spec_product_fits() {
                Flow::Done(Json::Boolean(false), o2, u2)
            } else {
                Flow::Done(
                    Json::Boolean(crate::number::json_equals_zero(n.positive, n.mantissa, n.exponent)),
                    o2,
                    u2,
                )
            },
        },
{
}

/// `+` of two strings concatenates them into a string of the same kind,
/// which `+` accepts again.
pub proof fn law_concat(env: Env, a: Seq<char>, o: int, u: int, b: Seq<char>, o2: int, u2: int)
    requires
        0 <= o <= env.src.len(),
        expr(env, o, u, binding(Kind::Plus)) == Flow::Done(Json::Str(b), o2, u2),
    ensures
        infix(env, Kind::Plus, Json::Str(a), o, u) == Flow::Done(Json::Str(a + b), o2, u2),
{
}

/// Five tokens `s0 + s1 + s2`, three strings and two `+`, and nothing
/// after them; `ends` holds where each token ends.
pub open spec fn three_strings(src: Seq<char>, ends: Seq<int>) -> bool {
    &&& ends.len() == 5
    &&& token_at(src, 0, Kind::Str, ends[0])
    &&& token_at(src, ends[0], Kind::Plus, ends[1])
    &&& token_at(src, ends[1], Kind::Str, ends[2])
    &&& token_at(src, ends[2], Kind::Plus, ends[3])
    &&& token_at(src, ends[3], Kind::Str, ends[4])
    &&& scan(src, ends[4]) is End
}

/// The text between the quotes of the string token found at `o`.
pub open spec fn string_at(src: Seq<char>, o: int) -> Seq<char> {
    src.subrange(scan(src, o)->Found_0.start + 1, scan(src, o)->Found_0.end - 1)
}

/// `s0 + s1 + s2` of three string literals evaluates to the string of
/// their three texts joined, with no floating-point computation.
pub proof fn law_string_chain(src: Seq<char>, ctx: Map<Seq<char>, Json>, tape: Seq<Num>, ends: Seq<int>)
    requires
        three_strings(src, ends),
    ensures
        evaluate(src, ctx, tape) == StepModel::Finished(Ok(Json::Str(
            string_at(src, 0) + string_at(src, ends[1]) + string_at(src, ends[3]),
        ))),
{
    lemma_scan_bounds(src, 0);
    lemma_scan_bounds(src, ends[0]);
    lemma_scan_bounds(src, ends[1]);
    lemma_scan_bounds(src, ends[2]);
    lemma_scan_bounds(src, ends[3]);
    let e = ends;
    let env = Env { src, ctx, tape };
    let tx = scan(src, 0)->Found_0;
    let ty = scan(src, e[1])->Found_0;
    let tz = scan(src, e[3])->Found_0;
    let sx = string_at(src, 0);
    let sy = string_at(src, e[1]);
    let sz = string_at(src, e[3]);
    assert(unquote(text_of(env, tx)) =~= sx);
    assert(unquote(text_of(env, ty)) =~= sy);
    assert(unquote(text_of(env, tz)) =~= sz);
    assert(prefix(env, ty, e[2], 0) == Flow::Done(Json::Str(sy), e[2], 0));
    assert(infix_loop(env, Json::Str(sy), 6, e[2], 0) == Flow::Done(Json::Str(sy), e[2], 0));
    assert(expr(env, e[1], 0, 6) == Flow::Done(Json::Str(sy), e[2], 0));
    assert(infix(env, Kind::Plus, Json::Str(sx), e[1], 0) == Flow::Done(Json::Str(sx + sy), e[2], 0));
    assert(prefix(env, tz, e[4], 0) == Flow::Done(Json::Str(sz), e[4], 0));
    assert(infix_loop(env, Json::Str(sz), 6, e[4], 0) == Flow::Done(Json::Str(sz), e[4], 0));
    assert(expr(env, e[3], 0, 6) == Flow::Done(Json::Str(sz), e[4], 0));
    assert(infix(env, Kind::Plus, Json::Str(sx + sy), e[3], 0) == Flow::Done(
        Json::Str(sx + sy + sz),
        e[4],
        0,
    ));
    assert(infix_loop(env, Json::Str(sx + sy + sz), 0, e[4], 0) == Flow::Done(
        Json::Str(sx + sy + sz),
        e[4],
        0,
    ));
    assert(infix_loop(env, Json::Str(sx + sy), 0, e[2], 0) == Flow::Done(
        Json::Str(sx + sy + sz),
        e[4],
        0,
    ));
    assert(infix_loop(env, Json::Str(sx), 0, e[0], 0) == Flow::Done(Json::Str(sx + sy + sz), e[4], 0));
    assert(prefix(env, tx, e[0], 0) == Flow::Done(Json::Str(sx), e[0], 0));
    assert(expr(env, 0, 0, 0) == Flow::Done(Json::Str(sx + sy + sz), e[4], 0));
}


/// A number token is a run of decimal digits, optionally followed by `.`
/// and a second run of digits: it takes every digit that follows, and a `.`
/// only where a digit comes after it.
pub proof fn law_number_extent(s: Seq<char>, o: int)
    requires
        0 <= o <= s.len(),
        scan(s, o) matches ScanModel::Found(t) && t.kind == Kind::Number,
    ensures
        ({
            let t = scan(s, o)->Found_0;
            &&& '0' <= s[t.start] <= '9'
            &&& forall|i: int| t.start <= i < t.end ==> ('0' <= #[trigger] s[i] <= '9' || s[i] == '.')
            &&& t.end < s.len() ==> !('0' <= s[t.end] <= '9')
            &&& t.end < s.len() && s[t.end] == '.' ==> (t.end + 1 == s.len() || !('0' <= s[t.end + 1] <= '9')
                || exists|i: int| t.start <= i < t.end && s[i] == '.')
        }),
{
    lemma_scan_bounds(s, o);
    let t = scan(s, o)->Found_0;
    let p = t.start;
    let e = crate::tokenizer::digits_end(s, p);
    lemma_digits_end_chars(s, p);
    crate::tokenizer::lemma_digits_end(s, p);
    if crate::tokenizer::char_at(s, e) == '.' && crate::tokenizer::is_digit(crate::tokenizer::char_at(s, e + 1)) {
        lemma_digits_end_chars(s, e + 1);
        crate::tokenizer::lemma_digits_end(s, e + 1);
        assert forall|i: int| t.start <= i < t.end implies ('0' <= #[trigger] s[i] <= '9' || s[i] == '.') by {
            if i < e {
                assert(crate::tokenizer::is_digit(s[i]));
            } else if i > e {
                assert(crate::tokenizer::is_digit(s[i]));
            }
        }
        if t.end < s.len() && s[t.end] == '.' {
            assert(s[e] == '.');
        }
    } else {
        assert forall|i: int| t.start <= i < t.end implies ('0' <= #[trigger] s[i] <= '9' || s[i] == '.') by {
            assert(crate::tokenizer::is_digit(s[i]));
        }
    }
}

/// A string token runs from a quote to the next occurrence of the same
/// quote, with no such quote between.
pub proof fn law_string_extent(s: Seq<char>, o: int)
    requires
        0 <= o <= s.len(),
        scan(s, o) matches ScanModel::Found(t) && t.kind == Kind::Str,
    ensures
        ({
            let t = scan(s, o)->Found_0;
            &&& s[t.start] == '\'' || s[t.start] == '"'
            &&& t.start + 2 <= t.end
            &&& s[t.end - 1] == s[t.start]
            &&& forall|i: int| t.start < i < t.end - 1 ==> #[trigger] s[i] != s[t.start]
        }),
{
    lemma_scan_bounds(s, o);
    let t = scan(s, o)->Found_0;
    lemma_quote_end_chars(s, t.start + 1, s[t.start]);
    lemma_quote_end(s, t.start + 1, s[t.start]);
}

/// The words `true`, `false`, `in` and `null` are keywords; any other word
/// of letters, digits and `_` is an identifier.
pub proof fn law_keywords(s: Seq<char>, o: int)
    requires
        0 <= o <= s.len(),
        scan(s, o) matches ScanModel::Found(t) && (t.kind == Kind::Identifier || t.kind == Kind::True
            || t.kind == Kind::False || t.kind == Kind::In || t.kind == Kind::Null),
    ensures
        ({
            let t = scan(s, o)->Found_0;
            let w = s.subrange(t.start, t.end);
            &&& t.kind == Kind::True <==> w == seq!['t', 'r', 'u', 'e']
            &&& t.kind == Kind::False <==> w == seq!['f', 'a', 'l', 's', 'e']
            &&& t.kind == Kind::In <==> w == seq!['i', 'n']
            &&& t.kind == Kind::Null <==> w == seq!['n', 'u', 'l', 'l']
        }),
{
    lemma_scan_bounds(s, o);
}

/// An identifier reads as what the context binds its text to, or, where
/// the context binds nothing to it, as the error "unknown context value"
/// followed by the text.
pub proof fn law_identifier_value(env: Env, t: crate::tokenizer::Tok, o: int, u: int)
    requires
        0 <= o <= env.src.len(),
        t.kind == Kind::Identifier,
    ensures
        ({
            let name = env.src.subrange(t.start, t.end);
            prefix(env, t, o, u) == if env.ctx.dom().contains(name) {
                Flow::Done(env.ctx[name], o, u)
            } else {
                Flow::Fail(ErrorModel::Interpreter("unknown context value "@ + name))
            }
        }),
{
}

/// Unary `-` flips the sign of a number and leaves its digits and exponent
/// (and not-a-number) as they are; unary `+` gives the number unchanged;
/// either on any other value is the error "This operator expects a number".
pub proof fn law_unary_sign(env: Env, t: crate::tokenizer::Tok, o: int, u: int, v: Json, o2: int, u2: int)
    requires
        0 <= o <= env.src.len(),
        t.kind == Kind::Minus || t.kind == Kind::Plus,
        expr(env, o, u, UNARY as int) == Flow::Done(v, o2, u2),
    ensures
        match v {
            Json::Number(n) => prefix(env, t, o, u) == Flow::Done(
                Json::Number(if t.kind == Kind::Minus && !n.nan {
                    Num { nan: false, positive: !n.positive, mantissa: n.mantissa, exponent: n.exponent }
                } else {
                    n
                }),
                o2,
                u2,
            ),
            _ => prefix(env, t, o, u) == Flow::Fail(ErrorModel::Interpreter("This operator expects a number"@)),
        },
{
}

/// A number literal reads as the next floating-point result supplied, or
/// asks for its text to be read as a number when none is left.
pub proof fn law_number_literal(env: Env, t: crate::tokenizer::Tok, o: int, u: int)
    requires
        0 <= o <= env.src.len(),
        0 <= u,
        t.kind == Kind::Number,
    ensures
        prefix(env, t, o, u) == if u < env.tape.len() {
            Flow::Done(Json::Number(env.tape[u]), o, u + 1)
        } else {
            Flow::Compute(FloatOpModel::Literal(env.src.subrange(t.start, t.end)))
        },
{
}


/// `+`, `*` and `**` on two numbers take the next floating-point result
/// supplied, or ask for the sum, product or power of the left and right
/// operands (in that order) when none is left; on operands of other kinds
/// they fail with their own message, except `+` on two strings (see
/// `law_concat`).
pub proof fn law_arithmetic(env: Env, k: Kind, left: Json, o: int, u: int, right: Json, o2: int, u2: int)
    requires
        0 <= o <= env.src.len(),
        0 <= u2,
        k == Kind::Plus || k == Kind::Times || k == Kind::Power,
        expr(env, o, u, if k == Kind::Plus { 6int } else if k == Kind::Times { 7int } else { 8int })
            == Flow::Done(right, o2, u2),
    ensures
        match (left, right) {
            (Json::Number(a), Json::Number(b)) => infix(env, k, left, o, u) == if u2 < env.tape.len() {
                Flow::Done(Json::Number(env.tape[u2]), o2, u2 + 1)
            } else {
                Flow::Compute(
                    if k == Kind::Plus {
                        FloatOpModel::Add(a, b)
                    } else if k == Kind::Times {
                        FloatOpModel::Mul(a, b)
                    } else {
                        FloatOpModel::Pow(a, b)
                    },
                )
            },
            (Json::Str(_), Json::Str(_)) => k != Kind::Plus ==> infix(env, k, left, o, u) == Flow::Fail(
                ErrorModel::Interpreter(
                    if k == Kind::Times {
                        "infix: *', 'number + number"@
                    } else {
                        "infix: **', 'number + number"@
                    },
                ),
            ),
            _ => infix(env, k, left, o, u) == Flow::Fail(
                ErrorModel::Interpreter(
                    if k == Kind::Plus {
                        "infix: +', 'number/string + number/string"@
                    } else if k == Kind::Times {
                        "infix: *', 'number + number"@
                    } else {
                        "infix: **', 'number + number"@
                    },
                ),
            ),
        },
{
}

} // verus!
