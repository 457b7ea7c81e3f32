//! The batch driver.
//!
//! A batch is parsed as a whole; if any text remains unconsumed the batch
//! fails with a parse error and nothing is evaluated. Otherwise every
//! statement is evaluated in source order against one fresh context, each
//! outcome — value or statement-local error — rendered as that statement's
//! result string. The whole run is a function of the batch text alone, so
//! evaluating the same text twice yields identical result sequences.

use vstd::prelude::*;
use vstd::string::StringSliceAdditionalSpecFns;
use crate::ast::Stmt;
use crate::context::Context;
use crate::error::ParseError;
use crate::eval::{eval_stmt, out_of, spec_eval_stmt};
use crate::parser::{parse_stmt_list, spec_parse};
use crate::ratio::Ratio;
use crate::render::{
    bytes_to_string, lemma_render_ascii, render_result, spec_render_out, str_is_bytes,
};

verus! {

/// The result strings (as bytes) of statements `k..` evaluated in order
/// from `ctx`, appended after `acc`.
pub open spec fn spec_run(
    stmts: Seq<Stmt>,
    t: Seq<u8>,
    ctx: Seq<(Seq<u8>, Ratio)>,
    k: int,
    acc: Seq<Seq<u8>>,
) -> Seq<Seq<u8>>
    decreases stmts.len() - k,
{
    if k < 0 || k >= stmts.len() {
        acc
    } else {
        let step = spec_eval_stmt(stmts[k], t, ctx);
        spec_run(stmts, t, step.1, k + 1, acc.push(spec_render_out(step.0)))
    }
}

/// What a batch of text denotes: `None` when the batch does not parse
/// completely, otherwise the ordered result strings, one per statement.
pub open spec fn spec_batch(s: Seq<u8>) -> Option<Seq<Seq<u8>>> {
    let p = spec_parse(s);
    if p.1 == s.len() {
        Some(spec_run(p.0, s, Seq::empty(), 0, Seq::empty()))
    } else {
        None
    }
}

/// The context after the first `k` statements of a batch.
pub open spec fn spec_ctx_after(stmts: Seq<Stmt>, t: Seq<u8>, k: int) -> Seq<(Seq<u8>, Ratio)>
    decreases k,
{
    if k <= 0 {
        Seq::empty()
    } else {
        spec_eval_stmt(stmts[k - 1], t, spec_ctx_after(stmts, t, k - 1)).1
    }
}

/// The result string of statement `k` of a batch: its outcome in the
/// context left by the statements before it.
pub open spec fn spec_result_at(stmts: Seq<Stmt>, t: Seq<u8>, k: int) -> Seq<u8> {
    spec_render_out(spec_eval_stmt(stmts[k], t, spec_ctx_after(stmts, t, k)).0)
}

/// A run produces exactly one result per remaining statement.
pub proof fn lemma_run_len(
    stmts: Seq<Stmt>,
    t: Seq<u8>,
    ctx: Seq<(Seq<u8>, Ratio)>,
    k: int,
    acc: Seq<Seq<u8>>,
)
    requires
        0 <= k <= stmts.len(),
    ensures
        spec_run(stmts, t, ctx, k, acc).len() == acc.len() + stmts.len() - k,
    decreases stmts.len() - k,
{
    if k < stmts.len() {
        let step = spec_eval_stmt(stmts[k], t, ctx);
        lemma_run_len(stmts, t, step.1, k + 1, acc.push(spec_render_out(step.0)));
    }
}

/// A run never disturbs the results accumulated before it.
pub proof fn lemma_run_prefix(
    stmts: Seq<Stmt>,
    t: Seq<u8>,
    ctx: Seq<(Seq<u8>, Ratio)>,
    k: int,
    acc: Seq<Seq<u8>>,
    j: int,
)
    requires
        0 <= k <= stmts.len(),
        0 <= j < acc.len(),
    ensures
        spec_run(stmts, t, ctx, k, acc)[j] == acc[j],
    decreases stmts.len() - k,
{
    if k < stmts.len() {
        let step = spec_eval_stmt(stmts[k], t, ctx);
        lemma_run_prefix(stmts, t, step.1, k + 1, acc.push(spec_render_out(step.0)), j);
    }
}

/// Order preservation over a run: result `acc.len() + (j - k)` is the
/// result of statement `j`, evaluated in the context the statements before
/// it left behind.
proof fn lemma_run_correspond(stmts: Seq<Stmt>, t: Seq<u8>, k: int, acc: Seq<Seq<u8>>, j: int)
    requires
        0 <= k <= j < stmts.len(),
    ensures
        spec_run(stmts, t, spec_ctx_after(stmts, t, k), k, acc)[acc.len() + j - k]
            == spec_result_at(stmts, t, j),
    decreases stmts.len() - k,
{
    let ctx = spec_ctx_after(stmts, t, k);
    let step = spec_eval_stmt(stmts[k], t, ctx);
    let acc2 = acc.push(spec_render_out(step.0));
    assert(spec_ctx_after(stmts, t, k + 1) == step.1);
    if j == k {
        lemma_run_len(stmts, t, step.1, k + 1, acc2);
        lemma_run_prefix(stmts, t, step.1, k + 1, acc2, acc.len() as int);
    } else {
        lemma_run_correspond(stmts, t, k + 1, acc2, j);
    }
}

/// Order preservation for a whole batch: a batch that parses completely
/// yields exactly one result per statement, in source order, and result
/// `k` is statement `k`'s outcome in the context left by the statements
/// before it.
pub proof fn lemma_batch_order(s: Seq<u8>)
    requires
        spec_batch(s) is Some,
    ensures
        spec_batch(s)->Some_0.len() == spec_parse(s).0.len(),
        forall|k: int|
            0 <= k < spec_parse(s).0.len() ==> spec_batch(s)->Some_0[k] == spec_result_at(
                spec_parse(s).0,
                s,
                k,
            ),
{
    let stmts = spec_parse(s).0;
    lemma_run_len(stmts, s, Seq::empty(), 0, Seq::empty());
    assert forall|k: int| 0 <= k < stmts.len() implies spec_batch(s)->Some_0[k]
        == spec_result_at(stmts, s, k) by {
        assert(spec_ctx_after(stmts, s, 0) == Seq::<(Seq<u8>, Ratio)>::empty());
        lemma_run_correspond(stmts, s, 0, Seq::empty(), k);
    }
}

/// Atomic parse: a batch in which any text remains unconsumed — a
/// trailing token no statement production accepts — denotes no result
/// sequence at all; no statement of it is evaluated.
pub proof fn lemma_atomic_parse(s: Seq<u8>)
    ensures
        spec_parse(s).1 != s.len() ==> spec_batch(s) is None,
        spec_batch(s) is None ==> spec_parse(s).1 != s.len(),
{
}

/// Parse and evaluate a whole batch.
///
/// The result is a function of the batch text alone: parsing is atomic
/// (any unconsumed text fails the whole batch before anything is
/// evaluated), and on success there is exactly one result string per
/// statement, in source order.
pub fn eval_batch(text: &str) -> (r: Result<Vec<String>, ParseError>)
    ensures
        r is Ok <==> spec_batch(text.spec_bytes()) is Some,
        spec_parse(text.spec_bytes()).1 != text.spec_bytes().len() ==> r is Err,
        r matches Ok(v) ==> {
            &&& v@.len() == spec_batch(text.spec_bytes())->Some_0.len()
            &&& v@.len() == spec_parse(text.spec_bytes()).0.len()
            &&& forall|k: int|
                0 <= k < v@.len() ==> str_is_bytes(
                    (#[trigger] v@[k])@,
                    spec_batch(text.spec_bytes())->Some_0[k],
                )
        },
{
    let (stmts, pos) = parse_stmt_list(text);
    let t = text.as_bytes();
    if pos != t.len() {
        return Err(ParseError);
    }
    let ghost rs = spec_batch(text.spec_bytes())->Some_0;
    proof {
        lemma_batch_order(text.spec_bytes());
    }
    let mut ctx = Context::new();
    let mut out: Vec<String> = Vec::new();
    let ghost mut acc: Seq<Seq<u8>> = Seq::empty();
    let mut k: usize = 0;
    while k < stmts.len()
        invariant
            0 <= k <= stmts@.len(),
            ctx.wf(),
            out@.len() == k,
            acc.len() == k,
            t@ == text.spec_bytes(),
            stmts@ == spec_parse(text.spec_bytes()).0,
            rs == spec_batch(text.spec_bytes())->Some_0,
            spec_batch(text.spec_bytes()) is Some,
            rs == spec_run(stmts@, t@, ctx@, k as int, acc),
            forall|j: int| 0 <= j < k ==> str_is_bytes((#[trigger] out@[j])@, acc[j]),
        decreases stmts@.len() - k,
    {
        let res = eval_stmt(&stmts[k], text, &mut ctx);
        let bytes = render_result(&res);
        proof {
            lemma_render_ascii(out_of(res));
            assert forall|j: int| 0 <= j < bytes@.len() implies bytes@[j] < 128 by {
                assert(bytes@[j] == spec_render_out(out_of(res))[j]);
            }
        }
        let s1 = bytes_to_string(bytes);
        out.push(s1);
        proof {
            acc = acc.push(spec_render_out(out_of(res)));
        }
        k = k + 1;
    }
    proof {
        lemma_run_len(stmts@, t@, ctx@, k as int, acc);
    }
    Ok(out)
}

} // verus!
