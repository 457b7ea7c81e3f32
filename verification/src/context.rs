//! The evaluation context: a flat, case-sensitive mapping from variable
//! names to values, created fresh for each batch and mutated only by
//! assignment statements. A lookup of an unbound name reports an error,
//! never a silent default.
//!
//! Bindings are kept in insertion order; a later binding for the same name
//! shadows an earlier one, which gives `set` its overwrite semantics.

use vstd::prelude::*;
use crate::ratio::{Ratio, ratio_wf};

verus! {

/// One binding: a variable name (its bytes) and its value.
pub struct Binding {
    pub name: Vec<u8>,
    pub val: Ratio,
}

/// The mapping a context denotes: its bindings, oldest first.
pub struct Context {
    entries: Vec<Binding>,
}

impl View for Context {
    type V = Seq<(Seq<u8>, Ratio)>;

    closed spec fn view(&self) -> Seq<(Seq<u8>, Ratio)> {
        self.entries@.map(|k: int, b: Binding| (b.name@, b.val))
    }
}

/// The value bound to `name`, scanning the newest bindings first.
pub open spec fn spec_lookup(ctx: Seq<(Seq<u8>, Ratio)>, name: Seq<u8>) -> Option<Ratio>
    decreases ctx.len(),
{
    if ctx.len() == 0 {
        None
    } else if ctx.last().0 == name {
        Some(ctx.last().1)
    } else {
        spec_lookup(ctx.drop_last(), name)
    }
}

/// Every value a context holds is well formed.
pub open spec fn ctx_wf(ctx: Seq<(Seq<u8>, Ratio)>) -> bool {
    forall|k: int| 0 <= k < ctx.len() ==> ratio_wf(#[trigger] ctx[k].1)
}

/// A value looked up in a well-formed context is well formed.
pub proof fn lemma_lookup_wf(ctx: Seq<(Seq<u8>, Ratio)>, name: Seq<u8>)
    requires
        ctx_wf(ctx),
    ensures
        spec_lookup(ctx, name) matches Some(v) ==> ratio_wf(v),
    decreases ctx.len(),
{
    if ctx.len() > 0 && !(ctx.last().0 == name) {
        assert(ctx_wf(ctx.drop_last()));
        lemma_lookup_wf(ctx.drop_last(), name);
    }
}

/// Byte-for-byte equality of two names.
fn bytes_eq(a: &[u8], b: &[u8]) -> (r: bool)
    ensures
        r == (a@ == b@),
{
    if a.len() != b.len() {
        assert(a@ != b@) by {
            assert(a@.len() != b@.len());
        }
        return false;
    }
    let n = a.len();
    let mut k: usize = 0;
    while k < n
        invariant
            n == a@.len() == b@.len(),
            0 <= k <= n,
            forall|j: int| 0 <= j < k ==> a@[j] == b@[j],
        decreases n - k,
    {
        if a[k] != b[k] {
            return false;
        }
        k = k + 1;
    }
    assert(a@ =~= b@);
    true
}

impl Context {
    /// Whether every value the context holds is well formed.
    pub open spec fn wf(&self) -> bool {
        ctx_wf(self@)
    }

    /// A fresh, empty context.
    pub fn new() -> (r: Context)
        ensures
            r@ == Seq::<(Seq<u8>, Ratio)>::empty(),
            r.wf(),
    {
        let r = Context { entries: Vec::new() };
        proof {
            assert(r@ =~= Seq::<(Seq<u8>, Ratio)>::empty());
        }
        r
    }

    /// The value bound to `name`, or `None` when the name is unbound.
    pub fn get(&self, name: &[u8]) -> (r: Option<Ratio>)
        ensures
            r == spec_lookup(self@, name@),
    {
        let n = self.entries.len();
        let mut j = n;
        proof {
            assert(self@.take(n as int) =~= self@);
        }
        while j > 0
            invariant
                0 <= j <= n,
                n == self.entries@.len(),
                self@.len() == n,
                spec_lookup(self@, name@) == spec_lookup(self@.take(j as int), name@),
            decreases j,
        {
            j = j - 1;
            proof {
                assert(self@.take(j + 1).drop_last() =~= self@.take(j as int));
                assert(self@.take(j + 1).last() == self@[j as int]);
            }
            if bytes_eq(self.entries[j].name.as_slice(), name) {
                return Some(self.entries[j].val);
            }
        }
        proof {
            assert(self@.take(0) =~= Seq::<(Seq<u8>, Ratio)>::empty());
        }
        None
    }

    /// Bind `name` to `val`, overwriting (by shadowing) any earlier binding.
    pub fn set(&mut self, name: Vec<u8>, val: Ratio)
        requires
            ratio_wf(val),
        ensures
            final(self)@ == old(self)@.push((name@, val)),
            old(self).wf() ==> final(self).wf(),
    {
        let ghost old_view = self@;
        let ghost nm = name@;
        self.entries.push(Binding { name, val });
        proof {
            assert(self@ =~= old_view.push((nm, val)));
        }
    }
}

} // verus!
