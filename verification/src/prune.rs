//! Dependency-array pruning.
//!
//! Given an array literal and the final constant registry, the pruner keeps
//! exactly the present elements that do not resolve to a registry member: a
//! bare identifier in the registry is dropped, a conditional whose
//! consequent is such an identifier is dropped, and every other element is
//! kept unchanged and in order.  Elisions are dropped.

use vstd::prelude::*;
use crate::ast::{Arg, Expr};
use crate::registry::{ahas, Registry};

verus! {

/// True when the pruner keeps this array element: it must be present, and
/// it must not be a bare identifier in the registry, nor a conditional
/// whose consequent is a bare identifier in the registry.
pub open spec fn keep_elem(o: Option<Arg>, reg: Seq<(u64, bool)>) -> bool {
    match o {
        Option::None => false,
        Option::Some(a) => match a.expr {
            Expr::Cond { test: _, cons, alt: _ } => match *cons {
                Expr::Ident { id } => !ahas(reg, id),
                _ => true,
            },
            Expr::Ident { id } => !ahas(reg, id),
            _ => true,
        },
    }
}

/// The pruned element list: the kept elements, in original order.
pub open spec fn spec_prune(elems: Seq<Option<Arg>>, reg: Seq<(u64, bool)>) -> Seq<Option<Arg>> {
    elems.filter(|o: Option<Arg>| keep_elem(o, reg))
}

/// Prunes a dependency-array element list against the constant registry.
pub fn clean_deps_array(elems: Vec<Option<Arg>>, reg: &Registry) -> (r: Vec<Option<Arg>>)
    ensures
        r@ == spec_prune(elems@, reg.items@),
{
    let ghost orig = elems@;
    let n0: usize = elems.len();
    proof {
        assert(orig.len() == n0 as int);
    }
    let mut rest = elems;
    let mut out: Vec<Option<Arg>> = Vec::new();
    let mut i: usize = 0;
    while rest.len() > 0
        invariant
            orig.len() <= usize::MAX,
            i <= orig.len(),
            rest@ =~= orig.subrange(i as int, orig.len() as int),
            out@ == orig.take(i as int).filter(|o: Option<Arg>| keep_elem(o, reg.items@)),
        decreases rest@.len(),
    {
        let o = rest.remove(0);
        proof {
            assert(o == orig[i as int]);
        }
        let kept: bool = match &o {
            Option::None => false,
            Option::Some(a) => match &a.expr {
                Expr::Cond { test: _, cons, alt: _ } => match &**cons {
                    Expr::Ident { id } => self_absent(reg, *id),
                    _ => true,
                },
                Expr::Ident { id } => self_absent(reg, *id),
                _ => true,
            },
        };
        proof {
            assert(kept == keep_elem(orig[i as int], reg.items@));
            let t = orig.take(i + 1);
            assert(t.drop_last() =~= orig.take(i as int));
            assert(t.last() == orig[i as int]);
            reveal(Seq::filter);
        }
        if kept {
            out.push(o);
        }
        i += 1;
        proof {
            assert(rest@ =~= orig.subrange(i as int, orig.len() as int));
        }
    }
    proof {
        assert(orig.take(orig.len() as int) =~= orig);
    }
    out
}

/// True when the registry has no entry for `id`.
fn self_absent(reg: &Registry, id: u64) -> (r: bool)
    ensures
        r == !ahas(reg.items@, id),
{
    match reg.find(id) {
        Option::Some(_) => false,
        Option::None => true,
    }
}

proof fn lemma_filter_all<A>(s: Seq<A>, p: spec_fn(A) -> bool)
    requires
        forall|i: int| 0 <= i < s.len() ==> p(#[trigger] s[i]),
    ensures
        s.filter(p) == s,
    decreases s.len(),
{
    reveal(Seq::filter);
    if s.len() > 0 {
        lemma_filter_all(s.drop_last(), p);
        assert(s.drop_last().push(s.last()) =~= s);
    } else {
        assert(s.filter(p) =~= s);
    }
}

/// Pruning is idempotent: an array already pruned against a registry is
/// left unchanged by pruning it again against the same registry.
pub proof fn lemma_prune_idempotent(elems: Seq<Option<Arg>>, reg: Seq<(u64, bool)>)
    ensures
        spec_prune(spec_prune(elems, reg), reg) == spec_prune(elems, reg),
{
    let p = |o: Option<Arg>| keep_elem(o, reg);
    elems.filter_lemma(p);
    lemma_filter_all(elems.filter(p), p);
}

/// Soundness of pruning: an entry that does not resolve to a registry
/// member is never removed, and everything the pruner keeps is a kept
/// entry of the original array.
pub proof fn lemma_prune_sound(elems: Seq<Option<Arg>>, reg: Seq<(u64, bool)>)
    ensures
        forall|i: int|
            0 <= i < elems.len() && keep_elem(#[trigger] elems[i], reg) ==> spec_prune(
                elems,
                reg,
            ).contains(elems[i]),
        forall|j: int|
            0 <= j < spec_prune(elems, reg).len() ==> keep_elem(
                #[trigger] spec_prune(elems, reg)[j],
                reg,
            ) && elems.contains(spec_prune(elems, reg)[j]),
{
    let p = |o: Option<Arg>| keep_elem(o, reg);
    elems.filter_lemma(p);
    lemma_filter_in(elems, p);
}

/// Everything a filter keeps is an element of the original sequence.
pub proof fn lemma_filter_in<A>(s: Seq<A>, p: spec_fn(A) -> bool)
    ensures
        forall|j: int| 0 <= j < s.filter(p).len() ==> s.contains(#[trigger] s.filter(p)[j]),
    decreases s.len(),
{
    reveal(Seq::filter);
    if s.len() > 0 {
        let t = s.drop_last();
        lemma_filter_in(t, p);
        assert forall|j: int| 0 <= j < s.filter(p).len() implies s.contains(
            #[trigger] s.filter(p)[j],
        ) by {
            if j < t.filter(p).len() {
                let x = t.filter(p)[j];
                assert(t.contains(x));
                let w = choose|w: int| 0 <= w < t.len() && t[w] == x;
                assert(s[w] == x);
            } else {
                assert(s.filter(p)[j] == s.last());
                assert(s[s.len() - 1] == s.last());
            }
        }
    }
}


/// True when pruning would leave nothing: every element is an elision or
/// resolves to a registry member.  Decides the rules that only fire on an
/// emptied array without consuming it.
pub fn prune_leaves_nothing(elems: &Vec<Option<Arg>>, reg: &Registry) -> (r: bool)
    ensures
        r == (spec_prune(elems@, reg.items@).len() == 0),
{
    let n: usize = elems.len();
    let mut i: usize = 0;
    while i < n
        invariant
            i <= n,
            n == elems@.len(),
            spec_prune(elems@.take(i as int), reg.items@).len() == 0,
        decreases n - i,
    {
        let kept: bool = match &elems[i] {
            Option::None => false,
            Option::Some(a) => match &a.expr {
                Expr::Cond { test: _, cons, alt: _ } => match &**cons {
                    Expr::Ident { id } => self_absent(reg, *id),
                    _ => true,
                },
                Expr::Ident { id } => self_absent(reg, *id),
                _ => true,
            },
        };
        proof {
            let t = elems@.take(i + 1);
            assert(t.drop_last() =~= elems@.take(i as int));
            assert(t.last() == elems@[i as int]);
            reveal(Seq::filter);
            assert(kept == keep_elem(elems@[i as int], reg.items@));
        }
        if kept {
            proof {
                elems@.filter_lemma(|o: Option<Arg>| keep_elem(o, reg.items@));
                assert(spec_prune(elems@, reg.items@).contains(elems@[i as int]));
            }
            return false;
        }
        i += 1;
    }
    proof {
        assert(elems@.take(n as int) =~= elems@);
    }
    true
}

} // verus!
