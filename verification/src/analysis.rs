//! Constant propagation.
//!
//! A prop qualifies as constant when its dependency set is empty or no call
//! site supplies it.  Each round collects every qualifying prop's local
//! binding into the constant registry (later entries winning over earlier
//! ones), then strips registry members from every dependency set; the loop
//! stops when the registry stops growing.  Dependency sets only shrink and
//! the registry only grows, bounded by the total prop count, so the loop
//! terminates within that many rounds.

use vstd::prelude::*;
use vstd::set_lib::lemma_len_subset;
use crate::registry::{
    adistinct, aget, ahas, akeys, aupsert, lemma_aget_upsert, lw, Components, Prop, PropsTable,
    Registry,
};

verus! {

/// A prop qualifies as constant: no remaining dynamic dependency, or no
/// call site supplies it.
pub open spec fn qualifies(p: Prop) -> bool {
    p.deps@.len() == 0 || !p.is_used
}

/// The constant facts contributed by one prop table, in entry order.
pub open spec fn qual_facts_props(s: Seq<(u64, Prop)>) -> Seq<(u64, bool)>
    decreases s.len(),
{
    if s.len() == 0 {
        Seq::empty()
    } else {
        qual_facts_props(s.drop_last()) + (if qualifies(s.last().1) {
            seq![(s.last().1.local, s.last().1.is_default)]
        } else {
            Seq::empty()
        })
    }
}

/// The constant facts of one collection round over all components.
pub open spec fn qual_facts(c: Seq<(u64, PropsTable)>) -> Seq<(u64, bool)>
    decreases c.len(),
{
    if c.len() == 0 {
        Seq::empty()
    } else {
        qual_facts(c.drop_last()) + qual_facts_props(c.last().1.items@)
    }
}

/// Total number of prop records over all components.
pub open spec fn total_props(c: Seq<(u64, PropsTable)>) -> int
    decreases c.len(),
{
    if c.len() == 0 {
        0int
    } else {
        total_props(c.drop_last()) + c.last().1.items@.len()
    }
}

/// Some prop somewhere qualifies and has local binding `k`.
pub open spec fn exists_qual(c: Seq<(u64, PropsTable)>, k: u64) -> bool {
    exists|i: int, j: int|
        0 <= i < c.len() && 0 <= j < (#[trigger] c[i]).1.items@.len() && qualifies(
            (#[trigger] c[i].1.items@[j]).1,
        ) && c[i].1.items@[j].1.local == k
}

/// `b` is `a` with every prop unchanged except that dependency sets may
/// have lost members; keys, locals and flags are identical.
pub open spec fn shrunk(a: Seq<(u64, PropsTable)>, b: Seq<(u64, PropsTable)>) -> bool {
    &&& b.len() == a.len()
    &&& forall|i: int|
        0 <= i < a.len() ==> {
            &&& (#[trigger] b[i]).0 == a[i].0
            &&& b[i].1.items@.len() == a[i].1.items@.len()
            &&& forall|j: int|
                0 <= j < a[i].1.items@.len() ==> {
                    &&& (#[trigger] b[i].1.items@[j]).0 == a[i].1.items@[j].0
                    &&& b[i].1.items@[j].1.local == a[i].1.items@[j].1.local
                    &&& b[i].1.items@[j].1.is_used == a[i].1.items@[j].1.is_used
                    &&& b[i].1.items@[j].1.is_default == a[i].1.items@[j].1.is_default
                    &&& b[i].1.items@[j].1.orig_deps@ == a[i].1.items@[j].1.orig_deps@
                    &&& forall|d: u64|
                        b[i].1.items@[j].1.deps@.contains(d) ==> a[i].1.items@[j].1.deps@.contains(
                            d,
                        )
                }
        }
}

/// `b` is `a` with every dependency set filtered against the registry.
pub open spec fn stripped(
    a: Seq<(u64, PropsTable)>,
    b: Seq<(u64, PropsTable)>,
    reg: Seq<(u64, bool)>,
) -> bool {
    &&& b.len() == a.len()
    &&& forall|i: int|
        0 <= i < a.len() ==> {
            &&& (#[trigger] b[i]).0 == a[i].0
            &&& b[i].1.items@.len() == a[i].1.items@.len()
            &&& forall|j: int|
                0 <= j < a[i].1.items@.len() ==> {
                    &&& (#[trigger] b[i].1.items@[j]).0 == a[i].1.items@[j].0
                    &&& b[i].1.items@[j].1.local == a[i].1.items@[j].1.local
                    &&& b[i].1.items@[j].1.is_used == a[i].1.items@[j].1.is_used
                    &&& b[i].1.items@[j].1.is_default == a[i].1.items@[j].1.is_default
                    &&& b[i].1.items@[j].1.orig_deps@ == a[i].1.items@[j].1.orig_deps@
                    &&& b[i].1.items@[j].1.deps@ == a[i].1.items@[j].1.deps@.filter(
                        |d: u64| !ahas(reg, d),
                    )
                }
        }
}

/// Dependencies leave a set only when proven constant: everything the
/// discovered set held and the final set lost is a registry member.
pub open spec fn removed_are_constant(
    a: Seq<(u64, PropsTable)>,
    b: Seq<(u64, PropsTable)>,
    reg: Seq<(u64, bool)>,
) -> bool {
    forall|i: int, j: int, d: u64|
        0 <= i < a.len() && 0 <= j < a[i].1.items@.len() && b.len() == a.len()
            && b[i].1.items@.len() == a[i].1.items@.len()
            && #[trigger] a[i].1.items@[j].1.deps@.contains(d)
            && !b[i].1.items@[j].1.deps@.contains(d) ==> ahas(reg, d)
}

/// No remaining dependency set mentions a registry member.
pub open spec fn deps_clear(c: Seq<(u64, PropsTable)>, reg: Seq<(u64, bool)>) -> bool {
    forall|i: int, j: int, d: u64|
        0 <= i < c.len() && 0 <= j < c[i].1.items@.len()
            && #[trigger] c[i].1.items@[j].1.deps@.contains(d) ==> !ahas(reg, d)
}

/// A fact under key `k` exists exactly when some qualifying prop has local
/// binding `k`.
pub proof fn lemma_qual_facts_iff(c: Seq<(u64, PropsTable)>, k: u64)
    ensures
        ahas(qual_facts(c), k) <==> exists_qual(c, k),
    decreases c.len(),
{
    if c.len() == 0 {
    } else {
        let a = qual_facts(c.drop_last());
        let b = qual_facts_props(c.last().1.items@);
        lemma_qual_facts_iff(c.drop_last(), k);
        lemma_qual_facts_props_iff(c.last().1.items@, k);
        assert forall|q: u64| ahas(a + b, q) <==> (ahas(a, q) || ahas(b, q)) by {
            lemma_ahas_append(a, b, q);
        }
        if ahas(qual_facts(c), k) {
            if ahas(a, k) {
                let (i, j) = choose|i: int, j: int|
                    0 <= i < c.drop_last().len() && 0 <= j < (#[trigger] c.drop_last()[i]).1.items@.len()
                        && qualifies((#[trigger] c.drop_last()[i].1.items@[j]).1)
                        && c.drop_last()[i].1.items@[j].1.local == k;
                assert(c[i] == c.drop_last()[i]);
                assert(exists_qual(c, k));
            } else {
                let j = choose|j: int|
                    0 <= j < c.last().1.items@.len() && qualifies(
                        (#[trigger] c.last().1.items@[j]).1,
                    ) && c.last().1.items@[j].1.local == k;
                assert(c[c.len() - 1] == c.last());
                assert(exists_qual(c, k));
            }
        }
        if exists_qual(c, k) {
            let (i, j) = choose|i: int, j: int|
                0 <= i < c.len() && 0 <= j < (#[trigger] c[i]).1.items@.len() && qualifies(
                    (#[trigger] c[i].1.items@[j]).1,
                ) && c[i].1.items@[j].1.local == k;
            if i < c.len() - 1 {
                assert(c.drop_last()[i] == c[i]);
                assert(exists_qual(c.drop_last(), k));
            } else {
                assert(c.last() == c[i]);
            }
        }
    }
}

proof fn lemma_qual_facts_props_iff(s: Seq<(u64, Prop)>, k: u64)
    ensures
        ahas(qual_facts_props(s), k) <==> exists|j: int|
            0 <= j < s.len() && qualifies((#[trigger] s[j]).1) && s[j].1.local == k,
    decreases s.len(),
{
    if s.len() == 0 {
    } else {
        let a = qual_facts_props(s.drop_last());
        let b: Seq<(u64, bool)> = if qualifies(s.last().1) {
            seq![(s.last().1.local, s.last().1.is_default)]
        } else {
            Seq::empty()
        };
        lemma_qual_facts_props_iff(s.drop_last(), k);
        lemma_ahas_append(a, b, k);
        if ahas(qual_facts_props(s), k) {
            if ahas(a, k) {
                let j = choose|j: int|
                    0 <= j < s.drop_last().len() && qualifies((#[trigger] s.drop_last()[j]).1)
                        && s.drop_last()[j].1.local == k;
                assert(s[j] == s.drop_last()[j]);
            } else {
                assert(s[s.len() - 1] == s.last());
            }
        }
        if exists|j: int| 0 <= j < s.len() && qualifies((#[trigger] s[j]).1) && s[j].1.local == k {
            let j = choose|j: int|
                0 <= j < s.len() && qualifies((#[trigger] s[j]).1) && s[j].1.local == k;
            if j < s.len() - 1 {
                assert(s.drop_last()[j] == s[j]);
            } else {
                assert(s.last() == s[j]);
                assert(b[0].0 == k);
            }
        }
    }
}

proof fn lemma_ahas_append<V>(a: Seq<(u64, V)>, b: Seq<(u64, V)>, k: u64)
    ensures
        ahas(a + b, k) <==> (ahas(a, k) || ahas(b, k)),
{
    if ahas(a, k) {
        let i = choose|i: int| 0 <= i < a.len() && (#[trigger] a[i]).0 == k;
        assert((a + b)[i].0 == k);
    }
    if ahas(b, k) {
        let i = choose|i: int| 0 <= i < b.len() && (#[trigger] b[i]).0 == k;
        assert((a + b)[a.len() + i].0 == k);
    }
    if ahas(a + b, k) {
        let i = choose|i: int| 0 <= i < (a + b).len() && (#[trigger] (a + b)[i]).0 == k;
        if i < a.len() {
            assert(a[i].0 == k);
        } else {
            assert(b[i - a.len()].0 == k);
        }
    }
}

/// A last-wins fact exists exactly when some entry holds the key.
proof fn lemma_lw_has<V>(s: Seq<(u64, V)>, k: u64)
    ensures
        lw(s, k) is Some <==> ahas(s, k),
    decreases s.len(),
{
    if s.len() > 0 {
        lemma_lw_has(s.drop_last(), k);
        if s.last().0 == k {
            assert(s[s.len() - 1].0 == k);
        } else {
            if ahas(s.drop_last(), k) {
                let i = choose|i: int|
                    0 <= i < s.drop_last().len() && (#[trigger] s.drop_last()[i]).0 == k;
                assert(s[i].0 == k);
            }
            if ahas(s, k) {
                let i = choose|i: int| 0 <= i < s.len() && (#[trigger] s[i]).0 == k;
                assert(s.drop_last()[i].0 == k);
            }
        }
    }
}

/// Distinct keys all present in another distinct-keyed vector bound its
/// length from below.
proof fn lemma_len_le<V>(s1: Seq<(u64, V)>, s2: Seq<(u64, V)>)
    requires
        adistinct(s1),
        adistinct(s2),
        forall|k: u64| ahas(s1, k) ==> ahas(s2, k),
    ensures
        s1.len() <= s2.len(),
{
    let a = akeys(s1).to_set();
    let b = akeys(s2).to_set();
    assert(akeys(s1).no_duplicates());
    assert(akeys(s2).no_duplicates());
    akeys(s1).unique_seq_to_set();
    akeys(s2).unique_seq_to_set();
    assert forall|k: u64| a.contains(k) implies b.contains(k) by {
        let i = choose|i: int| 0 <= i < akeys(s1).len() && akeys(s1)[i] == k;
        assert(s1[i].0 == k);
        assert(ahas(s1, k));
        let j = choose|j: int| 0 <= j < s2.len() && (#[trigger] s2[j]).0 == k;
        assert(akeys(s2)[j] == k);
        assert(akeys(s2).contains(k));
    }
    lemma_len_subset(a, b);
}

/// Equal-length distinct-keyed vectors with one key set inside the other
/// have the same key set.
proof fn lemma_keyset_eq<V>(s1: Seq<(u64, V)>, s2: Seq<(u64, V)>)
    requires
        adistinct(s1),
        adistinct(s2),
        s1.len() == s2.len(),
        forall|k: u64| ahas(s1, k) ==> ahas(s2, k),
    ensures
        forall|k: u64| ahas(s2, k) ==> ahas(s1, k),
{
    let a = akeys(s1).to_set();
    let b = akeys(s2).to_set();
    assert(akeys(s1).no_duplicates());
    assert(akeys(s2).no_duplicates());
    akeys(s1).unique_seq_to_set();
    akeys(s2).unique_seq_to_set();
    assert forall|k: u64| a.contains(k) implies b.contains(k) by {
        let i = choose|i: int| 0 <= i < akeys(s1).len() && akeys(s1)[i] == k;
        assert(s1[i].0 == k);
        assert(ahas(s1, k));
        let j = choose|j: int| 0 <= j < s2.len() && (#[trigger] s2[j]).0 == k;
        assert(akeys(s2)[j] == k);
    }
    assert forall|k: u64| ahas(s2, k) implies ahas(s1, k) by {
        let j = choose|j: int| 0 <= j < s2.len() && (#[trigger] s2[j]).0 == k;
        assert(akeys(s2)[j] == k);
        assert(b.contains(k));
        if !a.contains(k) {
            assert(a.subset_of(b.remove(k)));
            lemma_len_subset(a, b.remove(k));
        }
        assert(a.contains(k));
        let i = choose|i: int| 0 <= i < akeys(s1).len() && akeys(s1)[i] == k;
        assert(s1[i].0 == k);
    }
}

/// One collection round: the registry of every currently qualifying prop,
/// later props overriding earlier ones with the same local binding.
pub fn collect(comps: &Components) -> (reg: Registry)
    ensures
        forall|k: u64| aget(reg.items@, k) == lw(qual_facts(comps.items@), k),
        adistinct(reg.items@),
        reg.items@.len() <= total_props(comps.items@),
{
    let mut reg: Registry = Registry::new();
    let n: usize = comps.items.len();
    proof {
        assert(comps.items@.take(0) =~= Seq::<(u64, PropsTable)>::empty());
    }
    let mut i: usize = 0;
    while i < n
        invariant
            i <= n,
            n == comps.items@.len(),
            forall|k: u64|
                aget(reg.items@, k) == lw(qual_facts(comps.items@.take(i as int)), k),
            adistinct(reg.items@),
            reg.items@.len() <= total_props(comps.items@.take(i as int)),
        decreases n - i,
    {
        let ghost pre = comps.items@.take(i as int);
        let ghost preq = qual_facts(pre);
        let m: usize = comps.items[i].1.items.len();
        proof {
            assert(comps.items[i as int].1.items@.take(0) =~= Seq::<(u64, Prop)>::empty());
            assert(preq + qual_facts_props(comps.items[i as int].1.items@.take(0)) =~= preq);
        }
        let mut j: usize = 0;
        while j < m
            invariant
                j <= m,
                i < n,
                n == comps.items@.len(),
                m == comps.items@[i as int].1.items@.len(),
                pre == comps.items@.take(i as int),
                preq == qual_facts(pre),
                forall|k: u64|
                    aget(reg.items@, k) == lw(
                        preq + qual_facts_props(comps.items@[i as int].1.items@.take(j as int)),
                        k,
                    ),
                adistinct(reg.items@),
                reg.items@.len() <= total_props(pre) + j,
            decreases m - j,
        {
            let ghost told = comps.items@[i as int].1.items@.take(j as int);
            let ghost tnew = comps.items@[i as int].1.items@.take(j + 1);
            proof {
                assert(tnew.drop_last() =~= told);
                assert(tnew.last() == comps.items@[i as int].1.items@[j as int]);
            }
            let p = &comps.items[i].1.items[j].1;
            let dlen: usize = p.deps.len();
            if dlen == 0 || !p.is_used {
                let ghost before = reg.items@;
                reg.set_entry(p.local, p.is_default);
                proof {
                    let f = (p.local, p.is_default);
                    assert(qual_facts_props(tnew) =~= qual_facts_props(told).push(f));
                    assert(preq + qual_facts_props(tnew) =~= (preq + qual_facts_props(told)).push(
                        f,
                    ));
                    assert forall|k: u64|
                        aget(reg.items@, k) == lw(preq + qual_facts_props(tnew), k) by {
                        lemma_aget_upsert(before, p.local, p.is_default, k);
                        assert((preq + qual_facts_props(tnew)).drop_last() =~= preq
                            + qual_facts_props(told));
                    }
                    assert(adistinct(reg.items@)) by {
                        lemma_aget_upsert(before, p.local, p.is_default, p.local);
                    }
                    assert(reg.items@.len() <= before.len() + 1) by {
                        if ahas(before, p.local) {
                            crate::registry::lemma_aidx_first(before, p.local);
                        }
                    }
                }
            } else {
                proof {
                    assert(qual_facts_props(tnew) =~= qual_facts_props(told));
                }
            }
            j += 1;
        }
        proof {
            assert(comps.items@[i as int].1.items@.take(m as int) =~= comps.items@[i as int
            ].1.items@);
            let post = comps.items@.take(i + 1);
            assert(post.drop_last() =~= pre);
            assert(post.last() == comps.items@[i as int]);
            assert(qual_facts(post) == preq + qual_facts_props(comps.items@[i as int].1.items@));
        }
        i += 1;
    }
    proof {
        assert(comps.items@.take(n as int) =~= comps.items@);
    }
    reg
}

/// Strips registry members from every dependency set.
pub fn strip_deps(comps: &mut Components, reg: &Registry)
    ensures
        stripped(old(comps).items@, final(comps).items@, reg.items@),
{
    let n: usize = comps.items.len();
    let mut i: usize = 0;
    while i < n
        invariant
            i <= n,
            n == comps.items@.len(),
            n == old(comps).items@.len(),
            forall|x: int| i <= x < n ==> comps.items@[x] == old(comps).items@[x],
            stripped(old(comps).items@.take(i as int), comps.items@.take(i as int), reg.items@),
        decreases n - i,
    {
        let ghost snap = comps.items@;
        let mut entry = comps.items.remove(i);
        let m: usize = entry.1.items.len();
        let ghost tbl0 = entry.1.items@;
        proof {
            assert(tbl0 == old(comps).items@[i as int].1.items@);
        }
        let mut j: usize = 0;
        while j < m
            invariant
                j <= m,
                i < n,
                n == old(comps).items@.len(),
                entry.0 == old(comps).items@[i as int].0,
                tbl0 == old(comps).items@[i as int].1.items@,
                m == entry.1.items@.len(),
                m == tbl0.len(),
                forall|x: int| j <= x < m ==> entry.1.items@[x] == tbl0[x],
                forall|x: int|
                    0 <= x < j ==> {
                        &&& (#[trigger] entry.1.items@[x]).0 == tbl0[x].0
                        &&& entry.1.items@[x].1.local == tbl0[x].1.local
                        &&& entry.1.items@[x].1.is_used == tbl0[x].1.is_used
                        &&& entry.1.items@[x].1.is_default == tbl0[x].1.is_default
                        &&& entry.1.items@[x].1.orig_deps@ == tbl0[x].1.orig_deps@
                        &&& entry.1.items@[x].1.deps@ == tbl0[x].1.deps@.filter(
                            |d: u64| !ahas(reg.items@, d),
                        )
                    },
            decreases m - j,
        {
            let (pk, pold) = entry.1.items.remove(j);
            let Prop { local, deps, orig_deps, is_used, is_default } = pold;
            let dn: usize = deps.len();
            let mut nd: Vec<u64> = Vec::new();
            let mut t: usize = 0;
            while t < dn
                invariant
                    t <= dn,
                    dn == deps@.len(),
                    nd@ == deps@.take(t as int).filter(|d: u64| !ahas(reg.items@, d)),
                decreases dn - t,
            {
                let d: u64 = deps[t];
                let keep: bool = match reg.find(d) {
                    Option::Some(_) => false,
                    Option::None => true,
                };
                proof {
                    let w = deps@.take(t + 1);
                    assert(w.drop_last() =~= deps@.take(t as int));
                    assert(w.last() == deps@[t as int]);
                    reveal(Seq::filter);
                }
                if keep {
                    nd.push(d);
                }
                t += 1;
            }
            proof {
                assert(deps@.take(dn as int) =~= deps@);
            }
            entry.1.items.insert(
                j,
                (pk, Prop { local, deps: nd, orig_deps, is_used, is_default }),
            );
            proof {
                assert(forall|x: int| j + 1 <= x < m ==> entry.1.items@[x] == tbl0[x]);
            }
            j += 1;
        }
        comps.items.insert(i, entry);
        proof {
            assert(comps.items@ =~= snap.update(i as int, comps.items@[i as int]));
            assert(forall|x: int| i + 1 <= x < n ==> comps.items@[x] == old(comps).items@[x]);
            let oa = old(comps).items@.take(i + 1);
            let ob = comps.items@.take(i + 1);
            assert(comps.items@[i as int].0 == old(comps).items@[i as int].0);
            assert(comps.items@[i as int].1.items@.len() == tbl0.len());
            assert(forall|x: int| 0 <= x < i ==> ob[x] == comps.items@.take(i as int)[x]
                && oa[x] == old(comps).items@.take(i as int)[x]);
            assert(oa[i as int] == old(comps).items@[i as int]);
            assert(ob[i as int] == comps.items@[i as int]);
            assert(stripped(oa, ob, reg.items@));
        }
        i += 1;
    }
    proof {
        assert(old(comps).items@.take(n as int) =~= old(comps).items@);
        assert(comps.items@.take(n as int) =~= comps.items@);
    }
}

proof fn lemma_total_nonneg(c: Seq<(u64, PropsTable)>)
    ensures
        total_props(c) >= 0,
    decreases c.len(),
{
    if c.len() > 0 {
        lemma_total_nonneg(c.drop_last());
    }
}

proof fn lemma_total_congruent(a: Seq<(u64, PropsTable)>, b: Seq<(u64, PropsTable)>)
    requires
        b.len() == a.len(),
        forall|i: int|
            0 <= i < a.len() ==> (#[trigger] b[i]).1.items@.len() == a[i].1.items@.len(),
    ensures
        total_props(b) == total_props(a),
    decreases a.len(),
{
    if a.len() > 0 {
        assert(forall|i: int|
            0 <= i < a.drop_last().len() ==> (#[trigger] b.drop_last()[i]) == b[i]
                && a.drop_last()[i] == a[i]);
        lemma_total_congruent(a.drop_last(), b.drop_last());
        assert(b.last() == b[a.len() - 1]);
        assert(a.last() == a[a.len() - 1]);
    }
}

/// What one strip round preserves: the overall shrink relation to the
/// discovered state, prop counts, qualification, and that the stripped
/// sets are clear of registry members.
proof fn lemma_strip_preserves(
    c0: Seq<(u64, PropsTable)>,
    b: Seq<(u64, PropsTable)>,
    cur: Seq<(u64, PropsTable)>,
    reg: Seq<(u64, bool)>,
)
    requires
        shrunk(c0, b),
        stripped(b, cur, reg),
    ensures
        shrunk(c0, cur),
        deps_clear(cur, reg),
        total_props(cur) == total_props(b),
        forall|k: u64| exists_qual(b, k) ==> exists_qual(cur, k),
{
    let p = |d: u64| !ahas(reg, d);
    assert forall|i: int, j: int|
        0 <= i < cur.len() && 0 <= j < (#[trigger] cur[i]).1.items@.len() implies {
        &&& forall|d: u64|
            (#[trigger] cur[i].1.items@[j]).1.deps@.contains(d) ==> c0[i].1.items@[j].1.deps@.contains(d)
                && !ahas(reg, d)
        &&& (qualifies(b[i].1.items@[j].1) ==> qualifies(cur[i].1.items@[j].1))
    } by {
        let ds = b[i].1.items@[j].1.deps@;
        ds.filter_lemma(p);
        crate::prune::lemma_filter_in(ds, p);
        assert forall|d: u64| (#[trigger] cur[i].1.items@[j].1.deps@.contains(d)) implies b[i
        ].1.items@[j].1.deps@.contains(d) && !ahas(reg, d) && c0[i].1.items@[j].1.deps@.contains(
            d,
        ) by {
            let w = choose|w: int|
                0 <= w < cur[i].1.items@[j].1.deps@.len() && cur[i].1.items@[j].1.deps@[w] == d;
            assert(ds.filter(p).contains(d));
        }
        if qualifies(b[i].1.items@[j].1) && b[i].1.items@[j].1.is_used {
            assert(ds.len() == 0);
            assert(ds.filter(p).len() <= 0);
        }
    }
    assert(shrunk(c0, cur));
    lemma_total_congruent(b, cur);
    assert forall|k: u64| exists_qual(b, k) implies exists_qual(cur, k) by {
        let (i, j) = choose|i: int, j: int|
            0 <= i < b.len() && 0 <= j < (#[trigger] b[i]).1.items@.len() && qualifies(
                (#[trigger] b[i].1.items@[j]).1,
            ) && b[i].1.items@[j].1.local == k;
        assert(qualifies(cur[i].1.items@[j].1));
        assert(cur[i].1.items@[j].1.local == k);
    }
}

/// Fixpoint monotonicity: a strip round never removes a constant fact.
/// Every local binding with a qualifying prop before stripping still has
/// one afterwards, so the registry collected next round keeps every key
/// of the previous round.
pub proof fn lemma_registry_monotone(
    b: Seq<(u64, PropsTable)>,
    cur: Seq<(u64, PropsTable)>,
    reg: Seq<(u64, bool)>,
)
    requires
        stripped(b, cur, reg),
    ensures
        forall|k: u64| ahas(qual_facts(b), k) ==> ahas(qual_facts(cur), k),
{
    assert(shrunk(b, b));
    lemma_strip_preserves(b, b, cur, reg);
    assert forall|k: u64| ahas(qual_facts(b), k) implies ahas(qual_facts(cur), k) by {
        lemma_qual_facts_iff(b, k);
        lemma_qual_facts_iff(cur, k);
    }
}

proof fn lemma_aget_has<V>(s: Seq<(u64, V)>, k: u64)
    ensures
        aget(s, k) is Some <==> ahas(s, k),
{
    if ahas(s, k) {
        crate::registry::lemma_aidx_first(s, k);
    } else {
        crate::registry::lemma_aget_absent(s, k);
    }
}

/// Runs constant propagation to its fixpoint.
///
/// The returned registry is exactly one collection round over the final
/// dependency sets, those sets are subsets of the discovered ones with all
/// other prop data unchanged, and no surviving dependency is a registry
/// member.  The loop's termination measure is the total prop count less
/// the registry size: the registry grows every round it continues.
pub fn propagate(comps: &mut Components) -> (reg: Registry)
    ensures
        forall|k: u64| aget(reg.items@, k) == lw(qual_facts(final(comps).items@), k),
        adistinct(reg.items@),
        shrunk(old(comps).items@, final(comps).items@),
        deps_clear(final(comps).items@, reg.items@),
        removed_are_constant(old(comps).items@, final(comps).items@, reg.items@),
{
    let ghost c0 = comps.items@;
    let ghost t0 = total_props(c0);
    let mut reg: Registry = Registry::new();
    proof {
        assert(shrunk(c0, comps.items@));
        lemma_total_nonneg(c0);
    }
    loop
        invariant
            shrunk(c0, comps.items@),
            total_props(comps.items@) == t0,
            adistinct(reg.items@),
            reg.items@.len() <= t0,
            deps_clear(comps.items@, reg.items@),
            removed_are_constant(c0, comps.items@, reg.items@),
            forall|k: u64| ahas(reg.items@, k) ==> exists_qual(comps.items@, k),
        ensures
            forall|k: u64| aget(reg.items@, k) == lw(qual_facts(comps.items@), k),
            adistinct(reg.items@),
            shrunk(c0, comps.items@),
            deps_clear(comps.items@, reg.items@),
            removed_are_constant(c0, comps.items@, reg.items@),
        decreases t0 + 1 - reg.items@.len(),
    {
        let old_len = reg.length();
        let reg2 = collect(comps);
        proof {
            assert forall|k: u64| ahas(reg.items@, k) implies ahas(reg2.items@, k) by {
                lemma_qual_facts_iff(comps.items@, k);
                lemma_lw_has(qual_facts(comps.items@), k);
                lemma_aget_has(reg2.items@, k);
            }
            lemma_len_le(reg.items@, reg2.items@);
        }
        let new_len = reg2.length();
        let ghost prev = reg.items@;
        reg = reg2;
        proof {
            assert(removed_are_constant(c0, comps.items@, reg.items@)) by {
                assert forall|i: int, j: int, d: u64|
                    0 <= i < c0.len() && 0 <= j < c0[i].1.items@.len() && comps.items@.len()
                        == c0.len() && comps.items@[i].1.items@.len() == c0[i].1.items@.len()
                        && #[trigger] c0[i].1.items@[j].1.deps@.contains(d)
                        && !comps.items@[i].1.items@[j].1.deps@.contains(d) implies ahas(
                    reg.items@,
                    d,
                ) by {
                    assert(ahas(prev, d));
                }
            }
        }
        if new_len == old_len {
            proof {
                lemma_keyset_eq(prev, reg.items@);
                assert forall|i: int, j: int, d: u64|
                    0 <= i < comps.items@.len() && 0 <= j < comps.items@[i].1.items@.len()
                        && #[trigger] comps.items@[i].1.items@[j].1.deps@.contains(d)
                        implies !ahas(reg.items@, d) by {
                    if ahas(reg.items@, d) {
                        assert(ahas(prev, d));
                    }
                }
            }
            break;
        }
        let ghost before = comps.items@;
        strip_deps(comps, &reg);
        proof {
            let cur = comps.items@;
            lemma_strip_preserves(c0, before, cur, reg.items@);
            assert(removed_are_constant(c0, cur, reg.items@)) by {
                assert forall|i: int, j: int, d: u64|
                    0 <= i < c0.len() && 0 <= j < c0[i].1.items@.len() && cur.len() == c0.len()
                        && cur[i].1.items@.len() == c0[i].1.items@.len()
                        && #[trigger] c0[i].1.items@[j].1.deps@.contains(d)
                        && !cur[i].1.items@[j].1.deps@.contains(d) implies ahas(
                    reg.items@,
                    d,
                ) by {
                    if before[i].1.items@[j].1.deps@.contains(d) {
                        let ds = before[i].1.items@[j].1.deps@;
                        let p = |x: u64| !ahas(reg.items@, x);
                        ds.filter_lemma(p);
                        if !ahas(reg.items@, d) {
                            let w = choose|w: int| 0 <= w < ds.len() && ds[w] == d;
                            assert(ds.filter(p).contains(d));
                        }
                    }
                }
            }
            assert forall|k: u64| ahas(reg.items@, k) implies exists_qual(cur, k) by {
                lemma_aget_has(reg.items@, k);
                lemma_lw_has(qual_facts(before), k);
                lemma_qual_facts_iff(before, k);
            }
        }
    }
    reg
}


/// Soundness of pruning against the fixpoint.  A dependency surviving in
/// some prop's set after propagation is no registry member, so the pruner
/// keeps every marked-array entry that is that bare identifier: only
/// entries resolving to registry members are ever removed.
pub proof fn lemma_dynamic_entries_survive(
    c: Seq<(u64, PropsTable)>,
    reg: Seq<(u64, bool)>,
    elems: Seq<Option<crate::ast::Arg>>,
    i: int,
    j: int,
    d: u64,
)
    requires
        deps_clear(c, reg),
        0 <= i < c.len(),
        0 <= j < c[i].1.items@.len(),
        c[i].1.items@[j].1.deps@.contains(d),
    ensures
        forall|x: int|
            0 <= x < elems.len() && (#[trigger] elems[x]) == Option::Some(
                crate::ast::Arg { spread: false, expr: crate::ast::Expr::Ident { id: d } },
            ) ==> crate::prune::spec_prune(elems, reg).contains(elems[x]),
{
    assert(!ahas(reg, d));
    crate::prune::lemma_prune_sound(elems, reg);
    assert forall|x: int|
        0 <= x < elems.len() && (#[trigger] elems[x]) == Option::Some(
            crate::ast::Arg { spread: false, expr: crate::ast::Expr::Ident { id: d } },
        ) implies crate::prune::spec_prune(elems, reg).contains(elems[x]) by {
        assert(crate::prune::keep_elem(elems[x], reg));
    }
}


/// A qualifying prop's binding is in a registry that is one collection
/// round over these components: a prop with an empty dependency set, or
/// one no call site supplies, is registered.
pub proof fn lemma_constant_prop_registered(
    cf: Seq<(u64, PropsTable)>,
    reg: Seq<(u64, bool)>,
    i: int,
    j: int,
)
    requires
        forall|k: u64| #[trigger] aget(reg, k) == lw(qual_facts(cf), k),
        0 <= i < cf.len(),
        0 <= j < cf[i].1.items@.len(),
        qualifies(cf[i].1.items@[j].1),
    ensures
        ahas(reg, cf[i].1.items@[j].1.local),
{
    let k = cf[i].1.items@[j].1.local;
    assert(exists_qual(cf, k));
    lemma_qual_facts_iff(cf, k);
    lemma_lw_has(qual_facts(cf), k);
    lemma_aget_has(reg, k);
}

/// Only qualifying props are registered: a binding in such a registry is
/// the local binding of some prop that qualifies over the final sets, so
/// a prop whose dependency set stays non-empty through the fixpoint, and
/// which some call site supplies, never enters it.
pub proof fn lemma_registry_only_constants(
    cf: Seq<(u64, PropsTable)>,
    reg: Seq<(u64, bool)>,
    k: u64,
)
    requires
        forall|q: u64| #[trigger] aget(reg, q) == lw(qual_facts(cf), q),
        ahas(reg, k),
    ensures
        exists_qual(cf, k),
{
    lemma_aget_has(reg, k);
    lemma_lw_has(qual_facts(cf), k);
    lemma_qual_facts_iff(cf, k);
}

} // verus!
