//! The analysis registries.
//!
//! All three registries of the pass are association vectors keyed by a
//! numeric id: the component registry (component id to its prop table), each
//! prop table (prop key to its record), and the constant registry (a local
//! binding to the `is_default` flag of the prop proven constant).  Lookup is
//! first match from the front; insertion replaces the first entry with the
//! same key, so keys built through `set_entry` stay distinct.

use vstd::prelude::*;

verus! {

/// One named input of a component.
#[derive(Debug, PartialEq)]
pub struct Prop {
    /// Identifier used for this prop's value inside the component body.
    pub local: u64,
    /// Call-site dependencies still considered dynamic; shrinks during
    /// constant propagation.
    pub deps: Vec<u64>,
    /// Call-site dependencies as discovered; never changed afterwards.
    pub orig_deps: Vec<u64>,
    /// True when at least one call site supplies this prop.
    pub is_used: bool,
    /// True when the component body resolves this prop with a fallback.
    pub is_default: bool,
}

/// First index holding key `k`; meaningful only when `ahas(s, k)`.
pub open spec fn aidx<V>(s: Seq<(u64, V)>, k: u64) -> int
    decreases s.len(),
{
    if s.len() == 0 {
        0
    } else if s[0].0 == k {
        0
    } else {
        1 + aidx(s.drop_first(), k)
    }
}

/// True when some entry holds key `k`.
pub open spec fn ahas<V>(s: Seq<(u64, V)>, k: u64) -> bool {
    exists|i: int| 0 <= i < s.len() && (#[trigger] s[i]).0 == k
}

/// The value of the first entry holding key `k`.
pub open spec fn aget<V>(s: Seq<(u64, V)>, k: u64) -> Option<V>
    decreases s.len(),
{
    if s.len() == 0 {
        Option::None
    } else if s[0].0 == k {
        Option::Some(s[0].1)
    } else {
        aget(s.drop_first(), k)
    }
}

/// `s` with the first entry for `k` replaced by `(k, v)`, or `(k, v)`
/// appended when no entry holds `k`.
pub open spec fn aupsert<V>(s: Seq<(u64, V)>, k: u64, v: V) -> Seq<(u64, V)> {
    if ahas(s, k) {
        s.update(aidx(s, k), (k, v))
    } else {
        s.push((k, v))
    }
}

/// The value of the last entry holding key `k`: what a fold of upserts
/// over the entries leaves under `k`.
pub open spec fn lw<V>(s: Seq<(u64, V)>, k: u64) -> Option<V>
    decreases s.len(),
{
    if s.len() == 0 {
        Option::None
    } else if s.last().0 == k {
        Option::Some(s.last().1)
    } else {
        lw(s.drop_last(), k)
    }
}

/// All keys distinct.
pub open spec fn adistinct<V>(s: Seq<(u64, V)>) -> bool {
    forall|i: int, j: int| 0 <= i < j < s.len() ==> (#[trigger] s[i]).0 != (#[trigger] s[j]).0
}

/// The keys, in entry order.
pub open spec fn akeys<V>(s: Seq<(u64, V)>) -> Seq<u64> {
    s.map_values(|e: (u64, V)| e.0)
}

pub proof fn lemma_aget_at<V>(s: Seq<(u64, V)>, k: u64, i: int)
    requires
        0 <= i < s.len(),
        s[i].0 == k,
        forall|j: int| 0 <= j < i ==> (#[trigger] s[j]).0 != k,
    ensures
        ahas(s, k),
        aidx(s, k) == i,
        aget(s, k) == Option::Some(s[i].1),
    decreases i,
{
    if i == 0 {
    } else {
        lemma_aget_at(s.drop_first(), k, i - 1);
    }
}

pub proof fn lemma_aget_absent<V>(s: Seq<(u64, V)>, k: u64)
    requires
        forall|j: int| 0 <= j < s.len() ==> (#[trigger] s[j]).0 != k,
    ensures
        !ahas(s, k),
        aget(s, k) == Option::<V>::None,
    decreases s.len(),
{
    if s.len() > 0 {
        lemma_aget_absent(s.drop_first(), k);
    }
}

/// The first index holding a present key is in range, holds the key, and
/// nothing before it does.
pub proof fn lemma_aidx_first<V>(s: Seq<(u64, V)>, k: u64)
    requires
        ahas(s, k),
    ensures
        0 <= aidx(s, k) < s.len(),
        s[aidx(s, k)].0 == k,
        forall|j: int| 0 <= j < aidx(s, k) ==> (#[trigger] s[j]).0 != k,
        aget(s, k) == Option::Some(s[aidx(s, k)].1),
    decreases s.len(),
{
    if s.len() > 0 && s[0].0 != k {
        let i = choose|i: int| 0 <= i < s.len() && (#[trigger] s[i]).0 == k;
        assert(s.drop_first()[i - 1].0 == k);
        lemma_aidx_first(s.drop_first(), k);
        assert forall|j: int| 0 <= j < aidx(s, k) implies (#[trigger] s[j]).0 != k by {
            if j > 0 {
                assert(s.drop_first()[j - 1] == s[j]);
            }
        }
    }
}

/// What lookup sees after an upsert: the new value under its key, and the
/// old values everywhere else.
pub proof fn lemma_aget_upsert<V>(s: Seq<(u64, V)>, k: u64, v: V, q: u64)
    ensures
        aget(aupsert(s, k, v), q) == (if q == k {
            Option::Some(v)
        } else {
            aget(s, q)
        }),
        ahas(aupsert(s, k, v), q) <==> (q == k || ahas(s, q)),
        adistinct(s) ==> adistinct(aupsert(s, k, v)),
{
    let t = aupsert(s, k, v);
    if ahas(s, k) {
        lemma_aidx_first(s, k);
        let f = aidx(s, k);
        assert(t =~= s.update(f, (k, v)));
        if q == k {
            lemma_aget_at(t, k, f);
        } else {
            if ahas(s, q) {
                lemma_aidx_first(s, q);
                let g = aidx(s, q);
                lemma_aget_at(t, q, g);
            } else {
                lemma_aget_absent(s, q);
                lemma_aget_absent(t, q);
            }
        }
    } else {
        assert(forall|j: int| 0 <= j < s.len() ==> (#[trigger] s[j]).0 != k);
        assert(t =~= s.push((k, v)));
        if q == k {
            lemma_aget_at(t, k, s.len() as int);
        } else {
            if ahas(s, q) {
                lemma_aidx_first(s, q);
                let g = aidx(s, q);
                lemma_aget_at(t, q, g);
            } else {
                lemma_aget_absent(s, q);
                lemma_aget_absent(t, q);
            }
        }
    }
}

/// Lookup after appending one entry: the old entries win, the new one
/// answers only for its own key when that key is new.
pub proof fn lemma_aget_snoc<V>(s: Seq<(u64, V)>, x: (u64, V), q: u64)
    ensures
        aget(s + seq![x], q) == (if ahas(s, q) {
            aget(s, q)
        } else if x.0 == q {
            Option::Some(x.1)
        } else {
            Option::<V>::None
        }),
        ahas(s + seq![x], q) <==> (ahas(s, q) || x.0 == q),
    decreases s.len(),
{
    if s.len() == 0 {
        assert(s + seq![x] =~= seq![x]);
        if x.0 == q {
            assert((s + seq![x])[0].0 == q);
        }
        lemma_aget_absent(s, q);
    } else {
        assert((s + seq![x]).drop_first() =~= s.drop_first() + seq![x]);
        lemma_aget_snoc(s.drop_first(), x, q);
        if s[0].0 != q {
            if ahas(s.drop_first(), q) {
                let w = choose|w: int|
                    0 <= w < s.drop_first().len() && (#[trigger] s.drop_first()[w]).0 == q;
                assert(s[w + 1].0 == q);
            }
            if ahas(s, q) {
                let w = choose|w: int| 0 <= w < s.len() && (#[trigger] s[w]).0 == q;
                assert(s.drop_first()[w - 1].0 == q);
            }
        } else {
            assert((s + seq![x])[0].0 == q);
        }
        if ahas(s + seq![x], q) || ahas(s, q) || x.0 == q {
            if (s + seq![x])[0].0 == q {
                assert(s[0].0 == q);
            }
        }
    }
}

/// An association vector: lookup is first match, insertion replaces.
#[derive(Debug, PartialEq)]
pub struct AssocVec<V> {
    pub items: Vec<(u64, V)>,
}

impl<V> AssocVec<V> {
    pub fn new() -> (r: AssocVec<V>)
        ensures
            r.items@ =~= Seq::<(u64, V)>::empty(),
    {
        AssocVec { items: Vec::new() }
    }

    pub fn length(&self) -> (n: usize)
        ensures
            n == self.items@.len(),
    {
        self.items.len()
    }

    /// Index of the first entry holding `k`, if any.
    pub fn find(&self, k: u64) -> (r: Option<usize>)
        ensures
            match r {
                Option::Some(i) => i < self.items@.len() && self.items@[i as int].0 == k
                    && ahas(self.items@, k) && aidx(self.items@, k) == i
                    && aget(self.items@, k) == Option::Some(self.items@[i as int].1),
                Option::None => !ahas(self.items@, k) && aget(self.items@, k)
                    == Option::<V>::None,
            },
    {
        let n: usize = self.items.len();
        let mut i: usize = 0;
        while i < n
            invariant
                i <= n,
                n == self.items@.len(),
                forall|j: int| 0 <= j < i ==> (#[trigger] self.items@[j]).0 != k,
            decreases n - i,
        {
            if self.items[i].0 == k {
                proof {
                    lemma_aget_at(self.items@, k, i as int);
                }
                return Option::Some(i);
            }
            i += 1;
        }
        proof {
            lemma_aget_absent(self.items@, k);
        }
        Option::None
    }

    /// Replaces the entry for `k`, or appends one.
    pub fn set_entry(&mut self, k: u64, v: V)
        ensures
            final(self).items@ == aupsert(old(self).items@, k, v),
    {
        let found = self.find(k);
        match found {
            Option::Some(i) => {
                let _ = self.items.remove(i);
                self.items.insert(i, (k, v));
                proof {
                    assert(self.items@ =~= aupsert(old(self).items@, k, v));
                }
            },
            Option::None => {
                self.items.push((k, v));
                proof {
                    assert(self.items@ =~= aupsert(old(self).items@, k, v));
                }
            },
        }
    }
}

/// The table of props a component declares, keyed by wire name.
pub type PropsTable = AssocVec<Prop>;

/// All components of one compilation unit, keyed by component identifier.
pub type Components = AssocVec<PropsTable>;

/// The constant registry: local binding to `is_default`.
pub type Registry = AssocVec<bool>;

} // verus!
