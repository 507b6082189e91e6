//! Discovery: recognizing component definitions and call-site facts.
//!
//! A component definition is a declarator binding a function whose body
//! opens with the component-marker directive and a metadata string whose
//! numeric suffix declares the prop count.  The following statements are
//! scanned by a position-counting state machine for prop declarations of
//! the two recognized shapes: `local = props.key` and
//! `local = props.key || default`.  Call sites of known components mark
//! props as used and contribute their dependency identifiers.  Discovery
//! is order-independent: definitions are collected over the whole tree
//! before any call site is consulted.

use vstd::prelude::*;
use crate::ast::{Arg, Declarator, Expr, ObjProp, Program, Stmt};
use crate::registry::{
    adistinct, aget, ahas, lemma_aget_upsert, lw, AssocVec, Components, Prop, PropsTable,
};
use crate::text::{spec_prop_count, prop_count_of};

verus! {

/// One scanned prop declaration: wire key, then local binding and whether
/// the body supplies a default.
pub type Fact = (u64, (u64, bool));

/// A fatal configuration error: a component-marker directive followed by
/// metadata whose props-count suffix is not numeric.  This indicates a
/// miscompiled earlier stage, so the pass aborts for the unit.
#[derive(Debug, PartialEq, Eq, Clone, Copy)]
pub enum ConfigError {
    BadPropsCount,
}

/// The directive text marking a component body.
pub open spec fn directive() -> Seq<char> {
    "use mango_component"@
}

/// What one declarator contributes to the scan: an optional fact and how
/// far the prop position advances.
pub open spec fn decl_fact(d: Declarator) -> (Option<Fact>, int) {
    match d.name {
        Option::None => (Option::None, 0),
        Option::Some(local) => match d.init {
            Option::None => (Option::None, 0),
            Option::Some(init) => match init {
                Expr::Or { left, right: _ } => match *left {
                    Expr::Member { obj: _, key } => (
                        Option::Some((key, (local, true))),
                        2,
                    ),
                    _ => (Option::None, 0),
                },
                Expr::Member { obj: _, key } => (Option::Some((key, (local, false))), 1),
                _ => (Option::None, 0),
            },
        },
    }
}

/// Scanning the declarators of one declaration statement: the facts found,
/// the new prop position, and whether the declared count was reached.
pub open spec fn scan_decls(ds: Seq<Declarator>, count: int, pos: int) -> (
    Seq<Fact>,
    int,
    bool,
)
    decreases ds.len(),
{
    if ds.len() == 0 {
        (Seq::empty(), pos, false)
    } else {
        let step = decl_fact(ds.first());
        let facts1: Seq<Fact> = match step.0 {
            Option::Some(f) => seq![f],
            Option::None => Seq::empty(),
        };
        let pos1 = pos + step.1;
        if pos1 >= count {
            (facts1, pos1, true)
        } else {
            let r = scan_decls(ds.drop_first(), count, pos1);
            (facts1 + r.0, r.1, r.2)
        }
    }
}

proof fn lemma_scan_decls_bounds(ds: Seq<Declarator>, count: int, pos: int)
    ensures
        scan_decls(ds, count, pos).1 >= pos,
        !scan_decls(ds, count, pos).2 ==> (scan_decls(ds, count, pos).1 < count || scan_decls(
            ds,
            count,
            pos,
        ).1 == pos),
    decreases ds.len(),
{
    if ds.len() > 0 {
        let step = decl_fact(ds.first());
        let pos1 = pos + step.1;
        if pos1 < count {
            lemma_scan_decls_bounds(ds.drop_first(), count, pos1);
        }
        assert(step.1 >= 0);
    }
}

/// The prop-scan state machine over a component body: `curr` is the
/// statement position, `pos` the prop position.  Statements that are not
/// declarations are skipped, each skip advancing the prop position; the
/// scan gives up once the position passes the declared count; a\n/// declaration reached at exactly the count is still scanned.
pub open spec fn scan(stmts: Seq<Stmt>, count: int, curr: int, pos: int) -> Seq<Fact>
    decreases count + 2 - pos, stmts.len() + 1 - curr,
    via scan_via
{
    if pos > count {
        Seq::empty()
    } else if !(0 <= curr < stmts.len() && stmts[curr] is VarDecl) {
        if pos + 1 > count {
            Seq::empty()
        } else {
            scan(stmts, count, curr + 1, pos + 1)
        }
    } else {
        let ds = match stmts[curr] {
            Stmt::VarDecl { decls } => decls@,
            _ => Seq::empty(),
        };
        let r = scan_decls(ds, count, pos);
        r.0 + (if r.2 {
            Seq::empty()
        } else {
            scan(stmts, count, curr + 1, r.1)
        })
    }
}

#[via_fn]
proof fn scan_via(stmts: Seq<Stmt>, count: int, curr: int, pos: int) {
    if pos <= count && 0 <= curr < stmts.len() && stmts[curr] is VarDecl {
        let ds = match stmts[curr] {
            Stmt::VarDecl { decls } => decls@,
            _ => Seq::empty(),
        };
        lemma_scan_decls_bounds(ds, count, pos);
    }
}

proof fn lemma_scan_oob(stmts: Seq<Stmt>, count: int, curr: int, pos: int)
    requires
        curr >= stmts.len(),
    ensures
        scan(stmts, count, curr, pos) == Seq::<Fact>::empty(),
    decreases count + 2 - pos,
{
    if pos <= count && pos + 1 <= count {
        lemma_scan_oob(stmts, count, curr + 1, pos + 1);
    }
}

/// Runs the prop scan over a component body, from statement position two
/// and prop position zero, as the metadata contract fixes them.
pub fn scan_props(body: &Vec<Stmt>, count: i32) -> (facts: Vec<Fact>)
    requires
        count > 0,
    ensures
        facts@ == scan(body@, count as int, 2, 0),
{
    let cnt: i64 = count as i64;
    let n: usize = body.len();
    let mut facts: Vec<Fact> = Vec::new();
    let mut curr: usize = 2;
    let mut pos: i64 = 0;
    loop
        invariant_except_break
            n == body@.len(),
            cnt == count as int,
            cnt >= 1,
            0 <= pos,
            pos <= cnt + 2,
            scan(body@, count as int, 2, 0) == facts@ + scan(
                body@,
                count as int,
                curr as int,
                pos as int,
            ),
        ensures
            scan(body@, count as int, 2, 0) == facts@,
        decreases cnt + 2 - pos, n + 1 - curr,
    {
        if pos > cnt {
            proof {
                assert(scan(body@, count as int, curr as int, pos as int) =~= Seq::<
                    Fact,
                >::empty());
                assert(facts@ + Seq::<Fact>::empty() =~= facts@);
            }
            break;
        }
        if curr >= n {
            proof {
                lemma_scan_oob(body@, count as int, curr as int, pos as int);
                assert(facts@ + Seq::<Fact>::empty() =~= facts@);
            }
            break;
        }
        let is_decl: bool = match &body[curr] {
            Stmt::VarDecl { decls: _ } => true,
            _ => false,
        };
        if !is_decl {
            proof {
                assert(!(body@[curr as int] is VarDecl));
            }
            if pos + 1 > cnt {
                proof {
                    assert(scan(body@, count as int, curr as int, pos as int) =~= Seq::<
                        Fact,
                    >::empty());
                    assert(facts@ + Seq::<Fact>::empty() =~= facts@);
                }
                break;
            }
            pos = pos + 1;
            curr = curr + 1;
        } else {
            let ghost pos_in = pos as int;
            let ghost facts_in = facts@;
            let ghost ds = match body@[curr as int] {
                Stmt::VarDecl { decls } => decls@,
                _ => Seq::empty(),
            };
            let ghost rfull = scan_decls(ds, count as int, pos_in);
            let mut broke: bool = false;
            match &body[curr] {
                Stmt::VarDecl { decls } => {
                    let dn: usize = decls.len();
                    proof {
                        assert(ds == decls@);
                        assert(ds.subrange(0, dn as int) =~= ds);
                        assert(facts@.subrange(facts_in.len() as int, facts@.len() as int) =~= Seq::<
                            Fact,
                        >::empty());
                    }
                    let mut di: usize = 0;
                    while di < dn && !broke
                        invariant
                            di <= dn,
                            dn == ds.len(),
                            cnt == count as int,
                            ds == decls@,
                            pos_in <= pos,
                            0 <= pos_in,
                            pos <= cnt + 2,
                            rfull == scan_decls(ds, count as int, pos_in),
                            facts_in == facts@.subrange(0, facts_in.len() as int),
                            facts_in.len() <= facts@.len(),
                            !broke ==> pos <= cnt,
                            !broke ==> rfull == {
                                let rsub = scan_decls(
                                    ds.subrange(di as int, dn as int),
                                    count as int,
                                    pos as int,
                                );
                                (
                                    facts@.subrange(facts_in.len() as int, facts@.len() as int)
                                        + rsub.0,
                                    rsub.1,
                                    rsub.2,
                                )
                            },
                            broke ==> rfull == (
                                facts@.subrange(facts_in.len() as int, facts@.len() as int),
                                pos as int,
                                true,
                            ),
                        decreases dn - di,
                    {
                        let ghost sub = ds.subrange(di as int, dn as int);
                        let ghost delta0 = facts@.subrange(
                            facts_in.len() as int,
                            facts@.len() as int,
                        );
                        proof {
                            assert(sub.first() == ds[di as int]);
                            assert(sub.drop_first() =~= ds.subrange(di + 1, dn as int));
                        }
                        let d = &decls[di];
                        let mut adv: i64 = 0;
                        let mut fact: Option<Fact> = Option::None;
                        match (&d.name, &d.init) {
                            (Option::Some(local), Option::Some(init)) => match init {
                                Expr::Or { left, right: _ } => match &**left {
                                    Expr::Member { obj: _, key } => {
                                        fact = Option::Some((*key, (*local, true)));
                                        adv = 2;
                                    },
                                    _ => {},
                                },
                                Expr::Member { obj: _, key } => {
                                    fact = Option::Some((*key, (*local, false)));
                                    adv = 1;
                                },
                                _ => {},
                            },
                            _ => {},
                        }
                        proof {
                            let df = decl_fact(ds[di as int]);
                            assert(fact == df.0 && adv as int == df.1);
                        }
                        let ghost f1: Seq<Fact> = match fact {
                            Option::Some(f) => seq![f],
                            Option::None => Seq::empty(),
                        };
                        match fact {
                            Option::Some(f) => {
                                facts.push(f);
                            },
                            Option::None => {},
                        }
                        pos = pos + adv;
                        if pos >= cnt {
                            broke = true;
                        }
                        di = di + 1;
                        proof {
                            assert(facts_in =~= facts@.subrange(0, facts_in.len() as int));
                            let delta1 = facts@.subrange(
                                facts_in.len() as int,
                                facts@.len() as int,
                            );
                            assert(delta1 =~= delta0 + f1);
                            if broke {
                                assert(scan_decls(sub, count as int, (pos - adv) as int) == (
                                    f1,
                                    pos as int,
                                    true,
                                ));
                                assert(delta0 + f1 =~= delta1);
                                assert(rfull == (delta1, pos as int, true));
                            } else {
                                let rnext = scan_decls(
                                    ds.subrange(di as int, dn as int),
                                    count as int,
                                    pos as int,
                                );
                                assert(scan_decls(sub, count as int, (pos - adv) as int) == (
                                    f1 + rnext.0,
                                    rnext.1,
                                    rnext.2,
                                ));
                                assert(delta0 + (f1 + rnext.0) =~= delta1 + rnext.0);
                            }
                        }
                    }
                },
                _ => {},
            }
            let ghost delta = facts@.subrange(facts_in.len() as int, facts@.len() as int);
            proof {
                if !broke {
                    assert(ds.subrange(ds.len() as int, ds.len() as int) =~= Seq::<
                        Declarator,
                    >::empty());
                    assert(rfull == (delta, pos as int, false));
                } else {
                    assert(rfull == (delta, pos as int, true));
                }
                assert(facts_in + delta =~= facts@);
            }
            if broke {
                proof {
                    assert(scan(body@, count as int, curr as int, pos_in) == rfull.0 + Seq::<
                        Fact,
                    >::empty());
                    assert(rfull.0 + Seq::<Fact>::empty() =~= delta);
                    assert(facts_in + delta =~= facts@);
                    assert(scan(body@, count as int, 2, 0) == facts@);
                }
                break;
            }
            proof {
                assert(scan(body@, count as int, curr as int, pos_in) == rfull.0 + scan(
                    body@,
                    count as int,
                    curr + 1,
                    pos as int,
                ));
                assert(facts_in + (delta + scan(body@, count as int, curr + 1, pos as int)) =~= facts@
                    + scan(body@, count as int, curr + 1, pos as int));
            }
            curr = curr + 1;
        }
    }
    facts
}


/// One recognized component definition: its identifier and scanned facts.
pub type Def = (u64, Seq<Fact>);

/// The outcome of examining one declarator for a component definition:
/// the outer `None` is the fatal metadata error, the inner `None` means
/// the declarator defines no component.
pub open spec fn decl_def(d: Declarator) -> Option<Option<Def>> {
    match d.name {
        Option::None => Option::Some(Option::None),
        Option::Some(id) => match d.init {
            Option::None => Option::Some(Option::None),
            Option::Some(init) => match init {
                Expr::Func { body } => {
                    if is_component_body(body@) {
                        match meta_of(body@) {
                            Option::None => Option::Some(Option::None),
                            Option::Some(m) => match spec_prop_count(m) {
                                Option::None => Option::None,
                                Option::Some(c) => Option::Some(
                                    Option::Some(
                                        (
                                            id,
                                            if c > 0 {
                                                scan(body@, c, 2, 0)
                                            } else {
                                                Seq::empty()
                                            },
                                        ),
                                    ),
                                ),
                            },
                        }
                    } else {
                        Option::Some(Option::None)
                    }
                },
                _ => Option::Some(Option::None),
            },
        },
    }
}

/// True when a function body opens with the component-marker directive.
pub open spec fn is_component_body(body: Seq<Stmt>) -> bool {
    body.len() > 0 && match body[0] {
        Stmt::ExprStmt { expr } => match expr {
            Expr::Str { text } => text@ == directive(),
            _ => false,
        },
        _ => false,
    }
}

/// The metadata string in the second statement slot, when present.
pub open spec fn meta_of(body: Seq<Stmt>) -> Option<Seq<char>> {
    if body.len() > 1 {
        match body[1] {
            Stmt::ExprStmt { expr } => match expr {
                Expr::Str { text } => Option::Some(text@),
                _ => Option::None,
            },
            _ => Option::None,
        }
    } else {
        Option::None
    }
}

/// Concatenation of definition lists, propagating the fatal error.
pub open spec fn dcat(a: Option<Seq<Def>>, b: Option<Seq<Def>>) -> Option<Seq<Def>> {
    match a {
        Option::None => Option::None,
        Option::Some(x) => match b {
            Option::None => Option::None,
            Option::Some(y) => Option::Some(x + y),
        },
    }
}

/// The component definitions found in an expression, in traversal order.
pub open spec fn defs_expr(e: Expr) -> Option<Seq<Def>>
    decreases e,
{
    match e {
        Expr::Ident { .. } => Option::Some(Seq::empty()),
        Expr::Str { .. } => Option::Some(Seq::empty()),
        Expr::Undef => Option::Some(Seq::empty()),
        Expr::FalseLit => Option::Some(Seq::empty()),
        Expr::Member { obj, .. } => defs_expr(*obj),
        Expr::Or { left, right } => dcat(defs_expr(*left), defs_expr(*right)),
        Expr::Cond { test, cons, alt } => dcat(
            dcat(defs_expr(*test), defs_expr(*cons)),
            defs_expr(*alt),
        ),
        Expr::Call { callee, args } => dcat(defs_expr(*callee), defs_args(args@)),
        Expr::Array { elems, .. } => defs_elems(elems@),
        Expr::Object { props } => defs_oprops(props@),
        Expr::Func { body } => defs_stmts(body@),
        Expr::Opaque { children, .. } => defs_exprs(children@),
    }
}

pub open spec fn defs_exprs(s: Seq<Expr>) -> Option<Seq<Def>>
    decreases s,
{
    if s.len() == 0 {
        Option::Some(Seq::empty())
    } else {
        dcat(defs_exprs(s.drop_last()), defs_expr(s.last()))
    }
}

pub open spec fn defs_args(s: Seq<Arg>) -> Option<Seq<Def>>
    decreases s,
{
    if s.len() == 0 {
        Option::Some(Seq::empty())
    } else {
        dcat(defs_args(s.drop_last()), defs_expr(s.last().expr))
    }
}

pub open spec fn defs_elems(s: Seq<Option<Arg>>) -> Option<Seq<Def>>
    decreases s,
{
    if s.len() == 0 {
        Option::Some(Seq::empty())
    } else {
        dcat(
            defs_elems(s.drop_last()),
            match s.last() {
                Option::Some(a) => defs_expr(a.expr),
                Option::None => Option::Some(Seq::empty()),
            },
        )
    }
}

pub open spec fn defs_oprops(s: Seq<ObjProp>) -> Option<Seq<Def>>
    decreases s,
{
    if s.len() == 0 {
        Option::Some(Seq::empty())
    } else {
        dcat(
            defs_oprops(s.drop_last()),
            match s.last() {
                ObjProp::KeyValue { value, .. } => defs_expr(value),
                ObjProp::OpaqueProp { children, .. } => defs_exprs(children@),
            },
        )
    }
}

pub open spec fn defs_stmt(st: Stmt) -> Option<Seq<Def>>
    decreases st,
{
    match st {
        Stmt::ExprStmt { expr } => defs_expr(expr),
        Stmt::VarDecl { decls } => defs_decls(decls@),
        Stmt::Ret { arg } => match arg {
            Option::Some(e) => defs_expr(e),
            Option::None => Option::Some(Seq::empty()),
        },
        Stmt::OpaqueStmt { exprs, stmts, .. } => dcat(defs_exprs(exprs@), defs_stmts(stmts@)),
    }
}

pub open spec fn defs_stmts(s: Seq<Stmt>) -> Option<Seq<Def>>
    decreases s,
{
    if s.len() == 0 {
        Option::Some(Seq::empty())
    } else {
        dcat(defs_stmts(s.drop_last()), defs_stmt(s.last()))
    }
}

pub open spec fn defs_decl(d: Declarator) -> Option<Seq<Def>>
    decreases d,
{
    match decl_def(d) {
        Option::None => Option::None,
        Option::Some(own) => {
            let own_seq: Seq<Def> = match own {
                Option::Some(def) => seq![def],
                Option::None => Seq::empty(),
            };
            match d.init {
                Option::Some(e) => dcat(Option::Some(own_seq), defs_expr(e)),
                Option::None => Option::Some(own_seq),
            }
        },
    }
}

pub open spec fn defs_decls(s: Seq<Declarator>) -> Option<Seq<Def>>
    decreases s,
{
    if s.len() == 0 {
        Option::Some(Seq::empty())
    } else {
        dcat(defs_decls(s.drop_last()), defs_decl(s.last()))
    }
}

/// All component definitions of one compilation unit.
pub open spec fn defs_prog(p: Program) -> Option<Seq<Def>> {
    defs_stmts(p.body@)
}


/// View of collected definition records.
pub open spec fn defs_view(v: Seq<(u64, Vec<Fact>)>) -> Seq<Def> {
    v.map_values(|e: (u64, Vec<Fact>)| (e.0, e.1@))
}

proof fn lemma_defs_exprs_none(s: Seq<Expr>, x: int)
    requires
        0 <= x < s.len(),
        defs_expr(s[x]) == Option::<Seq<Def>>::None,
    ensures
        defs_exprs(s) == Option::<Seq<Def>>::None,
    decreases s.len(),
{
    if x == s.len() - 1 {
        assert(s.last() == s[x]);
    } else {
        assert(s.drop_last()[x] == s[x]);
        lemma_defs_exprs_none(s.drop_last(), x);
    }
}

proof fn lemma_defs_args_none(s: Seq<Arg>, x: int)
    requires
        0 <= x < s.len(),
        defs_expr(s[x].expr) == Option::<Seq<Def>>::None,
    ensures
        defs_args(s) == Option::<Seq<Def>>::None,
    decreases s.len(),
{
    if x == s.len() - 1 {
        assert(s.last() == s[x]);
    } else {
        assert(s.drop_last()[x] == s[x]);
        lemma_defs_args_none(s.drop_last(), x);
    }
}

proof fn lemma_defs_elems_none(s: Seq<Option<Arg>>, x: int)
    requires
        0 <= x < s.len(),
        s[x] matches Option::Some(a) && defs_expr(a.expr) == Option::<Seq<Def>>::None,
    ensures
        defs_elems(s) == Option::<Seq<Def>>::None,
    decreases s.len(),
{
    if x == s.len() - 1 {
        assert(s.last() == s[x]);
    } else {
        assert(s.drop_last()[x] == s[x]);
        lemma_defs_elems_none(s.drop_last(), x);
    }
}

proof fn lemma_defs_oprops_none(s: Seq<ObjProp>, x: int)
    requires
        0 <= x < s.len(),
        (match s[x] {
            ObjProp::KeyValue { value, .. } => defs_expr(value),
            ObjProp::OpaqueProp { children, .. } => defs_exprs(children@),
        }) == Option::<Seq<Def>>::None,
    ensures
        defs_oprops(s) == Option::<Seq<Def>>::None,
    decreases s.len(),
{
    if x == s.len() - 1 {
        assert(s.last() == s[x]);
    } else {
        assert(s.drop_last()[x] == s[x]);
        lemma_defs_oprops_none(s.drop_last(), x);
    }
}

proof fn lemma_defs_stmts_none(s: Seq<Stmt>, x: int)
    requires
        0 <= x < s.len(),
        defs_stmt(s[x]) == Option::<Seq<Def>>::None,
    ensures
        defs_stmts(s) == Option::<Seq<Def>>::None,
    decreases s.len(),
{
    if x == s.len() - 1 {
        assert(s.last() == s[x]);
    } else {
        assert(s.drop_last()[x] == s[x]);
        lemma_defs_stmts_none(s.drop_last(), x);
    }
}

proof fn lemma_defs_decls_none(s: Seq<Declarator>, x: int)
    requires
        0 <= x < s.len(),
        defs_decl(s[x]) == Option::<Seq<Def>>::None,
    ensures
        defs_decls(s) == Option::<Seq<Def>>::None,
    decreases s.len(),
{
    if x == s.len() - 1 {
        assert(s.last() == s[x]);
    } else {
        assert(s.drop_last()[x] == s[x]);
        lemma_defs_decls_none(s.drop_last(), x);
    }
}

/// Walks an expression, appending every component definition found.
pub fn walk_defs_expr(e: &Expr, acc: &mut Vec<(u64, Vec<Fact>)>) -> (ok: bool)
    ensures
        match defs_expr(*e) {
            Option::Some(ds) => ok && defs_view(final(acc)@) == defs_view(old(acc)@) + ds,
            Option::None => !ok,
        },
    decreases *e,
{
    let ghost a0 = acc@;
    match e {
        Expr::Ident { .. } | Expr::Str { .. } | Expr::Undef | Expr::FalseLit => {
            proof {
                assert(defs_view(acc@) =~= defs_view(a0) + Seq::<Def>::empty());
            }
            true
        },
        Expr::Member { obj, .. } => walk_defs_expr(obj, acc),
        Expr::Or { left, right } => {
            if !walk_defs_expr(left, acc) {
                return false;
            }
            let ghost a1 = acc@;
            if !walk_defs_expr(right, acc) {
                return false;
            }
            proof {
                let x = defs_expr(*e.arrow_Or_left()).arrow_Some_0();
                let y = defs_expr(*e.arrow_Or_right()).arrow_Some_0();
                assert(defs_view(acc@) =~= defs_view(a0) + (x + y));
            }
            true
        },
        Expr::Cond { test, cons, alt } => {
            if !walk_defs_expr(test, acc) {
                return false;
            }
            if !walk_defs_expr(cons, acc) {
                return false;
            }
            if !walk_defs_expr(alt, acc) {
                return false;
            }
            true
        },
        Expr::Call { callee, args } => {
            if !walk_defs_expr(callee, acc) {
                return false;
            }
            walk_defs_args(args, acc)
        },
        Expr::Array { elems, .. } => walk_defs_elems(elems, acc),
        Expr::Object { props } => walk_defs_oprops(props, acc),
        Expr::Func { body } => walk_defs_stmts(body, acc),
        Expr::Opaque { children, .. } => walk_defs_exprs(children, acc),
    }
}

fn walk_defs_exprs(s: &Vec<Expr>, acc: &mut Vec<(u64, Vec<Fact>)>) -> (ok: bool)
    ensures
        match defs_exprs(s@) {
            Option::Some(ds) => ok && defs_view(final(acc)@) == defs_view(old(acc)@) + ds,
            Option::None => !ok,
        },
    decreases s@,
{
    let ghost a0 = acc@;
    let n: usize = s.len();
    let mut x: usize = 0;
    while x < n
        invariant
            x <= n,
            n == s@.len(),
            defs_exprs(s@.take(x as int)) matches Option::Some(ds) && defs_view(acc@)
                == defs_view(a0) + ds,
        decreases n - x,
    {
        let ghost pre = s@.take(x as int);
        proof {
            assert(s@.take(x + 1).drop_last() =~= pre);
            assert(s@.take(x + 1).last() == s@[x as int]);
            assert(decreases_to!(s@ => s@[x as int]));
        }
        let ok = walk_defs_expr(&s[x], acc);
        if !ok {
            proof {
                lemma_defs_exprs_none(s@, x as int);
            }
            return false;
        }
        x += 1;
    }
    proof {
        assert(s@.take(n as int) =~= s@);
    }
    true
}

fn walk_defs_args(s: &Vec<Arg>, acc: &mut Vec<(u64, Vec<Fact>)>) -> (ok: bool)
    ensures
        match defs_args(s@) {
            Option::Some(ds) => ok && defs_view(final(acc)@) == defs_view(old(acc)@) + ds,
            Option::None => !ok,
        },
    decreases s@,
{
    let ghost a0 = acc@;
    let n: usize = s.len();
    let mut x: usize = 0;
    while x < n
        invariant
            x <= n,
            n == s@.len(),
            defs_args(s@.take(x as int)) matches Option::Some(ds) && defs_view(acc@)
                == defs_view(a0) + ds,
        decreases n - x,
    {
        proof {
            assert(s@.take(x + 1).drop_last() =~= s@.take(x as int));
            assert(s@.take(x + 1).last() == s@[x as int]);
            assert(decreases_to!(s@ => s@[x as int]));
        }
        let ok = walk_defs_expr(&s[x].expr, acc);
        if !ok {
            proof {
                lemma_defs_args_none(s@, x as int);
            }
            return false;
        }
        x += 1;
    }
    proof {
        assert(s@.take(n as int) =~= s@);
    }
    true
}

fn walk_defs_elems(s: &Vec<Option<Arg>>, acc: &mut Vec<(u64, Vec<Fact>)>) -> (ok: bool)
    ensures
        match defs_elems(s@) {
            Option::Some(ds) => ok && defs_view(final(acc)@) == defs_view(old(acc)@) + ds,
            Option::None => !ok,
        },
    decreases s@,
{
    let ghost a0 = acc@;
    let n: usize = s.len();
    let mut x: usize = 0;
    while x < n
        invariant
            x <= n,
            n == s@.len(),
            defs_elems(s@.take(x as int)) matches Option::Some(ds) && defs_view(acc@)
                == defs_view(a0) + ds,
        decreases n - x,
    {
        proof {
            assert(s@.take(x + 1).drop_last() =~= s@.take(x as int));
            assert(s@.take(x + 1).last() == s@[x as int]);
            assert(decreases_to!(s@ => s@[x as int]));
        }
        match &s[x] {
            Option::Some(a) => {
                let ok = walk_defs_expr(&a.expr, acc);
                if !ok {
                    proof {
                        lemma_defs_elems_none(s@, x as int);
                    }
                    return false;
                }
            },
            Option::None => {
                proof {
                    assert(defs_view(acc@) =~= defs_view(acc@) + Seq::<Def>::empty());
                }
            },
        }
        x += 1;
    }
    proof {
        assert(s@.take(n as int) =~= s@);
    }
    true
}

fn walk_defs_oprops(s: &Vec<ObjProp>, acc: &mut Vec<(u64, Vec<Fact>)>) -> (ok: bool)
    ensures
        match defs_oprops(s@) {
            Option::Some(ds) => ok && defs_view(final(acc)@) == defs_view(old(acc)@) + ds,
            Option::None => !ok,
        },
    decreases s@,
{
    let ghost a0 = acc@;
    let n: usize = s.len();
    let mut x: usize = 0;
    while x < n
        invariant
            x <= n,
            n == s@.len(),
            defs_oprops(s@.take(x as int)) matches Option::Some(ds) && defs_view(acc@)
                == defs_view(a0) + ds,
        decreases n - x,
    {
        proof {
            assert(s@.take(x + 1).drop_last() =~= s@.take(x as int));
            assert(s@.take(x + 1).last() == s@[x as int]);
            assert(decreases_to!(s@ => s@[x as int]));
        }
        let ok = match &s[x] {
            ObjProp::KeyValue { value, .. } => walk_defs_expr(value, acc),
            ObjProp::OpaqueProp { children, .. } => walk_defs_exprs(children, acc),
        };
        if !ok {
            proof {
                lemma_defs_oprops_none(s@, x as int);
            }
            return false;
        }
        x += 1;
    }
    proof {
        assert(s@.take(n as int) =~= s@);
    }
    true
}

fn walk_defs_decl(d: &Declarator, acc: &mut Vec<(u64, Vec<Fact>)>) -> (ok: bool)
    ensures
        match defs_decl(*d) {
            Option::Some(ds) => ok && defs_view(final(acc)@) == defs_view(old(acc)@) + ds,
            Option::None => !ok,
        },
    decreases *d,
{
    let ghost a0 = acc@;
    let mut failed: bool = false;
    match (&d.name, &d.init) {
        (Option::Some(id), Option::Some(init)) => {
            match init {
                Expr::Func { body } => {
                    let is_comp: bool = if body.len() > 0 {
                        match &body[0] {
                            Stmt::ExprStmt { expr } => match expr {
                                Expr::Str { text } => is_directive_text(text),
                                _ => false,
                            },
                            _ => false,
                        }
                    } else {
                        false
                    };
                    if is_comp {
                        let meta: Option<&Vec<char>> = if body.len() > 1 {
                            match &body[1] {
                                Stmt::ExprStmt { expr } => match expr {
                                    Expr::Str { text } => Option::Some(text),
                                    _ => Option::None,
                                },
                                _ => Option::None,
                            }
                        } else {
                            Option::None
                        };
                        match meta {
                            Option::Some(m) => match prop_count_of(m) {
                                Option::None => {
                                    failed = true;
                                },
                                Option::Some(c) => {
                                    let facts: Vec<Fact> = if c > 0 {
                                        scan_props(body, c)
                                    } else {
                                        Vec::new()
                                    };
                                    acc.push((*id, facts));
                                },
                            },
                            Option::None => {},
                        }
                    }
                },
                _ => {},
            }
        },
        _ => {},
    }
    if failed {
        return false;
    }
    let ghost own: Seq<Def> = match decl_def(*d) {
        Option::Some(Option::Some(def)) => seq![def],
        _ => Seq::empty(),
    };
    proof {
        assert(decl_def(*d) is Some);
        assert(defs_view(acc@) =~= defs_view(a0) + own);
    }
    match &d.init {
        Option::Some(e) => {
            let ghost a1 = acc@;
            let ok = walk_defs_expr(e, acc);
            if !ok {
                return false;
            }
            proof {
                let cs = defs_expr(d.init.arrow_Some_0()).arrow_Some_0();
                assert(defs_view(acc@) =~= defs_view(a0) + (own + cs));
            }
            true
        },
        Option::None => true,
    }
}

/// True when the characters are exactly the component-marker directive.
pub fn is_directive_text(text: &Vec<char>) -> (r: bool)
    ensures
        r == (text@ == directive()),
{
    let pat = "use mango_component";
    proof {
        assert(pat@ == directive());
    }
    let n: usize = pat.unicode_len();
    if text.len() != n {
        proof {
            assert(text@ != directive());
        }
        return false;
    }
    let mut i: usize = 0;
    while i < n
        invariant
            i <= n,
            n == text@.len(),
            pat@ == directive(),
            n == directive().len(),
            forall|j: int| 0 <= j < i ==> text@[j] == directive()[j],
        decreases n - i,
    {
        if text[i] != pat.get_char(i) {
            return false;
        }
        i += 1;
    }
    proof {
        assert(text@ =~= directive());
    }
    true
}

fn walk_defs_decls(s: &Vec<Declarator>, acc: &mut Vec<(u64, Vec<Fact>)>) -> (ok: bool)
    ensures
        match defs_decls(s@) {
            Option::Some(ds) => ok && defs_view(final(acc)@) == defs_view(old(acc)@) + ds,
            Option::None => !ok,
        },
    decreases s@,
{
    let ghost a0 = acc@;
    let n: usize = s.len();
    let mut x: usize = 0;
    while x < n
        invariant
            x <= n,
            n == s@.len(),
            defs_decls(s@.take(x as int)) matches Option::Some(ds) && defs_view(acc@)
                == defs_view(a0) + ds,
        decreases n - x,
    {
        proof {
            assert(s@.take(x + 1).drop_last() =~= s@.take(x as int));
            assert(s@.take(x + 1).last() == s@[x as int]);
            assert(decreases_to!(s@ => s@[x as int]));
        }
        let ok = walk_defs_decl(&s[x], acc);
        if !ok {
            proof {
                lemma_defs_decls_none(s@, x as int);
            }
            return false;
        }
        x += 1;
    }
    proof {
        assert(s@.take(n as int) =~= s@);
    }
    true
}

fn walk_defs_stmt(st: &Stmt, acc: &mut Vec<(u64, Vec<Fact>)>) -> (ok: bool)
    ensures
        match defs_stmt(*st) {
            Option::Some(ds) => ok && defs_view(final(acc)@) == defs_view(old(acc)@) + ds,
            Option::None => !ok,
        },
    decreases *st,
{
    let ghost a0 = acc@;
    match st {
        Stmt::ExprStmt { expr } => walk_defs_expr(expr, acc),
        Stmt::VarDecl { decls } => walk_defs_decls(decls, acc),
        Stmt::Ret { arg } => match arg {
            Option::Some(e) => walk_defs_expr(e, acc),
            Option::None => {
                proof {
                    assert(defs_view(acc@) =~= defs_view(a0) + Seq::<Def>::empty());
                }
                true
            },
        },
        Stmt::OpaqueStmt { exprs, stmts, .. } => {
            if !walk_defs_exprs(exprs, acc) {
                return false;
            }
            walk_defs_stmts(stmts, acc)
        },
    }
}

fn walk_defs_stmts(s: &Vec<Stmt>, acc: &mut Vec<(u64, Vec<Fact>)>) -> (ok: bool)
    ensures
        match defs_stmts(s@) {
            Option::Some(ds) => ok && defs_view(final(acc)@) == defs_view(old(acc)@) + ds,
            Option::None => !ok,
        },
    decreases s@,
{
    let ghost a0 = acc@;
    let n: usize = s.len();
    let mut x: usize = 0;
    while x < n
        invariant
            x <= n,
            n == s@.len(),
            defs_stmts(s@.take(x as int)) matches Option::Some(ds) && defs_view(acc@)
                == defs_view(a0) + ds,
        decreases n - x,
    {
        proof {
            assert(s@.take(x + 1).drop_last() =~= s@.take(x as int));
            assert(s@.take(x + 1).last() == s@[x as int]);
            assert(decreases_to!(s@ => s@[x as int]));
        }
        let ok = walk_defs_stmt(&s[x], acc);
        if !ok {
            proof {
                lemma_defs_stmts_none(s@, x as int);
            }
            return false;
        }
        x += 1;
    }
    proof {
        assert(s@.take(n as int) =~= s@);
    }
    true
}

/// Collects every component definition of the unit, or reports the fatal
/// metadata error.
pub fn collect_defs(p: &Program) -> (r: Result<Vec<(u64, Vec<Fact>)>, ConfigError>)
    ensures
        match r {
            Result::Ok(v) => defs_prog(*p) == Option::Some(defs_view(v@)),
            Result::Err(_) => defs_prog(*p) == Option::<Seq<Def>>::None,
        },
{
    let mut acc: Vec<(u64, Vec<Fact>)> = Vec::new();
    let ok = walk_defs_stmts(&p.body, &mut acc);
    if ok {
        proof {
            assert(defs_view(Seq::<(u64, Vec<Fact>)>::empty())
                + defs_prog(*p).arrow_Some_0() =~= defs_prog(*p).arrow_Some_0());
            assert(defs_view(Seq::<(u64, Vec<Fact>)>::empty()) =~= Seq::<Def>::empty());
        }
        Result::Ok(acc)
    } else {
        Result::Err(ConfigError::BadPropsCount)
    }
}


/// One call-site fact: component id, prop key, dependency identifiers.
pub type UseFact = (u64, u64, Seq<u64>);

/// The bare identifiers of a dependency-array element list.
pub open spec fn dep_elems(elems: Seq<Option<Arg>>) -> Seq<u64>
    decreases elems.len(),
{
    if elems.len() == 0 {
        Seq::empty()
    } else {
        dep_elems(elems.drop_last()) + (match elems.last() {
            Option::Some(a) => match a.expr {
                Expr::Ident { id } => seq![id],
                _ => Seq::empty(),
            },
            Option::None => Seq::empty(),
        })
    }
}

/// The dependencies a call-site prop value contributes: the identifiers of
/// a reactive accessor's dependency array, or the identifier itself for a
/// pass-through reference.
pub open spec fn value_deps(v: Expr) -> Seq<u64> {
    match v {
        Expr::Call { callee: _, args } => {
            if args@.len() > 1 {
                match args@[1].expr {
                    Expr::Array { elems, .. } => dep_elems(elems@),
                    _ => Seq::empty(),
                }
            } else {
                Seq::empty()
            }
        },
        Expr::Ident { id } => seq![id],
        _ => Seq::empty(),
    }
}

/// The facts of one call's object-literal argument.
pub open spec fn obj_uses(props: Seq<ObjProp>, cid: u64, tbl: PropsTable) -> Seq<UseFact>
    decreases props.len(),
{
    if props.len() == 0 {
        Seq::empty()
    } else {
        obj_uses(props.drop_last(), cid, tbl) + (match props.last() {
            ObjProp::KeyValue { key, value } => if ahas(tbl.items@, key) {
                seq![(cid, key, value_deps(value))]
            } else {
                Seq::empty()
            },
            ObjProp::OpaqueProp { .. } => Seq::empty(),
        })
    }
}

/// The facts one node itself contributes: a call of a known component with
/// an object-literal first argument.
pub open spec fn node_uses(e: Expr, comps: Components) -> Seq<UseFact> {
    match e {
        Expr::Call { callee, args } => match *callee {
            Expr::Ident { id } => {
                if args@.len() > 0 {
                    match args@[0].expr {
                        Expr::Object { props } => match aget(comps.items@, id) {
                            Option::Some(t) => obj_uses(props@, id, t),
                            Option::None => Seq::empty(),
                        },
                        _ => Seq::empty(),
                    }
                } else {
                    Seq::empty()
                }
            },
            _ => Seq::empty(),
        },
        _ => Seq::empty(),
    }
}

/// All call-site facts of an expression, its own first.
pub open spec fn uses_expr(e: Expr, comps: Components) -> Seq<UseFact>
    decreases e,
{
    node_uses(e, comps) + (match e {
        Expr::Ident { .. } => Seq::empty(),
        Expr::Str { .. } => Seq::empty(),
        Expr::Undef => Seq::empty(),
        Expr::FalseLit => Seq::empty(),
        Expr::Member { obj, .. } => uses_expr(*obj, comps),
        Expr::Or { left, right } => uses_expr(*left, comps) + uses_expr(*right, comps),
        Expr::Cond { test, cons, alt } => uses_expr(*test, comps) + uses_expr(*cons, comps)
            + uses_expr(*alt, comps),
        Expr::Call { callee, args } => uses_expr(*callee, comps) + uses_args(args@, comps),
        Expr::Array { elems, .. } => uses_elems(elems@, comps),
        Expr::Object { props } => uses_oprops(props@, comps),
        Expr::Func { body } => uses_stmts(body@, comps),
        Expr::Opaque { children, .. } => uses_exprs(children@, comps),
    })
}

pub open spec fn uses_exprs(s: Seq<Expr>, comps: Components) -> Seq<UseFact>
    decreases s,
{
    if s.len() == 0 {
        Seq::empty()
    } else {
        uses_exprs(s.drop_last(), comps) + uses_expr(s.last(), comps)
    }
}

pub open spec fn uses_args(s: Seq<Arg>, comps: Components) -> Seq<UseFact>
    decreases s,
{
    if s.len() == 0 {
        Seq::empty()
    } else {
        uses_args(s.drop_last(), comps) + uses_expr(s.last().expr, comps)
    }
}

pub open spec fn uses_elems(s: Seq<Option<Arg>>, comps: Components) -> Seq<UseFact>
    decreases s,
{
    if s.len() == 0 {
        Seq::empty()
    } else {
        uses_elems(s.drop_last(), comps) + (match s.last() {
            Option::Some(a) => uses_expr(a.expr, comps),
            Option::None => Seq::empty(),
        })
    }
}

pub open spec fn uses_oprops(s: Seq<ObjProp>, comps: Components) -> Seq<UseFact>
    decreases s,
{
    if s.len() == 0 {
        Seq::empty()
    } else {
        uses_oprops(s.drop_last(), comps) + (match s.last() {
            ObjProp::KeyValue { value, .. } => uses_expr(value, comps),
            ObjProp::OpaqueProp { children, .. } => uses_exprs(children@, comps),
        })
    }
}

pub open spec fn uses_stmt(st: Stmt, comps: Components) -> Seq<UseFact>
    decreases st,
{
    match st {
        Stmt::ExprStmt { expr } => uses_expr(expr, comps),
        Stmt::VarDecl { decls } => uses_decls(decls@, comps),
        Stmt::Ret { arg } => match arg {
            Option::Some(e) => uses_expr(e, comps),
            Option::None => Seq::empty(),
        },
        Stmt::OpaqueStmt { exprs, stmts, .. } => uses_exprs(exprs@, comps) + uses_stmts(
            stmts@,
            comps,
        ),
    }
}

pub open spec fn uses_stmts(s: Seq<Stmt>, comps: Components) -> Seq<UseFact>
    decreases s,
{
    if s.len() == 0 {
        Seq::empty()
    } else {
        uses_stmts(s.drop_last(), comps) + uses_stmt(s.last(), comps)
    }
}

pub open spec fn uses_decls(s: Seq<Declarator>, comps: Components) -> Seq<UseFact>
    decreases s,
{
    if s.len() == 0 {
        Seq::empty()
    } else {
        uses_decls(s.drop_last(), comps) + (match s.last().init {
            Option::Some(e) => uses_expr(e, comps),
            Option::None => Seq::empty(),
        })
    }
}

/// All call-site facts of one compilation unit.
pub open spec fn uses_prog(p: Program, comps: Components) -> Seq<UseFact> {
    uses_stmts(p.body@, comps)
}

/// View of collected use records.
pub open spec fn uses_view(v: Seq<(u64, u64, Vec<u64>)>) -> Seq<UseFact> {
    v.map_values(|e: (u64, u64, Vec<u64>)| (e.0, e.1, e.2@))
}

/// Reads the dependency identifiers a call-site prop value contributes.
fn extract_deps(v: &Expr) -> (r: Vec<u64>)
    ensures
        r@ == value_deps(*v),
{
    let mut out: Vec<u64> = Vec::new();
    match v {
        Expr::Call { callee: _, args } => {
            if args.len() > 1 {
                match &args[1].expr {
                    Expr::Array { elems, .. } => {
                        let n: usize = elems.len();
                        let mut x: usize = 0;
                        while x < n
                            invariant
                                x <= n,
                                n == elems@.len(),
                                out@ == dep_elems(elems@.take(x as int)),
                            decreases n - x,
                        {
                            proof {
                                assert(elems@.take(x + 1).drop_last() =~= elems@.take(x as int));
                                assert(elems@.take(x + 1).last() == elems@[x as int]);
                            }
                            match &elems[x] {
                                Option::Some(a) => match &a.expr {
                                    Expr::Ident { id } => {
                                        out.push(*id);
                                    },
                                    _ => {},
                                },
                                Option::None => {},
                            }
                            x += 1;
                        }
                        proof {
                            assert(elems@.take(n as int) =~= elems@);
                        }
                    },
                    _ => {},
                }
            }
        },
        Expr::Ident { id } => {
            out.push(*id);
        },
        _ => {},
    }
    out
}

/// Walks an expression, appending every call-site fact found.
pub fn walk_uses_expr(e: &Expr, comps: &Components, acc: &mut Vec<(u64, u64, Vec<u64>)>)
    ensures
        uses_view(final(acc)@) == uses_view(old(acc)@) + uses_expr(*e, *comps),
    decreases *e,
{
    let ghost a0 = acc@;
    match e {
        Expr::Call { callee, args } => {
            match &**callee {
                Expr::Ident { id } => {
                    if args.len() > 0 {
                        match &args[0].expr {
                            Expr::Object { props } => match comps.find(*id) {
                                Option::Some(ci) => {
                                    let ghost tblg = aget(
                                        comps.items@,
                                        *id,
                                    ).arrow_Some_0();
                                    let pn: usize = props.len();
                                    let mut x: usize = 0;
                                    while x < pn
                                        invariant
                                            x <= pn,
                                            pn == props@.len(),
                                            ci < comps.items@.len(),
                                            comps.items@[ci as int].0 == *id,
                                            aget(comps.items@, *id) == Option::Some(
                                                comps.items@[ci as int].1,
                                            ),
                                            tblg == comps.items@[ci as int].1,
                                            uses_view(acc@) == uses_view(a0) + obj_uses(
                                                props@.take(x as int),
                                                *id,
                                                tblg,
                                            ),
                                        decreases pn - x,
                                    {
                                        proof {
                                            assert(props@.take(x + 1).drop_last() =~= props@.take(
                                                x as int,
                                            ));
                                            assert(props@.take(x + 1).last() == props@[x as int]);
                                        }
                                        match &props[x] {
                                            ObjProp::KeyValue { key, value } => {
                                                let tbl = &comps.items[ci].1;
                                                match tbl.find(*key) {
                                                    Option::Some(_) => {
                                                        let deps = extract_deps(value);
                                                        let ghost dv = deps@;
                                                        let ghost a_pre = acc@;
                                                        acc.push((*id, *key, deps));
                                                        proof {
                                                            let f = (*id, *key, dv);
                                                            assert(props@[x as int]
                                                                == props@.take(x + 1).last());
                                                            assert(dv == value_deps(
                                                                props@[x as int].arrow_KeyValue_value(),
                                                            ));
                                                            assert(obj_uses(
                                                                props@.take(x + 1),
                                                                *id,
                                                                tblg,
                                                            ) =~= obj_uses(
                                                                props@.take(x as int),
                                                                *id,
                                                                tblg,
                                                            ).push(f));
                                                            assert(acc@.drop_last() =~= a_pre);
                                                            assert(uses_view(acc@)
                                                                =~= uses_view(acc@.drop_last()).push(
                                                                f,
                                                            ));
                                                            assert((uses_view(a0) + obj_uses(
                                                                props@.take(x as int),
                                                                *id,
                                                                tblg,
                                                            )).push(f) =~= uses_view(a0)
                                                                + obj_uses(
                                                                props@.take(x as int),
                                                                *id,
                                                                tblg,
                                                            ).push(f));
                                                            assert(uses_view(acc@) =~= uses_view(
                                                                a0,
                                                            ) + obj_uses(
                                                                props@.take(x + 1),
                                                                *id,
                                                                tblg,
                                                            ));
                                                        }
                                                    },
                                                    Option::None => {
                                                        proof {
                                                            assert(uses_view(acc@) =~= uses_view(
                                                                a0,
                                                            ) + (obj_uses(
                                                                props@.take(x as int),
                                                                *id,
                                                                tblg,
                                                            ) + Seq::<UseFact>::empty()));
                                                        }
                                                    },
                                                }
                                            },
                                            ObjProp::OpaqueProp { .. } => {
                                                proof {
                                                    assert(uses_view(acc@) =~= uses_view(a0)
                                                        + (obj_uses(
                                                        props@.take(x as int),
                                                        *id,
                                                        tblg,
                                                    ) + Seq::<UseFact>::empty()));
                                                }
                                            },
                                        }
                                        x += 1;
                                    }
                                    proof {
                                        assert(props@.take(pn as int) =~= props@);
                                        assert(node_uses(*e, *comps) == obj_uses(
                                            props@,
                                            *id,
                                            tblg,
                                        ));
                                    }
                                },
                                Option::None => {
                                    proof {
                                        assert(uses_view(acc@) =~= uses_view(a0) + Seq::<
                                            UseFact,
                                        >::empty());
                                    }
                                },
                            },
                            _ => {
                                proof {
                                    assert(uses_view(acc@) =~= uses_view(a0) + Seq::<
                                        UseFact,
                                    >::empty());
                                }
                            },
                        }
                    } else {
                        proof {
                            assert(uses_view(acc@) =~= uses_view(a0) + Seq::<UseFact>::empty());
                        }
                    }
                },
                _ => {
                    proof {
                        assert(uses_view(acc@) =~= uses_view(a0) + Seq::<UseFact>::empty());
                    }
                },
            }
            let ghost a1 = acc@;
            proof {
                assert(uses_view(a1) == uses_view(a0) + node_uses(*e, *comps));
            }
            walk_uses_expr(callee, comps, acc);
            let ghost a2 = acc@;
            walk_uses_args(args, comps, acc);
            proof {
                assert(uses_view(acc@) =~= uses_view(a0) + (node_uses(*e, *comps) + (uses_expr(
                    *e.arrow_Call_callee(),
                    *comps,
                ) + uses_args(e.arrow_Call_args()@, *comps))));
            }
        },
        Expr::Ident { .. } | Expr::Str { .. } | Expr::Undef | Expr::FalseLit => {
            proof {
                assert(uses_view(acc@) =~= uses_view(a0) + uses_expr(*e, *comps));
            }
        },
        Expr::Member { obj, .. } => {
            walk_uses_expr(obj, comps, acc);
            proof {
                assert(uses_view(acc@) =~= uses_view(a0) + uses_expr(*e, *comps));
            }
        },
        Expr::Or { left, right } => {
            walk_uses_expr(left, comps, acc);
            walk_uses_expr(right, comps, acc);
            proof {
                assert(uses_view(acc@) =~= uses_view(a0) + uses_expr(*e, *comps));
            }
        },
        Expr::Cond { test, cons, alt } => {
            walk_uses_expr(test, comps, acc);
            walk_uses_expr(cons, comps, acc);
            walk_uses_expr(alt, comps, acc);
            proof {
                assert(uses_view(acc@) =~= uses_view(a0) + uses_expr(*e, *comps));
            }
        },
        Expr::Array { elems, .. } => {
            walk_uses_elems(elems, comps, acc);
            proof {
                assert(uses_view(acc@) =~= uses_view(a0) + uses_expr(*e, *comps));
            }
        },
        Expr::Object { props } => {
            walk_uses_oprops(props, comps, acc);
            proof {
                assert(uses_view(acc@) =~= uses_view(a0) + uses_expr(*e, *comps));
            }
        },
        Expr::Func { body } => {
            walk_uses_stmts(body, comps, acc);
            proof {
                assert(uses_view(acc@) =~= uses_view(a0) + uses_expr(*e, *comps));
            }
        },
        Expr::Opaque { children, .. } => {
            walk_uses_exprs(children, comps, acc);
            proof {
                assert(uses_view(acc@) =~= uses_view(a0) + uses_expr(*e, *comps));
            }
        },
    }
}

fn walk_uses_exprs(s: &Vec<Expr>, comps: &Components, acc: &mut Vec<(u64, u64, Vec<u64>)>)
    ensures
        uses_view(final(acc)@) == uses_view(old(acc)@) + uses_exprs(s@, *comps),
    decreases s@,
{
    let ghost a0 = acc@;
    let n: usize = s.len();
    let mut x: usize = 0;
    while x < n
        invariant
            x <= n,
            n == s@.len(),
            uses_view(acc@) == uses_view(a0) + uses_exprs(s@.take(x as int), *comps),
        decreases n - x,
    {
        proof {
            assert(s@.take(x + 1).drop_last() =~= s@.take(x as int));
            assert(s@.take(x + 1).last() == s@[x as int]);
            assert(decreases_to!(s@ => s@[x as int]));
        }
        walk_uses_expr(&s[x], comps, acc);
        proof {
            assert(uses_view(acc@) =~= uses_view(a0) + uses_exprs(s@.take(x + 1), *comps));
        }
        x += 1;
    }
    proof {
        assert(s@.take(n as int) =~= s@);
    }
}

fn walk_uses_args(s: &Vec<Arg>, comps: &Components, acc: &mut Vec<(u64, u64, Vec<u64>)>)
    ensures
        uses_view(final(acc)@) == uses_view(old(acc)@) + uses_args(s@, *comps),
    decreases s@,
{
    let ghost a0 = acc@;
    let n: usize = s.len();
    let mut x: usize = 0;
    while x < n
        invariant
            x <= n,
            n == s@.len(),
            uses_view(acc@) == uses_view(a0) + uses_args(s@.take(x as int), *comps),
        decreases n - x,
    {
        proof {
            assert(s@.take(x + 1).drop_last() =~= s@.take(x as int));
            assert(s@.take(x + 1).last() == s@[x as int]);
            assert(decreases_to!(s@ => s@[x as int]));
        }
        walk_uses_expr(&s[x].expr, comps, acc);
        proof {
            assert(uses_view(acc@) =~= uses_view(a0) + uses_args(s@.take(x + 1), *comps));
        }
        x += 1;
    }
    proof {
        assert(s@.take(n as int) =~= s@);
    }
}

fn walk_uses_elems(s: &Vec<Option<Arg>>, comps: &Components, acc: &mut Vec<(u64, u64, Vec<u64>)>)
    ensures
        uses_view(final(acc)@) == uses_view(old(acc)@) + uses_elems(s@, *comps),
    decreases s@,
{
    let ghost a0 = acc@;
    let n: usize = s.len();
    let mut x: usize = 0;
    while x < n
        invariant
            x <= n,
            n == s@.len(),
            uses_view(acc@) == uses_view(a0) + uses_elems(s@.take(x as int), *comps),
        decreases n - x,
    {
        proof {
            assert(s@.take(x + 1).drop_last() =~= s@.take(x as int));
            assert(s@.take(x + 1).last() == s@[x as int]);
            assert(decreases_to!(s@ => s@[x as int]));
        }
        match &s[x] {
            Option::Some(a) => {
                walk_uses_expr(&a.expr, comps, acc);
            },
            Option::None => {},
        }
        proof {
            assert(uses_view(acc@) =~= uses_view(a0) + uses_elems(s@.take(x + 1), *comps));
        }
        x += 1;
    }
    proof {
        assert(s@.take(n as int) =~= s@);
    }
}

fn walk_uses_oprops(s: &Vec<ObjProp>, comps: &Components, acc: &mut Vec<(u64, u64, Vec<u64>)>)
    ensures
        uses_view(final(acc)@) == uses_view(old(acc)@) + uses_oprops(s@, *comps),
    decreases s@,
{
    let ghost a0 = acc@;
    let n: usize = s.len();
    let mut x: usize = 0;
    while x < n
        invariant
            x <= n,
            n == s@.len(),
            uses_view(acc@) == uses_view(a0) + uses_oprops(s@.take(x as int), *comps),
        decreases n - x,
    {
        proof {
            assert(s@.take(x + 1).drop_last() =~= s@.take(x as int));
            assert(s@.take(x + 1).last() == s@[x as int]);
            assert(decreases_to!(s@ => s@[x as int]));
        }
        match &s[x] {
            ObjProp::KeyValue { value, .. } => {
                walk_uses_expr(value, comps, acc);
            },
            ObjProp::OpaqueProp { children, .. } => {
                walk_uses_exprs(children, comps, acc);
            },
        }
        proof {
            assert(uses_view(acc@) =~= uses_view(a0) + uses_oprops(s@.take(x + 1), *comps));
        }
        x += 1;
    }
    proof {
        assert(s@.take(n as int) =~= s@);
    }
}

fn walk_uses_stmt(st: &Stmt, comps: &Components, acc: &mut Vec<(u64, u64, Vec<u64>)>)
    ensures
        uses_view(final(acc)@) == uses_view(old(acc)@) + uses_stmt(*st, *comps),
    decreases *st,
{
    let ghost a0 = acc@;
    match st {
        Stmt::ExprStmt { expr } => {
            walk_uses_expr(expr, comps, acc);
        },
        Stmt::VarDecl { decls } => {
            let n: usize = decls.len();
            let mut x: usize = 0;
            while x < n
                invariant
                    x <= n,
                    n == decls@.len(),
                    *st is VarDecl,
                    st.arrow_VarDecl_decls() == *decls,
                    uses_view(acc@) == uses_view(a0) + uses_decls(decls@.take(x as int), *comps),
                decreases n - x,
            {
                proof {
                    assert(decls@.take(x + 1).drop_last() =~= decls@.take(x as int));
                    assert(decls@.take(x + 1).last() == decls@[x as int]);
                    assert(decreases_to!(decls@ => decls@[x as int]));
                }
                match &decls[x].init {
                    Option::Some(e) => {
                        proof {
                            let d = decls@[x as int];
                            assert(*decls == st.arrow_VarDecl_decls());
                            assert(decreases_to!(*st => st.arrow_VarDecl_decls()));
                            assert(decreases_to!(st.arrow_VarDecl_decls()
                                => st.arrow_VarDecl_decls()@));
                            assert(decreases_to!(*st => decls@));
                            assert(decreases_to!(d => d.init));
                            assert(decreases_to!(d.init => *e));
                        }
                        walk_uses_expr(e, comps, acc);
                    },
                    Option::None => {},
                }
                proof {
                    assert(uses_view(acc@) =~= uses_view(a0) + uses_decls(
                        decls@.take(x + 1),
                        *comps,
                    ));
                }
                x += 1;
            }
            proof {
                assert(decls@.take(n as int) =~= decls@);
            }
        },
        Stmt::Ret { arg } => {
            match arg {
                Option::Some(e) => {
                    walk_uses_expr(e, comps, acc);
                },
                Option::None => {
                    proof {
                        assert(uses_view(acc@) =~= uses_view(a0) + Seq::<UseFact>::empty());
                    }
                },
            }
        },
        Stmt::OpaqueStmt { exprs, stmts, .. } => {
            walk_uses_exprs(exprs, comps, acc);
            walk_uses_stmts(stmts, comps, acc);
            proof {
                assert(uses_view(acc@) =~= uses_view(a0) + uses_stmt(*st, *comps));
            }
        },
    }
}

fn walk_uses_stmts(s: &Vec<Stmt>, comps: &Components, acc: &mut Vec<(u64, u64, Vec<u64>)>)
    ensures
        uses_view(final(acc)@) == uses_view(old(acc)@) + uses_stmts(s@, *comps),
    decreases s@,
{
    let ghost a0 = acc@;
    let n: usize = s.len();
    let mut x: usize = 0;
    while x < n
        invariant
            x <= n,
            n == s@.len(),
            uses_view(acc@) == uses_view(a0) + uses_stmts(s@.take(x as int), *comps),
        decreases n - x,
    {
        proof {
            assert(s@.take(x + 1).drop_last() =~= s@.take(x as int));
            assert(s@.take(x + 1).last() == s@[x as int]);
            assert(decreases_to!(s@ => s@[x as int]));
        }
        walk_uses_stmt(&s[x], comps, acc);
        proof {
            assert(uses_view(acc@) =~= uses_view(a0) + uses_stmts(s@.take(x + 1), *comps));
        }
        x += 1;
    }
    proof {
        assert(s@.take(n as int) =~= s@);
    }
}

/// Collects every call-site fact of the unit against the built registry.
pub fn collect_uses(p: &Program, comps: &Components) -> (r: Vec<(u64, u64, Vec<u64>)>)
    ensures
        uses_view(r@) == uses_prog(*p, *comps),
{
    let mut acc: Vec<(u64, u64, Vec<u64>)> = Vec::new();
    walk_uses_stmts(&p.body, comps, &mut acc);
    proof {
        assert(uses_view(Seq::<(u64, u64, Vec<u64>)>::empty()) =~= Seq::<UseFact>::empty());
        assert(Seq::<UseFact>::empty() + uses_prog(*p, *comps) =~= uses_prog(*p, *comps));
    }
    acc
}


/// A prop table matches the scanned facts of its component: each key maps
/// to a fresh record of the last fact for that key, and nothing else.
pub open spec fn table_ok(t: PropsTable, facts: Seq<Fact>) -> bool {
    &&& adistinct(t.items@)
    &&& forall|k: u64|
        #![trigger lw(facts, k)]
        (match lw(facts, k) {
            Option::None => !ahas(t.items@, k),
            Option::Some(f) => aget(t.items@, k) matches Option::Some(p) && p.local == f.0
                && p.is_default == f.1 && !p.is_used && p.deps@.len() == 0 && p.orig_deps@.len()
                == 0,
        })
}

/// The component registry matches the collected definitions: each id maps
/// to the table of its last definition, and nothing else.
pub open spec fn comps_ok(c: Components, defs: Seq<Def>) -> bool {
    &&& adistinct(c.items@)
    &&& forall|id: u64|
        #![trigger lw(defs, id)]
        (match lw(defs, id) {
            Option::None => !ahas(c.items@, id),
            Option::Some(facts) => aget(c.items@, id) matches Option::Some(t) && table_ok(
                t,
                facts,
            ),
        })
}

/// Builds one prop table from scanned facts, later facts overriding
/// earlier ones with the same key.
fn build_table(facts: &Vec<Fact>) -> (t: PropsTable)
    ensures
        table_ok(t, facts@),
{
    let mut t: PropsTable = AssocVec::new();
    let n: usize = facts.len();
    proof {
        assert(facts@.take(0) =~= Seq::<Fact>::empty());
    }
    let mut x: usize = 0;
    while x < n
        invariant
            x <= n,
            n == facts@.len(),
            adistinct(t.items@),
            forall|k: u64|
                #![trigger lw(facts@.take(x as int), k)]
                (match lw(facts@.take(x as int), k) {
                    Option::None => !ahas(t.items@, k),
                    Option::Some(f) => aget(t.items@, k) matches Option::Some(p) && p.local
                        == f.0 && p.is_default == f.1 && !p.is_used && p.deps@.len() == 0
                        && p.orig_deps@.len() == 0,
                }),
        decreases n - x,
    {
        let f = facts[x];
        let ghost before = t.items@;
        let p = Prop {
            local: f.1.0,
            deps: Vec::new(),
            orig_deps: Vec::new(),
            is_used: false,
            is_default: f.1.1,
        };
        let ghost pg = p;
        t.set_entry(f.0, p);
        proof {
            assert(facts@.take(x + 1).drop_last() =~= facts@.take(x as int));
            assert(facts@.take(x + 1).last() == facts@[x as int]);
            lemma_aget_upsert(before, f.0, pg, f.0);
            assert(adistinct(t.items@));
            assert forall|k: u64|
                #![trigger lw(facts@.take(x + 1), k)]
                (match lw(facts@.take(x + 1), k) {
                    Option::None => !ahas(t.items@, k),
                    Option::Some(g) => aget(t.items@, k) matches Option::Some(q) && q.local
                        == g.0 && q.is_default == g.1 && !q.is_used && q.deps@.len() == 0
                        && q.orig_deps@.len() == 0,
                }) by {
                let prior = lw(facts@.take(x as int), k);
                lemma_aget_upsert(before, f.0, pg, k);
            }
        }
        x += 1;
    }
    proof {
        assert(facts@.take(n as int) =~= facts@);
    }
    t
}

/// Builds the component registry from the collected definitions, later
/// definitions overriding earlier ones with the same id.
pub fn build_components(defs: &Vec<(u64, Vec<Fact>)>) -> (c: Components)
    ensures
        comps_ok(c, defs_view(defs@)),
{
    let mut c: Components = AssocVec::new();
    let n: usize = defs.len();
    proof {
        assert(defs_view(defs@.take(0)) =~= Seq::<Def>::empty());
    }
    let mut x: usize = 0;
    while x < n
        invariant
            x <= n,
            n == defs@.len(),
            comps_ok(c, defs_view(defs@.take(x as int))),
        decreases n - x,
    {
        let tbl = build_table(&defs[x].1);
        let ghost tblg = tbl;
        let ghost before = c.items@;
        let id = defs[x].0;
        c.set_entry(id, tbl);
        proof {
            lemma_aget_upsert(before, id, tblg, id);
            assert(adistinct(c.items@));
            assert(defs_view(defs@.take(x + 1)).drop_last() =~= defs_view(defs@.take(x as int)));
            assert(defs_view(defs@.take(x + 1)).last() == (defs@[x as int].0, defs@[x as int].1@));
            assert forall|q: u64|
                #![trigger lw(defs_view(defs@.take(x + 1)), q)]
                (match lw(defs_view(defs@.take(x + 1)), q) {
                    Option::None => !ahas(c.items@, q),
                    Option::Some(facts) => aget(c.items@, q) matches Option::Some(t)
                        && table_ok(t, facts),
                }) by {
                let prior = lw(defs_view(defs@.take(x as int)), q);
                lemma_aget_upsert(before, id, tblg, q);
            }
        }
        x += 1;
    }
    proof {
        assert(defs@.take(n as int) =~= defs@);
    }
    c
}

/// Some collected use supplies this prop of this component.
pub open spec fn use_hit(us: Seq<UseFact>, cid: u64, k: u64) -> bool {
    exists|x: int| 0 <= x < us.len() && (#[trigger] us[x]).0 == cid && us[x].1 == k
}

/// Some collected use supplies this prop with dependency `d`.
pub open spec fn dep_hit(us: Seq<UseFact>, cid: u64, k: u64, d: u64) -> bool {
    exists|x: int|
        0 <= x < us.len() && (#[trigger] us[x]).0 == cid && us[x].1 == k && us[x].2.contains(d)
}

/// `b` is `a` with the collected uses applied: a prop is used when it was
/// or some use supplies it, and its dependency set gains exactly the
/// identifiers the uses contribute; everything else is unchanged.
pub open spec fn uses_applied(
    a: Seq<(u64, PropsTable)>,
    b: Seq<(u64, PropsTable)>,
    us: Seq<UseFact>,
) -> bool {
    &&& b.len() == a.len()
    &&& forall|i: int|
        0 <= i < a.len() ==> {
            &&& (#[trigger] b[i]).0 == a[i].0
            &&& b[i].1.items@.len() == a[i].1.items@.len()
            &&& forall|j: int|
                0 <= j < a[i].1.items@.len() ==> {
                    &&& (#[trigger] b[i].1.items@[j]).0 == a[i].1.items@[j].0
                    &&& b[i].1.items@[j].1.local == a[i].1.items@[j].1.local
                    &&& b[i].1.items@[j].1.is_default == a[i].1.items@[j].1.is_default
                    &&& b[i].1.items@[j].1.orig_deps@ == a[i].1.items@[j].1.orig_deps@
                    &&& b[i].1.items@[j].1.is_used == (a[i].1.items@[j].1.is_used || use_hit(
                        us,
                        a[i].0,
                        a[i].1.items@[j].0,
                    ))
                    &&& forall|d: u64|
                        #[trigger] b[i].1.items@[j].1.deps@.contains(d) <==> (
                        a[i].1.items@[j].1.deps@.contains(d) || dep_hit(
                            us,
                            a[i].0,
                            a[i].1.items@[j].0,
                            d,
                        ))
                }
        }
}

proof fn lemma_hits_snoc(us: Seq<UseFact>, x: int)
    requires
        0 <= x < us.len(),
    ensures
        forall|cid: u64, k: u64|
            #[trigger] use_hit(us.take(x + 1), cid, k) <==> (use_hit(us.take(x), cid, k) || (
            us[x].0 == cid && us[x].1 == k)),
        forall|cid: u64, k: u64, d: u64|
            #[trigger] dep_hit(us.take(x + 1), cid, k, d) <==> (dep_hit(us.take(x), cid, k, d)
                || (us[x].0 == cid && us[x].1 == k && us[x].2.contains(d))),
{
    assert forall|cid: u64, k: u64|
        #[trigger] use_hit(us.take(x + 1), cid, k) <==> (use_hit(us.take(x), cid, k) || (us[x].0
            == cid && us[x].1 == k)) by {
        if use_hit(us.take(x + 1), cid, k) {
            let w = choose|w: int|
                0 <= w < us.take(x + 1).len() && (#[trigger] us.take(x + 1)[w]).0 == cid
                    && us.take(x + 1)[w].1 == k;
            if w < x {
                assert(us.take(x)[w] == us.take(x + 1)[w]);
            }
        }
        if use_hit(us.take(x), cid, k) {
            let w = choose|w: int|
                0 <= w < us.take(x).len() && (#[trigger] us.take(x)[w]).0 == cid && us.take(
                    x,
                )[w].1 == k;
            assert(us.take(x + 1)[w] == us.take(x)[w]);
        }
        if us[x].0 == cid && us[x].1 == k {
            assert(us.take(x + 1)[x] == us[x]);
        }
    }
    assert forall|cid: u64, k: u64, d: u64|
        #[trigger] dep_hit(us.take(x + 1), cid, k, d) <==> (dep_hit(us.take(x), cid, k, d) || (
        us[x].0 == cid && us[x].1 == k && us[x].2.contains(d))) by {
        if dep_hit(us.take(x + 1), cid, k, d) {
            let w = choose|w: int|
                0 <= w < us.take(x + 1).len() && (#[trigger] us.take(x + 1)[w]).0 == cid
                    && us.take(x + 1)[w].1 == k && us.take(x + 1)[w].2.contains(d);
            if w < x {
                assert(us.take(x)[w] == us.take(x + 1)[w]);
            }
        }
        if dep_hit(us.take(x), cid, k, d) {
            let w = choose|w: int|
                0 <= w < us.take(x).len() && (#[trigger] us.take(x)[w]).0 == cid && us.take(
                    x,
                )[w].1 == k && us.take(x)[w].2.contains(d);
            assert(us.take(x + 1)[w] == us.take(x)[w]);
        }
        if us[x].0 == cid && us[x].1 == k && us[x].2.contains(d) {
            assert(us.take(x + 1)[x] == us[x]);
        }
    }
}

/// True when the vector holds `d`.
fn vec_has(v: &Vec<u64>, d: u64) -> (r: bool)
    ensures
        r == v@.contains(d),
{
    let n: usize = v.len();
    let mut x: usize = 0;
    while x < n
        invariant
            x <= n,
            n == v@.len(),
            forall|j: int| 0 <= j < x ==> v@[j] != d,
        decreases n - x,
    {
        if v[x] == d {
            return true;
        }
        x += 1;
    }
    false
}

/// Marks every supplied prop as used and extends its dependency set with
/// the identifiers its call sites contribute.
pub fn apply_uses(comps: &mut Components, uses: &Vec<(u64, u64, Vec<u64>)>)
    requires
        adistinct(old(comps).items@),
        forall|i: int|
            0 <= i < old(comps).items@.len() ==> adistinct(
                (#[trigger] old(comps).items@[i]).1.items@,
            ),
    ensures
        uses_applied(old(comps).items@, final(comps).items@, uses_view(uses@)),
        adistinct(final(comps).items@),
        forall|i: int|
            0 <= i < final(comps).items@.len() ==> adistinct(
                (#[trigger] final(comps).items@[i]).1.items@,
            ),
{
    let ghost a = old(comps).items@;
    let ghost us = uses_view(uses@);
    let n: usize = uses.len();
    proof {
        assert(us.take(0) =~= Seq::<UseFact>::empty());
        assert(uses_applied(a, comps.items@, us.take(0)));
    }
    let mut x: usize = 0;
    while x < n
        invariant
            x <= n,
            n == uses@.len(),
            us == uses_view(uses@),
            uses_applied(a, comps.items@, us.take(x as int)),
            adistinct(comps.items@),
            forall|i: int|
                0 <= i < comps.items@.len() ==> adistinct(
                    (#[trigger] comps.items@[i]).1.items@,
                ),
        decreases n - x,
    {
        let ghost pre = comps.items@;
        let cid: u64 = uses[x].0;
        let key: u64 = uses[x].1;
        proof {
            assert(us[x as int] == (uses@[x as int].0, uses@[x as int].1, uses@[x as int].2@));
        }
        match comps.find(cid) {
            Option::Some(ci) => {
                let mut entry = comps.items.remove(ci);
                match entry.1.find(key) {
                    Option::Some(pj) => {
                        let (pk, pold) = entry.1.items.remove(pj);
                        let Prop { local, mut deps, orig_deps, is_used: _, is_default } = pold;
                        let ghost deps0 = deps@;
                        let dn: usize = uses[x].2.len();
                        let mut t: usize = 0;
                        while t < dn
                            invariant
                                t <= dn,
                                dn == uses@[x as int].2@.len(),
                                x < n,
                                n == uses@.len(),
                                forall|d: u64|
                                    #[trigger] deps@.contains(d) <==> (deps0.contains(d)
                                        || uses@[x as int].2@.take(t as int).contains(d)),
                            decreases dn - t,
                        {
                            let d: u64 = uses[x].2[t];
                            let already = vec_has(&deps, d);
                            let ghost dpre = deps@;
                            if !already {
                                deps.push(d);
                            }
                            proof {
                                let tk = uses@[x as int].2@.take(t + 1);
                                assert(tk.drop_last() =~= uses@[x as int].2@.take(t as int));
                                assert(tk.last() == uses@[x as int].2@[t as int]);
                                assert forall|q: u64| #[trigger] deps@.contains(q) <==> (
                                    deps0.contains(q) || tk.contains(q)) by {
                                    if tk.contains(q) {
                                        let w = choose|w: int| 0 <= w < tk.len() && tk[w] == q;
                                        if w < t {
                                            assert(tk.drop_last()[w] == q);
                                        }
                                    }
                                    if deps@.contains(q) {
                                        let w = choose|w: int|
                                            0 <= w < deps@.len() && deps@[w] == q;
                                        if w < dpre.len() {
                                            assert(dpre[w] == q);
                                        }
                                    }
                                    if dpre.contains(q) {
                                        let w = choose|w: int|
                                            0 <= w < dpre.len() && dpre[w] == q;
                                        assert(deps@[w] == q);
                                    }
                                    if !already && q == uses@[x as int].2@[t as int] {
                                        assert(deps@[deps@.len() - 1] == q);
                                    }
                                }
                            }
                            t += 1;
                        }
                        proof {
                            assert(uses@[x as int].2@.take(dn as int) =~= uses@[x as int].2@);
                        }
                        entry.1.items.insert(
                            pj,
                            (
                                pk,
                                Prop {
                                    local,
                                    deps,
                                    orig_deps,
                                    is_used: true,
                                    is_default,
                                },
                            ),
                        );
                    },
                    Option::None => {},
                }
                comps.items.insert(ci, entry);
            },
            Option::None => {},
        }
        proof {
            lemma_hits_snoc(us, x as int);
            assert(uses_applied(a, comps.items@, us.take(x + 1)));
        }
        x += 1;
    }
    proof {
        assert(us.take(n as int) =~= us);
    }
}

/// `b` is `a` with each prop's discovered dependencies copied into its
/// record of original dependencies; everything else is unchanged.
pub open spec fn frozen(a: Seq<(u64, PropsTable)>, b: Seq<(u64, PropsTable)>) -> bool {
    &&& b.len() == a.len()
    &&& forall|i: int|
        0 <= i < a.len() ==> {
            &&& (#[trigger] b[i]).0 == a[i].0
            &&& b[i].1.items@.len() == a[i].1.items@.len()
            &&& forall|j: int|
                0 <= j < a[i].1.items@.len() ==> {
                    &&& (#[trigger] b[i].1.items@[j]).0 == a[i].1.items@[j].0
                    &&& b[i].1.items@[j].1.local == a[i].1.items@[j].1.local
                    &&& b[i].1.items@[j].1.is_used == a[i].1.items@[j].1.is_used
                    &&& b[i].1.items@[j].1.is_default == a[i].1.items@[j].1.is_default
                    &&& b[i].1.items@[j].1.deps@ == a[i].1.items@[j].1.deps@
                    &&& b[i].1.items@[j].1.orig_deps@ == a[i].1.items@[j].1.deps@
                }
        }
}

/// Freezes the discovered dependency sets: copies each prop's current
/// dependencies into its record of original dependencies.
pub fn freeze_orig(comps: &mut Components)
    ensures
        frozen(old(comps).items@, final(comps).items@),
{
    let n: usize = comps.items.len();
    let mut i: usize = 0;
    while i < n
        invariant
            i <= n,
            n == comps.items@.len(),
            n == old(comps).items@.len(),
            forall|y: int| i <= y < n ==> comps.items@[y] == old(comps).items@[y],
            forall|y: int|
                0 <= y < i ==> {
                    &&& (#[trigger] comps.items@[y]).0 == old(comps).items@[y].0
                    &&& comps.items@[y].1.items@.len() == old(comps).items@[y].1.items@.len()
                    &&& forall|j: int|
                        0 <= j < old(comps).items@[y].1.items@.len() ==> {
                            &&& (#[trigger] comps.items@[y].1.items@[j]).0 == old(
                                comps,
                            ).items@[y].1.items@[j].0
                            &&& comps.items@[y].1.items@[j].1.local == old(
                                comps,
                            ).items@[y].1.items@[j].1.local
                            &&& comps.items@[y].1.items@[j].1.is_used == old(
                                comps,
                            ).items@[y].1.items@[j].1.is_used
                            &&& comps.items@[y].1.items@[j].1.is_default == old(
                                comps,
                            ).items@[y].1.items@[j].1.is_default
                            &&& comps.items@[y].1.items@[j].1.deps@ == old(
                                comps,
                            ).items@[y].1.items@[j].1.deps@
                            &&& comps.items@[y].1.items@[j].1.orig_deps@ == old(
                                comps,
                            ).items@[y].1.items@[j].1.deps@
                        }
                },
        decreases n - i,
    {
        let ghost snap = comps.items@;
        let mut entry = comps.items.remove(i);
        let m: usize = entry.1.items.len();
        let ghost tbl0 = entry.1.items@;
        proof {
            assert(tbl0 == old(comps).items@[i as int].1.items@);
        }
        let mut j: usize = 0;
        while j < m
            invariant
                j <= m,
                i < n,
                n == old(comps).items@.len(),
                entry.0 == old(comps).items@[i as int].0,
                tbl0 == old(comps).items@[i as int].1.items@,
                m == entry.1.items@.len(),
                m == tbl0.len(),
                forall|y: int| j <= y < m ==> entry.1.items@[y] == tbl0[y],
                forall|y: int|
                    0 <= y < j ==> {
                        &&& (#[trigger] entry.1.items@[y]).0 == tbl0[y].0
                        &&& entry.1.items@[y].1.local == tbl0[y].1.local
                        &&& entry.1.items@[y].1.is_used == tbl0[y].1.is_used
                        &&& entry.1.items@[y].1.is_default == tbl0[y].1.is_default
                        &&& entry.1.items@[y].1.deps@ == tbl0[y].1.deps@
                        &&& entry.1.items@[y].1.orig_deps@ == tbl0[y].1.deps@
                    },
            decreases m - j,
        {
            let (pk, pold) = entry.1.items.remove(j);
            let Prop { local, deps, orig_deps: _, is_used, is_default } = pold;
            let dn: usize = deps.len();
            let mut no: Vec<u64> = Vec::new();
            let mut t: usize = 0;
            while t < dn
                invariant
                    t <= dn,
                    dn == deps@.len(),
                    no@ == deps@.take(t as int),
                decreases dn - t,
            {
                no.push(deps[t]);
                proof {
                    assert(no@ =~= deps@.take(t + 1));
                }
                t += 1;
            }
            proof {
                assert(deps@.take(dn as int) =~= deps@);
            }
            entry.1.items.insert(
                j,
                (pk, Prop { local, deps, orig_deps: no, is_used, is_default }),
            );
            proof {
                assert(forall|y: int| j + 1 <= y < m ==> entry.1.items@[y] == tbl0[y]);
            }
            j += 1;
        }
        comps.items.insert(i, entry);
        proof {
            assert(comps.items@ =~= snap.update(i as int, comps.items@[i as int]));
            assert(forall|y: int| i + 1 <= y < n ==> comps.items@[y] == old(comps).items@[y]);
        }
        i += 1;
    }
}

} // verus!




