//! The tree rewrite licensed by the fixpoint result.
//!
//! Children are rewritten before their parents.  Collapses apply first: a
//! conditional whose consequent calls with a registry-true identifier
//! first argument becomes that identifier, and a call whose first argument
//! is a registry identifier becomes that identifier.  After children, a
//! call's marked second-argument array is pruned; an emptied
//! effect-dependency array turns the call into the undefined sentinel, an
//! emptied immediate-effect array into a bare invocation of its callback,
//! and an emptied dynamic-view array inlines the view function's returned
//! expression.  Call sites of known components unwrap accessor wrappers of
//! props constant at the source and box registry identifiers fed to props
//! with original dependencies.  Component bodies are revisited by the same
//! position-counting machine as discovery to fold reads of unused props.

use vstd::prelude::*;
use crate::ast::{Annotation, Arg, Declarator, Expr, ObjProp, Stmt};
use crate::registry::{aget, ahas, Components, Prop, PropsTable, Registry};
use crate::text::{annotation_of, note_view, prop_count_of, spec_annotation};
use crate::prune::{clean_deps_array, spec_prune};
use crate::text::spec_prop_count;
use crate::discover::{is_component_body, meta_of};


verus! {



/// What the declarator-level rule makes of a rewritten initializer: a
/// declarator binding a recognized component function has that function's
/// body folded against the registry; anything else keeps the rewritten
/// initializer as is.
pub open spec fn fold_wrap(
    name: Option<u64>,
    w: Expr,
    d2: Declarator,
    comps: Components,
    reg: Seq<(u64, bool)>,
) -> bool {
    let unchanged = (d2.name == name && d2.init == Option::Some(w));
    match name {
        Option::Some(id) => match w {
            Expr::Func { body } => {
                if is_component_body(body@) {
                    match aget(comps.items@, id) {
                        Option::Some(tbl) => match meta_of(body@) {
                            Option::Some(m) => match spec_prop_count(m) {
                                Option::Some(c) => {
                                    if c > 0 {
                                        d2.name == name && (d2.init matches Option::Some(f2)
                                            && f2 matches Expr::Func { body: nb }
                                            && folded_body(body@, nb@, tbl, c))
                                    } else {
                                        unchanged
                                    }
                                },
                                Option::None => unchanged,
                            },
                            Option::None => unchanged,
                        },
                        Option::None => unchanged,
                    }
                } else {
                    unchanged
                }
            },
            _ => unchanged,
        },
        Option::None => unchanged,
    }
}

/// The rewrite relation: `r` is what the pass makes of `e`.  A collapse
/// rule fires first when its shape matches; otherwise children are
/// rewritten in place and the node-level rules (marked arrays, marked
/// calls, call sites of known components, view pairs) are applied; a node
/// of no recognized shape keeps its structure, changed only through its
/// children.
pub open spec fn rw_expr(e: Expr, r: Expr, comps: Components, reg: Seq<(u64, bool)>) -> bool
    decreases e,
{
    match collapse_target(e, reg) {
        Option::Some(id) => r == (Expr::Ident { id }),
        Option::None => match e {
            Expr::Ident { .. } => r == e,
            Expr::Str { .. } => r == e,
            Expr::Undef => r == e,
            Expr::FalseLit => r == e,
            Expr::Member { obj, key } => r matches Expr::Member { obj: ro, key: rk } && rk
                == key && rw_expr(*obj, *ro, comps, reg),
            Expr::Or { left, right } => r matches Expr::Or { left: rl, right: rr } && rw_expr(
                *left,
                *rl,
                comps,
                reg,
            ) && rw_expr(*right, *rr, comps, reg),
            Expr::Cond { test, cons, alt } => r matches Expr::Cond {
                test: rt,
                cons: rc,
                alt: ra,
            } && rw_expr(*test, *rt, comps, reg) && rw_expr(*cons, *rc, comps, reg) && rw_expr(
                *alt,
                *ra,
                comps,
                reg,
            ),
            Expr::Array { elems, note } => exists|me: Seq<Option<Arg>>|
                rw_elems(elems@, me, comps, reg) && #[trigger] marked_array_rewritten(
                    me,
                    note,
                    r,
                    reg,
                ),
            Expr::Object { props } => r matches Expr::Object { props: rp } && rw_oprops(
                props@,
                rp@,
                comps,
                reg,
            ),
            Expr::Func { body } => exists|mb: Seq<Stmt>|
                rw_stmts(body@, mb, comps, reg) && #[trigger] view_pair_rewritten(mb, r, reg),
            Expr::Call { callee, args } => exists|c2: Expr, a2: Seq<Arg>, a3: Seq<Arg>|
                {
                    &&& rw_expr(*callee, c2, comps, reg)
                    &&& rw_args(args@, a2, comps, reg)
                    &&& #[trigger] call_site_rewritten(c2, a2, a3, comps, reg)
                    &&& marked_call_rewritten(c2, a3, r, reg)
                },
            Expr::Opaque { token, children } => r matches Expr::Opaque {
                token: t2,
                children: c2,
            } && t2 == token && rw_exprs(children@, c2@, comps, reg),
        },
    }
}

pub open spec fn rw_exprs(s: Seq<Expr>, t: Seq<Expr>, comps: Components, reg: Seq<(u64, bool)>) -> bool
    decreases s,
{
    if s.len() == 0 {
        t.len() == 0
    } else {
        t.len() == s.len() && rw_exprs(s.drop_last(), t.drop_last(), comps, reg) && rw_expr(
            s.last(),
            t.last(),
            comps,
            reg,
        )
    }
}

pub open spec fn rw_args(s: Seq<Arg>, t: Seq<Arg>, comps: Components, reg: Seq<(u64, bool)>) -> bool
    decreases s,
{
    if s.len() == 0 {
        t.len() == 0
    } else {
        t.len() == s.len() && rw_args(s.drop_last(), t.drop_last(), comps, reg) && t.last().spread
            == s.last().spread && rw_expr(s.last().expr, t.last().expr, comps, reg)
    }
}

pub open spec fn rw_elems(
    s: Seq<Option<Arg>>,
    t: Seq<Option<Arg>>,
    comps: Components,
    reg: Seq<(u64, bool)>,
) -> bool
    decreases s,
{
    if s.len() == 0 {
        t.len() == 0
    } else {
        t.len() == s.len() && rw_elems(s.drop_last(), t.drop_last(), comps, reg) && (match s.last() {
            Option::None => t.last() is None,
            Option::Some(a) => t.last() matches Option::Some(b) && b.spread == a.spread
                && rw_expr(a.expr, b.expr, comps, reg),
        })
    }
}

pub open spec fn rw_oprops(
    s: Seq<ObjProp>,
    t: Seq<ObjProp>,
    comps: Components,
    reg: Seq<(u64, bool)>,
) -> bool
    decreases s,
{
    if s.len() == 0 {
        t.len() == 0
    } else {
        t.len() == s.len() && rw_oprops(s.drop_last(), t.drop_last(), comps, reg) && (match s.last() {
            ObjProp::KeyValue { key, value } => t.last() matches ObjProp::KeyValue {
                key: k2,
                value: w,
            } && k2 == key && rw_expr(value, w, comps, reg),
            ObjProp::OpaqueProp { token, children } => t.last() matches ObjProp::OpaqueProp {
                token: t2,
                children: c2,
            } && t2 == token && rw_exprs(children@, c2@, comps, reg),
        })
    }
}

/// The rewrite relation on statements: each recognized shape keeps its
/// structure with rewritten pieces; declarators additionally go through
/// the component-body fold.
pub open spec fn rw_stmt(st: Stmt, st2: Stmt, comps: Components, reg: Seq<(u64, bool)>) -> bool
    decreases st,
{
    match st {
        Stmt::ExprStmt { expr } => st2 matches Stmt::ExprStmt { expr: w } && rw_expr(
            expr,
            w,
            comps,
            reg,
        ),
        Stmt::VarDecl { decls } => st2 matches Stmt::VarDecl { decls: nd } && rw_decls(
            decls@,
            nd@,
            comps,
            reg,
        ),
        Stmt::Ret { arg } => match arg {
            Option::None => st2 == st,
            Option::Some(e) => st2 matches Stmt::Ret { arg: Option::Some(w) } && rw_expr(
                e,
                w,
                comps,
                reg,
            ),
        },
        Stmt::OpaqueStmt { token, exprs, stmts } => st2 matches Stmt::OpaqueStmt {
            token: t2,
            exprs: e2,
            stmts: s2,
        } && t2 == token && rw_exprs(exprs@, e2@, comps, reg) && rw_stmts(stmts@, s2@, comps, reg),
    }
}

pub open spec fn rw_stmts(s: Seq<Stmt>, t: Seq<Stmt>, comps: Components, reg: Seq<(u64, bool)>) -> bool
    decreases s,
{
    if s.len() == 0 {
        t.len() == 0
    } else {
        t.len() == s.len() && rw_stmts(s.drop_last(), t.drop_last(), comps, reg) && rw_stmt(
            s.last(),
            t.last(),
            comps,
            reg,
        )
    }
}

pub open spec fn rw_decl(d: Declarator, d2: Declarator, comps: Components, reg: Seq<(u64, bool)>) -> bool
    decreases d,
{
    match d.init {
        Option::None => d2 == d,
        Option::Some(e) => exists|w: Expr|
            rw_expr(e, w, comps, reg) && #[trigger] fold_wrap(d.name, w, d2, comps, reg),
    }
}

pub open spec fn rw_decls(
    s: Seq<Declarator>,
    t: Seq<Declarator>,
    comps: Components,
    reg: Seq<(u64, bool)>,
) -> bool
    decreases s,
{
    if s.len() == 0 {
        t.len() == 0
    } else {
        t.len() == s.len() && rw_decls(s.drop_last(), t.drop_last(), comps, reg) && rw_decl(
            s.last(),
            t.last(),
            comps,
            reg,
        )
    }
}

/// The collapse target of an expression, when a collapse rule fires: a
/// conditional whose consequent calls with a first argument that is an
/// identifier registered with value true collapses to that identifier,
/// and a call whose first argument is a registered identifier collapses
/// to that identifier.
pub open spec fn collapse_target(e: Expr, reg: Seq<(u64, bool)>) -> Option<u64> {
    match e {
        Expr::Cond { test: _, cons, alt: _ } => match *cons {
            Expr::Call { callee: _, args } => {
                if args@.len() > 0 {
                    match args@[0].expr {
                        Expr::Ident { id } => {
                            if aget(reg, id) == Option::Some(true) {
                                Option::Some(id)
                            } else {
                                Option::None
                            }
                        },
                        _ => Option::None,
                    }
                } else {
                    Option::None
                }
            },
            _ => Option::None,
        },
        Expr::Call { callee: _, args } => {
            if args@.len() > 0 {
                match args@[0].expr {
                    Expr::Ident { id } => {
                        if ahas(reg, id) {
                            Option::Some(id)
                        } else {
                            Option::None
                        }
                    },
                    _ => Option::None,
                }
            } else {
                Option::None
            }
        },
        _ => Option::None,
    }
}


/// The marked-array rule: an array whose leading comment resolves to the
/// state-dependency or dynamic-attribute marker has its (child-rewritten)
/// elements pruned against the registry; any other array keeps them.
/// The comment itself is kept either way.
pub open spec fn marked_array_rewritten(
    elems: Seq<Option<Arg>>,
    note: Option<Vec<char>>,
    r: Expr,
    reg: Seq<(u64, bool)>,
) -> bool {
    let ann = spec_annotation(note_view(note));
    if ann == Annotation::StateDeps || ann == Annotation::DynamicAttrs {
        r matches Expr::Array { elems: re, note: rn } && re@ == spec_prune(elems, reg)
            && note_view(rn) == note_view(note)
    } else {
        r matches Expr::Array { elems: re, note: rn } && re@ == elems && note_view(rn)
            == note_view(note)
    }
}

/// The body fold over the declarators of one declaration statement: each
/// is stepped through `spec_fold_decl`, stopping once the prop position
/// reaches the declared count; the rest stay untouched.
pub open spec fn spec_fold_decls(
    ds: Seq<Declarator>,
    tbl: PropsTable,
    count: int,
    pos: int,
    pending: bool,
) -> (Seq<Declarator>, int, bool)
    decreases ds.len(),
{
    if ds.len() == 0 {
        (Seq::empty(), pos, false)
    } else {
        let st = spec_fold_decl(ds.first(), tbl, pending);
        let pos1 = pos + st.1;
        if pos1 >= count {
            (seq![st.0] + ds.drop_first(), pos1, true)
        } else {
            let r = spec_fold_decls(ds.drop_first(), tbl, count, pos1, st.2);
            (seq![st.0] + r.0, r.1, r.2)
        }
    }
}

proof fn lemma_fold_decls_bounds(
    ds: Seq<Declarator>,
    tbl: PropsTable,
    count: int,
    pos: int,
    pending: bool,
)
    ensures
        spec_fold_decls(ds, tbl, count, pos, pending).1 >= pos,
        !spec_fold_decls(ds, tbl, count, pos, pending).2 ==> (spec_fold_decls(
            ds,
            tbl,
            count,
            pos,
            pending,
        ).1 < count || spec_fold_decls(ds, tbl, count, pos, pending).1 == pos),
    decreases ds.len(),
{
    if ds.len() > 0 {
        let st = spec_fold_decl(ds.first(), tbl, pending);
        assert(st.1 >= 0);
        let pos1 = pos + st.1;
        if pos1 < count {
            lemma_fold_decls_bounds(ds.drop_first(), tbl, count, pos1, st.2);
        }
    }
}

/// The positions the body fold touches, with their folded declarators:
/// the same position-counting machine as discovery, walking the
/// statements from position two.
pub open spec fn fold_list(
    olds: Seq<Stmt>,
    tbl: PropsTable,
    count: int,
    curr: int,
    pos: int,
) -> Seq<(u64, Seq<Declarator>)>
    decreases count + 2 - pos, olds.len() + 1 - curr,
    via fold_list_via
{
    if pos > count {
        Seq::empty()
    } else if !(0 <= curr < olds.len() && olds[curr] is VarDecl) {
        if pos + 1 > count {
            Seq::empty()
        } else {
            fold_list(olds, tbl, count, curr + 1, pos + 1)
        }
    } else {
        let ds = match olds[curr] {
            Stmt::VarDecl { decls } => decls@,
            _ => Seq::empty(),
        };
        let fr = spec_fold_decls(ds, tbl, count, pos, false);
        seq![(curr as u64, fr.0)] + (if fr.2 {
            Seq::empty()
        } else {
            fold_list(olds, tbl, count, curr + 1, fr.1)
        })
    }
}

#[via_fn]
proof fn fold_list_via(olds: Seq<Stmt>, tbl: PropsTable, count: int, curr: int, pos: int) {
    if pos <= count && 0 <= curr < olds.len() && olds[curr] is VarDecl {
        let ds = match olds[curr] {
            Stmt::VarDecl { decls } => decls@,
            _ => Seq::empty(),
        };
        lemma_fold_decls_bounds(ds, tbl, count, pos, false);
    }
}

proof fn lemma_fold_oob(olds: Seq<Stmt>, tbl: PropsTable, count: int, curr: int, pos: int)
    requires
        curr >= olds.len(),
    ensures
        fold_list(olds, tbl, count, curr, pos) == Seq::<(u64, Seq<Declarator>)>::empty(),
    decreases count + 2 - pos,
{
    if pos <= count && pos + 1 <= count {
        lemma_fold_oob(olds, tbl, count, curr + 1, pos + 1);
    }
}

/// What the body fold leaves: every position the machine touches holds a
/// declaration with the folded declarators, every other statement is
/// untouched.
pub open spec fn folded_body(
    olds: Seq<Stmt>,
    news: Seq<Stmt>,
    tbl: PropsTable,
    count: int,
) -> bool {
    &&& news.len() == olds.len()
    &&& forall|i: int|
        0 <= i < olds.len() ==> (match aget(
            fold_list(olds, tbl, count, 2, 0),
            i as u64,
        ) {
            Option::Some(nd) => (#[trigger] news[i]) matches Stmt::VarDecl { decls: d2 } && d2@
                == nd,
            Option::None => news[i] == olds[i],
        })
}

/// Rewrites one expression bottom-up.
pub fn rewrite_expr(e: Expr, comps: &Components, reg: &Registry) -> (r: Expr)
    ensures
        rw_expr(e, r, *comps, reg.items@),
        collapse_target(e, reg.items@) matches Option::Some(id) ==> r == (Expr::Ident { id }),
    decreases e,
{
    // collapse rules examined before any recursion
    match &e {
        Expr::Cond { test: _, cons, alt: _ } => {
            match &**cons {
                Expr::Call { callee: _, args } => {
                    if args.len() > 0 {
                        match &args[0].expr {
                            Expr::Ident { id } => {
                                match reg.find(*id) {
                                    Option::Some(i) => {
                                        if reg.items[i].1 {
                                            return Expr::Ident { id: *id };
                                        }
                                    },
                                    Option::None => {},
                                }
                            },
                            _ => {},
                        }
                    }
                },
                _ => {},
            }
        },
        Expr::Call { callee: _, args } => {
            if args.len() > 0 {
                match &args[0].expr {
                    Expr::Ident { id } => {
                        match reg.find(*id) {
                            Option::Some(_) => {
                                return Expr::Ident { id: *id };
                            },
                            Option::None => {},
                        }
                    },
                    _ => {},
                }
            }
        },
        _ => {},
    }
    match e {
        Expr::Ident { id } => {
            let r = Expr::Ident { id };
            proof {
                assert(rw_expr(e, r, *comps, reg.items@));
            }
            r
        },
        Expr::Str { text } => {
            let r = Expr::Str { text };
            proof {
                assert(rw_expr(e, r, *comps, reg.items@));
            }
            r
        },
        Expr::Undef => {
            let r = Expr::Undef;
            proof {
                assert(rw_expr(e, r, *comps, reg.items@));
            }
            r
        },
        Expr::FalseLit => {
            let r = Expr::FalseLit;
            proof {
                assert(rw_expr(e, r, *comps, reg.items@));
            }
            r
        },
        Expr::Member { obj, key } => {
            let o2 = rewrite_expr(*obj, comps, reg);
            let r = Expr::Member { obj: Box::new(o2), key };
            proof {
                assert(rw_expr(e, r, *comps, reg.items@));
            }
            r
        },
        Expr::Or { left, right } => {
            let l2 = rewrite_expr(*left, comps, reg);
            let r2 = rewrite_expr(*right, comps, reg);
            let r = Expr::Or { left: Box::new(l2), right: Box::new(r2) };
            proof {
                assert(rw_expr(e, r, *comps, reg.items@));
            }
            r
        },
        Expr::Cond { test, cons, alt } => {
            let t2 = rewrite_expr(*test, comps, reg);
            let c2 = rewrite_expr(*cons, comps, reg);
            let a2 = rewrite_expr(*alt, comps, reg);
            let r = Expr::Cond { test: Box::new(t2), cons: Box::new(c2), alt: Box::new(a2) };
            proof {
                assert(rw_expr(e, r, *comps, reg.items@));
            }
            r
        },
        Expr::Array { elems, note } => {
            let ghost ev = elems@;
            let me = rewrite_elems(elems, comps, reg);
            let ghost mev = me@;
            let ghost noteg = note;
            let r = array_rule(me, note, reg);
            proof {
                assert(rw_elems(ev, mev, *comps, reg.items@));
                assert(marked_array_rewritten(mev, noteg, r, reg.items@));
                assert(rw_expr(e, r, *comps, reg.items@));
            }
            r
        },
        Expr::Object { props } => {
            let p2 = rewrite_oprops(props, comps, reg);
            let r = Expr::Object { props: p2 };
            proof {
                assert(rw_expr(e, r, *comps, reg.items@));
            }
            r
        },
        Expr::Func { body } => {
            let ghost bv = body@;
            let b2 = rewrite_stmts(body, comps, reg);
            let ghost mbv = b2@;
            let r = func_view_rule(b2, reg);
            proof {
                assert(rw_stmts(bv, mbv, *comps, reg.items@));
                assert(view_pair_rewritten(mbv, r, reg.items@));
                assert(rw_expr(e, r, *comps, reg.items@));
            }
            r
        },
        Expr::Call { callee, args } => {
            let c2 = rewrite_expr(*callee, comps, reg);
            let ghost c2g = c2;
            let a2 = rewrite_args(args, comps, reg);
            let ghost a2v = a2@;
            let a3 = rewrite_call_site(&c2, a2, comps, reg);
            let ghost a3v = a3@;
            let r = call_array_rule(c2, a3, reg);
            proof {
                assert(rw_expr(*e.arrow_Call_callee(), c2g, *comps, reg.items@));
                assert(rw_args(e.arrow_Call_args()@, a2v, *comps, reg.items@));
                assert(call_site_rewritten(c2g, a2v, a3v, *comps, reg.items@));
                assert(marked_call_rewritten(c2g, a3v, r, reg.items@));
                assert(rw_expr(e, r, *comps, reg.items@));
            }
            r
        },
        Expr::Opaque { token, children } => {
            let k2 = rewrite_exprs(children, comps, reg);
            let r = Expr::Opaque { token, children: k2 };
            proof {
                assert(rw_expr(e, r, *comps, reg.items@));
            }
            r
        },
    }
}



/// Applies the marked-array rule to an array with rewritten elements.
fn array_rule(me: Vec<Option<Arg>>, note: Option<Vec<char>>, reg: &Registry) -> (r: Expr)
    ensures
        marked_array_rewritten(me@, note, r, reg.items@),
{
    let ann = annotation_of(&note);
    match ann {
        Annotation::StateDeps | Annotation::DynamicAttrs => {
            let pruned = clean_deps_array(me, reg);
            Expr::Array { elems: pruned, note }
        },
        _ => Expr::Array { elems: me, note },
    }
}

/// The view-pair rule on a function with rewritten body.  When the first
/// statement returns a pair of a view function and a dynamic-view
/// dependency array: if the array prunes to nothing and the view function
/// opens with a return, the whole function becomes a one-element array
/// holding that returned expression; if the array prunes to nothing
/// otherwise, everything is left untouched; else only the array is
/// replaced by its pruned elements.  Any other function is unchanged.
pub open spec fn view_pair_rewritten(body: Seq<Stmt>, r: Expr, reg: Seq<(u64, bool)>) -> bool {
    let unchanged = (r matches Expr::Func { body: fb } && fb@ == body);
    if body.len() > 0 {
        match body[0] {
            Stmt::Ret { arg: Option::Some(a) } => match a {
                Expr::Array { elems: oe, note: onote } => {
                    if oe@.len() > 1 {
                        match oe@[1] {
                            Option::Some(a1) => match a1.expr {
                                Expr::Array { elems: ie, note: inote } => {
                                    if spec_annotation(note_view(inote))
                                        == Annotation::DynamicViewDeps {
                                        let pr = spec_prune(ie@, reg);
                                        if pr.len() == 0 {
                                            match oe@[0] {
                                                Option::Some(a0) => match a0.expr {
                                                    Expr::Func { body: b2 } => {
                                                        if b2@.len() > 0 && (b2@[0]
                                                            matches Stmt::Ret {
                                                            arg: Option::Some(_),
                                                        }) {
                                                            r matches Expr::Array {
                                                                elems: re,
                                                                note: rn,
                                                            } && re@.len() == 1 && re@[0]
                                                                == Option::Some(
                                                                Arg {
                                                                    spread: false,
                                                                    expr: b2@[0].arrow_Ret_arg().arrow_Some_0(),
                                                                },
                                                            ) && rn is None
                                                        } else {
                                                            unchanged
                                                        }
                                                    },
                                                    _ => unchanged,
                                                },
                                                Option::None => unchanged,
                                            }
                                        } else {
                                            r matches Expr::Func { body: fb } && fb@.len()
                                                == body.len() && (forall|i: int|
                                                1 <= i < body.len() ==> fb@[i] == body[i]) && (
                                            fb@[0] matches Stmt::Ret { arg: Option::Some(na) }
                                                && na matches Expr::Array {
                                                elems: ne,
                                                note: nn,
                                            } && note_view(nn) == note_view(onote) && ne@.len()
                                                == oe@.len() && (forall|j: int|
                                                0 <= j < oe@.len() && j != 1 ==> ne@[j]
                                                    == oe@[j]) && (ne@[1] matches Option::Some(
                                                nar,
                                            ) && nar.spread == a1.spread && (nar.expr
                                                matches Expr::Array {
                                                elems: fe,
                                                note: fnote,
                                            } && fe@ == pr && note_view(fnote) == note_view(
                                                inote,
                                            ))))
                                        }
                                    } else {
                                        unchanged
                                    }
                                },
                                _ => unchanged,
                            },
                            Option::None => unchanged,
                        }
                    } else {
                        unchanged
                    }
                },
                _ => unchanged,
            },
            _ => unchanged,
        }
    } else {
        unchanged
    }
}

/// Inlines a static view: a function whose first statement returns a pair
/// of a view function and an emptied dynamic-view dependency array becomes
/// a one-element array holding the view's returned expression.
fn func_view_rule(body: Vec<Stmt>, reg: &Registry) -> (r: Expr)
    ensures
        view_pair_rewritten(body@, r, reg.items@),
{
    let applies: bool = if body.len() > 0 {
        match &body[0] {
            Stmt::Ret { arg: Option::Some(a) } => match a {
                Expr::Array { elems: oe, note: _ } => {
                    if oe.len() > 1 {
                        match &oe[1] {
                            Option::Some(a1) => match &a1.expr {
                                Expr::Array { elems: ie, note: inote } => {
                                    match annotation_of(inote) {
                                        Annotation::DynamicViewDeps => {
                                            if crate::prune::prune_leaves_nothing(ie, reg) {
                                                // inlining needs a view
                                                // function whose first
                                                // statement returns
                                                match &oe[0] {
                                                    Option::Some(a0) => match &a0.expr {
                                                        Expr::Func { body: b2 } => {
                                                            if b2.len() > 0 {
                                                                match &b2[0] {
                                                                    Stmt::Ret {
                                                                        arg: Option::Some(_),
                                                                    } => true,
                                                                    _ => false,
                                                                }
                                                            } else {
                                                                false
                                                            }
                                                        },
                                                        _ => false,
                                                    },
                                                    _ => false,
                                                }
                                            } else {
                                                true
                                            }
                                        },
                                        _ => false,
                                    }
                                },
                                _ => false,
                            },
                            _ => false,
                        }
                    } else {
                        false
                    }
                },
                _ => false,
            },
            _ => false,
        }
    } else {
        false
    };
    if !applies {
        return Expr::Func { body };
    }
    let mut body = body;
    let st0 = body.remove(0);
    match st0 {
        Stmt::Ret { arg: Option::Some(a) } => match a {
            Expr::Array { elems: mut oe, note: onote } => {
                let a1 = oe.remove(1);
                match a1 {
                    Option::Some(arg1) => match arg1.expr {
                        Expr::Array { elems: ie, note: inote } => {
                            let pruned = clean_deps_array(ie, reg);
                            if pruned.len() == 0 {
                                // inline the view's own returned expression
                                let view0 = oe.remove(0);
                                match view0 {
                                    Option::Some(a0) => match a0.expr {
                                        Expr::Func { body: b2 } => {
                                            let mut b2 = b2;
                                            if b2.len() > 0 {
                                                let s0 = b2.remove(0);
                                                match s0 {
                                                    Stmt::Ret { arg: Option::Some(vr) } => {
                                                        let mut ne: Vec<Option<Arg>> = Vec::new();
                                                        ne.push(
                                                            Option::Some(
                                                                Arg { spread: false, expr: vr },
                                                            ),
                                                        );
                                                        return Expr::Array {
                                                            elems: ne,
                                                            note: Option::None,
                                                        };
                                                    },
                                                    other => {
                                                        b2.insert(0, other);
                                                    },
                                                }
                                            }
                                            // restore untouched structure
                                            oe.insert(
                                                0,
                                                Option::Some(
                                                    Arg {
                                                        spread: a0.spread,
                                                        expr: Expr::Func { body: b2 },
                                                    },
                                                ),
                                            );
                                            oe.insert(
                                                1,
                                                Option::Some(
                                                    Arg {
                                                        spread: arg1.spread,
                                                        expr: Expr::Array {
                                                            elems: pruned,
                                                            note: inote,
                                                        },
                                                    },
                                                ),
                                            );
                                            body.insert(
                                                0,
                                                Stmt::Ret {
                                                    arg: Option::Some(
                                                        Expr::Array { elems: oe, note: onote },
                                                    ),
                                                },
                                            );
                                            Expr::Func { body }
                                        },
                                        other0 => {
                                            oe.insert(
                                                0,
                                                Option::Some(
                                                    Arg { spread: a0.spread, expr: other0 },
                                                ),
                                            );
                                            oe.insert(
                                                1,
                                                Option::Some(
                                                    Arg {
                                                        spread: arg1.spread,
                                                        expr: Expr::Array {
                                                            elems: pruned,
                                                            note: inote,
                                                        },
                                                    },
                                                ),
                                            );
                                            body.insert(
                                                0,
                                                Stmt::Ret {
                                                    arg: Option::Some(
                                                        Expr::Array { elems: oe, note: onote },
                                                    ),
                                                },
                                            );
                                            Expr::Func { body }
                                        },
                                    },
                                    Option::None => {
                                        oe.insert(0, Option::None);
                                        oe.insert(
                                            1,
                                            Option::Some(
                                                Arg {
                                                    spread: arg1.spread,
                                                    expr: Expr::Array {
                                                        elems: pruned,
                                                        note: inote,
                                                    },
                                                },
                                            ),
                                        );
                                        body.insert(
                                            0,
                                            Stmt::Ret {
                                                arg: Option::Some(
                                                    Expr::Array { elems: oe, note: onote },
                                                ),
                                            },
                                        );
                                        Expr::Func { body }
                                    },
                                }
                            } else {
                                oe.insert(
                                    1,
                                    Option::Some(
                                        Arg {
                                            spread: arg1.spread,
                                            expr: Expr::Array { elems: pruned, note: inote },
                                        },
                                    ),
                                );
                                body.insert(
                                    0,
                                    Stmt::Ret {
                                        arg: Option::Some(Expr::Array { elems: oe, note: onote }),
                                    },
                                );
                                Expr::Func { body }
                            }
                        },
                        _ => {
                            // unreachable given the applicability test
                            Expr::Func { body }
                        },
                    },
                    Option::None => Expr::Func { body },
                }
            },
            other => {
                body.insert(0, Stmt::Ret { arg: Option::Some(other) });
                Expr::Func { body }
            },
        },
        other => {
            body.insert(0, other);
            Expr::Func { body }
        },
    }
}


/// A call unchanged but for its rewritten pieces: same callee, same
/// arguments.
pub open spec fn unchanged_call(c2: Expr, a3: Seq<Arg>, r: Expr) -> bool {
    r matches Expr::Call { callee: rc, args: ra } && *rc == c2 && ra@ == a3
}

/// A call whose marked second-argument array was replaced by its pruned
/// elements, everything else unchanged.
pub open spec fn repl_call(c2: Expr, a3: Seq<Arg>, r: Expr, pr: Seq<Option<Arg>>) -> bool {
    &&& r matches Expr::Call { callee: rc, args: ra } && *rc == c2 && ra@.len() == a3.len()
        && (forall|i: int| 0 <= i < a3.len() && i != 1 ==> ra@[i] == a3[i]) && ra@[1].spread
        == a3[1].spread && (ra@[1].expr matches Expr::Array { elems: e2, note: n2 } && e2@ == pr
        && note_view(n2) == note_view(a3[1].expr.arrow_Array_note()))
}

/// The marked-array rules on a call with rewritten children.  With a
/// non-empty second-argument array: an effect-dependency array that prunes
/// to nothing turns the call into the undefined sentinel; an
/// immediate-effect array that prunes to nothing turns it into a bare
/// invocation of its callback; a dynamic-view array that prunes to nothing
/// inlines the view function's returned expression, or leaves everything
/// untouched when no such function stands first; otherwise the array is
/// replaced by its pruned elements.  Any other call is unchanged.
pub open spec fn marked_call_rewritten(
    c2: Expr,
    a3: Seq<Arg>,
    r: Expr,
    reg: Seq<(u64, bool)>,
) -> bool {
    if a3.len() > 1 {
        match a3[1].expr {
            Expr::Array { elems, note } => {
                if elems@.len() == 0 {
                    unchanged_call(c2, a3, r)
                } else {
                    let ann = spec_annotation(note_view(note));
                    let pr = spec_prune(elems@, reg);
                    if ann == Annotation::EffectDeps {
                        if pr.len() == 0 {
                            r == Expr::Undef
                        } else {
                            repl_call(c2, a3, r, pr)
                        }
                    } else if ann == Annotation::ImmediateEffectDeps {
                        if pr.len() == 0 {
                            r matches Expr::Call { callee: cc, args: aa } && *cc == a3[0].expr
                                && aa@.len() == 0
                        } else {
                            repl_call(c2, a3, r, pr)
                        }
                    } else if ann == Annotation::DynamicViewDeps {
                        if pr.len() == 0 {
                            match a3[0].expr {
                                Expr::Func { body } => {
                                    if body@.len() > 0 && (body@[0] matches Stmt::Ret {
                                        arg: Option::Some(_),
                                    }) {
                                        r == body@[0].arrow_Ret_arg().arrow_Some_0()
                                    } else {
                                        unchanged_call(c2, a3, r)
                                    }
                                },
                                _ => unchanged_call(c2, a3, r),
                            }
                        } else {
                            repl_call(c2, a3, r, pr)
                        }
                    } else {
                        unchanged_call(c2, a3, r)
                    }
                }
            },
            _ => unchanged_call(c2, a3, r),
        }
    } else {
        unchanged_call(c2, a3, r)
    }
}

/// Applies the marked-array rules to a rewritten call.
fn call_array_rule(c2: Expr, a3: Vec<Arg>, reg: &Registry) -> (r: Expr)
    ensures
        marked_call_rewritten(c2, a3@, r, reg.items@),
{
    let applies: bool = if a3.len() > 1 {
        match &a3[1].expr {
            Expr::Array { elems, note } => {
                if elems.len() > 0 {
                    match annotation_of(note) {
                        Annotation::EffectDeps | Annotation::ImmediateEffectDeps => true,
                        Annotation::DynamicViewDeps => {
                            if crate::prune::prune_leaves_nothing(elems, reg) {
                                // the collapse needs a view function whose
                                // first statement returns; otherwise the
                                // call is left untouched, array included
                                match &a3[0].expr {
                                    Expr::Func { body } => {
                                        if body.len() > 0 {
                                            match &body[0] {
                                                Stmt::Ret { arg: Option::Some(_) } => true,
                                                _ => false,
                                            }
                                        } else {
                                            false
                                        }
                                    },
                                    _ => false,
                                }
                            } else {
                                true
                            }
                        },
                        _ => false,
                    }
                } else {
                    false
                }
            },
            _ => false,
        }
    } else {
        false
    };
    if !applies {
        return Expr::Call { callee: Box::new(c2), args: a3 };
    }
    let mut a3 = a3;
    let arg1 = a3.remove(1);
    match arg1.expr {
        Expr::Array { elems, note } => {
            let ann = annotation_of(&note);
            let pruned = clean_deps_array(elems, reg);
            match ann {
                Annotation::EffectDeps => {
                    if pruned.len() == 0 {
                        Expr::Undef
                    } else {
                        a3.insert(
                            1,
                            Arg {
                                spread: arg1.spread,
                                expr: Expr::Array { elems: pruned, note },
                            },
                        );
                        Expr::Call { callee: Box::new(c2), args: a3 }
                    }
                },
                Annotation::ImmediateEffectDeps => {
                    if pruned.len() == 0 {
                        let cb = a3.remove(0);
                        Expr::Call { callee: Box::new(cb.expr), args: Vec::new() }
                    } else {
                        a3.insert(
                            1,
                            Arg {
                                spread: arg1.spread,
                                expr: Expr::Array { elems: pruned, note },
                            },
                        );
                        Expr::Call { callee: Box::new(c2), args: a3 }
                    }
                },
                Annotation::DynamicViewDeps => {
                    if pruned.len() == 0 {
                        let v0 = a3.remove(0);
                        match v0.expr {
                            Expr::Func { body } => {
                                let mut body = body;
                                if body.len() > 0 {
                                    let s0 = body.remove(0);
                                    match s0 {
                                        Stmt::Ret { arg: Option::Some(vr) } => {
                                            return vr;
                                        },
                                        other => {
                                            body.insert(0, other);
                                        },
                                    }
                                }
                                a3.insert(0, Arg { spread: v0.spread, expr: Expr::Func { body } });
                                a3.insert(
                                    1,
                                    Arg {
                                        spread: arg1.spread,
                                        expr: Expr::Array { elems: pruned, note },
                                    },
                                );
                                Expr::Call { callee: Box::new(c2), args: a3 }
                            },
                            other0 => {
                                a3.insert(0, Arg { spread: v0.spread, expr: other0 });
                                a3.insert(
                                    1,
                                    Arg {
                                        spread: arg1.spread,
                                        expr: Expr::Array { elems: pruned, note },
                                    },
                                );
                                Expr::Call { callee: Box::new(c2), args: a3 }
                            },
                        }
                    } else {
                        a3.insert(
                            1,
                            Arg {
                                spread: arg1.spread,
                                expr: Expr::Array { elems: pruned, note },
                            },
                        );
                        Expr::Call { callee: Box::new(c2), args: a3 }
                    }
                },
                _ => {
                    a3.insert(
                        1,
                        Arg { spread: arg1.spread, expr: Expr::Array { elems: pruned, note } },
                    );
                    Expr::Call { callee: Box::new(c2), args: a3 }
                },
            }
        },
        other => {
            a3.insert(1, Arg { spread: arg1.spread, expr: other });
            Expr::Call { callee: Box::new(c2), args: a3 }
        },
    }
}

/// The call-site rule for one supplied prop value.  A prop whose
/// dependency set was empty from the start has its reactive accessor
/// unwrapped: a wrapper around a single-statement-return function becomes
/// that returned expression, any other wrapped argument is taken bare.  A
/// prop with original dependencies fed a registry identifier has that
/// identifier boxed in a one-element array, as the calling convention for
/// dynamic-looking props requires.  Everything else is unchanged.
pub open spec fn prop_value_rewritten(
    v: Expr,
    w: Expr,
    orig_empty: bool,
    reg: Seq<(u64, bool)>,
) -> bool {
    if orig_empty {
        match v {
            Expr::Call { callee: _, args } => {
                if args@.len() > 0 {
                    match args@[0].expr {
                        Expr::Func { body } => {
                            if body@.len() > 0 && (body@[0] matches Stmt::Ret {
                                arg: Option::Some(_),
                            }) {
                                w == body@[0].arrow_Ret_arg().arrow_Some_0()
                            } else {
                                w == v
                            }
                        },
                        _ => w == args@[0].expr,
                    }
                } else {
                    w == v
                }
            },
            _ => w == v,
        }
    } else {
        match v {
            Expr::Ident { id } => {
                if ahas(reg, id) {
                    w matches Expr::Array { elems, note } && elems@.len() == 1 && elems@[0]
                        == Option::Some(Arg { spread: false, expr: Expr::Ident { id } })
                        && note is None
                } else {
                    w == v
                }
            },
            _ => w == v,
        }
    }
}

/// One object property after the call-site rewrite: a keyed prop of the
/// component's table has its value rewritten by the prop-value rule,
/// anything else is unchanged.
pub open spec fn cs_oprop_rewritten(
    op: ObjProp,
    oq: ObjProp,
    tbl: PropsTable,
    reg: Seq<(u64, bool)>,
) -> bool {
    match op {
        ObjProp::KeyValue { key, value } => match aget(tbl.items@, key) {
            Option::Some(p) => oq matches ObjProp::KeyValue { key: k2, value: w } && k2 == key
                && prop_value_rewritten(value, w, p.orig_deps@.len() == 0, reg),
            Option::None => oq == op,
        },
        _ => oq == op,
    }
}

/// What the call-site rewrite does to a call's arguments: when the callee
/// is a known component and the first argument an object literal, each of
/// its properties is rewritten by the per-prop rule and everything else is
/// untouched; otherwise the arguments are unchanged.
pub open spec fn call_site_rewritten(
    c2: Expr,
    a2: Seq<Arg>,
    a3: Seq<Arg>,
    comps: Components,
    reg: Seq<(u64, bool)>,
) -> bool {
    match c2 {
        Expr::Ident { id } => match aget(comps.items@, id) {
            Option::Some(tbl) => {
                if a2.len() > 0 {
                    match a2[0].expr {
                        Expr::Object { props } => {
                            &&& a3.len() == a2.len()
                            &&& forall|i: int| 1 <= i < a2.len() ==> a3[i] == a2[i]
                            &&& a3[0].spread == a2[0].spread
                            &&& a3[0].expr matches Expr::Object { props: qs } && qs@.len()
                                == props@.len() && forall|j: int|
                                0 <= j < props@.len() ==> cs_oprop_rewritten(
                                    #[trigger] props@[j],
                                    qs@[j],
                                    tbl,
                                    reg,
                                )
                        },
                        _ => a3 == a2,
                    }
                } else {
                    a3 == a2
                }
            },
            Option::None => a3 == a2,
        },
        _ => a3 == a2,
    }
}

/// Rewrites the keyed props of a known component's call-site object:
/// unwraps accessors of props constant at the source, and boxes registry
/// identifiers fed to props with original dependencies.
fn rewrite_call_site(c2: &Expr, a2: Vec<Arg>, comps: &Components, reg: &Registry) -> (a3: Vec<
    Arg,
>)
    ensures
        call_site_rewritten(*c2, a2@, a3@, *comps, reg.items@),
{
    let cid: u64 = match c2 {
        Expr::Ident { id } => *id,
        _ => {
            return a2;
        },
    };
    let ci = match comps.find(cid) {
        Option::Some(i) => i,
        Option::None => {
            return a2;
        },
    };
    if a2.len() == 0 {
        return a2;
    }
    let ghost a2g = a2@;
    let ghost tblg = aget(comps.items@, cid).arrow_Some_0();
    let mut a2 = a2;
    let arg0 = a2.remove(0);
    match arg0.expr {
        Expr::Object { props } => {
            let ghost ps = props@;
            let mut props = props;
            let np: usize = props.len();
            let mut out: Vec<ObjProp> = Vec::new();
            let mut i: usize = 0;
            while props.len() > 0
                invariant
                    ci < comps.items@.len(),
                    comps.items@[ci as int].1 == tblg,
                    ps.len() == np as int,
                    i + props@.len() == ps.len(),
                    props@ =~= ps.subrange(i as int, ps.len() as int),
                    out@.len() == i,
                    forall|j: int|
                        0 <= j < i ==> cs_oprop_rewritten(
                            #[trigger] ps[j],
                            out@[j],
                            tblg,
                            reg.items@,
                        ),
                decreases props@.len(),
            {
                let op = props.remove(0);
                proof {
                    assert(op == ps[i as int]);
                }
                match op {
                    ObjProp::KeyValue { key, value } => {
                        let tbl = &comps.items[ci].1;
                        match tbl.find(key) {
                            Option::Some(pj) => {
                                let orig_empty: bool = tbl.items[pj].1.orig_deps.len() == 0;
                                let v2 = rewrite_prop_value(value, orig_empty, reg);
                                out.push(ObjProp::KeyValue { key, value: v2 });
                            },
                            Option::None => {
                                out.push(ObjProp::KeyValue { key, value });
                            },
                        }
                    },
                    other => {
                        out.push(other);
                    },
                }
                i += 1;
                proof {
                    assert(props@ =~= ps.subrange(i as int, ps.len() as int));
                }
            }
            proof {
                assert(ps.subrange(ps.len() as int, ps.len() as int) =~= Seq::<
                    ObjProp,
                >::empty());
            }
            a2.insert(0, Arg { spread: arg0.spread, expr: Expr::Object { props: out } });
            proof {
                assert(forall|x: int| 1 <= x < a2g.len() ==> a2@[x] == a2g[x]);
            }
            a2
        },
        other => {
            a2.insert(0, Arg { spread: arg0.spread, expr: other });
            proof {
                assert(a2@ =~= a2g);
            }
            a2
        },
    }
}

/// Rewrites one supplied prop value per the call-site rules.
fn rewrite_prop_value(value: Expr, orig_empty: bool, reg: &Registry) -> (v2: Expr)
    ensures
        prop_value_rewritten(value, v2, orig_empty, reg.items@),
{
    if orig_empty {
        // decide the case without taking the value apart, so untouched
        // values pass through whole
        let fire: u8 = match &value {
            Expr::Call { callee: _, args } => {
                if args.len() > 0 {
                    match &args[0].expr {
                        Expr::Func { body } => {
                            if body.len() > 0 {
                                match &body[0] {
                                    Stmt::Ret { arg: Option::Some(_) } => 1u8,
                                    _ => 0u8,
                                }
                            } else {
                                0u8
                            }
                        },
                        _ => 2u8,
                    }
                } else {
                    0u8
                }
            },
            _ => 0u8,
        };
        if fire == 0 {
            return value;
        }
        match value {
            Expr::Call { callee: _, args } => {
                let mut args = args;
                let first = args.remove(0);
                if fire == 2 {
                    return first.expr;
                }
                match first.expr {
                    Expr::Func { body } => {
                        let mut body = body;
                        let s0 = body.remove(0);
                        match s0 {
                            Stmt::Ret { arg: Option::Some(a) } => a,
                            _ => {
                                proof {
                                    assert(false);
                                }
                                Expr::Undef
                            },
                        }
                    },
                    _ => {
                        proof {
                            assert(false);
                        }
                        Expr::Undef
                    },
                }
            },
            _ => {
                proof {
                    assert(false);
                }
                Expr::Undef
            },
        }
    } else {
        match value {
            Expr::Ident { id } => {
                match reg.find(id) {
                    Option::Some(_) => {
                        let mut elems: Vec<Option<Arg>> = Vec::new();
                        elems.push(
                            Option::Some(Arg { spread: false, expr: Expr::Ident { id } }),
                        );
                        Expr::Array { elems, note: Option::None }
                    },
                    Option::None => Expr::Ident { id },
                }
            },
            other => other,
        }
    }
}

fn rewrite_exprs(v: Vec<Expr>, comps: &Components, reg: &Registry) -> (r: Vec<Expr>)
    ensures
        rw_exprs(v@, r@, *comps, reg.items@),
    decreases v@,
{
    let ghost orig = v@;
    let mut rest = v;
    let n0: usize = rest.len();
    proof {
        assert(orig.len() == n0 as int);
        assert(orig.take(0) =~= Seq::<Expr>::empty());
    }
    let mut out: Vec<Expr> = Vec::new();
    let mut i: usize = 0;
    while rest.len() > 0
        invariant
            orig == v@,
            orig.len() == n0 as int,
            i + rest@.len() == orig.len(),
            rest@ =~= orig.subrange(i as int, orig.len() as int),
            rw_exprs(orig.take(i as int), out@, *comps, reg.items@),
        decreases rest@.len(),
    {
        let x = rest.remove(0);
        proof {
            assert(x == orig[i as int]);
            assert(decreases_to!(orig => orig[i as int]));
        }
        let ghost out0 = out@;
        let y = rewrite_expr(x, comps, reg);
        out.push(y);
        i += 1;
        proof {
            assert(rest@ =~= orig.subrange(i as int, orig.len() as int));
            let t = orig.take(i as int);
            assert(t.drop_last() =~= orig.take(i - 1));
            assert(t.last() == orig[i - 1]);
            assert(out@.drop_last() =~= out0);
            assert(rw_exprs(t, out@, *comps, reg.items@));
        }
    }
    proof {
        assert(orig.take(orig.len() as int) =~= orig);
    }
    out
}
fn rewrite_args(v: Vec<Arg>, comps: &Components, reg: &Registry) -> (r: Vec<Arg>)
    ensures
        rw_args(v@, r@, *comps, reg.items@),
    decreases v@,
{
    let ghost orig = v@;
    let mut rest = v;
    let n0: usize = rest.len();
    proof {
        assert(orig.len() == n0 as int);
        assert(orig.take(0) =~= Seq::<Arg>::empty());
    }
    let mut out: Vec<Arg> = Vec::new();
    let mut i: usize = 0;
    while rest.len() > 0
        invariant
            orig == v@,
            orig.len() == n0 as int,
            i + rest@.len() == orig.len(),
            rest@ =~= orig.subrange(i as int, orig.len() as int),
            rw_args(orig.take(i as int), out@, *comps, reg.items@),
        decreases rest@.len(),
    {
        let x = rest.remove(0);
        proof {
            assert(x == orig[i as int]);
            assert(decreases_to!(orig => orig[i as int]));
        }
        let ghost out0 = out@;
        let y = rewrite_expr(x.expr, comps, reg);
        out.push(Arg { spread: x.spread, expr: y });
        i += 1;
        proof {
            assert(rest@ =~= orig.subrange(i as int, orig.len() as int));
            let t = orig.take(i as int);
            assert(t.drop_last() =~= orig.take(i - 1));
            assert(t.last() == orig[i - 1]);
            assert(out@.drop_last() =~= out0);
            assert(rw_args(t, out@, *comps, reg.items@));
        }
    }
    proof {
        assert(orig.take(orig.len() as int) =~= orig);
    }
    out
}
fn rewrite_elems(v: Vec<Option<Arg>>, comps: &Components, reg: &Registry) -> (r: Vec<
    Option<Arg>,
>)
    ensures
        rw_elems(v@, r@, *comps, reg.items@),
    decreases v@,
{
    let ghost orig = v@;
    let mut rest = v;
    let n0: usize = rest.len();
    proof {
        assert(orig.len() == n0 as int);
        assert(orig.take(0) =~= Seq::<Option<Arg>>::empty());
    }
    let mut out: Vec<Option<Arg>> = Vec::new();
    let mut i: usize = 0;
    while rest.len() > 0
        invariant
            orig == v@,
            orig.len() == n0 as int,
            i + rest@.len() == orig.len(),
            rest@ =~= orig.subrange(i as int, orig.len() as int),
            rw_elems(orig.take(i as int), out@, *comps, reg.items@),
        decreases rest@.len(),
    {
        let x = rest.remove(0);
        proof {
            assert(x == orig[i as int]);
            assert(decreases_to!(orig => orig[i as int]));
        }
        let ghost out0 = out@;
        match x {
            Option::Some(a) => {
                let y = rewrite_expr(a.expr, comps, reg);
                out.push(Option::Some(Arg { spread: a.spread, expr: y }));
            },
            Option::None => {
                out.push(Option::None);
            },
        }
        i += 1;
        proof {
            assert(rest@ =~= orig.subrange(i as int, orig.len() as int));
            let t = orig.take(i as int);
            assert(t.drop_last() =~= orig.take(i - 1));
            assert(t.last() == orig[i - 1]);
            assert(out@.drop_last() =~= out0);
            assert(rw_elems(t, out@, *comps, reg.items@));
        }
    }
    proof {
        assert(orig.take(orig.len() as int) =~= orig);
    }
    out
}
fn rewrite_oprops(v: Vec<ObjProp>, comps: &Components, reg: &Registry) -> (r: Vec<ObjProp>)
    ensures
        rw_oprops(v@, r@, *comps, reg.items@),
    decreases v@,
{
    let ghost orig = v@;
    let mut rest = v;
    let n0: usize = rest.len();
    proof {
        assert(orig.len() == n0 as int);
        assert(orig.take(0) =~= Seq::<ObjProp>::empty());
    }
    let mut out: Vec<ObjProp> = Vec::new();
    let mut i: usize = 0;
    while rest.len() > 0
        invariant
            orig == v@,
            orig.len() == n0 as int,
            i + rest@.len() == orig.len(),
            rest@ =~= orig.subrange(i as int, orig.len() as int),
            rw_oprops(orig.take(i as int), out@, *comps, reg.items@),
        decreases rest@.len(),
    {
        let x = rest.remove(0);
        proof {
            assert(x == orig[i as int]);
            assert(decreases_to!(orig => orig[i as int]));
        }
        let ghost out0 = out@;
        match x {
            ObjProp::KeyValue { key, value } => {
                let y = rewrite_expr(value, comps, reg);
                out.push(ObjProp::KeyValue { key, value: y });
            },
            ObjProp::OpaqueProp { token, children } => {
                let k2 = rewrite_exprs(children, comps, reg);
                out.push(ObjProp::OpaqueProp { token, children: k2 });
            },
        }
        i += 1;
        proof {
            assert(rest@ =~= orig.subrange(i as int, orig.len() as int));
            let t = orig.take(i as int);
            assert(t.drop_last() =~= orig.take(i - 1));
            assert(t.last() == orig[i - 1]);
            assert(out@.drop_last() =~= out0);
            assert(rw_oprops(t, out@, *comps, reg.items@));
        }
    }
    proof {
        assert(orig.take(orig.len() as int) =~= orig);
    }
    out
}

/// Rewrites one statement.
pub fn rewrite_stmt(st: Stmt, comps: &Components, reg: &Registry) -> (r: Stmt)
    ensures
        rw_stmt(st, r, *comps, reg.items@),
    decreases st,
{
    let ghost stg = st;
    match st {
        Stmt::ExprStmt { expr } => Stmt::ExprStmt { expr: rewrite_expr(expr, comps, reg) },
        Stmt::VarDecl { decls } => {
            let ghost dv = decls@;
            let mut rest = decls;
            let ntot: usize = rest.len();
            let mut out: Vec<Declarator> = Vec::new();
            let mut i: usize = 0;
            proof {
                assert(dv.take(0) =~= Seq::<Declarator>::empty());
            }
            while rest.len() > 0
                invariant
                    stg == st,
                    stg is VarDecl,
                    stg.arrow_VarDecl_decls()@ == dv,
                    dv.len() == ntot,
                    i + rest@.len() == dv.len(),
                    rest@ =~= dv.subrange(i as int, dv.len() as int),
                    rw_decls(dv.take(i as int), out@, *comps, reg.items@),
                decreases rest@.len(),
            {
                let d = rest.remove(0);
                proof {
                    assert(d == dv[i as int]);
                    assert(decreases_to!(stg => stg.arrow_VarDecl_decls()));
                    assert(decreases_to!(stg.arrow_VarDecl_decls()
                        => stg.arrow_VarDecl_decls()@));
                    assert(decreases_to!(dv => dv[i as int]));
                    assert(decreases_to!(stg => d));
                }
                let ghost out0 = out@;
                let d2 = rewrite_declarator(d, comps, reg);
                out.push(d2);
                i += 1;
                proof {
                    assert(rest@ =~= dv.subrange(i as int, dv.len() as int));
                    let t = dv.take(i as int);
                    assert(t.drop_last() =~= dv.take(i - 1));
                    assert(t.last() == dv[i - 1]);
                    assert(out@.drop_last() =~= out0);
                    assert(rw_decls(t, out@, *comps, reg.items@));
                }
            }
            proof {
                assert(dv.take(dv.len() as int) =~= dv);
            }
            Stmt::VarDecl { decls: out }
        },
        Stmt::Ret { arg } => match arg {
            Option::Some(e) => Stmt::Ret { arg: Option::Some(rewrite_expr(e, comps, reg)) },
            Option::None => Stmt::Ret { arg: Option::None },
        },
        Stmt::OpaqueStmt { token, exprs, stmts } => {
            let e2 = rewrite_exprs(exprs, comps, reg);
            let s2 = rewrite_stmts(stmts, comps, reg);
            Stmt::OpaqueStmt { token, exprs: e2, stmts: s2 }
        },
    }
}

fn rewrite_stmts(v: Vec<Stmt>, comps: &Components, reg: &Registry) -> (r: Vec<Stmt>)
    ensures
        rw_stmts(v@, r@, *comps, reg.items@),
    decreases v@,
{
    let ghost orig = v@;
    let mut rest = v;
    let n0: usize = rest.len();
    proof {
        assert(orig.len() == n0 as int);
        assert(orig.take(0) =~= Seq::<Stmt>::empty());
    }
    let mut out: Vec<Stmt> = Vec::new();
    let mut i: usize = 0;
    while rest.len() > 0
        invariant
            orig == v@,
            orig.len() == n0 as int,
            i + rest@.len() == orig.len(),
            rest@ =~= orig.subrange(i as int, orig.len() as int),
            rw_stmts(orig.take(i as int), out@, *comps, reg.items@),
        decreases rest@.len(),
    {
        let x = rest.remove(0);
        proof {
            assert(x == orig[i as int]);
            assert(decreases_to!(orig => orig[i as int]));
        }
        let ghost out0 = out@;
        let y = rewrite_stmt(x, comps, reg);
        out.push(y);
        i += 1;
        proof {
            assert(rest@ =~= orig.subrange(i as int, orig.len() as int));
            let t = orig.take(i as int);
            assert(t.drop_last() =~= orig.take(i - 1));
            assert(t.last() == orig[i - 1]);
            assert(out@.drop_last() =~= out0);
            assert(rw_stmts(t, out@, *comps, reg.items@));
        }
    }
    proof {
        assert(orig.take(orig.len() as int) =~= orig);
    }
    out
}

/// Rewrites one declarator; when it binds a recognized component, the
/// body's prop declarations are folded against the final registry.
fn rewrite_declarator(d: Declarator, comps: &Components, reg: &Registry) -> (r: Declarator)
    ensures
        rw_decl(d, r, *comps, reg.items@),
    decreases d,
{
    let ghost dg = d;
    let Declarator { name, init } = d;
    match init {
        Option::None => {
            let r = Declarator { name, init: Option::None };
            proof {
                assert(r == dg);
            }
            r
        },
        Option::Some(e) => {
            proof {
                assert(decreases_to!(dg => dg.init));
            }
            let w = rewrite_expr(e, comps, reg);
            let ghost wg = w;
            let r: Declarator = match w {
                Expr::Func { body } => {
                    let is_comp: bool = if body.len() > 0 {
                        match &body[0] {
                            Stmt::ExprStmt { expr: Expr::Str { text } } => {
                                crate::discover::is_directive_text(text)
                            },
                            _ => false,
                        }
                    } else {
                        false
                    };
                    let found: Option<usize> = match &name {
                        Option::Some(id) => comps.find(*id),
                        Option::None => Option::None,
                    };
                    let count: i32 = if body.len() > 1 {
                        match &body[1] {
                            Stmt::ExprStmt { expr: Expr::Str { text } } => {
                                match prop_count_of(text) {
                                    Option::Some(c) => c,
                                    Option::None => 0,
                                }
                            },
                            _ => 0,
                        }
                    } else {
                        0
                    };
                    match found {
                        Option::Some(ci) => {
                            if is_comp && count > 0 {
                                let body2 = fold_component_body(body, comps, ci, count);
                                Declarator {
                                    name,
                                    init: Option::Some(Expr::Func { body: body2 }),
                                }
                            } else {
                                Declarator { name, init: Option::Some(Expr::Func { body }) }
                            }
                        },
                        Option::None => Declarator {
                            name,
                            init: Option::Some(Expr::Func { body }),
                        },
                    }
                },
                other => Declarator { name, init: Option::Some(other) },
            };
            proof {
                assert(rw_expr(dg.init.arrow_Some_0(), wg, *comps, reg.items@));
                assert(fold_wrap(dg.name, wg, r, *comps, reg.items@));
                assert(rw_decl(dg, r, *comps, reg.items@));
            }
            r
        },
    }
}

/// What the body fold does to one declarator: under a pending default
/// resolution the initializer becomes the false literal; an unused
/// defaulted prop's declaration takes the default expression and leaves a
/// pending resolution, advancing one position (a used one advances two);
/// an unused undefaulted prop's read becomes the undefined sentinel,
/// advancing one position either way; anything else is untouched.
pub open spec fn spec_fold_decl(d: Declarator, tbl: PropsTable, pending: bool) -> (
    Declarator,
    int,
    bool,
) {
    match d.init {
        Option::None => (d, 0int, pending),
        Option::Some(init) => {
            if pending {
                (Declarator { name: d.name, init: Option::Some(Expr::FalseLit) }, 0int, false)
            } else {
                match init {
                    Expr::Or { left, right } => match *left {
                        Expr::Member { obj: _, key } => match aget(tbl.items@, key) {
                            Option::Some(p) => {
                                if !p.is_used {
                                    (
                                        Declarator { name: d.name, init: Option::Some(*right) },
                                        1int,
                                        true,
                                    )
                                } else {
                                    (d, 2int, false)
                                }
                            },
                            Option::None => (d, 0int, pending),
                        },
                        _ => (d, 0int, pending),
                    },
                    Expr::Member { obj: _, key } => match aget(tbl.items@, key) {
                        Option::Some(p) => {
                            if !p.is_used {
                                (
                                    Declarator { name: d.name, init: Option::Some(Expr::Undef) },
                                    1int,
                                    pending,
                                )
                            } else {
                                (d, 1int, pending)
                            }
                        },
                        Option::None => (d, 0int, pending),
                    },
                    _ => (d, 0int, pending),
                }
            }
        },
    }
}

/// Unused-prop folding.  A prop that no call site supplies is folded in
/// the component body: with a default, the declaration binding the
/// temporary takes the default expression directly, no longer reading the
/// incoming value, and the following declaration, which resolves the
/// default, is rewritten to the false literal; without a default, the
/// member read becomes the undefined sentinel.
pub proof fn lemma_unused_prop_folding(
    d: Declarator,
    e: Declarator,
    tbl: PropsTable,
    key: u64,
    p: Prop,
)
    requires
        aget(tbl.items@, key) == Option::Some(p),
        !p.is_used,
    ensures
        (d.init matches Option::Some(i0) && i0 matches Expr::Or { left, right } && *left
            matches Expr::Member { obj: _, key: k2 } && k2 == key) ==> {
            &&& spec_fold_decl(d, tbl, false).0.init == Option::Some(
                *d.init.arrow_Some_0().arrow_Or_right(),
            )
            &&& spec_fold_decl(d, tbl, false).2
            &&& e.init is Some ==> spec_fold_decl(e, tbl, spec_fold_decl(d, tbl, false).2).0.init
                == Option::Some(Expr::FalseLit)
        },
        (d.init matches Option::Some(i0) && i0 matches Expr::Member { obj: _, key: k3 } && k3
            == key) ==> spec_fold_decl(d, tbl, false).0.init == Option::Some(Expr::Undef),
{
}

/// Folds one declarator of a component body, per the position-counting
/// machine.
fn fold_decl(d: Declarator, tbl: &PropsTable, pending: bool) -> (r: (Declarator, u8, bool))
    ensures
        r.0 == spec_fold_decl(d, *tbl, pending).0,
        r.1 as int == spec_fold_decl(d, *tbl, pending).1,
        r.2 == spec_fold_decl(d, *tbl, pending).2,
{
    let Declarator { name: dname, init: dinit } = d;
    match dinit {
        Option::None => (Declarator { name: dname, init: Option::None }, 0u8, pending),
        Option::Some(init) => {
            if pending {
                (Declarator { name: dname, init: Option::Some(Expr::FalseLit) }, 0u8, false)
            } else {
                match init {
                    Expr::Or { left, right } => match *left {
                        Expr::Member { obj, key } => {
                            match tbl.find(key) {
                                Option::Some(pj) => {
                                    if !tbl.items[pj].1.is_used {
                                        (
                                            Declarator {
                                                name: dname,
                                                init: Option::Some(*right),
                                            },
                                            1u8,
                                            true,
                                        )
                                    } else {
                                        (
                                            Declarator {
                                                name: dname,
                                                init: Option::Some(Expr::Or {
                                                    left: Box::new(Expr::Member { obj, key }),
                                                    right,
                                                }),
                                            },
                                            2u8,
                                            false,
                                        )
                                    }
                                },
                                Option::None => (
                                    Declarator {
                                        name: dname,
                                        init: Option::Some(Expr::Or {
                                            left: Box::new(Expr::Member { obj, key }),
                                            right,
                                        }),
                                    },
                                    0u8,
                                    pending,
                                ),
                            }
                        },
                        other_left => (
                            Declarator {
                                name: dname,
                                init: Option::Some(Expr::Or {
                                    left: Box::new(other_left),
                                    right,
                                }),
                            },
                            0u8,
                            pending,
                        ),
                    },
                    Expr::Member { obj, key } => {
                        match tbl.find(key) {
                            Option::Some(pj) => {
                                if !tbl.items[pj].1.is_used {
                                    (
                                        Declarator {
                                            name: dname,
                                            init: Option::Some(Expr::Undef),
                                        },
                                        1u8,
                                        pending,
                                    )
                                } else {
                                    (
                                        Declarator {
                                            name: dname,
                                            init: Option::Some(Expr::Member { obj, key }),
                                        },
                                        1u8,
                                        pending,
                                    )
                                }
                            },
                            Option::None => (
                                Declarator {
                                    name: dname,
                                    init: Option::Some(Expr::Member { obj, key }),
                                },
                                0u8,
                                pending,
                            ),
                        }
                    },
                    other_init => (
                        Declarator { name: dname, init: Option::Some(other_init) },
                        0u8,
                        pending,
                    ),
                }
            }
        },
    }
}

/// Folds the prop declarations of a component body against the final
/// registry, by the same position-counting machine as discovery: an
/// unused defaulted prop's temporary takes the default directly and its
/// resolution becomes the false literal; an unused undefaulted prop's
/// read becomes the undefined sentinel.
fn fold_component_body(body: Vec<Stmt>, comps: &Components, ci: usize, count: i32) -> (r: Vec<
    Stmt,
>)
    requires
        ci < comps.items@.len(),
        count > 0,
    ensures
        folded_body(body@, r@, comps.items@[ci as int].1, count as int),
{
    let ghost olds = body@;
    let ghost tblg = comps.items@[ci as int].1;
    let ghost full = fold_list(olds, tblg, count as int, 2, 0);
    let cnt: i64 = count as i64;
    let n: usize = body.len();
    let mut body = body;
    let mut curr: usize = 2;
    let mut pos: i64 = 0;
    let ghost mut done: Seq<(u64, Seq<Declarator>)> = Seq::empty();
    proof {
        assert(done + fold_list(olds, tblg, count as int, 2, 0) =~= full);
        assert(forall|i: int|
            0 <= i < n ==> #[trigger] aget(done, i as u64) is None) by {
            assert forall|i: int| 0 <= i < n implies #[trigger] aget(done, i as u64)
                is None by {
                crate::registry::lemma_aget_absent(done, i as u64);
            }
        }
    }
    loop
        invariant_except_break
            n == body@.len(),
            n == olds.len(),
            ci < comps.items@.len(),
            tblg == comps.items@[ci as int].1,
            cnt == count as int,
            1 <= cnt <= 0x7fff_ffff,
            0 <= pos,
            pos <= cnt,
            full == fold_list(olds, tblg, count as int, 2, 0),
            full == done + fold_list(olds, tblg, cnt as int, curr as int, pos as int),
            forall|w: int| 0 <= w < done.len() ==> (#[trigger] done[w]).0 < curr,
            forall|i: int|
                0 <= i < n ==> (match #[trigger] aget(done, i as u64) {
                    Option::Some(nd) => body@[i] matches Stmt::VarDecl { decls: d2 } && d2@
                        == nd,
                    Option::None => body@[i] == olds[i],
                }),
        ensures
            n == body@.len(),
            n == olds.len(),
            forall|i: int|
                0 <= i < n ==> (match #[trigger] aget(full, i as u64) {
                    Option::Some(nd) => body@[i] matches Stmt::VarDecl { decls: d2 } && d2@
                        == nd,
                    Option::None => body@[i] == olds[i],
                }),
        decreases cnt + 2 - pos, n + 1 - curr,
    {
        if curr >= n {
            proof {
                lemma_fold_oob(olds, tblg, cnt as int, curr as int, pos as int);
                assert(full =~= done);
            }
            break;
        }
        proof {
            assert(aget(done, curr as u64) is None) by {
                crate::registry::lemma_aget_absent(done, curr as u64);
            }
            assert(body@[curr as int] == olds[curr as int]);
        }
        let is_decl: bool = match &body[curr] {
            Stmt::VarDecl { decls: _ } => true,
            _ => false,
        };
        if !is_decl {
            proof {
                assert(!(olds[curr as int] is VarDecl));
            }
            if pos + 1 > cnt {
                proof {
                    assert(fold_list(olds, tblg, cnt as int, curr as int, pos as int) =~= Seq::<
                        (u64, Seq<Declarator>),
                    >::empty());
                    assert(full =~= done);
                }
                break;
            }
            pos = pos + 1;
            curr = curr + 1;
        } else {
            proof {
                assert(olds[curr as int] is VarDecl);
            }
            let ghost snap = body@;
            let st = body.remove(curr);
            let ghost pos_in = pos as int;
            let ghost ds = match olds[curr as int] {
                Stmt::VarDecl { decls } => decls@,
                _ => Seq::empty(),
            };
            let ghost rfull = spec_fold_decls(ds, tblg, cnt as int, pos_in, false);
            let mut broke: bool = false;
            let st2 = match st {
                Stmt::VarDecl { decls } => {
                    let mut rest = decls;
                    let ntot: usize = rest.len();
                    let mut out: Vec<Declarator> = Vec::new();
                    let mut pending: bool = false;
                    proof {
                        assert(ds == rest@);
                        assert(ds.subrange(0, ntot as int) =~= ds);
                        assert(Seq::<Declarator>::empty() + rfull.0 =~= rfull.0);
                    }
                    let mut di: usize = 0;
                    while di < ntot && !broke
                        invariant
                            di <= ntot,
                            ntot == ds.len(),
                            ci < comps.items@.len(),
                            tblg == comps.items@[ci as int].1,
                            cnt == count as int,
                            1 <= cnt <= 0x7fff_ffff,
                            pos_in <= pos,
                            0 <= pos_in,
                            pos <= cnt + 2,
                            rest@ =~= ds.subrange(di as int, ntot as int),
                            rfull == spec_fold_decls(ds, tblg, cnt as int, pos_in, false),
                            !broke ==> pos <= cnt,
                            !broke ==> rfull == {
                                let rsub = spec_fold_decls(
                                    ds.subrange(di as int, ntot as int),
                                    tblg,
                                    cnt as int,
                                    pos as int,
                                    pending,
                                );
                                (out@ + rsub.0, rsub.1, rsub.2)
                            },
                            broke ==> rfull == (out@ + rest@, pos as int, true),
                        decreases ntot - di,
                    {
                        let ghost sub = ds.subrange(di as int, ntot as int);
                        let ghost out0 = out@;
                        let ghost pend0 = pending;
                        let ghost posp = pos as int;
                        proof {
                            assert(sub.first() == ds[di as int]);
                            assert(sub.drop_first() =~= ds.subrange(di + 1, ntot as int));
                        }
                        let dd = rest.remove(0);
                        proof {
                            assert(dd == ds[di as int]);
                        }
                        let stepped = fold_decl(dd, &comps.items[ci].1, pending);
                        let (d2, adv, pend2) = stepped;
                        let ghost d2g = d2;
                        out.push(d2);
                        pending = pend2;
                        pos = pos + (adv as i64);
                        if pos >= cnt {
                            broke = true;
                        }
                        di = di + 1;
                        proof {
                            let stg2 = spec_fold_decl(ds[di - 1], tblg, pend0);
                            assert(d2g == stg2.0 && adv as int == stg2.1 && pend2 == stg2.2);
                            assert(out@ =~= out0.push(d2g));
                            if broke {
                                assert(spec_fold_decls(sub, tblg, cnt as int, posp, pend0) == (
                                    seq![stg2.0] + sub.drop_first(),
                                    pos as int,
                                    true,
                                ));
                                assert(out0 + (seq![stg2.0] + sub.drop_first()) =~= out@
                                    + rest@);
                            } else {
                                let rnext = spec_fold_decls(
                                    ds.subrange(di as int, ntot as int),
                                    tblg,
                                    cnt as int,
                                    pos as int,
                                    pend2,
                                );
                                assert(spec_fold_decls(sub, tblg, cnt as int, posp, pend0) == (
                                    seq![stg2.0] + rnext.0,
                                    rnext.1,
                                    rnext.2,
                                ));
                                assert(out0 + (seq![stg2.0] + rnext.0) =~= out@ + rnext.0);
                            }
                        }
                    }
                    proof {
                        if !broke {
                            assert(ds.subrange(ntot as int, ntot as int) =~= Seq::<
                                Declarator,
                            >::empty());
                            assert(rfull == (out@ + Seq::<Declarator>::empty(), pos as int, false));
                            assert(out@ + Seq::<Declarator>::empty() =~= out@);
                            assert(rest@ =~= Seq::<Declarator>::empty());
                        }
                        assert(rfull.0 =~= out@ + rest@);
                    }
                    while rest.len() > 0
                        invariant
                            rfull.0 =~= out@ + rest@,
                        decreases rest@.len(),
                    {
                        let ghost o1 = out@;
                        let ghost r1 = rest@;
                        let dd = rest.remove(0);
                        out.push(dd);
                        proof {
                            assert(out@ + rest@ =~= o1 + r1);
                        }
                    }
                    proof {
                        assert(out@ + Seq::<Declarator>::empty() =~= out@);
                        assert(out@ =~= rfull.0);
                    }
                    Stmt::VarDecl { decls: out }
                },
                _ => {
                    proof {
                        assert(false);
                    }
                    Stmt::Ret { arg: Option::None }
                },
            };
            body.insert(curr, st2);
            let ghost x: (u64, Seq<Declarator>) = (curr as u64, rfull.0);
            proof {
                assert(body@ =~= snap.update(curr as int, body@[curr as int]));
                assert(body@[curr as int] matches Stmt::VarDecl { decls: d2 } && d2@
                    == rfull.0);
                assert(fold_list(olds, tblg, cnt as int, curr as int, pos_in) == seq![x] + (
                if rfull.2 {
                    Seq::<(u64, Seq<Declarator>)>::empty()
                } else {
                    fold_list(olds, tblg, cnt as int, curr + 1, rfull.1)
                }));
                if broke {
                    assert(rfull.2);
                    assert(done + (seq![x] + Seq::<(u64, Seq<Declarator>)>::empty()) =~= done
                        + seq![x]);
                } else {
                    assert(!rfull.2 && rfull.1 == pos as int);
                    assert(done + (seq![x] + fold_list(olds, tblg, cnt as int, curr + 1, pos as int))
                        =~= (done + seq![x]) + fold_list(olds, tblg, cnt as int, curr + 1, pos as int));
                }
                let done2 = done + seq![x];
                assert forall|i: int|
                    0 <= i < n implies (match #[trigger] aget(done2, i as u64) {
                    Option::Some(nd) => body@[i] matches Stmt::VarDecl { decls: d2 } && d2@
                        == nd,
                    Option::None => body@[i] == olds[i],
                }) by {
                    crate::registry::lemma_aget_snoc(done, x, i as u64);
                    let prior = aget(done, i as u64);
                    assert(body@[i] == snap.update(curr as int, body@[curr as int])[i]);
                    if i == curr as int {
                        assert(forall|j: int|
                            0 <= j < done.len() ==> (#[trigger] done[j]).0 != curr as u64);
                        crate::registry::lemma_aget_absent(done, curr as u64);
                        assert(aget(done2, i as u64) == Option::Some(rfull.0));
                    } else {
                        assert(i as u64 != curr as u64);
                        if !ahas(done, i as u64) {
                            assert(forall|j: int|
                                0 <= j < done.len() ==> (#[trigger] done[j]).0 != i as u64);
                            crate::registry::lemma_aget_absent(done, i as u64);
                        }
                        assert(aget(done2, i as u64) == prior);
                        assert(body@[i] == snap[i]);
                    }
                }
                done = done2;
            }
            if broke {
                proof {
                    assert(full =~= done);
                }
                break;
            }
            curr = curr + 1;
        }
    }
    body
}

/// Rewrites one compilation unit against the analysis result.
pub fn rewrite_program(p: crate::ast::Program, comps: &Components, reg: &Registry) -> (r: crate::ast::Program)
    ensures
        rw_stmts(p.body@, r.body@, *comps, reg.items@),
{
    let crate::ast::Program { body } = p;
    let b2 = rewrite_stmts(body, comps, reg);
    crate::ast::Program { body: b2 }
}


/// Call-site boxing invariant.  A prop with non-empty original
/// dependencies, supplied at a call site by an identifier present in the
/// constant registry, is rewritten to a one-element array wrapping that
/// identifier.
pub proof fn lemma_call_site_boxing(w: Expr, id: u64, reg: Seq<(u64, bool)>)
    requires
        ahas(reg, id),
        prop_value_rewritten(Expr::Ident { id }, w, false, reg),
    ensures
        w matches Expr::Array { elems, note } && elems@.len() == 1 && elems@[0] == Option::Some(
            Arg { spread: false, expr: Expr::Ident { id } },
        ) && note is None,
{
}

} // verus!
