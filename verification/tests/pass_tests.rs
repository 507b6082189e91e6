// Scenario tests for the whole pass: discovery, constant propagation and
// the tree rewrite, on small component programs.

use mango_opt::ast::{Arg, Declarator, Expr, ObjProp, Program, Stmt};
use mango_opt::discover::ConfigError;
use mango_opt::pass::optimize_unit;

fn chars(s: &str) -> Vec<char> {
    s.chars().collect()
}

fn ident(id: u64) -> Expr {
    Expr::Ident { id }
}

fn strlit(s: &str) -> Expr {
    Expr::Str { text: chars(s) }
}

fn arg(e: Expr) -> Arg {
    Arg { spread: false, expr: e }
}

fn member(obj: Expr, key: u64) -> Expr {
    Expr::Member { obj: Box::new(obj), key }
}

fn call(callee: Expr, args: Vec<Arg>) -> Expr {
    Expr::Call { callee: Box::new(callee), args }
}

fn func(body: Vec<Stmt>) -> Expr {
    Expr::Func { body }
}

fn arr(elems: Vec<Option<Arg>>, note: Option<&str>) -> Expr {
    Expr::Array { elems, note: note.map(chars) }
}

fn expr_stmt(e: Expr) -> Stmt {
    Stmt::ExprStmt { expr: e }
}

fn decl(name: u64, init: Expr) -> Declarator {
    Declarator { name: Some(name), init: Some(init) }
}

fn var_decl(ds: Vec<Declarator>) -> Stmt {
    Stmt::VarDecl { decls: ds }
}

fn ret(e: Expr) -> Stmt {
    Stmt::Ret { arg: Some(e) }
}

/// `var <comp> = function() { "use mango_component"; "<meta>"; ...body }`
fn component(comp: u64, meta: &str, mut rest: Vec<Stmt>) -> Stmt {
    let mut body = vec![expr_stmt(strlit("use mango_component")), expr_stmt(strlit(meta))];
    body.append(&mut rest);
    var_decl(vec![decl(comp, func(body))])
}

// The end-to-end scenario: component `Box` (id 1) takes prop `color`
// (key 10, local 20) with no default; one call site supplies a constant
// accessor around a literal.  The prop enters the registry on the first
// round, its entry leaves the marked array in the body, and the wrapper
// is unwrapped to the literal at the call site.
#[test]
fn constant_prop_end_to_end() {
    let body = vec![
        var_decl(vec![decl(20, member(ident(99), 10))]),
        expr_stmt(arr(vec![Some(arg(ident(20)))], Some(" STATE_DEPS "))),
    ];
    let call_site = expr_stmt(call(
        ident(1),
        vec![arg(Expr::Object {
            props: vec![ObjProp::KeyValue {
                key: 10,
                value: call(ident(50), vec![arg(func(vec![ret(strlit("red"))]))]),
            }],
        })],
    ));
    let input = Program { body: vec![component(1, "cmp_1", body), call_site] };

    let expected_body = vec![
        var_decl(vec![decl(20, member(ident(99), 10))]),
        expr_stmt(arr(vec![], Some(" STATE_DEPS "))),
    ];
    let expected_call = expr_stmt(call(
        ident(1),
        vec![arg(Expr::Object {
            props: vec![ObjProp::KeyValue { key: 10, value: strlit("red") }],
        })],
    ));
    let expected = Program { body: vec![component(1, "cmp_1", expected_body), expected_call] };

    let got = optimize_unit(input).unwrap();
    assert_eq!(got, expected);
}

// Running the pass on its own output changes nothing further.
#[test]
fn reanalysis_is_idempotent() {
    let make = || {
        let body = vec![
            var_decl(vec![decl(20, member(ident(99), 10))]),
            expr_stmt(arr(vec![Some(arg(ident(20)))], Some(" STATE_DEPS "))),
        ];
        let call_site = expr_stmt(call(
            ident(1),
            vec![arg(Expr::Object {
                props: vec![ObjProp::KeyValue {
                    key: 10,
                    value: call(ident(50), vec![arg(func(vec![ret(strlit("red"))]))]),
                }],
            })],
        ));
        Program { body: vec![component(1, "cmp_1", body), call_site] }
    };
    let once = optimize_unit(make()).unwrap();
    let again_input = optimize_unit(make()).unwrap();
    let twice = optimize_unit(again_input).unwrap();
    assert_eq!(twice, once);
}

// A prop whose call-site dependency is another prop's dynamic binding
// stays dynamic: nothing is pruned and the wrapper stays intact.
#[test]
fn dynamic_dependency_left_untouched() {
    let make = || {
        let body = vec![
            var_decl(vec![decl(26, member(ident(99), 16))]),
            var_decl(vec![decl(27, member(ident(99), 17))]),
            expr_stmt(arr(vec![Some(arg(ident(26)))], Some(" STATE_DEPS "))),
        ];
        let call_site = expr_stmt(call(
            ident(6),
            vec![arg(Expr::Object {
                props: vec![
                    ObjProp::KeyValue {
                        key: 16,
                        value: call(
                            ident(50),
                            vec![
                                arg(func(vec![ret(strlit("c"))])),
                                arg(arr(vec![Some(arg(ident(27)))], None)),
                            ],
                        ),
                    },
                    ObjProp::KeyValue { key: 17, value: ident(40) },
                ],
            })],
        ));
        Program { body: vec![component(6, "cmp_2", body), call_site] }
    };
    let got = optimize_unit(make()).unwrap();
    assert_eq!(got, make());
}

// Constancy propagates transitively: a prop depending only on an already
// constant binding becomes constant on the next round.
#[test]
fn fixpoint_propagates_through_chain() {
    let body = vec![
        var_decl(vec![decl(21, member(ident(99), 11))]),
        var_decl(vec![decl(22, member(ident(99), 12))]),
        expr_stmt(arr(
            vec![Some(arg(ident(22))), Some(arg(ident(21)))],
            Some(" STATE_DEPS "),
        )),
    ];
    let call_site = expr_stmt(call(
        ident(2),
        vec![arg(Expr::Object {
            props: vec![
                ObjProp::KeyValue {
                    key: 11,
                    value: call(
                        ident(50),
                        vec![arg(func(vec![ret(strlit("x"))])), arg(arr(vec![], None))],
                    ),
                },
                ObjProp::KeyValue {
                    key: 12,
                    value: call(
                        ident(50),
                        vec![
                            arg(func(vec![ret(strlit("y"))])),
                            arg(arr(vec![Some(arg(ident(21)))], None)),
                        ],
                    ),
                },
            ],
        })],
    ));
    let input = Program { body: vec![component(2, "cmp_2", body), call_site] };

    let expected_body = vec![
        var_decl(vec![decl(21, member(ident(99), 11))]),
        var_decl(vec![decl(22, member(ident(99), 12))]),
        expr_stmt(arr(vec![], Some(" STATE_DEPS "))),
    ];
    let expected_call = expr_stmt(call(
        ident(2),
        vec![arg(Expr::Object {
            props: vec![
                ObjProp::KeyValue { key: 11, value: strlit("x") },
                ObjProp::KeyValue {
                    key: 12,
                    value: call(
                        ident(50),
                        vec![
                            arg(func(vec![ret(strlit("y"))])),
                            arg(arr(vec![Some(arg(ident(21)))], None)),
                        ],
                    ),
                },
            ],
        })],
    ));
    let expected = Program { body: vec![component(2, "cmp_2", expected_body), expected_call] };

    let got = optimize_unit(input).unwrap();
    assert_eq!(got, expected);
}

// An unused prop without a default has its body read folded to the
// undefined sentinel; a registry identifier supplied to a prop with
// original dependencies is boxed in a one-element array.
#[test]
fn unused_fold_and_boxing() {
    // component D (id 3): prop p (key 13, local 23), never called
    let d_body = vec![var_decl(vec![decl(23, member(ident(99), 13))])];
    // component E (id 4): prop q (key 14, local 24), fed the constant 23
    let e_body = vec![var_decl(vec![decl(24, member(ident(99), 14))])];
    let call_site = expr_stmt(call(
        ident(4),
        vec![arg(Expr::Object {
            props: vec![ObjProp::KeyValue { key: 14, value: ident(23) }],
        })],
    ));
    let input = Program {
        body: vec![
            component(3, "cmp_1", d_body),
            component(4, "cmp_1", e_body),
            call_site,
        ],
    };

    let d_body2 = vec![var_decl(vec![decl(23, Expr::Undef)])];
    let e_body2 = vec![var_decl(vec![decl(24, member(ident(99), 14))])];
    let expected_call = expr_stmt(call(
        ident(4),
        vec![arg(Expr::Object {
            props: vec![ObjProp::KeyValue {
                key: 14,
                value: arr(vec![Some(arg(ident(23)))], None),
            }],
        })],
    ));
    let expected = Program {
        body: vec![
            component(3, "cmp_1", d_body2),
            component(4, "cmp_1", e_body2),
            expected_call,
        ],
    };

    let got = optimize_unit(input).unwrap();
    assert_eq!(got, expected);
}

// An unused prop with a default: the temporary takes the default
// expression directly and the resolving declaration becomes `false`.
#[test]
fn unused_default_folds_to_false() {
    let f_body = vec![var_decl(vec![
        decl(25, Expr::Or {
            left: Box::new(member(ident(99), 15)),
            right: Box::new(strlit("dflt")),
        }),
        decl(26, ident(25)),
    ])];
    let input = Program { body: vec![component(5, "cmp_2", f_body)] };

    let f_body2 = vec![var_decl(vec![
        decl(25, strlit("dflt")),
        decl(26, Expr::FalseLit),
    ])];
    let expected = Program { body: vec![component(5, "cmp_2", f_body2)] };

    let got = optimize_unit(input).unwrap();
    assert_eq!(got, expected);
}

// An effect subscription whose marked dependency array empties is
// replaced by the undefined sentinel.
#[test]
fn emptied_effect_becomes_undefined() {
    let d_body = vec![var_decl(vec![decl(23, member(ident(99), 13))])];
    let effect = expr_stmt(call(
        ident(60),
        vec![
            arg(ident(61)),
            arg(arr(vec![Some(arg(ident(23)))], Some(" EFFECT_DEPS "))),
        ],
    ));
    let input = Program { body: vec![component(3, "cmp_1", d_body), effect] };

    let d_body2 = vec![var_decl(vec![decl(23, Expr::Undef)])];
    let expected = Program {
        body: vec![component(3, "cmp_1", d_body2), expr_stmt(Expr::Undef)],
    };

    let got = optimize_unit(input).unwrap();
    assert_eq!(got, expected);
}

// An immediate effect whose marked dependency array empties collapses to
// a bare invocation of its callback.
#[test]
fn emptied_immediate_effect_runs_once() {
    let d_body = vec![var_decl(vec![decl(23, member(ident(99), 13))])];
    let effect = expr_stmt(call(
        ident(60),
        vec![
            arg(ident(61)),
            arg(arr(vec![Some(arg(ident(23)))], Some(" IMMEDIATE_EFFECT_DEPS "))),
        ],
    ));
    let input = Program { body: vec![component(3, "cmp_1", d_body), effect] };

    let d_body2 = vec![var_decl(vec![decl(23, Expr::Undef)])];
    let expected = Program {
        body: vec![component(3, "cmp_1", d_body2), expr_stmt(call(ident(61), vec![]))],
    };

    let got = optimize_unit(input).unwrap();
    assert_eq!(got, expected);
}

// A conditional whose consequent calls with a registry-true identifier
// collapses to that identifier; a plain call with a registry identifier
// first argument collapses likewise.
#[test]
fn collapse_rules() {
    // unused defaulted prop: local 25 enters the registry with value true
    let f_body = vec![var_decl(vec![
        decl(25, Expr::Or {
            left: Box::new(member(ident(99), 15)),
            right: Box::new(strlit("dflt")),
        }),
        decl(26, ident(25)),
    ])];
    let cond = expr_stmt(Expr::Cond {
        test: Box::new(ident(70)),
        cons: Box::new(call(ident(60), vec![arg(ident(25))])),
        alt: Box::new(ident(71)),
    });
    let plain = expr_stmt(call(ident(60), vec![arg(ident(25))]));
    let input = Program {
        body: vec![component(5, "cmp_2", f_body), cond, plain],
    };

    let f_body2 = vec![var_decl(vec![
        decl(25, strlit("dflt")),
        decl(26, Expr::FalseLit),
    ])];
    let expected = Program {
        body: vec![
            component(5, "cmp_2", f_body2),
            expr_stmt(ident(25)),
            expr_stmt(ident(25)),
        ],
    };

    let got = optimize_unit(input).unwrap();
    assert_eq!(got, expected);
}

// A non-numeric props-count suffix is the fatal configuration error.
#[test]
fn malformed_props_count_is_fatal() {
    let input = Program {
        body: vec![component(7, "cmp_x", vec![])],
    };
    assert_eq!(optimize_unit(input), Err(ConfigError::BadPropsCount));
}

// A metadata string too short to carry a count is the same error.
#[test]
fn short_metadata_is_fatal() {
    let input = Program {
        body: vec![component(7, "cmp", vec![])],
    };
    assert_eq!(optimize_unit(input), Err(ConfigError::BadPropsCount));
}

// Skipped non-declaration statements that raise the prop position to
// exactly the declared count do not end the scan: the next declaration
// is still scanned, so its prop is registered and, being unused, folded.
#[test]
fn declaration_at_exact_count_still_scanned() {
    let filler = || expr_stmt(Expr::Opaque { token: 80, children: vec![] });
    let h_body = vec![
        filler(),
        filler(),
        var_decl(vec![decl(28, member(ident(99), 18))]),
    ];
    let input = Program { body: vec![component(8, "cmp_2", h_body)] };

    let h_body2 = vec![
        filler(),
        filler(),
        var_decl(vec![decl(28, Expr::Undef)]),
    ];
    let expected = Program { body: vec![component(8, "cmp_2", h_body2)] };

    let got = optimize_unit(input).unwrap();
    assert_eq!(got, expected);
}
