// Unit tests for the text helpers, the pruner and the registries.

use mango_opt::ast::{Annotation, Arg, Expr};
use mango_opt::prune::clean_deps_array;
use mango_opt::registry::{AssocVec, Registry};
use mango_opt::text::{annotation_of, prop_count_of};

fn chars(s: &str) -> Vec<char> {
    s.chars().collect()
}

#[test]
fn props_count_parsing() {
    assert_eq!(prop_count_of(&chars("cmp_3")), Some(3));
    assert_eq!(prop_count_of(&chars("cmp_12")), Some(12));
    assert_eq!(prop_count_of(&chars("cmp_-2")), Some(-2));
    assert_eq!(prop_count_of(&chars("cmp_")), None);
    assert_eq!(prop_count_of(&chars("cmp")), None);
    assert_eq!(prop_count_of(&chars("cmp_x1")), None);
    assert_eq!(prop_count_of(&chars("cmp_2147483647")), Some(2147483647));
    assert_eq!(prop_count_of(&chars("cmp_2147483648")), None);
}

#[test]
fn annotation_recognition() {
    assert_eq!(annotation_of(&Some(chars(" EFFECT_DEPS "))), Annotation::EffectDeps);
    assert_eq!(annotation_of(&Some(chars("EFFECT_DEPS"))), Annotation::EffectDeps);
    assert_eq!(
        annotation_of(&Some(chars(" IMMEDIATE_EFFECT_DEPS "))),
        Annotation::ImmediateEffectDeps
    );
    assert_eq!(annotation_of(&Some(chars(" STATE_DEPS "))), Annotation::StateDeps);
    assert_eq!(annotation_of(&Some(chars(" DYNAMIC_ATTRS "))), Annotation::DynamicAttrs);
    assert_eq!(annotation_of(&Some(chars("\tDYNAMIC_VIEW_DEPS\t"))), Annotation::DynamicViewDeps);
    assert_eq!(annotation_of(&Some(chars(" something else "))), Annotation::Plain);
    assert_eq!(annotation_of(&Some(chars(""))), Annotation::Plain);
    assert_eq!(annotation_of(&None), Annotation::Plain);
}

#[test]
fn pruner_keeps_only_dynamic_entries() {
    let mut reg: Registry = AssocVec::new();
    reg.set_entry(20, false);
    let elems: Vec<Option<Arg>> = vec![
        // a registry identifier: dropped
        Some(Arg { spread: false, expr: Expr::Ident { id: 20 } }),
        // a non-registry identifier: kept
        Some(Arg { spread: false, expr: Expr::Ident { id: 21 } }),
        // a conditional whose consequent is a registry identifier: dropped
        Some(Arg {
            spread: false,
            expr: Expr::Cond {
                test: Box::new(Expr::Ident { id: 1 }),
                cons: Box::new(Expr::Ident { id: 20 }),
                alt: Box::new(Expr::Ident { id: 2 }),
            },
        }),
        // a conditional on a non-registry identifier: kept
        Some(Arg {
            spread: false,
            expr: Expr::Cond {
                test: Box::new(Expr::Ident { id: 1 }),
                cons: Box::new(Expr::Ident { id: 22 }),
                alt: Box::new(Expr::Ident { id: 2 }),
            },
        }),
        // an elision: dropped
        None,
        // any other expression: kept
        Some(Arg { spread: false, expr: Expr::Undef }),
    ];
    let out = clean_deps_array(elems, &reg);
    assert_eq!(out.len(), 3);
    assert_eq!(out[0], Some(Arg { spread: false, expr: Expr::Ident { id: 21 } }));
    assert_eq!(out[2], Some(Arg { spread: false, expr: Expr::Undef }));
    // pruning again against the same registry changes nothing
    let again = clean_deps_array(out, &reg);
    assert_eq!(again.len(), 3);
}

#[test]
fn registry_last_insert_wins() {
    let mut reg: Registry = AssocVec::new();
    reg.set_entry(5, false);
    reg.set_entry(5, true);
    reg.set_entry(6, false);
    assert_eq!(reg.length(), 2);
    assert_eq!(reg.find(5).map(|i| reg.items[i].1), Some(true));
    assert_eq!(reg.find(6).map(|i| reg.items[i].1), Some(false));
    assert_eq!(reg.find(7), None);
}
