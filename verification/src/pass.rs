//! The whole pass over one compilation unit: discovery, constant
//! propagation to a fixpoint, then the rewrite.

use vstd::prelude::*;
use crate::ast::Program;
use crate::analysis::{
    deps_clear, propagate, qual_facts, removed_are_constant, shrunk,
};
use crate::discover::{
    apply_uses, build_components, collect_defs, collect_uses, comps_ok, defs_prog, freeze_orig,
    frozen, uses_applied, uses_prog, ConfigError,
};
use crate::registry::{adistinct, aget, lemma_aget_at, lw, Components, Registry};
use crate::rewrite::{rewrite_program, rw_stmts};

verus! {

/// The analysis that licenses the rewrite: some component registry built
/// from the unit's definitions, with the unit's call-site facts applied
/// and the dependency sets frozen, was driven to the fixpoint `cf` with
/// constant registry `reg`: the registry is one collection round over the
/// final dependency sets, those sets lost exactly registry members, and
/// no registry member survives in any of them.
pub open spec fn analysis_of(p: Program, cf: Components, reg: Seq<(u64, bool)>) -> bool {
    exists|ca: Components, cb: Components, cc: Components|
        #![trigger comps_ok(ca, defs_prog(p).arrow_Some_0()), uses_applied(ca.items@, cb.items@, uses_prog(p, ca)), frozen(cb.items@, cc.items@)]
        {
            &&& defs_prog(p) is Some
            &&& comps_ok(ca, defs_prog(p).arrow_Some_0())
            &&& uses_applied(ca.items@, cb.items@, uses_prog(p, ca))
            &&& frozen(cb.items@, cc.items@)
            &&& shrunk(cc.items@, cf.items@)
            &&& deps_clear(cf.items@, reg)
            &&& removed_are_constant(cc.items@, cf.items@, reg)
            &&& adistinct(reg)
            &&& forall|k: u64| #[trigger] aget(reg, k) == lw(qual_facts(cf.items@), k)
        }
}

/// Runs the pass over one unit: builds the component registry, collects
/// call-site facts, propagates constancy to a fixpoint and rewrites the
/// tree.  Fails exactly when a component's metadata string carries a
/// non-numeric props count, a contract violation from an earlier stage;
/// on success the result is the rewrite of the unit against the analysis.
pub fn optimize_unit(p: Program) -> (r: Result<Program, ConfigError>)
    ensures
        r is Ok <==> defs_prog(p) is Some,
        r matches Result::Ok(out) ==> exists|cf: Components, rg: Registry|
            #[trigger] analysis_of(p, cf, rg.items@) && rw_stmts(
                p.body@,
                out.body@,
                cf,
                rg.items@,
            ),
{
    let defs = match collect_defs(&p) {
        Result::Ok(d) => d,
        Result::Err(e) => {
            return Result::Err(e);
        },
    };
    let mut comps: Components = build_components(&defs);
    let ghost ca = comps;
    proof {
        assert forall|i: int|
            0 <= i < comps.items@.len() implies crate::registry::adistinct(
            (#[trigger] comps.items@[i]).1.items@,
        ) by {
            lemma_aget_at(comps.items@, comps.items@[i].0, i);
            let looked = crate::registry::lw(
                crate::discover::defs_view(defs@),
                comps.items@[i].0,
            );
        }
    }
    let uses = collect_uses(&p, &comps);
    apply_uses(&mut comps, &uses);
    let ghost cb = comps;
    freeze_orig(&mut comps);
    let ghost cc = comps;
    let reg: Registry = propagate(&mut comps);
    let ghost cf = comps;
    let ghost pg = p;
    let out = rewrite_program(p, &comps, &reg);
    proof {
        assert(comps_ok(ca, defs_prog(pg).arrow_Some_0()));
        assert(uses_applied(ca.items@, cb.items@, uses_prog(pg, ca)));
        assert(frozen(cb.items@, cc.items@));
        assert(analysis_of(pg, cf, reg.items@));
        assert(rw_stmts(pg.body@, out.body@, cf, reg.items@));
    }
    Result::Ok(out)
}

} // verus!
