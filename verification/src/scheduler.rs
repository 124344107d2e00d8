//! The witness generator scheduler.
//!
//! Resolution is a single-pass topological execution: each generator runs at
//! most once, as soon as every target it reads is resolved; writing a
//! resolved target with a different value fails with a conflict, and a
//! required target that never resolves fails with the unresolved target's
//! name.  The whole computation is pinned to the spec-level model
//! `spec_resolve`, so two runs on equal inputs return equal results.

use vstd::prelude::*;
use crate::errors::WitnessError;
use crate::field::FieldElem;
use crate::generator::Generator;
use crate::layout::Layout;
use crate::target::Target;
use crate::witness::{FullWitness, PartialWitness};

verus! {

/// The generator list produced at finalization, in placement order.
#[derive(Debug)]
pub struct GeneratorSet {
    /// The generators, in the order the scheduler considers them.
    pub generators: Vec<Generator>,
}

impl GeneratorSet {
    /// Every generator fits the layout's grid.
    pub open spec fn wf(self, layout: Layout) -> bool {
        forall|k: int|
            0 <= k < self.generators.len() ==> (#[trigger] self.generators[k as int]).wf(layout)
    }
}

/// The scheduler's working state: one optional value per dense target
/// number; only representative slots are used.
pub type SlotState = Seq<Option<FieldElem>>;

/// Writes the pairs of `outs` from position `k` on into the state, one at a
/// time; a write to a populated slot with a different value stops with that
/// pair's target.
pub open spec fn model_write(layout: Layout, outs: Seq<(Target, FieldElem)>, st: SlotState, k: int) -> (
    SlotState,
    Option<Target>,
)
    decreases outs.len() - k,
{
    if k < 0 || k >= outs.len() {
        (st, None::<Target>)
    } else {
        let t = outs[k].0;
        let v = outs[k].1;
        let slot = layout.spec_rep_of(t);
        match st[slot] {
            Some(w) => if w == v {
                model_write(layout, outs, st, k + 1)
            } else {
                (st, Some(t))
            },
            None => model_write(layout, outs, st.update(slot, Some(v)), k + 1),
        }
    }
}

/// True when every dependency of `g` is resolved in `st`.
pub open spec fn deps_ready(layout: Layout, g: Generator, st: SlotState) -> bool {
    forall|k: int|
        0 <= k < g.spec_deps().len() ==> st[layout.spec_rep_of(#[trigger] g.spec_deps()[k])]
            is Some
}

/// The dependency values of `g` under `st`, in dependency order.
pub open spec fn dep_vals(layout: Layout, g: Generator, st: SlotState) -> Seq<FieldElem> {
    Seq::new(
        g.spec_deps().len(),
        |k: int| st[layout.spec_rep_of(g.spec_deps()[k])].unwrap(),
    )
}

/// One pass over the generators from position `k` on: runs each not-yet-run
/// generator whose dependencies are ready, accumulating state, run flags,
/// and whether any generator ran in this pass.
pub open spec fn model_pass(
    layout: Layout,
    gens: Seq<Generator>,
    st: SlotState,
    ran: Seq<bool>,
    k: int,
    progressed: bool,
) -> (SlotState, Seq<bool>, bool, Option<Target>)
    decreases gens.len() - k,
{
    if k < 0 || k >= gens.len() {
        (st, ran, progressed, None::<Target>)
    } else if !ran[k] && deps_ready(layout, gens[k], st) {
        let outs = gens[k].spec_outputs(dep_vals(layout, gens[k], st));
        let written = model_write(layout, outs, st, 0);
        match written.1 {
            Some(t) => (written.0, ran, progressed, Some(t)),
            None => model_pass(layout, gens, written.0, ran.update(k, true), k + 1, true),
        }
    } else {
        model_pass(layout, gens, st, ran, k + 1, progressed)
    }
}

/// The first required grid cell, scanning by dense cell number from `i`,
/// whose slot is unresolved; a cell is required when its column lies within
/// its row's gate.
pub open spec fn grid_unresolved(layout: Layout, st: SlotState, i: int) -> Option<Target>
    decreases layout.spec_num_cells() - i,
{
    if i < 0 || i >= layout.spec_num_cells() {
        None::<Target>
    } else {
        let row = i / layout.config.num_wires as int;
        let column = i % layout.config.num_wires as int;
        let t = Target::Wire { row: row as usize, column: column as usize };
        if column < layout.gates[row].spec_num_wires() && st[layout.spec_rep_of(t)] is None {
            Some(t)
        } else {
            grid_unresolved(layout, st, i + 1)
        }
    }
}

/// The first public input from position `k` on whose slot is unresolved.
pub open spec fn pub_unresolved(layout: Layout, st: SlotState, k: int) -> Option<Target>
    decreases layout.public_inputs.len() - k,
{
    if k < 0 || k >= layout.public_inputs.len() {
        None::<Target>
    } else if st[layout.spec_rep_of(layout.public_inputs[k])] is None {
        Some(layout.public_inputs[k])
    } else {
        pub_unresolved(layout, st, k + 1)
    }
}

/// The final check once no generator can run: the first unresolved required
/// target fails resolution, and otherwise the state is the full witness.
pub open spec fn model_finish(layout: Layout, st: SlotState) -> Result<SlotState, WitnessError> {
    match grid_unresolved(layout, st, 0) {
        Some(t) => Err(WitnessError::UnresolvedWitness(t)),
        None => match pub_unresolved(layout, st, 0) {
            Some(t) => Err(WitnessError::UnresolvedWitness(t)),
            None => Ok(st),
        },
    }
}

/// Repeated passes until a conflict, no progress, or exhausted fuel; the
/// scheduler supplies enough fuel that the fuel case never decides.
pub open spec fn model_resolve_from(
    layout: Layout,
    gens: Seq<Generator>,
    st: SlotState,
    ran: Seq<bool>,
    fuel: nat,
) -> Result<SlotState, WitnessError>
    decreases fuel,
{
    let passed = model_pass(layout, gens, st, ran, 0, false);
    match passed.3 {
        Some(t) => Err(WitnessError::WitnessConflict(t)),
        None => if !passed.2 || fuel == 0 {
            model_finish(layout, passed.0)
        } else {
            model_resolve_from(layout, gens, passed.0, passed.1, (fuel - 1) as nat)
        },
    }
}

/// The entirely-unresolved starting state of a layout.
pub open spec fn empty_state(layout: Layout) -> SlotState {
    Seq::new(layout.spec_num_targets() as nat, |i: int| None::<FieldElem>)
}

/// What `resolve_witness` returns: load the supplied pairs, then run passes
/// to the fixed point and check completeness.
pub open spec fn spec_resolve(
    layout: Layout,
    gens: Seq<Generator>,
    pairs: Seq<(Target, FieldElem)>,
) -> Result<SlotState, WitnessError> {
    let loaded = model_write(layout, pairs, empty_state(layout), 0);
    match loaded.1 {
        Some(t) => Err(WitnessError::WitnessConflict(t)),
        None => model_resolve_from(
            layout,
            gens,
            loaded.0,
            Seq::new(gens.len(), |k: int| false),
            (gens.len() + 1) as nat,
        ),
    }
}

/// How many generators have not yet run.
pub open spec fn count_unran(ran: Seq<bool>) -> int
    decreases ran.len(),
{
    if ran.len() == 0 {
        0
    } else {
        (if ran[0] {
            0int
        } else {
            1int
        }) + count_unran(ran.skip(1))
    }
}

/// Flipping a not-yet-run flag lowers the count by one.
proof fn lemma_count_unran_update(ran: Seq<bool>, k: int)
    requires
        0 <= k < ran.len(),
        !ran[k],
    ensures
        count_unran(ran.update(k, true)) == count_unran(ran) - 1,
    decreases ran.len(),
{
    if k == 0 {
        assert(ran.update(0, true).skip(1) =~= ran.skip(1));
    } else {
        assert(ran.update(k, true).skip(1) =~= ran.skip(1).update(k - 1, true));
        lemma_count_unran_update(ran.skip(1), k - 1);
    }
}

/// The count never goes negative.
proof fn lemma_count_unran_nonneg(ran: Seq<bool>)
    ensures
        count_unran(ran) >= 0,
    decreases ran.len(),
{
    if ran.len() > 0 {
        lemma_count_unran_nonneg(ran.skip(1));
    }
}

/// A sequence of cleared flags counts its whole length.
proof fn lemma_count_unran_all_false(n: nat)
    ensures
        count_unran(Seq::new(n, |k: int| false)) == n,
    decreases n,
{
    if n > 0 {
        assert(Seq::new(n, |k: int| false).skip(1) =~= Seq::new((n - 1) as nat, |k: int| false));
        lemma_count_unran_all_false((n - 1) as nat);
    }
}

/// Writing canonical values into a canonical state of the layout's size
/// keeps its size and its values canonical.
proof fn lemma_model_write_canonical(
    layout: Layout,
    outs: Seq<(Target, FieldElem)>,
    st: SlotState,
    k: int,
)
    requires
        layout.wf(),
        st.len() == layout.spec_num_targets(),
        forall|i: int|
            0 <= i < st.len() && st[i] is Some ==> (#[trigger] st[i]).unwrap().is_canonical(),
        forall|m: int| 0 <= m < outs.len() ==> layout.target_in_grid((#[trigger] outs[m]).0),
        forall|m: int| 0 <= m < outs.len() ==> (#[trigger] outs[m]).1.is_canonical(),
    ensures
        model_write(layout, outs, st, k).0.len() == st.len(),
        forall|i: int|
            0 <= i < st.len() && model_write(layout, outs, st, k).0[i] is Some ==> (
            #[trigger] model_write(layout, outs, st, k).0[i]).unwrap().is_canonical(),
    decreases outs.len() - k,
{
    if k < 0 || k >= outs.len() {
    } else {
        let t = outs[k].0;
        let v = outs[k].1;
        let slot = layout.spec_rep_of(t);
        layout.lemma_index_in_range(t);
        match st[slot] {
            Some(w) => {
                if w == v {
                    lemma_model_write_canonical(layout, outs, st, k + 1);
                }
            },
            None => {
                lemma_model_write_canonical(layout, outs, st.update(slot, Some(v)), k + 1);
            },
        }
    }
}

/// Writes the pairs of `outs` into the slot vector, mirroring
/// `model_write`; returns the conflicting target, if any.
fn write_pairs(
    layout: &Layout,
    outs: &Vec<(Target, FieldElem)>,
    slots: &mut Vec<Option<FieldElem>>,
) -> (r: Option<Target>)
    requires
        layout.wf(),
        old(slots)@.len() == layout.spec_num_targets(),
        forall|k: int| 0 <= k < outs@.len() ==> layout.target_in_grid((#[trigger] outs@[k]).0),
    ensures
        final(slots)@ == model_write(*layout, outs@, old(slots)@, 0).0,
        r == model_write(*layout, outs@, old(slots)@, 0).1,
        final(slots)@.len() == old(slots)@.len(),
{
    let n = outs.len();
    for k in 0..n
        invariant
            layout.wf(),
            n == outs@.len(),
            slots@.len() == layout.spec_num_targets(),
            old(slots)@.len() == layout.spec_num_targets(),
            forall|m: int| 0 <= m < outs@.len() ==> layout.target_in_grid((#[trigger] outs@[m]).0),
            model_write(*layout, outs@, old(slots)@, 0) == model_write(
                *layout,
                outs@,
                slots@,
                k as int,
            ),
    {
        let t = outs[k].0;
        let v = outs[k].1;
        let slot = layout.rep_of(t);
        match slots[slot] {
            Some(w) => {
                if !(w == v) {
                    return Some(t);
                }
            },
            None => {
                slots.set(slot, Some(v));
            },
        }
    }
    None
}

/// Collects the dependency values of `g`, or reports that one is missing.
fn gather_deps(layout: &Layout, g: &Generator, slots: &Vec<Option<FieldElem>>) -> (r: Option<
    Vec<FieldElem>,
>)
    requires
        layout.wf(),
        g.wf(*layout),
        slots@.len() == layout.spec_num_targets(),
    ensures
        match r {
            Some(vals) => deps_ready(*layout, *g, slots@) && vals@ == dep_vals(*layout, *g, slots@),
            None => !deps_ready(*layout, *g, slots@),
        },
{
    let deps = g.dependencies(layout);
    let mut vals: Vec<FieldElem> = Vec::new();
    let n = deps.len();
    for k in 0..n
        invariant
            layout.wf(),
            g.wf(*layout),
            slots@.len() == layout.spec_num_targets(),
            deps@ == g.spec_deps(),
            n == deps@.len(),
            vals@.len() == k,
            forall|m: int|
                0 <= m < k ==> slots@[layout.spec_rep_of(#[trigger] g.spec_deps()[m])] is Some,
            forall|m: int|
                0 <= m < k ==> #[trigger] vals@[m] == slots@[layout.spec_rep_of(
                    g.spec_deps()[m],
                )].unwrap(),
    {
        proof {
            g.lemma_deps_in_grid(*layout);
        }
        let slot = layout.rep_of(deps[k]);
        match slots[slot] {
            Some(v) => vals.push(v),
            None => {
                proof {
                    assert(slots@[layout.spec_rep_of(g.spec_deps()[k as int])] is None);
                }
                return None;
            },
        }
    }
    proof {
        assert(vals@ =~= dep_vals(*layout, *g, slots@));
    }
    Some(vals)
}

/// Checks completeness of the resolved state, mirroring `model_finish`.
fn finish_scan(layout: &Layout, slots: Vec<Option<FieldElem>>) -> (r: Result<
    FullWitness,
    WitnessError,
>)
    requires
        layout.wf(),
        slots@.len() == layout.spec_num_targets(),
    ensures
        match r {
            Ok(fw) => model_finish(*layout, slots@) == Ok::<SlotState, WitnessError>(fw.slots@)
                && fw.slots@ == slots@,
            Err(e) => model_finish(*layout, slots@) == Err::<SlotState, WitnessError>(e),
        },
{
    let num_wires = layout.config.num_wires;
    let rows = layout.gates.len();
    let total = rows * num_wires;
    proof {
        vstd::arithmetic::mul::lemma_mul_upper_bound(rows as int, 0xFFFF, num_wires as int, 0xFFFF);
    }
    for i in 0..total
        invariant
            layout.wf(),
            slots@.len() == layout.spec_num_targets(),
            num_wires == layout.config.num_wires,
            rows == layout.gates.len(),
            total == layout.spec_num_cells(),
            grid_unresolved(*layout, slots@, 0) == grid_unresolved(*layout, slots@, i as int),
    {
        let row = i / num_wires;
        let column = i % num_wires;
        proof {
            vstd::arithmetic::div_mod::lemma_mod_bound(i as int, num_wires as int);
            assert(row < rows) by {
                vstd::arithmetic::mul::lemma_mul_is_commutative(rows as int, num_wires as int);
                vstd::arithmetic::div_mod::lemma_multiply_divide_lt(
                    i as int,
                    num_wires as int,
                    rows as int,
                );
            }
        }
        let gate_wires = layout.gates[row].num_wires();
        if column < gate_wires {
            let t = Target::Wire { row, column };
            let slot = layout.rep_of(t);
            if slots[slot].is_none() {
                return Err(WitnessError::UnresolvedWitness(t));
            }
        }
    }
    for k in 0..layout.public_inputs.len()
        invariant
            layout.wf(),
            slots@.len() == layout.spec_num_targets(),
            grid_unresolved(*layout, slots@, 0) is None,
            pub_unresolved(*layout, slots@, 0) == pub_unresolved(*layout, slots@, k as int),
    {
        let t = layout.public_inputs[k];
        let slot = layout.rep_of(t);
        if slots[slot].is_none() {
            return Err(WitnessError::UnresolvedWitness(t));
        }
    }
    Ok(FullWitness { slots })
}

/// Resolves a full witness from the externally supplied values.
///
/// The result — success and every slot of the full witness, or the exact
/// error — equals `spec_resolve` of the inputs, so resolution is a function
/// of the layout, the generator list, and the supplied pairs alone: running
/// it twice on identical inputs yields identical results.
pub fn resolve_witness(layout: &Layout, gen_set: &GeneratorSet, pw: &PartialWitness) -> (r: Result<
    FullWitness,
    WitnessError,
>)
    requires
        layout.wf(),
        gen_set.wf(*layout),
        forall|k: int|
            0 <= k < pw.pairs@.len() ==> layout.target_in_grid((#[trigger] pw.pairs@[k]).0),
        forall|k: int| 0 <= k < pw.pairs@.len() ==> (#[trigger] pw.pairs@[k]).1.is_canonical(),
    ensures
        match r {
            Ok(fw) => spec_resolve(*layout, gen_set.generators@, pw.pairs@) == Ok::<
                SlotState,
                WitnessError,
            >(fw.slots@) && fw.slots@.len() == layout.spec_num_targets(),
            Err(e) => spec_resolve(*layout, gen_set.generators@, pw.pairs@) == Err::<
                SlotState,
                WitnessError,
            >(e),
        },
{
    let ghost gens = gen_set.generators@;
    let total = layout.rep.len();
    let mut slots: Vec<Option<FieldElem>> = Vec::new();
    for i in 0..total
        invariant
            slots@.len() == i,
            forall|m: int| 0 <= m < i ==> (#[trigger] slots@[m]) is None,
    {
        slots.push(None);
    }
    proof {
        assert(slots@ =~= empty_state(*layout));
    }
    let conflict = write_pairs(layout, &pw.pairs, &mut slots);
    if let Some(t) = conflict {
        return Err(WitnessError::WitnessConflict(t));
    }
    let n_gens = gen_set.generators.len();
    let mut ran: Vec<bool> = Vec::new();
    for i in 0..n_gens
        invariant
            ran@.len() == i,
            forall|m: int| 0 <= m < i ==> (#[trigger] ran@[m]) == false,
    {
        ran.push(false);
    }
    proof {
        assert(ran@ =~= Seq::new(gens.len(), |k: int| false));
        lemma_count_unran_all_false(gens.len());
        lemma_model_write_canonical(*layout, pw.pairs@, empty_state(*layout), 0);
    }
    let mut unran: usize = n_gens;
    let ghost mut fuel: int = n_gens as int + 1;
    loop
        invariant_except_break
            layout.wf(),
            gen_set.wf(*layout),
            gens == gen_set.generators@,
            n_gens == gens.len(),
            slots@.len() == layout.spec_num_targets(),
            ran@.len() == n_gens,
            unran == count_unran(ran@),
            fuel > count_unran(ran@),
            forall|i: int|
                0 <= i < slots@.len() && slots@[i] is Some ==> (
                #[trigger] slots@[i]).unwrap().is_canonical(),
            spec_resolve(*layout, gens, pw.pairs@) == model_resolve_from(
                *layout,
                gens,
                slots@,
                ran@,
                fuel as nat,
            ),
        ensures
            layout.wf(),
            slots@.len() == layout.spec_num_targets(),
            spec_resolve(*layout, gens, pw.pairs@) == model_finish(*layout, slots@),
        decreases unran,
    {
        let ghost slots_enter = slots@;
        let ghost ran_enter = ran@;
        let ghost unran_enter = unran;
        let mut progressed = false;
        for k in 0..n_gens
            invariant
                layout.wf(),
                gen_set.wf(*layout),
                gens == gen_set.generators@,
                n_gens == gens.len(),
                slots@.len() == layout.spec_num_targets(),
                ran@.len() == n_gens,
                unran == count_unran(ran@),
                fuel > count_unran(ran@),
                unran <= unran_enter,
                progressed ==> unran < unran_enter,
                forall|i: int|
                    0 <= i < slots@.len() && slots@[i] is Some ==> (
                    #[trigger] slots@[i]).unwrap().is_canonical(),
                model_pass(*layout, gens, slots_enter, ran_enter, 0, false) == model_pass(
                    *layout,
                    gens,
                    slots@,
                    ran@,
                    k as int,
                    progressed,
                ),
                spec_resolve(*layout, gens, pw.pairs@) == model_resolve_from(
                    *layout,
                    gens,
                    slots_enter,
                    ran_enter,
                    fuel as nat,
                ),
        {
            if !ran[k] {
                let maybe_vals = gather_deps(layout, &gen_set.generators[k], &slots);
                match maybe_vals {
                    Some(vals) => {
                        proof {
                            gens[k as int].lemma_wf_shape(*layout);
                            assert forall|m: int| 0 <= m < vals@.len() implies (
                            #[trigger] vals@[m]).is_canonical() by {
                                gens[k as int].lemma_deps_in_grid(*layout);
                                layout.lemma_index_in_range(gens[k as int].spec_deps()[m]);
                            }
                        }
                        let outs = gen_set.generators[k].run(&vals);
                        proof {
                            gens[k as int].lemma_outputs_wf(*layout, vals@);
                        }
                        let ghost slots_before = slots@;
                        let c = write_pairs(layout, &outs, &mut slots);
                        proof {
                            lemma_model_write_canonical(*layout, outs@, slots_before, 0);
                        }
                        if let Some(t) = c {
                            return Err(WitnessError::WitnessConflict(t));
                        }
                        proof {
                            lemma_count_unran_update(ran@, k as int);
                            lemma_count_unran_nonneg(ran@.update(k as int, true));
                        }
                        ran.set(k, true);
                        unran = unran - 1;
                        progressed = true;
                    },
                    None => {},
                }
            }
        }
        proof {
            assert(model_pass(*layout, gens, slots_enter, ran_enter, 0, false) == (
                slots@,
                ran@,
                progressed,
                None::<Target>,
            ));
        }
        if !progressed {
            break ;
        }
        proof {
            fuel = fuel - 1;
        }
    }
    finish_scan(layout, slots)
}

} // verus!
