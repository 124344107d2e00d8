//! Range checking of 32-bit-bounded targets.

use vstd::prelude::*;
use crate::builder::{
    base_sum_split_recorded, builder_extends, has_edge, lemma_builder_extends_trans,
    lemma_recorded_extends, CircuitBuilder,
};
use crate::errors::CircuitError;
use crate::gates::{BaseSumGate, GateKind};
use crate::generator::Generator;
use crate::target::{Target, U32Target};

verus! {

/// Range-checks every target of `vals` to 32 bits: each value receives its
/// own base-4 decomposition gate with sixteen limbs, placed on consecutive
/// rows, with the value copy-constrained to the row's sum wire.  The row's
/// constraints then enforce that the value recombines from sixteen 4-bit
/// limbs, so it fits in 32 bits.
pub fn range_check_u32_circuit(builder: &mut CircuitBuilder, vals: Vec<U32Target>) -> (r: Result<
    (),
    CircuitError,
>)
    requires
        old(builder).wf(),
        forall|k: int|
            0 <= k < vals@.len() ==> old(builder).connectable((#[trigger] vals@[k]).0),
    ensures
        final(builder).wf(),
        builder_extends(old(builder).view_of(), final(builder).view_of()),
        match r {
            Ok(()) => {
                &&& !old(builder).finalized
                &&& final(builder).gates@.len() == old(builder).gates@.len() + vals@.len()
                &&& forall|k: int|
                    0 <= k < vals@.len() ==> base_sum_split_recorded(
                        final(builder).view_of(),
                        4,
                        16,
                        (#[trigger] vals@[k]).0,
                        (old(builder).gates@.len() + k) as usize,
                    )
            },
            Err(e) => e == CircuitError::BuilderAlreadyFinalized && old(builder).finalized || !old(
                builder,
            ).finalized && (e == CircuitError::DegreeExceedsConfig && 4 > old(
                builder,
            ).config.max_degree || e == CircuitError::RowOverflow && (17 > old(
                builder,
            ).config.num_wires || old(builder).gates@.len() + vals@.len() > 0xFFFF)),
        },
{
    if builder.finalized {
        return Err(CircuitError::BuilderAlreadyFinalized);
    }
    let ghost start = *builder;
    let n = vals.len();
    for k in 0..n
        invariant
            builder.wf(),
            !builder.finalized,
            start.view_of() == old(builder).view_of(),
            !old(builder).finalized,
            builder_extends(start.view_of(), builder.view_of()),
            n == vals@.len(),
            builder.gates@.len() == start.gates@.len() + k,
            forall|m: int|
                0 <= m < vals@.len() ==> builder.connectable((#[trigger] vals@[m]).0),
            forall|m: int|
                0 <= m < k ==> base_sum_split_recorded(
                    builder.view_of(),
                    4,
                    16,
                    (#[trigger] vals@[m]).0,
                    (start.gates@.len() + m) as usize,
                ),
    {
        let gate = BaseSumGate::new(4, 16);
        let ghost pre = *builder;
        let row = match builder.add_gate(GateKind::BaseSum(gate)) {
            Ok(row) => row,
            Err(e) => {
                return Err(e);
            },
        };
        proof {
            lemma_recorded_extends(pre.view_of(), builder.view_of());
            lemma_builder_extends_trans(start.view_of(), pre.view_of(), builder.view_of());
            assert forall|m: int| 0 <= m < vals@.len() implies builder.connectable(
                (#[trigger] vals@[m]).0,
            ) by {
                assert(pre.connectable(vals@[m].0));
            }
        }
        let ghost mid = *builder;
        match builder.connect(vals[k].0, Target::Wire { row, column: 0 }) {
            Ok(()) => {},
            Err(e) => {
                proof {
                    assert(false);
                }
                return Err(e);
            },
        }
        proof {
            lemma_recorded_extends(mid.view_of(), builder.view_of());
            lemma_builder_extends_trans(start.view_of(), mid.view_of(), builder.view_of());
            assert forall|m: int| 0 <= m < vals@.len() implies builder.connectable(
                (#[trigger] vals@[m]).0,
            ) by {
                assert(mid.connectable(vals@[m].0));
            }
            let v = builder.view_of();
            assert(v.copy_constraints[v.copy_constraints.len() - 1] == (
                vals@[k as int].0,
                Target::Wire { row, column: 0 },
            ));
            assert(has_edge(v.copy_constraints, vals@[k as int].0, Target::Wire {
                row,
                column: 0,
            }));
            assert(v.gates[row as int] == GateKind::BaseSum(gate));
            assert(mid.generators@[mid.generators@.len() - 1] == (Generator::BaseSplit {
                gate,
                row,
            }));
            assert(base_sum_split_recorded(v, 4, 16, vals@[k as int].0, row));
            assert forall|m: int| 0 <= m < k implies base_sum_split_recorded(
                builder.view_of(),
                4,
                16,
                (#[trigger] vals@[m]).0,
                (start.gates@.len() + m) as usize,
            ) by {
                assert(base_sum_split_recorded(
                    pre.view_of(),
                    4,
                    16,
                    vals@[m].0,
                    (start.gates@.len() + m) as usize,
                ));
                lemma_recorded_extends(pre.view_of(), builder.view_of());
            }
        }
    }
    Ok(())
}

} // verus!
