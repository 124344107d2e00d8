//! The finalized, immutable circuit layout.
//!
//! A layout fixes its gate grid, the copy constraints, the public inputs,
//! and a partition of all targets into classes of copy-connected targets.
//! Every target is numbered densely — row-major grid cells first, virtual
//! targets after them — and `rep` maps each target number to the number of
//! its class representative, so that copy-connected targets share one slot
//! of the witness.

use vstd::prelude::*;
use crate::config::CircuitConfig;
use crate::gates::GateKind;
use crate::target::Target;

verus! {

/// An immutable constraint system: the output of the builder's `finalize`.
#[derive(Debug)]
pub struct Layout {
    /// The grid configuration the circuit was built under.
    pub config: CircuitConfig,
    /// Gate placements, one per row.
    pub gates: Vec<GateKind>,
    /// Declared equalities between targets, for the backend's permutation
    /// argument.
    pub copy_constraints: Vec<(Target, Target)>,
    /// The targets designated as public inputs.
    pub public_inputs: Vec<Target>,
    /// How many virtual targets were allocated.
    pub num_virtual: usize,
    /// The class representative of each target number.
    pub rep: Vec<usize>,
}

/// True when `x` and `y` are the endpoints, in either order, of some edge of
/// `edges`.
pub open spec fn edge_between(edges: Seq<(Target, Target)>, x: Target, y: Target) -> bool {
    exists|k: int|
        0 <= k < edges.len() && ((edges[k].0 == x && edges[k].1 == y) || (edges[k].0 == y
            && edges[k].1 == x))
}

/// True when consecutive entries of `p` are joined by edges of `edges`.
pub open spec fn is_path(edges: Seq<(Target, Target)>, p: Seq<Target>) -> bool {
    forall|k: int| 0 <= k < p.len() - 1 ==> edge_between(edges, p[k], #[trigger] p[k + 1])
}

/// True when a chain of copy constraints joins `x` to `y`.
pub open spec fn connected(edges: Seq<(Target, Target)>, x: Target, y: Target) -> bool {
    exists|p: Seq<Target>|
        p.len() >= 1 && p[0] == x && p[p.len() - 1] == y && #[trigger] is_path(edges, p)
}

/// Every target is connected to itself.
pub proof fn lemma_connected_refl(edges: Seq<(Target, Target)>, x: Target)
    ensures
        connected(edges, x, x),
{
    let p: Seq<Target> = seq![x];
    assert(is_path(edges, p));
}

/// Connectivity runs backwards as well as forwards.
pub proof fn lemma_connected_sym(edges: Seq<(Target, Target)>, x: Target, y: Target)
    requires
        connected(edges, x, y),
    ensures
        connected(edges, y, x),
{
    let p = choose|p: Seq<Target>|
        p.len() >= 1 && p[0] == x && p[p.len() - 1] == y && #[trigger] is_path(edges, p);
    let q = p.reverse();
    assert forall|k: int| 0 <= k < q.len() - 1 implies edge_between(edges, q[k], #[trigger] q[k
        + 1]) by {
        assert(q[k] == p[p.len() - 1 - k]);
        assert(q[k + 1] == p[p.len() - 2 - k]);
        assert(edge_between(edges, p[p.len() - 2 - k], p[(p.len() - 2 - k) + 1]));
    }
    assert(q.len() >= 1 && q[0] == y && q[q.len() - 1] == x && is_path(edges, q));
}

/// Connectivity chains: a path to `y` and a path from `y` on to `z` join.
pub proof fn lemma_connected_trans(edges: Seq<(Target, Target)>, x: Target, y: Target, z: Target)
    requires
        connected(edges, x, y),
        connected(edges, y, z),
    ensures
        connected(edges, x, z),
{
    let p = choose|p: Seq<Target>|
        p.len() >= 1 && p[0] == x && p[p.len() - 1] == y && #[trigger] is_path(edges, p);
    let q = choose|q: Seq<Target>|
        q.len() >= 1 && q[0] == y && q[q.len() - 1] == z && #[trigger] is_path(edges, q);
    let r = p + q.subrange(1, q.len() as int);
    assert forall|k: int| 0 <= k < r.len() - 1 implies edge_between(edges, r[k], #[trigger] r[k
        + 1]) by {
        if k < p.len() - 1 {
            assert(r[k] == p[k]);
            assert(r[k + 1] == p[k + 1]);
        } else if k == p.len() - 1 {
            assert(r[k] == p[p.len() - 1]);
            if q.len() >= 2 {
                assert(r[k + 1] == q[1]);
                assert(edge_between(edges, q[0], q[0int + 1]));
            }
        } else {
            let m = k - (p.len() - 1);
            assert(r[k] == q[m]);
            assert(r[k + 1] == q[m + 1]);
            assert(edge_between(edges, q[m], q[m + 1]));
        }
    }
    assert(r.len() >= 1 && r[0] == x && r[r.len() - 1] == z && is_path(edges, r));
}

/// The endpoints of one copy constraint are connected.
pub proof fn lemma_connected_edge(edges: Seq<(Target, Target)>, x: Target, y: Target)
    requires
        edge_between(edges, x, y),
    ensures
        connected(edges, x, y),
{
    let p: Seq<Target> = seq![x, y];
    assert(p[0int + 1] == y);
    assert(is_path(edges, p));
}

/// The target with dense number `i` in a grid of `rows` rows of `num_wires`
/// wires each: grid cells row-major first, virtual targets after them.
pub open spec fn index_target_for(rows: int, num_wires: int, i: int) -> Target {
    if i < rows * num_wires {
        Target::Wire {
            row: (i / num_wires) as usize,
            column: (i % num_wires) as usize,
        }
    } else {
        Target::Virtual { index: (i - rows * num_wires) as usize }
    }
}

/// The dense number of a target in such a grid.
pub open spec fn target_index_for(rows: int, num_wires: int, t: Target) -> int {
    match t {
        Target::Wire { row, column } => row * num_wires + column,
        Target::Virtual { index } => rows * num_wires + index,
    }
}

/// Numbering a target and mapping the number back yields the target.
pub proof fn lemma_index_target_roundtrip(rows: int, num_wires: int, nv: int, t: Target)
    requires
        0 < num_wires,
        0 <= rows,
        crate::target::target_in(t, rows, num_wires, nv),
    ensures
        index_target_for(rows, num_wires, target_index_for(rows, num_wires, t)) == t,
{
    match t {
        Target::Wire { row, column } => {
            let i = row * num_wires + column;
            vstd::arithmetic::div_mod::lemma_fundamental_div_mod_converse(
                i,
                num_wires,
                row as int,
                column as int,
            );
            assert(i < rows * num_wires) by {
                vstd::arithmetic::mul::lemma_mul_inequality(row as int + 1, rows, num_wires);
                vstd::arithmetic::mul::lemma_mul_is_distributive_add_other_way(
                    num_wires,
                    row as int,
                    1,
                );
                vstd::arithmetic::mul::lemma_mul_is_commutative(row as int + 1, num_wires);
                vstd::arithmetic::mul::lemma_mul_is_commutative(rows, num_wires);
            }
        },
        Target::Virtual { index } => {
            vstd::arithmetic::mul::lemma_mul_nonnegative(rows, num_wires);
        },
    }
}

impl Layout {
    /// The target with dense number `i` of this layout.
    pub open spec fn spec_index_target(self, i: int) -> Target {
        index_target_for(self.spec_num_rows(), self.config.num_wires as int, i)
    }

    /// Rows of this gate grid.
    pub open spec fn spec_num_rows(self) -> int {
        self.gates.len() as int
    }

    /// Grid cells: rows times wires per row.
    pub open spec fn spec_num_cells(self) -> int {
        self.spec_num_rows() * self.config.num_wires
    }

    /// All targets: grid cells followed by virtual targets.
    pub open spec fn spec_num_targets(self) -> int {
        self.spec_num_cells() + self.num_virtual
    }

    /// True when a target refers to a cell or virtual slot of this layout.
    pub open spec fn target_in_grid(self, t: Target) -> bool {
        match t {
            Target::Wire { row, column } => row < self.gates.len()
                && column < self.config.num_wires,
            Target::Virtual { index } => index < self.num_virtual,
        }
    }

    /// The dense number of a target: grid cells row-major, then virtual
    /// targets.
    pub open spec fn spec_target_index(self, t: Target) -> int {
        match t {
            Target::Wire { row, column } => row * self.config.num_wires + column,
            Target::Virtual { index } => self.spec_num_cells() + index,
        }
    }

    /// The representative slot of a target's copy class.
    pub open spec fn spec_rep_of(self, t: Target) -> int {
        self.rep[self.spec_target_index(t)] as int
    }

    /// Well-formedness of a finalized layout: a sane configuration, gates
    /// that fit their rows and the degree bound, a representative table
    /// covering every target, and copy constraints over routed wires whose
    /// two ends share a representative connected to each of them.
    pub open spec fn wf(self) -> bool {
        &&& self.config.wf()
        &&& self.gates.len() <= 0xFFFF
        &&& forall|r: int|
            0 <= r < self.gates.len() ==> (#[trigger] self.gates[r]).wf()
                && self.gates[r].spec_num_wires() <= self.config.num_wires
                && self.gates[r].spec_degree() <= self.config.max_degree
        &&& self.num_virtual <= 0x10000
        &&& self.rep.len() == self.spec_num_targets()
        &&& forall|i: int| 0 <= i < self.rep.len() ==> #[trigger] self.rep[i] < self.rep.len()
        &&& forall|k: int|
            0 <= k < self.copy_constraints.len() ==> self.target_in_grid(
                (#[trigger] self.copy_constraints[k]).0,
            ) && self.target_in_grid(self.copy_constraints[k].1)
        &&& forall|k: int|
            0 <= k < self.copy_constraints.len() ==> self.spec_rep_of(
                (#[trigger] self.copy_constraints[k]).0,
            ) == self.spec_rep_of(self.copy_constraints[k].1)
        &&& forall|k: int|
            0 <= k < self.public_inputs.len() ==> self.target_in_grid(
                #[trigger] self.public_inputs[k],
            )
    }

    /// A target of the grid has a dense number inside the representative
    /// table.
    pub proof fn lemma_index_in_range(self, t: Target)
        requires
            self.wf(),
            self.target_in_grid(t),
        ensures
            0 <= self.spec_target_index(t) < self.spec_num_targets(),
    {
        match t {
            Target::Wire { row, column } => {
                assert(row * self.config.num_wires + column < self.spec_num_cells()) by {
                    vstd::arithmetic::mul::lemma_mul_inequality(
                        row as int + 1,
                        self.gates.len() as int,
                        self.config.num_wires as int,
                    );
                    vstd::arithmetic::mul::lemma_mul_is_distributive_add_other_way(
                        self.config.num_wires as int,
                        row as int,
                        1,
                    );
                    vstd::arithmetic::mul::lemma_mul_is_commutative(
                        row as int + 1,
                        self.config.num_wires as int,
                    );
                    vstd::arithmetic::mul::lemma_mul_is_commutative(
                        self.gates.len() as int,
                        self.config.num_wires as int,
                    );
                }
            },
            Target::Virtual { index } => {},
        }
    }

    /// Rows of this gate grid.
    pub fn num_rows(&self) -> (r: usize)
        ensures
            r == self.spec_num_rows(),
    {
        self.gates.len()
    }

    /// The dense number of a target.
    pub fn target_index(&self, t: Target) -> (r: usize)
        requires
            self.wf(),
            self.target_in_grid(t),
        ensures
            r == self.spec_target_index(t),
            r < self.spec_num_targets(),
    {
        proof {
            self.lemma_index_in_range(t);
        }
        match t {
            Target::Wire { row, column } => row * self.config.num_wires + column,
            Target::Virtual { index } => self.gates.len() * self.config.num_wires + index,
        }
    }

    /// The representative slot of a target's copy class.
    pub fn rep_of(&self, t: Target) -> (r: usize)
        requires
            self.wf(),
            self.target_in_grid(t),
        ensures
            r == self.spec_rep_of(t),
            r < self.spec_num_targets(),
    {
        let i = self.target_index(t);
        self.rep[i]
    }
}

} // verus!
