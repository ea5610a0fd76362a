//! Boolean circuits of AND and XOR gates, and the containers for their
//! garbled gates.

use vstd::prelude::*;
use crate::block::Block;

verus! {

/// A wire, named by its id.
#[derive(Debug, Clone, Copy)]
pub struct Wire {
    pub id: usize,
}

impl Wire {
    /// The wire's id.
    pub fn id(&self) -> (r: usize)
        ensures
            r == self.id,
    {
        self.id
    }
}

/// A two-input gate with output wire `z`.
#[derive(Debug, Clone, Copy)]
pub enum Gate {
    And { x: Wire, y: Wire, z: Wire },
    Xor { x: Wire, y: Wire, z: Wire },
}

/// The first input wire of a gate.
pub open spec fn gate_x(g: Gate) -> Wire {
    match g {
        Gate::And { x, y: _, z: _ } => x,
        Gate::Xor { x, y: _, z: _ } => x,
    }
}

/// The second input wire of a gate.
pub open spec fn gate_y(g: Gate) -> Wire {
    match g {
        Gate::And { x: _, y, z: _ } => y,
        Gate::Xor { x: _, y, z: _ } => y,
    }
}

/// The output wire of a gate.
pub open spec fn gate_z(g: Gate) -> Wire {
    match g {
        Gate::And { x: _, y: _, z } => z,
        Gate::Xor { x: _, y: _, z } => z,
    }
}

/// The input wires of the XOR gates, two per gate, in gate order.
pub open spec fn xor_inputs(gates: Seq<Gate>) -> Seq<Wire>
    decreases gates.len(),
{
    if gates.len() == 0 {
        Seq::empty()
    } else {
        xor_inputs(gates.drop_last()) + match gates.last() {
            Gate::Xor { x, y, z: _ } => seq![x, y],
            Gate::And { .. } => Seq::empty(),
        }
    }
}

/// The wires of the AND gates, three per gate (inputs, then output), in gate
/// order.
pub open spec fn and_wires(gates: Seq<Gate>) -> Seq<Wire>
    decreases gates.len(),
{
    if gates.len() == 0 {
        Seq::empty()
    } else {
        and_wires(gates.drop_last()) + match gates.last() {
            Gate::And { x, y, z } => seq![x, y, z],
            Gate::Xor { .. } => Seq::empty(),
        }
    }
}

/// Gate `i` of a circuit built from parameters: an AND or XOR gate on wires
/// `3i`, `3i + 1` (inputs) and `3i + 2` (output).
pub open spec fn param_gate(i: int, and_gate: bool) -> Gate {
    let x = Wire { id: (3 * i) as usize };
    let y = Wire { id: (3 * i + 1) as usize };
    let z = Wire { id: (3 * i + 2) as usize };
    if and_gate {
        Gate::And { x, y, z }
    } else {
        Gate::Xor { x, y, z }
    }
}

/// The id of wire `w` when the gates' wires are listed in gate order, each
/// gate's `x`, `y`, `z` in turn.
pub open spec fn listed_wire_id(gates: Seq<Gate>, w: int) -> int {
    let g = gates[w / 3];
    if w % 3 == 0 {
        gate_x(g).id as int
    } else if w % 3 == 1 {
        gate_y(g).id as int
    } else {
        gate_z(g).id as int
    }
}

/// A circuit: its gates and how many are AND and XOR gates.
#[derive(Debug, Clone)]
pub struct Circuit {
    pub gates: Vec<Gate>,
    pub and_count: usize,
    pub xor_count: usize,
}

impl Circuit {
    /// The number of gate inputs: two per gate.
    pub fn inputs(&self) -> (r: usize)
        requires
            (self.and_count + self.xor_count) * 2 <= usize::MAX,
        ensures
            r == (self.and_count + self.xor_count) * 2,
    {
        (self.and_count + self.xor_count) * 2
    }

    /// The number of gate outputs: one per gate.
    pub fn outputs(&self) -> (r: usize)
        requires
            self.and_count + self.xor_count <= usize::MAX,
        ensures
            r == self.and_count + self.xor_count,
    {
        self.and_count + self.xor_count
    }

    /// Its gates.
    pub fn gates(&self) -> (r: &[Gate])
        ensures
            r@ == self.gates@,
    {
        self.gates.as_slice()
    }

    /// The number of AND gates.
    pub fn and_count(&self) -> (r: usize)
        ensures
            r == self.and_count,
    {
        self.and_count
    }

    /// The number of XOR gates.
    pub fn xor_count(&self) -> (r: usize)
        ensures
            r == self.xor_count,
    {
        self.xor_count
    }

    /// `num_xor` XOR gates followed by `num_and` AND gates, gate `i` on wires
    /// `3i`, `3i + 1` (inputs) and `3i + 2` (output).
    pub fn from_params(num_xor: usize, num_and: usize) -> (r: Circuit)
        requires
            (num_xor + num_and) * 3 <= usize::MAX,
        ensures
            r.gates@.len() == num_xor + num_and,
            r.and_count == num_and,
            r.xor_count == num_xor,
            forall|i: int| 0 <= i < num_xor + num_and ==> #[trigger] r.gates@[i] == param_gate(i, i >= num_xor),
            forall|w: int| 0 <= w < 3 * (num_xor + num_and) ==> #[trigger] listed_wire_id(r.gates@, w) == w,
    {
        let total = num_xor + num_and;
        let mut gates: Vec<Gate> = Vec::with_capacity(total);
        let mut i: usize = 0;
        while i < total
            invariant
                i <= total,
                total == num_xor + num_and,
                total * 3 <= usize::MAX,
                gates@.len() == i,
                forall|t: int| 0 <= t < i ==> #[trigger] gates@[t] == param_gate(t, t >= num_xor),
            decreases total - i,
        {
            let x = Wire { id: i * 3 };
            let y = Wire { id: i * 3 + 1 };
            let z = Wire { id: i * 3 + 2 };
            if i < num_xor {
                gates.push(Gate::Xor { x, y, z });
            } else {
                gates.push(Gate::And { x, y, z });
            }
            i = i + 1;
        }
        let r = Circuit { gates, and_count: num_and, xor_count: num_xor };
        proof {
            assert forall|w: int| 0 <= w < 3 * (num_xor + num_and) implies #[trigger] listed_wire_id(r.gates@, w)
                == w by {
                let i = w / 3;
                assert(0 <= i < num_xor + num_and && w == 3 * i + w % 3 && 0 <= w % 3 < 3);
                assert(r.gates@[i] == param_gate(i, i >= num_xor));
            }
        }
        r
    }

    /// The input wires of every gate, two per gate, in gate order.
    pub fn get_input_wires(&self) -> (r: Vec<Wire>)
        requires
            self.gates@.len() * 2 <= usize::MAX,
        ensures
            r@.len() == 2 * self.gates@.len(),
            forall|k: int| 0 <= k < self.gates@.len() ==> #[trigger] r@[2 * k] == gate_x(self.gates@[k]) && r@[2
                * k + 1] == gate_y(self.gates@[k]),
    {
        let mut r: Vec<Wire> = Vec::with_capacity(self.gates.len() * 2);
        let mut i: usize = 0;
        while i < self.gates.len()
            invariant
                i <= self.gates@.len(),
                r@.len() == 2 * i,
                forall|k: int| 0 <= k < i ==> #[trigger] r@[2 * k] == gate_x(self.gates@[k]) && r@[2 * k + 1]
                    == gate_y(self.gates@[k]),
            decreases self.gates@.len() - i,
        {
            match self.gates[i] {
                Gate::And { x, y, z: _ } => {
                    r.push(x);
                    r.push(y);
                },
                Gate::Xor { x, y, z: _ } => {
                    r.push(x);
                    r.push(y);
                },
            }
            i = i + 1;
        }
        r
    }

    /// The input wires of the XOR gates, two per gate, in gate order.
    pub fn get_xor_input_wires(&self) -> (r: Vec<Wire>)
        ensures
            r@ == xor_inputs(self.gates@),
    {
        let mut r: Vec<Wire> = Vec::new();
        let mut i: usize = 0;
        while i < self.gates.len()
            invariant
                i <= self.gates@.len(),
                r@ == xor_inputs(self.gates@.subrange(0, i as int)),
            decreases self.gates@.len() - i,
        {
            let ghost prefix = self.gates@.subrange(0, i as int + 1);
            proof {
                assert(prefix.drop_last() =~= self.gates@.subrange(0, i as int));
            }
            match self.gates[i] {
                Gate::Xor { x, y, z: _ } => {
                    r.push(x);
                    r.push(y);
                },
                _ => {},
            }
            proof {
                assert(r@ =~= xor_inputs(prefix));
            }
            i = i + 1;
        }
        proof {
            assert(self.gates@.subrange(0, self.gates@.len() as int) =~= self.gates@);
        }
        r
    }

    /// The wires of the AND gates, three per gate (inputs, then output), in
    /// gate order.
    pub fn get_and_wires(&self) -> (r: Vec<Wire>)
        ensures
            r@ == and_wires(self.gates@),
    {
        let mut r: Vec<Wire> = Vec::new();
        let mut i: usize = 0;
        while i < self.gates.len()
            invariant
                i <= self.gates@.len(),
                r@ == and_wires(self.gates@.subrange(0, i as int)),
            decreases self.gates@.len() - i,
        {
            let ghost prefix = self.gates@.subrange(0, i as int + 1);
            proof {
                assert(prefix.drop_last() =~= self.gates@.subrange(0, i as int));
            }
            match self.gates[i] {
                Gate::And { x, y, z } => {
                    r.push(x);
                    r.push(y);
                    r.push(z);
                },
                _ => {},
            }
            proof {
                assert(r@ =~= and_wires(prefix));
            }
            i = i + 1;
        }
        proof {
            assert(self.gates@.subrange(0, self.gates@.len() as int) =~= self.gates@);
        }
        r
    }

    /// The output wire of every gate, in gate order.
    pub fn get_output_wires(&self) -> (r: Vec<Wire>)
        ensures
            r@.len() == self.gates@.len(),
            forall|k: int| 0 <= k < self.gates@.len() ==> #[trigger] r@[k] == gate_z(self.gates@[k]),
    {
        let mut r: Vec<Wire> = Vec::with_capacity(self.gates.len());
        let mut i: usize = 0;
        while i < self.gates.len()
            invariant
                i <= self.gates@.len(),
                r@.len() == i,
                forall|k: int| 0 <= k < i ==> #[trigger] r@[k] == gate_z(self.gates@[k]),
            decreases self.gates@.len() - i,
        {
            match self.gates[i] {
                Gate::And { x: _, y: _, z } => r.push(z),
                Gate::Xor { x: _, y: _, z } => r.push(z),
            }
            i = i + 1;
        }
        r
    }

    /// The number of wires: three per gate.
    pub fn total_wires(&self) -> (r: usize)
        requires
            self.gates@.len() * 3 <= usize::MAX,
        ensures
            r == self.gates@.len() * 3,
    {
        self.gates.len() * 3
    }
}

/// What can go wrong with a circuit's wires, inputs or outputs.
#[derive(Debug)]
pub enum CircuitError {
    InvalidWireCount(usize, usize),
    InvalidInputLength { expected: usize, actual: usize },
    InvalidOutputLength { expected: usize, actual: usize },
}

/// A garbled circuit: its encrypted gates.
#[derive(Debug, Clone)]
pub struct GarbledCircuit {
    pub gates: Vec<EncryptedGate>,
}

/// An authenticated garbled circuit: its authenticated half gates.
#[derive(Debug, Clone)]
pub struct AuthGarbledCircuit {
    pub gates: Vec<AuthHalfGate>,
}

/// The two rows of a half-gate truth table.
#[derive(Debug, Clone, Copy)]
pub struct EncryptedGate(pub [Block; 2]);

impl EncryptedGate {
    /// An encrypted gate with rows `inner`.
    pub(crate) fn new(inner: [Block; 2]) -> (r: EncryptedGate)
        ensures
            r.0 == inner,
    {
        EncryptedGate(inner)
    }

    /// Row `index`.
    pub fn row(&self, index: usize) -> (r: Block)
        requires
            index < 2,
        ensures
            r == self.0[index as int],
    {
        self.0[index]
    }
}

/// A batch of `N` encrypted gates.
#[derive(Debug)]
pub struct EncryptedGateBatch<const N: usize>(pub [EncryptedGate; N]);

impl<const N: usize> EncryptedGateBatch<N> {
    /// The batch of `batch`.
    pub fn new(batch: [EncryptedGate; N]) -> (r: Self)
        ensures
            r.0 == batch,
    {
        EncryptedGateBatch(batch)
    }

    /// The half gates of the batch.
    pub fn into_array(self) -> (r: [EncryptedGate; N])
        ensures
            r == self.0,
    {
        self.0
    }
}

/// An authenticated half gate: its two rows and its mask bit.
#[derive(Debug, Clone, Copy)]
pub struct AuthHalfGate {
    pub gates: [Block; 2],
    pub mask: bool,
}

impl AuthHalfGate {
    /// The half gate with rows `gates` and mask bit `mask`.
    pub fn new(gates: [Block; 2], mask: bool) -> (r: AuthHalfGate)
        ensures
            r.gates == gates,
            r.mask == mask,
    {
        AuthHalfGate { gates, mask }
    }
}

/// A batch of `N` authenticated half gates.
#[derive(Debug)]
pub struct AuthHalfGateBatch<const N: usize>(pub [AuthHalfGate; N]);

impl<const N: usize> AuthHalfGateBatch<N> {
    /// The batch of `batch`.
    pub fn new(batch: [AuthHalfGate; N]) -> (r: Self)
        ensures
            r.0 == batch,
    {
        AuthHalfGateBatch(batch)
    }

    /// The half gates of the batch.
    pub fn into_array(self) -> (r: [AuthHalfGate; N])
        ensures
            r == self.0,
    {
        self.0
    }
}

/// Gates whose wires, listed in gate order, are numbered `0, 1, …`: there
/// are `3·len` wires, as many as the gates' two inputs and one output each,
/// and the largest id is `3·len − 1`, so the wire count is one more than it.
pub proof fn lemma_numbered_wires(gates: Seq<Gate>)
    requires
        gates.len() >= 1,
        forall|w: int| 0 <= w < 3 * gates.len() ==> #[trigger] listed_wire_id(gates, w) == w,
    ensures
        3 * gates.len() == 2 * gates.len() + gates.len(),
        forall|w: int| 0 <= w < 3 * gates.len() ==> #[trigger] listed_wire_id(gates, w) < 3 * gates.len(),
        listed_wire_id(gates, 3 * gates.len() - 1) + 1 == 3 * gates.len(),
{
}

} // verus!
