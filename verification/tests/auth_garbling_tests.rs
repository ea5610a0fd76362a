use authenticated_tensor_garbling::auth_eval::AuthEval;
use authenticated_tensor_garbling::auth_gen::AuthGen;
use authenticated_tensor_garbling::block::Block;
use authenticated_tensor_garbling::circuit::{Circuit, Gate};
use authenticated_tensor_garbling::fpre::{AuthTriple, Fpre};
use authenticated_tensor_garbling::sharing::{cross_party_valid, AuthBit};

fn bit_ok(bit: &AuthBit, fpre: &Fpre) -> bool {
    cross_party_valid(&bit.gen_share, &bit.eval_share, fpre.delta_a(), fpre.delta_b())
}

fn triple_ok(t: &AuthTriple, fpre: &Fpre) -> bool {
    bit_ok(&t.x, fpre) && bit_ok(&t.y, fpre) && bit_ok(&t.z, fpre) && t.z.full_bit() == (t.x.full_bit() && t.y.full_bit())
}

#[test]
fn fpre_test_fpre_insecure() {
    let num_xor = 25;
    let num_and = 50;

    let circ = Circuit::from_params(num_xor, num_and);

    let mut fpre = Fpre::new(5, circ.get_xor_input_wires(), circ.get_and_wires());
    fpre.generate();

    let anticipated_auth_bits = num_xor * 3 + num_and * 3;
    let anticipated_auth_triples = num_and;

    assert_eq!(fpre.auth_bits.len(), anticipated_auth_bits);
    assert_eq!(fpre.auth_triples.len(), anticipated_auth_triples);

    for bit in &fpre.auth_bits {
        assert!(bit_ok(bit, &fpre));
        bit.verify(fpre.delta_a(), fpre.delta_b());
    }
    for triple in &fpre.auth_triples {
        assert!(triple_ok(triple, &fpre));
        triple.verify(fpre.delta_a(), fpre.delta_b());
    }

    let (fpre_gen, fpre_eval) = fpre.into_gen_eval();

    assert_eq!(fpre_gen.wire_shares.len(), anticipated_auth_bits);
    assert_eq!(fpre_eval.wire_shares.len(), anticipated_auth_bits);

    assert_eq!(fpre_gen.triple_shares.len(), anticipated_auth_triples);
    assert_eq!(fpre_eval.triple_shares.len(), anticipated_auth_triples);

    for (gen_share, eval_share) in fpre_gen.wire_shares.iter().zip(fpre_eval.wire_shares.iter()) {
        assert!(cross_party_valid(gen_share, eval_share, &fpre_gen.delta_a, &fpre_eval.delta_b));
    }

    for (gen_triple, eval_triple) in fpre_gen.triple_shares.iter().zip(fpre_eval.triple_shares.iter()) {
        let triple = AuthTriple {
            x: AuthBit { gen_share: gen_triple.x, eval_share: eval_triple.x },
            y: AuthBit { gen_share: gen_triple.y, eval_share: eval_triple.y },
            z: AuthBit { gen_share: gen_triple.z, eval_share: eval_triple.z },
        };
        assert!(cross_party_valid(&triple.x.gen_share, &triple.x.eval_share, &fpre_gen.delta_a, &fpre_eval.delta_b));
        assert!(cross_party_valid(&triple.y.gen_share, &triple.y.eval_share, &fpre_gen.delta_a, &fpre_eval.delta_b));
        assert!(cross_party_valid(&triple.z.gen_share, &triple.z.eval_share, &fpre_gen.delta_a, &fpre_eval.delta_b));
        assert_eq!(triple.z.full_bit(), triple.x.full_bit() && triple.y.full_bit());
    }
}

#[test]
fn main_test_fpre_insecure() {
    let num_xor = 25;
    let num_and = 50;

    let circ = Circuit::from_params(num_xor, num_and);
    let total_wires = circ.total_wires();

    let mut frpe = Fpre::new(5, circ.get_xor_input_wires(), circ.get_and_wires());
    frpe.generate();

    assert_eq!(frpe.auth_bits.len(), total_wires);
    assert_eq!(frpe.auth_triples.len(), num_and);

    for bit in &frpe.auth_bits {
        assert!(bit_ok(bit, &frpe));
    }
    for triple in &frpe.auth_triples {
        assert!(triple_ok(triple, &frpe));
    }

    let (fpre_gen, fpre_eval) = frpe.into_gen_eval();

    assert_eq!(fpre_gen.wire_shares.len(), total_wires);
    assert_eq!(fpre_eval.wire_shares.len(), total_wires);

    assert_eq!(fpre_gen.triple_shares.len(), num_and);
    assert_eq!(fpre_eval.triple_shares.len(), num_and);
}

#[test]
fn fpre_and_inputs_carry_the_triple_bits() {
    let circ = Circuit::from_params(2, 3);
    let mut fpre = Fpre::new(9, circ.get_xor_input_wires(), circ.get_and_wires());
    fpre.generate();
    let and_wires = circ.get_and_wires();
    for k in 0..3 {
        let t = &fpre.auth_triples[k];
        assert_eq!(fpre.auth_bits[and_wires[3 * k].id].full_bit(), t.x.full_bit());
        assert_eq!(fpre.auth_bits[and_wires[3 * k + 1].id].full_bit(), t.y.full_bit());
        assert_eq!(fpre.auth_bits[and_wires[3 * k].id].gen_share.mac, t.x.gen_share.mac);
    }
}

/// Garbles and evaluates a circuit of `num_xor` XOR gates then `num_and` AND
/// gates (gate `i` on wires `3i`, `3i + 1` → `3i + 2`) on the plaintext input
/// `inputs(i)` = (bit of wire 3i, bit of wire 3i+1), with honest input labels.
fn honest_run(num_xor: usize, num_and: usize, seed: u64, inputs: &dyn Fn(usize) -> (bool, bool)) {
    let circ = Circuit::from_params(num_xor, num_and);
    let n_wires = circ.total_wires();
    let mut fpre = Fpre::new(seed, circ.get_xor_input_wires(), circ.get_and_wires());
    fpre.generate();
    let delta_a = *fpre.delta_a();
    let masks: Vec<bool> = fpre.auth_bits.iter().map(|b| b.full_bit()).collect();
    let (fpre_gen, fpre_eval) = fpre.into_gen_eval();

    let mut gen = AuthGen::new_with_pre(fpre_gen);
    // The dealer sizes the label table for the input and AND-output wires;
    // XOR outputs need a slot too.
    while gen.labels.len() < n_wires {
        gen.labels.push(Block::random_from_thread());
    }
    let (gen_labels, half_gates) = gen.generate(&circ);
    assert_eq!(half_gates.len(), num_and);
    assert_eq!(gen_labels.len(), n_wires);

    let mut eval_labels = vec![Block::default(); n_wires];
    let mut masked_inputs = vec![false; n_wires];
    let mut plain = vec![false; n_wires];
    for i in 0..(num_xor + num_and) {
        let (a, b) = inputs(i);
        for (w, v) in [(3 * i, a), (3 * i + 1, b)] {
            let m = v != masks[w];
            masked_inputs[w] = m;
            eval_labels[w] = if m { gen_labels[w] ^ *delta_a.as_block() } else { gen_labels[w] };
            plain[w] = v;
        }
        plain[3 * i + 2] = if i < num_xor { a != b } else { a && b };
    }

    let mut eval = AuthEval::new_with_pre(fpre_eval, &circ);
    let (labels, masked_values) = eval.evaluate(&circ, &half_gates, &eval_labels, masked_inputs).unwrap();

    for w in 0..n_wires {
        let mask = gen.auth_bits[w].bit() != eval.auth_bits[w].bit();
        let offset = if masked_values[w] { *delta_a.as_block() } else { Block::default() };
        assert_eq!(labels[w], gen_labels[w] ^ offset, "label of wire {} must be the zero-label plus m·Δ_a", w);
        assert_eq!(masked_values[w] != mask, plain[w], "masked value of wire {} must unmask to its value", w);
    }

    let gen_hash = gen.verify(&circ, &masked_values);
    let eval_hash = eval.verify(&circ, &masked_values);
    assert_eq!(gen_hash, eval_hash, "honest masked values must pass the consistency check");

    if num_xor > 0 {
        // Wire 2 is the output of the first XOR gate and touches no AND gate.
        let mut off_and = masked_values.clone();
        off_and[2] = !off_and[2];
        assert_eq!(gen.verify(&circ, &off_and), gen_hash, "verify reads AND-gate wires only");
        assert_eq!(eval.verify(&circ, &off_and), eval_hash, "verify reads AND-gate wires only");
    }

    if num_and > 0 {
        let mut tampered = masked_values.clone();
        let z = 3 * num_xor + 2;
        tampered[z] = !tampered[z];
        assert_ne!(gen.verify(&circ, &tampered), eval.verify(&circ, &tampered), "a flipped AND output must be caught");
    }
}

#[test]
fn garbled_circuit_evaluates_and_gates() {
    honest_run(0, 4, 1, &|i| (i % 2 == 0, i / 2 == 0));
}

#[test]
fn garbled_circuit_evaluates_mixed_gates() {
    honest_run(3, 5, 2, &|i| ((i * 7) % 3 == 0, (i * 5) % 2 == 1));
}

#[test]
fn garbled_circuit_evaluates_all_input_pairs() {
    honest_run(4, 4, 3, &|i| ((i & 1) == 1, (i & 2) == 2));
}

#[test]
fn and_gate_evaluation_follows_the_circuit_gates() {
    let circ = Circuit::from_params(1, 1);
    assert!(matches!(circ.gates()[0], Gate::Xor { .. }));
    assert!(matches!(circ.gates()[1], Gate::And { .. }));
}

#[test]
fn verify_without_and_gates_is_zero() {
    let circ = Circuit::from_params(3, 0);
    assert_eq!(AuthEval::new().verify(&circ, &[]), Block::default());
    assert_eq!(AuthGen::new().verify(&circ, &[]), Block::default());
}
