//! What the garbler and the evaluator of an authenticated garbled circuit
//! compute together: the evaluator's label of an AND gate's output is the
//! garbler's zero-label offset by the masked value times `Δ_a`, that masked
//! value is the AND of the inputs masked by the output wire's mask, and honest
//! masked values give both parties the same consistency hash.

use vstd::prelude::*;
use crate::aes::tccr_spec;
use crate::auth_eval::{check_and_spec, check_run, count_and, eval_and_spec, eval_run, gate_tweak, lemma_check_run_count,
    lemma_count_and_prefix, share_block, wires_below, EvalState};
use crate::auth_gen::{gen_and_spec, gen_run, key_block, lemma_gen_run_count, GenState};
use crate::block::{lemma_lsb_mul_bool, lemma_lsb_xor, lsb_of, mul_bool_spec, Block};
use crate::circuit::{and_wires, gate_x, gate_y, gate_z, param_gate, AuthHalfGate, Gate};
use crate::fpre::{eval_triple_share, gen_triple_share, ids_distinct, triple_ok, AuthTriple, AuthTripleShare, Fpre};
use crate::sharing::{cross_valid, share_xor, AuthBit, AuthBitShare};

verus! {

broadcast use crate::block::group_xor;

/// The mask of a wire: the XOR of the two parties' committed bits.
pub open spec fn mask_of(g: AuthBitShare, e: AuthBitShare) -> bool {
    g.value != e.value
}

/// The masked output of an AND gate: `((za ⊕ λx) ∧ (zb ⊕ λy)) ⊕ λz`.
pub open spec fn and_masked_output(za: bool, zb: bool, lx: bool, ly: bool, lz: bool) -> bool {
    ((za != lx) && (zb != ly)) != lz
}

proof fn lemma_half_gate_algebra(
    hx: u128,
    hx1: u128,
    hy: u128,
    hy1: u128,
    lx: u128,
    d: u128,
    kx: u128,
    ky: u128,
    kz: u128,
    ks: u128,
    mx: u128,
    my: u128,
    mz: u128,
    ms: u128,
    za: bool,
    zb: bool,
)
    ensures
        ((((((if za { hx1 } else { hx }) ^ (if zb { hy1 } else { hy })) ^ mz) ^ ms) ^ mul_bool_spec(
            ((hx ^ hx1) ^ ky) ^ my, za)) ^ mul_bool_spec(((((hy ^ hy1) ^ kx) ^ lx) ^ mx) ^ (lx ^ mul_bool_spec(d, za)),
            zb)) ^ (((hx ^ hy) ^ kz) ^ ks) == ((kz ^ mz) ^ (ks ^ ms)) ^ (mul_bool_spec(ky ^ my, za) ^ mul_bool_spec(
            (kx ^ mx) ^ mul_bool_spec(d, za), zb)),
{
    assert(((((((if za { hx1 } else { hx }) ^ (if zb { hy1 } else { hy })) ^ mz) ^ ms) ^ mul_bool_spec(
        ((hx ^ hx1) ^ ky) ^ my, za)) ^ mul_bool_spec(((((hy ^ hy1) ^ kx) ^ lx) ^ mx) ^ (lx ^ mul_bool_spec(d, za)),
        zb)) ^ (((hx ^ hy) ^ kz) ^ ks) == ((kz ^ mz) ^ (ks ^ ms)) ^ (mul_bool_spec(ky ^ my, za) ^ mul_bool_spec(
        (kx ^ mx) ^ mul_bool_spec(d, za), zb))) by (bit_vector);
}

/// A key offset by `p·d` against the same key offset by `q·d`.
proof fn lemma_key_mac(k: u128, d: u128, p: bool, q: bool)
    ensures
        (k ^ mul_bool_spec(d, p)) ^ (k ^ mul_bool_spec(d, q)) == mul_bool_spec(d, p != q),
{
    assert((k ^ mul_bool_spec(d, p)) ^ (k ^ mul_bool_spec(d, q)) == mul_bool_spec(d, p != q)) by (bit_vector);
}

proof fn lemma_and_offsets(d: u128, lz: bool, ls: bool, lx: bool, ly: bool, za: bool, zb: bool)
    requires
        ls == (lx && ly),
    ensures
        (mul_bool_spec(d, lz) ^ mul_bool_spec(d, ls)) ^ (mul_bool_spec(mul_bool_spec(d, ly), za) ^ mul_bool_spec(
            mul_bool_spec(d, lx) ^ mul_bool_spec(d, za), zb)) == mul_bool_spec(d, and_masked_output(za, zb, lx, ly, lz)),
{
    assert((mul_bool_spec(d, lz) ^ mul_bool_spec(d, ls)) ^ (mul_bool_spec(mul_bool_spec(d, ly), za) ^ mul_bool_spec(
        mul_bool_spec(d, lx) ^ mul_bool_spec(d, za), zb)) == mul_bool_spec(d, ((za != lx) && (zb != ly)) != lz))
        by (bit_vector)
        requires
            ls == (lx && ly),
    ;
}

/// Half-gate correctness of one AND gate. The evaluator holds the labels
/// `glx ⊕ za·Δ_a` and `gly ⊕ zb·Δ_a` of the garbler's zero-labels `glx`, `gly`
/// and the masked values `za`, `zb`; the wires' bits and the triple's `z` bit
/// are valid authenticated bits, the triple's mask being `λx ∧ λy`. Then on
/// the garbler's half gate the evaluator obtains the masked output
/// `((za ⊕ λx) ∧ (zb ⊕ λy)) ⊕ λz` and the label `glz ⊕ zc·Δ_a` of the garbler's
/// output zero-label `glz`.
pub proof fn lemma_and_gate_correct(
    key: u128,
    delta_a: u128,
    delta_b: u128,
    glx: Block,
    gly: Block,
    elx: Block,
    ely: Block,
    za: bool,
    zb: bool,
    gx: AuthBitShare,
    ex: AuthBitShare,
    gy: AuthBitShare,
    ey: AuthBitShare,
    gz: AuthBitShare,
    ez: AuthBitShare,
    gs: AuthBitShare,
    es: AuthBitShare,
    gid: nat,
)
    requires
        lsb_of(delta_a),
        elx@ == glx@ ^ mul_bool_spec(delta_a, za),
        ely@ == gly@ ^ mul_bool_spec(delta_a, zb),
        cross_valid(gx, ex, delta_a, delta_b),
        cross_valid(gy, ey, delta_a, delta_b),
        cross_valid(gz, ez, delta_a, delta_b),
        cross_valid(gs, es, delta_a, delta_b),
        mask_of(gs, es) == (mask_of(gx, ex) && mask_of(gy, ey)),
    ensures
        ({
            let gen_out = gen_and_spec(key, glx, gly, gx, gy, gz, gs, delta_a, gid);
            let eval_out = eval_and_spec(key, elx, ely, ex, ey, ez, es, gen_out.0, za, zb, gid);
            &&& eval_out.1 == and_masked_output(za, zb, mask_of(gx, ex), mask_of(gy, ey), mask_of(gz, ez))
            &&& eval_out.0@ == gen_out.1@ ^ mul_bool_spec(delta_a, eval_out.1)
        }),
{
    let d = delta_a;
    let j = gate_tweak(gid as u128);
    let k = gate_tweak((gid + 1) as u128);
    let hx = tccr_spec(key, j, glx@);
    let hy = tccr_spec(key, k, gly@);
    let hx1 = tccr_spec(key, j, glx@ ^ d);
    let hy1 = tccr_spec(key, k, gly@ ^ d);
    if za {
        assert(elx@ == glx@ ^ d);
    } else {
        crate::block::lemma_xor_zero(glx@);
    }
    if zb {
        assert(ely@ == gly@ ^ d);
    } else {
        crate::block::lemma_xor_zero(gly@);
    }
    assert(tccr_spec(key, j, elx@) == if za { hx1 } else { hx });
    assert(tccr_spec(key, k, ely@) == if zb { hy1 } else { hy });
    let kx = key_block(gx, d);
    let ky = key_block(gy, d);
    let kz = key_block(gz, d);
    let ks = key_block(gs, d);
    lemma_half_gate_algebra(hx, hx1, hy, hy1, glx@, d, kx, ky, kz, ks, ex.mac@, ey.mac@, ez.mac@, es.mac@, za, zb);
    lemma_key_mac(gx.key@, d, gx.value, ex.value);
    lemma_key_mac(gy.key@, d, gy.value, ey.value);
    lemma_key_mac(gz.key@, d, gz.value, ez.value);
    lemma_key_mac(gs.key@, d, gs.value, es.value);
    let lx = mask_of(gx, ex);
    let ly = mask_of(gy, ey);
    let lz = mask_of(gz, ez);
    lemma_and_offsets(d, lz, mask_of(gs, es), lx, ly, za, zb);
    let gen_out = gen_and_spec(key, glx, gly, gx, gy, gz, gs, d, gid);
    let eval_out = eval_and_spec(key, elx, ely, ex, ey, ez, es, gen_out.0, za, zb, gid);
    let bit = and_masked_output(za, zb, lx, ly, lz);
    let glz = gen_out.1@;
    let elz = eval_out.0@;
    assert(elz ^ glz == mul_bool_spec(d, bit));
    crate::block::lemma_xor_laws(elz, glz, glz);
    crate::block::lemma_xor_laws(mul_bool_spec(d, bit), glz, 0);
    crate::block::lemma_xor_self(glz);
    crate::block::lemma_xor_zero(elz);
    assert(elz == glz ^ mul_bool_spec(d, bit));
    lemma_lsb_xor(glz, mul_bool_spec(d, bit));
    lemma_lsb_mul_bool(d, bit);
}

proof fn lemma_share_pair(gk: u128, ek: u128, da: u128, db: u128, gv: bool, ev: bool)
    ensures
        (((ek ^ mul_bool_spec(db, gv)) ^ gk) ^ mul_bool_spec(da, gv)) ^ (((gk ^ mul_bool_spec(da, ev)) ^ ek)
            ^ mul_bool_spec(db, ev)) == mul_bool_spec(da ^ db, gv != ev),
{
    assert((((ek ^ mul_bool_spec(db, gv)) ^ gk) ^ mul_bool_spec(da, gv)) ^ (((gk ^ mul_bool_spec(da, ev)) ^ ek)
        ^ mul_bool_spec(db, ev)) == mul_bool_spec(da ^ db, gv != ev)) by (bit_vector);
}

proof fn lemma_xor_regroup5(a1: u128, a2: u128, a3: u128, a4: u128, a5: u128, b1: u128, b2: u128, b3: u128,
    b4: u128, b5: u128)
    ensures
        ((((a1 ^ a2) ^ a3) ^ a4) ^ a5) ^ ((((b1 ^ b2) ^ b3) ^ b4) ^ b5) == ((((a1 ^ b1) ^ (a2 ^ b2)) ^ (a3 ^ b3)) ^ (
            a4 ^ b4)) ^ (a5 ^ b5),
{
    assert(((((a1 ^ a2) ^ a3) ^ a4) ^ a5) ^ ((((b1 ^ b2) ^ b3) ^ b4) ^ b5) == ((((a1 ^ b1) ^ (a2 ^ b2)) ^ (a3 ^ b3))
        ^ (a4 ^ b4)) ^ (a5 ^ b5)) by (bit_vector);
}

/// `a·c ⊕ b·c == (a ⊕ b)·c`.
proof fn lemma_mul_bool_distrib(a: u128, b: u128, c: bool)
    ensures
        mul_bool_spec(a, c) ^ mul_bool_spec(b, c) == mul_bool_spec(a ^ b, c),
{
}

/// A check block as a five-term XOR.
proof fn lemma_check_and_flat(ss: AuthBitShare, sz: AuthBitShare, sx: AuthBitShare, sy: AuthBitShare, za: bool, zb: bool,
    zc: bool, delta: u128)
    ensures
        check_and_spec(ss, sz, sx, sy, za, zb, zc, delta) == ((((share_block(ss, delta) ^ share_block(sz, delta))
            ^ mul_bool_spec(share_block(sy, delta), za)) ^ mul_bool_spec(share_block(sx, delta), zb))
            ^ mul_bool_spec(delta, (za && zb) != zc)),
{
    let s0 = share_block(ss, delta) ^ share_block(sz, delta);
    let s1 = if za { s0 ^ share_block(sy, delta) } else { s0 };
    let s2 = if zb { s1 ^ share_block(sx, delta) } else { s1 };
    crate::block::lemma_xor_zero(s0);
    crate::block::lemma_xor_zero(s1);
    crate::block::lemma_xor_zero(s2);
}

proof fn lemma_check_offsets(d: u128, ls: bool, lz: bool, ly: bool, lx: bool, za: bool, zb: bool, zc: bool)
    requires
        ls == (lx && ly),
    ensures
        ((mul_bool_spec(d, ls) ^ mul_bool_spec(d, lz)) ^ (mul_bool_spec(mul_bool_spec(d, ly), za) ^ mul_bool_spec(
            mul_bool_spec(d, lx), zb))) ^ mul_bool_spec(d, (za && zb) != zc) == mul_bool_spec(
            d,
            zc != and_masked_output(za, zb, lx, ly, lz),
        ),
{
    assert(((mul_bool_spec(d, ls) ^ mul_bool_spec(d, lz)) ^ (mul_bool_spec(mul_bool_spec(d, ly), za) ^ mul_bool_spec(
        mul_bool_spec(d, lx), zb))) ^ mul_bool_spec(d, (za && zb) != zc) == mul_bool_spec(
        d,
        zc != (((za != lx) && (zb != ly)) != lz),
    )) by (bit_vector)
        requires
            ls == (lx && ly),
    ;
}

/// The consistency check of one AND gate. With valid authenticated bits on
/// its wires and a triple `z` bit masking `λx ∧ λy`, the garbler's check block
/// (under `Δ_a`) and the evaluator's (under `Δ_b`) differ by `Δ_a ⊕ Δ_b`
/// exactly when the announced output masked value `zc` is not
/// `((za ⊕ λx) ∧ (zb ⊕ λy)) ⊕ λz`, and coincide otherwise.
pub proof fn lemma_check_and_detects(
    delta_a: u128,
    delta_b: u128,
    gx: AuthBitShare,
    ex: AuthBitShare,
    gy: AuthBitShare,
    ey: AuthBitShare,
    gz: AuthBitShare,
    ez: AuthBitShare,
    gs: AuthBitShare,
    es: AuthBitShare,
    za: bool,
    zb: bool,
    zc: bool,
)
    requires
        cross_valid(gx, ex, delta_a, delta_b),
        cross_valid(gy, ey, delta_a, delta_b),
        cross_valid(gz, ez, delta_a, delta_b),
        cross_valid(gs, es, delta_a, delta_b),
        mask_of(gs, es) == (mask_of(gx, ex) && mask_of(gy, ey)),
    ensures
        check_and_spec(gs, gz, gx, gy, za, zb, zc, delta_a) ^ check_and_spec(es, ez, ex, ey, za, zb, zc, delta_b)
            == mul_bool_spec(
            delta_a ^ delta_b,
            zc != and_masked_output(za, zb, mask_of(gx, ex), mask_of(gy, ey), mask_of(gz, ez)),
        ),
{
    lemma_share_pair(gx.key@, ex.key@, delta_a, delta_b, gx.value, ex.value);
    lemma_share_pair(gy.key@, ey.key@, delta_a, delta_b, gy.value, ey.value);
    lemma_share_pair(gz.key@, ez.key@, delta_a, delta_b, gz.value, ez.value);
    lemma_share_pair(gs.key@, es.key@, delta_a, delta_b, gs.value, es.value);
    lemma_check_and_flat(gs, gz, gx, gy, za, zb, zc, delta_a);
    lemma_check_and_flat(es, ez, ex, ey, za, zb, zc, delta_b);
    let c = (za && zb) != zc;
    lemma_xor_regroup5(
        share_block(gs, delta_a),
        share_block(gz, delta_a),
        mul_bool_spec(share_block(gy, delta_a), za),
        mul_bool_spec(share_block(gx, delta_a), zb),
        mul_bool_spec(delta_a, c),
        share_block(es, delta_b),
        share_block(ez, delta_b),
        mul_bool_spec(share_block(ey, delta_b), za),
        mul_bool_spec(share_block(ex, delta_b), zb),
        mul_bool_spec(delta_b, c),
    );
    lemma_mul_bool_distrib(share_block(gy, delta_a), share_block(ey, delta_b), za);
    lemma_mul_bool_distrib(share_block(gx, delta_a), share_block(ex, delta_b), zb);
    lemma_mul_bool_distrib(delta_a, delta_b, c);
    lemma_check_offsets(
        delta_a ^ delta_b,
        mask_of(gs, es),
        mask_of(gz, ez),
        mask_of(gy, ey),
        mask_of(gx, ex),
        za,
        zb,
        zc,
    );
}


/// AND gate `k` of `gates` is honest: the bits on its wires and its triple's
/// `z` bit (the triple of its rank `c` among the AND gates) are valid
/// authenticated bits, the triple's mask is `λx ∧ λy`, and its output masked
/// value is `((za ⊕ λx) ∧ (zb ⊕ λy)) ⊕ λz` of its input masked values.
pub open spec fn and_gate_honest(
    delta_a: u128,
    delta_b: u128,
    tg: Seq<AuthTripleShare>,
    te: Seq<AuthTripleShare>,
    bg: Seq<AuthBitShare>,
    be: Seq<AuthBitShare>,
    masked: Seq<bool>,
    gates: Seq<Gate>,
    k: int,
) -> bool {
    match gates[k] {
        Gate::And { x, y, z } => {
            let c = count_and(gates.subrange(0, k));
            let (x, y, z) = (x.id as int, y.id as int, z.id as int);
            &&& cross_valid(bg[x], be[x], delta_a, delta_b)
            &&& cross_valid(bg[y], be[y], delta_a, delta_b)
            &&& cross_valid(bg[z], be[z], delta_a, delta_b)
            &&& cross_valid(tg[c as int].z, te[c as int].z, delta_a, delta_b)
            &&& mask_of(tg[c as int].z, te[c as int].z) == (mask_of(bg[x], be[x]) && mask_of(bg[y], be[y]))
            &&& masked[z] == and_masked_output(masked[x], masked[y], mask_of(bg[x], be[x]), mask_of(bg[y], be[y]),
                mask_of(bg[z], be[z]))
        },
        Gate::Xor { .. } => true,
    }
}

/// Honest masked values pass the consistency check: when every AND gate is
/// honest, the garbler's consistency hash (under `Δ_a`, its shares) equals the
/// evaluator's (under `Δ_b`, its shares).
pub proof fn lemma_verify_hashes_agree(
    key: u128,
    delta_a: u128,
    delta_b: u128,
    tg: Seq<AuthTripleShare>,
    te: Seq<AuthTripleShare>,
    bg: Seq<AuthBitShare>,
    be: Seq<AuthBitShare>,
    masked: Seq<bool>,
    gates: Seq<Gate>,
)
    requires
        forall|k: int| 0 <= k < gates.len() ==> #[trigger] and_gate_honest(delta_a, delta_b, tg, te, bg, be, masked,
            gates, k),
    ensures
        check_run(key, delta_a, tg, bg, masked, gates) == check_run(key, delta_b, te, be, masked, gates),
    decreases gates.len(),
{
    if gates.len() > 0 {
        let pre = gates.drop_last();
        assert forall|k: int| 0 <= k < pre.len() implies #[trigger] and_gate_honest(delta_a, delta_b, tg, te, bg, be,
            masked, pre, k) by {
            assert(and_gate_honest(delta_a, delta_b, tg, te, bg, be, masked, gates, k));
            assert(pre.subrange(0, k) =~= gates.subrange(0, k));
        }
        lemma_verify_hashes_agree(key, delta_a, delta_b, tg, te, bg, be, masked, pre);
        let last = gates.len() - 1;
        assert(and_gate_honest(delta_a, delta_b, tg, te, bg, be, masked, gates, last));
        if let Gate::And { x, y, z } = gates.last() {
            assert(gates.subrange(0, last) =~= pre);
            lemma_check_run_count(key, delta_a, tg, bg, masked, pre);
            let c = count_and(pre) as int;
            let (x, y, z) = (x.id as int, y.id as int, z.id as int);
            lemma_check_and_detects(delta_a, delta_b, bg[x], be[x], bg[y], be[y], bg[z], be[z], tg[c].z, te[c].z,
                masked[x], masked[y], masked[z]);
            let a = check_and_spec(tg[c].z, bg[z], bg[x], bg[y], masked[x], masked[y], masked[z], delta_a);
            let b = check_and_spec(te[c].z, be[z], be[x], be[y], masked[x], masked[y], masked[z], delta_b);
            lemma_xor_zero_eq(a, b);
        }
    }
}

/// Blocks whose XOR is zero are equal.
proof fn lemma_xor_zero_eq(a: u128, b: u128)
    requires
        a ^ b == 0u128,
    ensures
        a == b,
{
    assert(a == b) by (bit_vector)
        requires
            a ^ b == 0u128,
    ;
}


/// The wires' bit shares after `gates`: an XOR gate's output gets the XOR of
/// its inputs' shares.
pub open spec fn bits_run(bits: Seq<AuthBitShare>, gates: Seq<Gate>) -> Seq<AuthBitShare>
    decreases gates.len(),
{
    if gates.len() == 0 {
        bits
    } else {
        let b = bits_run(bits, gates.drop_last());
        match gates.last() {
            Gate::Xor { x, y, z } => b.update(z.id as int, share_xor(b[x.id as int], b[y.id as int])),
            Gate::And { .. } => b,
        }
    }
}

/// The plaintext wire values after `gates`, from the values `v`.
pub open spec fn plain_run(v: Seq<bool>, gates: Seq<Gate>) -> Seq<bool>
    decreases gates.len(),
{
    if gates.len() == 0 {
        v
    } else {
        let p = plain_run(v, gates.drop_last());
        match gates.last() {
            Gate::Xor { x, y, z } => p.update(z.id as int, p[x.id as int] != p[y.id as int]),
            Gate::And { x, y, z } => p.update(z.id as int, p[x.id as int] && p[y.id as int]),
        }
    }
}

/// The wires that carry a value after `gates`: those of `d0` and every
/// gate output.
pub open spec fn defined(d0: Set<int>, gates: Seq<Gate>) -> Set<int>
    decreases gates.len(),
{
    if gates.len() == 0 {
        d0
    } else {
        defined(d0, gates.drop_last()).insert(gate_z(gates.last()).id as int)
    }
}

/// Gate `k` reads only wires that carry a value.
pub open spec fn inputs_defined(d0: Set<int>, gates: Seq<Gate>, k: int) -> bool {
    &&& defined(d0, gates.subrange(0, k)).contains(gate_x(gates[k]).id as int)
    &&& defined(d0, gates.subrange(0, k)).contains(gate_y(gates[k]).id as int)
}

/// AND gate `k`'s triple (that of its rank among the AND gates) carries valid
/// `z` shares masking `λx ∧ λy` for the masks its input wires have when it is
/// reached.
pub open spec fn triple_honest(
    delta_a: u128,
    delta_b: u128,
    tg: Seq<AuthTripleShare>,
    te: Seq<AuthTripleShare>,
    bg0: Seq<AuthBitShare>,
    be0: Seq<AuthBitShare>,
    gates: Seq<Gate>,
    k: int,
) -> bool {
    match gates[k] {
        Gate::And { x, y, z: _ } => {
            let c = count_and(gates.subrange(0, k)) as int;
            let bg = bits_run(bg0, gates.subrange(0, k));
            let be = bits_run(be0, gates.subrange(0, k));
            &&& cross_valid(tg[c].z, te[c].z, delta_a, delta_b)
            &&& mask_of(tg[c].z, te[c].z) == (mask_of(bg[x.id as int], be[x.id as int]) && mask_of(
                bg[y.id as int],
                be[y.id as int],
            ))
        },
        Gate::Xor { .. } => true,
    }
}

/// `hg` begins with `p`.
pub open spec fn extends(hg: Seq<AuthHalfGate>, p: Seq<AuthHalfGate>) -> bool {
    &&& p.len() <= hg.len()
    &&& forall|i: int| 0 <= i < p.len() ==> #[trigger] hg[i] == p[i]
}

/// The plaintext value of every wire as the evaluator's masked value unmasked.
pub open spec fn unmasked(m: Seq<bool>, bg: Seq<AuthBitShare>, be: Seq<AuthBitShare>) -> Seq<bool> {
    Seq::new(m.len(), |w: int| m[w] != mask_of(bg[w], be[w]))
}

/// The XOR of two valid authenticated bits is valid.
pub proof fn lemma_cross_valid_xor(g1: AuthBitShare, e1: AuthBitShare, g2: AuthBitShare, e2: AuthBitShare, da: u128, db: u128)
    requires
        cross_valid(g1, e1, da, db),
        cross_valid(g2, e2, da, db),
    ensures
        cross_valid(share_xor(g1, g2), share_xor(e1, e2), da, db),
{
    crate::block::lemma_xor_regroup(e1.key@, mul_bool_spec(db, g1.value), e2.key@, mul_bool_spec(db, g2.value));
    crate::block::lemma_mul_bool_xor(db, g1.value, g2.value);
    crate::block::lemma_xor_regroup(g1.key@, mul_bool_spec(da, e1.value), g2.key@, mul_bool_spec(da, e2.value));
    crate::block::lemma_mul_bool_xor(da, e1.value, e2.value);
}

/// The garbler's bit shares evolve by [`bits_run`].
pub proof fn lemma_gen_bits(key: u128, delta: u128, tg: Seq<AuthTripleShare>, init: GenState, gates: Seq<Gate>)
    ensures
        gen_run(key, delta, tg, init, gates).1 == bits_run(init.1, gates),
    decreases gates.len(),
{
    if gates.len() > 0 {
        lemma_gen_bits(key, delta, tg, init, gates.drop_last());
    }
}

/// The evaluator's bit shares evolve by [`bits_run`] and it counts the AND gates.
pub proof fn lemma_eval_bits(key: u128, te: Seq<AuthTripleShare>, hg: Seq<AuthHalfGate>, init: EvalState, gates: Seq<Gate>)
    ensures
        eval_run(key, te, hg, init, gates).2 == bits_run(init.2, gates),
        eval_run(key, te, hg, init, gates).3 == init.3 + count_and(gates),
    decreases gates.len(),
{
    if gates.len() > 0 {
        lemma_eval_bits(key, te, hg, init, gates.drop_last());
    }
}

/// The state of the garbled evaluation after `gates`: the counts agree, every
/// wire's bit is valid, and on every wire that carries a value the evaluator's
/// label is the garbler's zero-label offset by its masked value times `Δ_a`,
/// and that masked value unmasks to the wire's plaintext value.
pub open spec fn run_correct(
    delta_a: u128,
    delta_b: u128,
    n: int,
    d: Set<int>,
    g: GenState,
    e: EvalState,
    v: Seq<bool>,
) -> bool {
    &&& g.0.len() == n
    &&& g.1.len() == n
    &&& e.0.len() == n
    &&& e.1.len() == n
    &&& e.2.len() == n
    &&& v.len() == n
    &&& e.3 == g.2.len()
    &&& forall|w: int| 0 <= w < n ==> cross_valid(#[trigger] g.1[w], e.2[w], delta_a, delta_b)
    &&& forall|w: int| #[trigger] d.contains(w) ==> {
        &&& 0 <= w < n
        &&& e.0[w]@ == g.0[w]@ ^ mul_bool_spec(delta_a, e.1[w])
        &&& (e.1[w] != mask_of(g.1[w], e.2[w])) == v[w]
    }
}

/// Correctness of authenticated garbling over a whole circuit. Start from the
/// garbler's zero-labels `gl0` and the evaluator's labels `el0` and masked
/// values `m0`, valid authenticated bits on every wire, labels that agree
/// (`el0 = gl0 ⊕ m0·Δ_a`) on the wires of `d0`, gates that read only wires that
/// carry a value, and honest triples; let the evaluator evaluate the half
/// gates the garbler produced. Then after every gate the evaluator's label of
/// each wire that carries a value is the garbler's zero-label offset by the
/// wire's masked value times `Δ_a`, and the masked value unmasks to the wire's
/// plaintext value (see [`plain_run`]) computed from the unmasked inputs.
pub proof fn lemma_garbled_run_correct(
    key: u128,
    delta_a: u128,
    delta_b: u128,
    tg: Seq<AuthTripleShare>,
    te: Seq<AuthTripleShare>,
    gl0: Seq<Block>,
    bg0: Seq<AuthBitShare>,
    el0: Seq<Block>,
    m0: Seq<bool>,
    be0: Seq<AuthBitShare>,
    hg: Seq<AuthHalfGate>,
    d0: Set<int>,
    gates: Seq<Gate>,
)
    requires
        lsb_of(delta_a),
        gl0.len() == bg0.len(),
        el0.len() == bg0.len(),
        m0.len() == bg0.len(),
        be0.len() == bg0.len(),
        wires_below(gates, bg0.len() as int),
        forall|w: int| 0 <= w < bg0.len() ==> cross_valid(#[trigger] bg0[w], be0[w], delta_a, delta_b),
        forall|w: int| #[trigger] d0.contains(w) ==> 0 <= w < bg0.len() && el0[w]@ == gl0[w]@ ^ mul_bool_spec(
            delta_a, m0[w]),
        forall|k: int| 0 <= k < gates.len() ==> #[trigger] inputs_defined(d0, gates, k),
        forall|k: int| 0 <= k < gates.len() ==> #[trigger] triple_honest(delta_a, delta_b, tg, te, bg0, be0, gates,
            k),
        extends(hg, gen_run(key, delta_a, tg, (gl0, bg0, Seq::empty()), gates).2),
    ensures
        run_correct(
            delta_a,
            delta_b,
            bg0.len() as int,
            defined(d0, gates),
            gen_run(key, delta_a, tg, (gl0, bg0, Seq::empty()), gates),
            eval_run(key, te, hg, (el0, m0, be0, 0), gates),
            plain_run(unmasked(m0, bg0, be0), gates),
        ),
    decreases gates.len(),
{
    let n = bg0.len() as int;
    let g_init: GenState = (gl0, bg0, Seq::empty());
    let e_init: EvalState = (el0, m0, be0, 0);
    let v0 = unmasked(m0, bg0, be0);
    if gates.len() == 0 {
        assert forall|w: int| #[trigger] d0.contains(w) implies (m0[w] != mask_of(bg0[w], be0[w])) == v0[w] by {}
    } else {
        let pre = gates.drop_last();
        let k = gates.len() - 1;
        assert(gates.subrange(0, k) =~= pre);
        assert forall|j: int| 0 <= j < pre.len() implies #[trigger] inputs_defined(d0, pre, j) by {
            assert(inputs_defined(d0, gates, j));
            assert(pre.subrange(0, j) =~= gates.subrange(0, j));
        }
        assert forall|j: int| 0 <= j < pre.len() implies #[trigger] triple_honest(delta_a, delta_b, tg, te, bg0, be0,
            pre, j) by {
            assert(triple_honest(delta_a, delta_b, tg, te, bg0, be0, gates, j));
            assert(pre.subrange(0, j) =~= gates.subrange(0, j));
        }
        assert(wires_below(pre, n)) by {
            assert forall|j: int| 0 <= j < pre.len() implies {
                &&& gate_x(#[trigger] pre[j]).id < n
                &&& gate_y(pre[j]).id < n
                &&& gate_z(pre[j]).id < n
            } by {
                assert(pre[j] == gates[j]);
            }
        }
        let gp = gen_run(key, delta_a, tg, g_init, pre);
        let gf = gen_run(key, delta_a, tg, g_init, gates);
        assert(extends(hg, gp.2)) by {
            assert forall|i: int| 0 <= i < gp.2.len() implies #[trigger] hg[i] == gp.2[i] by {
                assert(hg[i] == gf.2[i]);
            }
        }
        lemma_garbled_run_correct(key, delta_a, delta_b, tg, te, gl0, bg0, el0, m0, be0, hg, d0, pre);
        let ep = eval_run(key, te, hg, e_init, pre);
        let vp = plain_run(v0, pre);
        let dp = defined(d0, pre);
        let ef = eval_run(key, te, hg, e_init, gates);
        let vf = plain_run(v0, gates);
        let df = defined(d0, gates);
        lemma_gen_bits(key, delta_a, tg, g_init, pre);
        lemma_eval_bits(key, te, hg, e_init, pre);
        lemma_gen_run_count(key, delta_a, tg, g_init, pre);
        assert(inputs_defined(d0, gates, k));
        assert(triple_honest(delta_a, delta_b, tg, te, bg0, be0, gates, k));
        assert(gate_x(gates[k]).id < n && gate_y(gates[k]).id < n && gate_z(gates[k]).id < n);
        let x = gate_x(gates.last()).id as int;
        let y = gate_y(gates.last()).id as int;
        let z = gate_z(gates.last()).id as int;
        assert(dp.contains(x) && dp.contains(y));
        match gates.last() {
            Gate::Xor { .. } => {
                lemma_cross_valid_xor(gp.1[x], ep.2[x], gp.1[y], ep.2[y], delta_a, delta_b);
                crate::block::lemma_xor_regroup(gp.0[x]@, mul_bool_spec(delta_a, ep.1[x]), gp.0[y]@, mul_bool_spec(
                    delta_a, ep.1[y]));
                crate::block::lemma_mul_bool_xor(delta_a, ep.1[x], ep.1[y]);
                assert forall|w: int| 0 <= w < n implies cross_valid(#[trigger] gf.1[w], ef.2[w], delta_a, delta_b) by {
                    if w != z {
                        assert(gf.1[w] == gp.1[w]);
                        assert(ef.2[w] == ep.2[w]);
                    }
                }
                assert forall|w: int| #[trigger] df.contains(w) implies {
                    &&& 0 <= w < n
                    &&& ef.0[w]@ == gf.0[w]@ ^ mul_bool_spec(delta_a, ef.1[w])
                    &&& (ef.1[w] != mask_of(gf.1[w], ef.2[w])) == vf[w]
                } by {
                    if w != z {
                        assert(dp.contains(w));
                    }
                }
            },
            Gate::And { .. } => {
                let c = count_and(pre) as int;
                lemma_and_gate_correct(key, delta_a, delta_b, gp.0[x], gp.0[y], ep.0[x], ep.0[y], ep.1[x], ep.1[y],
                    gp.1[x], ep.2[x], gp.1[y], ep.2[y], gp.1[z], ep.2[z], tg[c].z, te[c].z, 2 * c as nat);
                assert(hg[c] == gf.2[c]);
                assert forall|w: int| 0 <= w < n implies cross_valid(#[trigger] gf.1[w], ef.2[w], delta_a, delta_b) by {
                    assert(gf.1[w] == gp.1[w]);
                    assert(ef.2[w] == ep.2[w]);
                }
                assert forall|w: int| #[trigger] df.contains(w) implies {
                    &&& 0 <= w < n
                    &&& ef.0[w]@ == gf.0[w]@ ^ mul_bool_spec(delta_a, ef.1[w])
                    &&& (ef.1[w] != mask_of(gf.1[w], ef.2[w])) == vf[w]
                } by {
                    if w != z {
                        assert(dp.contains(w));
                    }
                }
            },
        }
    }
}


/// `gates` are `num_xor` XOR gates followed by AND gates, gate `i` on wires
/// `3i`, `3i + 1` (inputs) and `3i + 2` (output), as [`Circuit::from_params`]
/// builds them.
pub open spec fn param_gates(gates: Seq<Gate>, num_xor: nat) -> bool {
    &&& num_xor <= gates.len()
    &&& 3 * gates.len() <= usize::MAX
    &&& forall|i: int| 0 <= i < gates.len() ==> #[trigger] gates[i] == param_gate(i, i >= num_xor)
}

/// The AND gates among the first `g` gates of a parameter circuit.
proof fn lemma_param_count(gates: Seq<Gate>, num_xor: nat, g: int)
    requires
        param_gates(gates, num_xor),
        0 <= g <= gates.len(),
    ensures
        count_and(gates.subrange(0, g)) == if g <= num_xor { 0 } else { g - num_xor },
    decreases g,
{
    if g == 0 {
        assert(gates.subrange(0, 0).len() == 0);
    } else {
        lemma_param_count(gates, num_xor, g - 1);
        lemma_count_and_prefix(gates, g - 1);
        assert(gates[g - 1] == param_gate(g - 1, g - 1 >= num_xor));
    }
}

/// The AND-gate wires of the first `g` gates of a parameter circuit: wires
/// `3·num_xor` onwards, in order.
proof fn lemma_param_and_wires(gates: Seq<Gate>, num_xor: nat, g: int)
    requires
        param_gates(gates, num_xor),
        0 <= g <= gates.len(),
    ensures
        and_wires(gates.subrange(0, g)).len() == 3 * (if g <= num_xor { 0 } else { g - num_xor }),
        forall|k: int| 0 <= k < and_wires(gates.subrange(0, g)).len() ==> #[trigger] and_wires(
            gates.subrange(0, g))[k].id == 3 * num_xor + k,
    decreases g,
{
    if g > 0 {
        lemma_param_and_wires(gates, num_xor, g - 1);
        assert(gates.subrange(0, g).drop_last() =~= gates.subrange(0, g - 1));
        assert(gates.subrange(0, g).last() == param_gate(g - 1, g - 1 >= num_xor));
    }
}

/// The wires of a parameter circuit no gate writes keep their bit shares; an
/// XOR gate's output wire is written by that gate alone.
proof fn lemma_param_bits(b: Seq<AuthBitShare>, gates: Seq<Gate>, num_xor: nat, g: int, w: int)
    requires
        param_gates(gates, num_xor),
        b.len() == 3 * gates.len(),
        0 <= g <= gates.len(),
        0 <= w < b.len(),
        w % 3 != 2 || w / 3 >= num_xor || w / 3 >= g,
    ensures
        bits_run(b, gates.subrange(0, g))[w] == b[w],
        bits_run(b, gates.subrange(0, g)).len() == b.len(),
    decreases g,
{
    if g > 0 {
        lemma_param_bits(b, gates, num_xor, g - 1, w);
        assert(gates.subrange(0, g).drop_last() =~= gates.subrange(0, g - 1));
        assert(gates.subrange(0, g).last() == param_gate(g - 1, g - 1 >= num_xor));
    }
}


/// The plaintext value of a parameter circuit's wire after `g` gates: an
/// input wire keeps its value; the output of gate `i < g` is the XOR (for the
/// first `num_xor` gates) or the AND of its two inputs.
pub open spec fn param_value(v: Seq<bool>, num_xor: nat, g: int, w: int) -> bool {
    if w % 3 == 2 && w / 3 < g {
        let i = w / 3;
        if i < num_xor {
            v[3 * i] != v[3 * i + 1]
        } else {
            v[3 * i] && v[3 * i + 1]
        }
    } else {
        v[w]
    }
}

proof fn lemma_param_plain(v: Seq<bool>, gates: Seq<Gate>, num_xor: nat, g: int)
    requires
        param_gates(gates, num_xor),
        v.len() == 3 * gates.len(),
        0 <= g <= gates.len(),
    ensures
        plain_run(v, gates.subrange(0, g)).len() == v.len(),
        forall|w: int| 0 <= w < v.len() ==> #[trigger] plain_run(v, gates.subrange(0, g))[w] == param_value(
            v, num_xor, g, w),
    decreases g,
{
    if g > 0 {
        lemma_param_plain(v, gates, num_xor, g - 1);
        assert(gates.subrange(0, g).drop_last() =~= gates.subrange(0, g - 1));
        assert(gates.subrange(0, g).last() == param_gate(g - 1, g - 1 >= num_xor));
        let p = plain_run(v, gates.subrange(0, g - 1));
        assert(p[3 * (g - 1)] == param_value(v, num_xor, g - 1, 3 * (g - 1)));
        assert(p[3 * (g - 1) + 1] == param_value(v, num_xor, g - 1, 3 * (g - 1) + 1));
        assert forall|w: int| 0 <= w < v.len() implies #[trigger] plain_run(v, gates.subrange(0, g))[w]
            == param_value(v, num_xor, g, w) by {
            if w != 3 * (g - 1) + 2 {
                assert(p[w] == param_value(v, num_xor, g - 1, w));
            }
        }
    }
}

/// The wires that carry a value after `g` gates include the starting ones and
/// every gate output.
proof fn lemma_param_defined(d0: Set<int>, gates: Seq<Gate>, num_xor: nat, g: int)
    requires
        param_gates(gates, num_xor),
        0 <= g <= gates.len(),
    ensures
        forall|w: int| #[trigger] d0.contains(w) ==> defined(d0, gates.subrange(0, g)).contains(w),
        forall|i: int| 0 <= i < g ==> #[trigger] defined(d0, gates.subrange(0, g)).contains(3 * i + 2),
    decreases g,
{
    if g > 0 {
        lemma_param_defined(d0, gates, num_xor, g - 1);
        assert(gates.subrange(0, g).drop_last() =~= gates.subrange(0, g - 1));
        assert(gates.subrange(0, g).last() == param_gate(g - 1, g - 1 >= num_xor));
        let dp = defined(d0, gates.subrange(0, g - 1));
        let df = defined(d0, gates.subrange(0, g));
        assert(gate_z(gates.subrange(0, g).last()).id as int == 3 * (g - 1) + 2);
        assert(df == dp.insert(3 * (g - 1) + 2));
        assert forall|i: int| 0 <= i < g implies #[trigger] df.contains(3 * i + 2) by {
            if i < g - 1 {
                assert(dp.contains(3 * i + 2));
            }
        }
    }
}


/// The garbler's shares of the dealer's wire bits.
pub open spec fn gen_bits(fp: Fpre) -> Seq<AuthBitShare> {
    fp.auth_bits@.map_values(|b: AuthBit| b.gen_share)
}

/// The evaluator's shares of the dealer's wire bits.
pub open spec fn eval_bits(fp: Fpre) -> Seq<AuthBitShare> {
    fp.auth_bits@.map_values(|b: AuthBit| b.eval_share)
}

/// The garbler's shares of the dealer's triples.
pub open spec fn gen_triples(fp: Fpre) -> Seq<AuthTripleShare> {
    fp.auth_triples@.map_values(|t: AuthTriple| gen_triple_share(t))
}

/// The evaluator's shares of the dealer's triples.
pub open spec fn eval_triples(fp: Fpre) -> Seq<AuthTripleShare> {
    fp.auth_triples@.map_values(|t: AuthTriple| eval_triple_share(t))
}

/// The garbler's state after garbling `gates` with the dealer's output and
/// the zero-labels `gl0`.
pub open spec fn honest_gen(key: u128, fp: Fpre, gl0: Seq<Block>, gates: Seq<Gate>) -> GenState {
    gen_run(key, fp.delta_a@, gen_triples(fp), (gl0, gen_bits(fp), Seq::empty()), gates)
}

/// The evaluator's state after evaluating the garbler's half gates from the
/// labels `el0` and masked values `m0`.
pub open spec fn honest_eval(key: u128, fp: Fpre, gl0: Seq<Block>, el0: Seq<Block>, m0: Seq<bool>, gates: Seq<Gate>) -> EvalState {
    eval_run(key, eval_triples(fp), honest_gen(key, fp, gl0, gates).2, (el0, m0, eval_bits(fp), 0), gates)
}

/// An honest run of authenticated garbling over a parameter circuit (`num_xor`
/// XOR gates, then AND gates, gate `i` on wires `3i`, `3i + 1` → `3i + 2`) with
/// the output of the dealer made for it: valid bits on every wire, and each AND
/// gate's input wires carrying the `x` and `y` bits of its triple. When the
/// evaluator starts on each input wire from the garbler's zero-label offset by
/// its masked value times `Δ_a`, then on every gate output its label is the
/// garbler's zero-label offset by its masked value times `Δ_a`, that masked
/// value unmasks to the XOR or AND of the unmasked inputs, and the two
/// parties' consistency hashes over those masked values agree.
#[verifier::spinoff_prover]
#[verifier::rlimit(40)]
pub proof fn lemma_honest_circuit_run(
    key: u128,
    fp: Fpre,
    gates: Seq<Gate>,
    num_xor: nat,
    gl0: Seq<Block>,
    el0: Seq<Block>,
    m0: Seq<bool>,
)
    requires
        lsb_of(fp.delta_a@),
        param_gates(gates, num_xor),
        fp.bits_ok(),
        fp.and_wires@ == and_wires(gates),
        fp.auth_triples@.len() == fp.and_wires@.len() / 3,
        ids_distinct(fp.and_wires@) ==> forall|k: int| 0 <= k < fp.and_wires@.len() / 3 ==> {
            &&& fp.auth_bits@[fp.and_wires@[3 * k].id as int] == (#[trigger] fp.auth_triples@[k]).x
            &&& fp.auth_bits@[fp.and_wires@[3 * k + 1].id as int] == fp.auth_triples@[k].y
        },
        fp.auth_bits@.len() == 3 * gates.len(),
        gl0.len() == 3 * gates.len(),
        el0.len() == 3 * gates.len(),
        m0.len() == 3 * gates.len(),
        forall|w: int| 0 <= w < 3 * gates.len() && w % 3 != 2 ==> #[trigger] el0[w]@ == gl0[w]@ ^ mul_bool_spec(
            fp.delta_a@, m0[w]),
    ensures
        ({
            let g = honest_gen(key, fp, gl0, gates);
            let e = honest_eval(key, fp, gl0, el0, m0, gates);
            let v0 = unmasked(m0, gen_bits(fp), eval_bits(fp));
            &&& forall|w: int| 0 <= w < 3 * gates.len() && w % 3 == 2 ==> {
                &&& (#[trigger] e.0[w])@ == g.0[w]@ ^ mul_bool_spec(fp.delta_a@, e.1[w])
                &&& (e.1[w] != mask_of(g.1[w], e.2[w])) == param_value(v0, num_xor, gates.len() as int, w)
            }
            &&& check_run(key, fp.delta_a@, gen_triples(fp), g.1, e.1, gates).0 == check_run(
                key,
                fp.delta_b@,
                eval_triples(fp),
                e.2,
                e.1,
                gates,
            ).0
        }),
{
    let n = 3 * gates.len() as int;
    let len = gates.len() as int;
    let da = fp.delta_a@;
    let db = fp.delta_b@;
    let bg0 = gen_bits(fp);
    let be0 = eval_bits(fp);
    let tg = gen_triples(fp);
    let te = eval_triples(fp);
    let d0 = Set::new(|w: int| 0 <= w < n && w % 3 != 2);
    let na = len - num_xor;
    // The AND-gate wires are distinct: AND gate `c` is gate `num_xor + c`.
    lemma_param_and_wires(gates, num_xor, len);
    assert(gates.subrange(0, len) =~= gates);
    let aw = fp.and_wires@;
    assert(ids_distinct(aw));
    assert forall|c: int| 0 <= c < na implies {
        &&& fp.auth_bits@[3 * (num_xor + c)] == (#[trigger] fp.auth_triples@[c]).x
        &&& fp.auth_bits@[3 * (num_xor + c) + 1] == fp.auth_triples@[c].y
    } by {
        assert(aw[3 * c].id == 3 * num_xor + 3 * c);
        assert(aw[3 * c + 1].id == 3 * num_xor + 3 * c + 1);
    }
    // The parameter circuit's wiring.
    assert forall|k: int| 0 <= k < len implies {
        &&& gate_x(#[trigger] gates[k]).id == 3 * k
        &&& gate_y(gates[k]).id == 3 * k + 1
        &&& gate_z(gates[k]).id == 3 * k + 2
        &&& (gates[k] is And <==> k >= num_xor)
    } by {
        assert(gates[k] == param_gate(k, k >= num_xor));
    }
    assert(wires_below(gates, n));
    assert forall|w: int| 0 <= w < n implies cross_valid(#[trigger] bg0[w], be0[w], da, db) by {
        assert(crate::auth_tensor_fpre::auth_bit_ok(fp.auth_bits@[w], da, db));
    }
    // Each AND gate's triple is honest for the masks its inputs carry.
    assert forall|k: int| 0 <= k < len implies #[trigger] triple_honest(da, db, tg, te, bg0, be0, gates, k) by {
        if k >= num_xor {
            let c = k - num_xor;
            lemma_param_count(gates, num_xor, k);
            lemma_param_bits(bg0, gates, num_xor, k, 3 * k);
            lemma_param_bits(bg0, gates, num_xor, k, 3 * k + 1);
            lemma_param_bits(be0, gates, num_xor, k, 3 * k);
            lemma_param_bits(be0, gates, num_xor, k, 3 * k + 1);
            assert(fp.auth_bits@[3 * k] == fp.auth_triples@[c].x);
            assert(fp.auth_bits@[3 * k + 1] == fp.auth_triples@[c].y);
            assert(triple_ok(fp.auth_triples@[c], da, db));
        }
    }
    assert forall|k: int| 0 <= k < len implies #[trigger] inputs_defined(d0, gates, k) by {
        lemma_param_defined(d0, gates, num_xor, k);
        assert(d0.contains(3 * k));
        assert(d0.contains(3 * k + 1));
    }
    let g = honest_gen(key, fp, gl0, gates);
    let e = honest_eval(key, fp, gl0, el0, m0, gates);
    assert(extends(g.2, g.2));
    lemma_garbled_run_correct(key, da, db, tg, te, gl0, bg0, el0, m0, be0, g.2, d0, gates);
    let v0 = unmasked(m0, bg0, be0);
    let vf = plain_run(v0, gates);
    let df = defined(d0, gates);
    lemma_param_defined(d0, gates, num_xor, len);
    lemma_param_plain(v0, gates, num_xor, len);
    assert forall|w: int| 0 <= w < n && w % 3 == 2 implies {
        &&& (#[trigger] e.0[w])@ == g.0[w]@ ^ mul_bool_spec(da, e.1[w])
        &&& (e.1[w] != mask_of(g.1[w], e.2[w])) == param_value(v0, num_xor, len, w)
    } by {
        assert(w == 3 * (w / 3) + 2);
        assert(df.contains(3 * (w / 3) + 2));
        assert(vf[w] == param_value(v0, num_xor, len, w));
    }
    // Every AND gate's masked output is honest, so the hashes agree.
    lemma_gen_bits(key, da, tg, (gl0, bg0, Seq::empty()), gates);
    lemma_eval_bits(key, te, g.2, (el0, m0, be0, 0), gates);
    assert forall|k: int| 0 <= k < len implies #[trigger] and_gate_honest(da, db, tg, te, g.1, e.2, e.1, gates, k) by {
        if k >= num_xor {
            let c = k - num_xor;
            lemma_param_count(gates, num_xor, k);
            lemma_param_bits(bg0, gates, num_xor, len, 3 * k);
            lemma_param_bits(bg0, gates, num_xor, len, 3 * k + 1);
            lemma_param_bits(bg0, gates, num_xor, len, 3 * k + 2);
            lemma_param_bits(be0, gates, num_xor, len, 3 * k);
            lemma_param_bits(be0, gates, num_xor, len, 3 * k + 1);
            lemma_param_bits(be0, gates, num_xor, len, 3 * k + 2);
            assert(fp.auth_bits@[3 * k] == fp.auth_triples@[c].x);
            assert(fp.auth_bits@[3 * k + 1] == fp.auth_triples@[c].y);
            assert(triple_ok(fp.auth_triples@[c], da, db));
            assert(d0.contains(3 * k));
            assert(d0.contains(3 * k + 1));
            assert(df.contains(3 * k));
            assert(df.contains(3 * k + 1));
            assert(df.contains(3 * k + 2));
            assert(vf[3 * k] == param_value(v0, num_xor, len, 3 * k));
            assert(vf[3 * k + 1] == param_value(v0, num_xor, len, 3 * k + 1));
            assert(vf[3 * k + 2] == param_value(v0, num_xor, len, 3 * k + 2));
        }
    }
    lemma_verify_hashes_agree(key, da, db, tg, te, g.1, e.2, e.1, gates);
    assert(check_run(key, da, tg, g.1, e.1, gates).0 == check_run(key, db, te, e.2, e.1, gates).0);
}

} // verus!
