//! Field elements of the bn256 scalar field, held as four 64-bit limbs in
//! canonical (fully reduced) little-endian form, with the arithmetic done by
//! the `halo2curves` implementation of the field behind trusted wrappers.
use vstd::prelude::*;
use vstd::arithmetic::div_mod::{
    lemma_add_mod_noop, lemma_add_mod_noop_right, lemma_mod_add_multiples_vanish,
    lemma_mod_bound, lemma_mod_multiples_vanish, lemma_mul_mod_noop_general,
    lemma_mul_mod_noop_left, lemma_mul_mod_noop_right, lemma_small_mod, lemma_sub_mod_noop,
};
use halo2curves::ff::PrimeField;

verus! {

/// The order of the bn256 scalar field: all signal values live in `[0, fr_order())`.
pub open spec fn fr_order() -> nat {
    0x30644e72e131a029b85045b68181585d2833e84879b9709143e1f593f0000001nat
}

/// Reduction of an integer into the field, as a natural number below the order.
pub open spec fn emod(x: int) -> nat {
    (x % (fr_order() as int)) as nat
}

/// Field addition.
pub open spec fn fadd(a: nat, b: nat) -> nat {
    emod(a as int + b as int)
}

/// Field subtraction.
pub open spec fn fsub(a: nat, b: nat) -> nat {
    emod(a - b)
}

/// Field multiplication.
pub open spec fn fmul(a: nat, b: nat) -> nat {
    emod(a as int * b as int)
}

/// The integer spelled in base 2^64 by four limbs.
pub open spec fn limbs_nat(l0: u64, l1: u64, l2: u64, l3: u64) -> nat {
    l0 as nat
        + l1 as nat * 0x10000000000000000nat
        + l2 as nat * 0x100000000000000000000000000000000nat
        + l3 as nat * 0x1000000000000000000000000000000000000000000000000nat
}

/// One field element, as the integer `l0 + 2^64*l1 + 2^128*l2 + 2^192*l3`,
/// kept fully reduced modulo `fr_order()`.
#[derive(Clone, Copy, PartialEq, Eq, Structural, Debug)]
pub struct Felt {
    l0: u64,
    l1: u64,
    l2: u64,
    l3: u64,
}

/// The integer a `Felt`'s limbs spell in base 2^64.
pub closed spec fn felt_nat(x: Felt) -> nat {
    limbs_nat(x.l0, x.l1, x.l2, x.l3)
}

impl Felt {
    #[verifier::type_invariant]
    spec fn canonical(self) -> bool {
        felt_nat(self) < fr_order()
    }
}

impl View for Felt {
    type V = nat;

    closed spec fn view(&self) -> nat {
        felt_nat(*self)
    }
}

/// Two field elements with the same value are the same element: the limb
/// representation of an integer below 2^256 is unique.
pub proof fn lemma_felt_value_injective(a: Felt, b: Felt)
    requires
        a@ == b@,
    ensures
        a == b,
{
    lemma_limbs_injective(a.l0, a.l1, a.l2, a.l3, b.l0, b.l1, b.l2, b.l3);
}

proof fn lemma_limbs_injective(a0: u64, a1: u64, a2: u64, a3: u64, b0: u64, b1: u64, b2: u64, b3: u64)
    requires
        limbs_nat(a0, a1, a2, a3) == limbs_nat(b0, b1, b2, b3),
    ensures
        a0 == b0 && a1 == b1 && a2 == b2 && a3 == b3,
{
    let base: nat = 0x10000000000000000nat;
    let c2: nat = 0x100000000000000000000000000000000nat;
    let c3: nat = 0x1000000000000000000000000000000000000000000000000nat;
    assert(c2 == base * base) by (nonlinear_arith)
        requires
            base == 0x10000000000000000nat,
            c2 == 0x100000000000000000000000000000000nat,
    ;
    assert(c3 == base * c2) by (nonlinear_arith)
        requires
            base == 0x10000000000000000nat,
            c2 == 0x100000000000000000000000000000000nat,
            c3 == 0x1000000000000000000000000000000000000000000000000nat,
    ;
    assert(c3 == base * base * base) by (nonlinear_arith)
        requires
            c3 == base * c2,
            c2 == base * base,
    ;
    let ra: nat = a1 as nat + a2 as nat * base + a3 as nat * base * base;
    let rb: nat = b1 as nat + b2 as nat * base + b3 as nat * base * base;
    assert(ra * base == a1 as nat * base + a2 as nat * c2 + a3 as nat * c3) by (nonlinear_arith)
        requires
            ra == a1 as nat + a2 as nat * base + a3 as nat * base * base,
            c2 == base * base,
            c3 == base * base * base,
    ;
    assert(rb * base == b1 as nat * base + b2 as nat * c2 + b3 as nat * c3) by (nonlinear_arith)
        requires
            rb == b1 as nat + b2 as nat * base + b3 as nat * base * base,
            c2 == base * base,
            c3 == base * base * base,
    ;
    lemma_place_value_unique(a0 as nat, ra, b0 as nat, rb, base);
    let sa: nat = a2 as nat + a3 as nat * base;
    let sb: nat = b2 as nat + b3 as nat * base;
    assert(sa * base == a2 as nat * base + a3 as nat * (base * base)) by (nonlinear_arith)
        requires
            sa == a2 as nat + a3 as nat * base,
    ;
    assert(sb * base == b2 as nat * base + b3 as nat * (base * base)) by (nonlinear_arith)
        requires
            sb == b2 as nat + b3 as nat * base,
    ;
    lemma_place_value_unique(a1 as nat, sa, b1 as nat, sb, base);
    lemma_place_value_unique(a2 as nat, a3 as nat, b2 as nat, b3 as nat, base);
}

proof fn lemma_place_value_unique(x: nat, r: nat, y: nat, s: nat, base: nat)
    requires
        x < base,
        y < base,
        x + r * base == y + s * base,
    ensures
        x == y && r == s,
{
    assert(r == s) by (nonlinear_arith)
        requires
            x < base,
            y < base,
            x + r * base == y + s * base,
    ;
}

/// Embeds a machine integer into the field; no reduction is needed since
/// the field order exceeds 2^64.
pub fn felt_from_u64(x: u64) -> (r: Felt)
    ensures
        r@ == x as nat,
{
    Felt { l0: x, l1: 0, l2: 0, l3: 0 }
}

/// Relies on halo2curves' bn256 scalar field: `Fr::from_raw` embeds a
/// little-endian integer into its congruence class, and `to_repr` is the
/// canonical (fully reduced) little-endian encoding of the element.
#[verifier::external_body]
pub fn felt_from_limbs(l0: u64, l1: u64, l2: u64, l3: u64) -> (r: Felt)
    ensures
        r@ == emod(limbs_nat(l0, l1, l2, l3) as int),
{
    let v: [u8; 32] = halo2curves::bn256::Fr::from_raw([l0, l1, l2, l3]).to_repr().into();
    Felt {
        l0: u64::from_le_bytes(v[0..8].try_into().unwrap()),
        l1: u64::from_le_bytes(v[8..16].try_into().unwrap()),
        l2: u64::from_le_bytes(v[16..24].try_into().unwrap()),
        l3: u64::from_le_bytes(v[24..32].try_into().unwrap()),
    }
}

/// Relies on halo2curves' bn256 scalar field: `Fr::from_raw` embeds a
/// little-endian integer into its congruence class, `+` is addition modulo
/// the field order, and `to_repr` is the canonical little-endian encoding.
#[verifier::external_body]
pub fn felt_add(a: Felt, b: Felt) -> (r: Felt)
    ensures
        r@ == fadd(a@, b@),
{
    let x = halo2curves::bn256::Fr::from_raw([a.l0, a.l1, a.l2, a.l3]);
    let y = halo2curves::bn256::Fr::from_raw([b.l0, b.l1, b.l2, b.l3]);
    let v: [u8; 32] = (x + y).to_repr().into();
    Felt {
        l0: u64::from_le_bytes(v[0..8].try_into().unwrap()),
        l1: u64::from_le_bytes(v[8..16].try_into().unwrap()),
        l2: u64::from_le_bytes(v[16..24].try_into().unwrap()),
        l3: u64::from_le_bytes(v[24..32].try_into().unwrap()),
    }
}

/// Relies on halo2curves' bn256 scalar field: `Fr::from_raw` embeds a
/// little-endian integer into its congruence class, `-` is subtraction
/// modulo the field order, and `to_repr` is the canonical encoding.
#[verifier::external_body]
pub fn felt_sub(a: Felt, b: Felt) -> (r: Felt)
    ensures
        r@ == fsub(a@, b@),
{
    let x = halo2curves::bn256::Fr::from_raw([a.l0, a.l1, a.l2, a.l3]);
    let y = halo2curves::bn256::Fr::from_raw([b.l0, b.l1, b.l2, b.l3]);
    let v: [u8; 32] = (x - y).to_repr().into();
    Felt {
        l0: u64::from_le_bytes(v[0..8].try_into().unwrap()),
        l1: u64::from_le_bytes(v[8..16].try_into().unwrap()),
        l2: u64::from_le_bytes(v[16..24].try_into().unwrap()),
        l3: u64::from_le_bytes(v[24..32].try_into().unwrap()),
    }
}

/// Relies on halo2curves' bn256 scalar field: `Fr::from_raw` embeds a
/// little-endian integer into its congruence class, `*` is multiplication
/// modulo the field order, and `to_repr` is the canonical encoding.
#[verifier::external_body]
pub fn felt_mul(a: Felt, b: Felt) -> (r: Felt)
    ensures
        r@ == fmul(a@, b@),
{
    let x = halo2curves::bn256::Fr::from_raw([a.l0, a.l1, a.l2, a.l3]);
    let y = halo2curves::bn256::Fr::from_raw([b.l0, b.l1, b.l2, b.l3]);
    let v: [u8; 32] = (x * y).to_repr().into();
    Felt {
        l0: u64::from_le_bytes(v[0..8].try_into().unwrap()),
        l1: u64::from_le_bytes(v[8..16].try_into().unwrap()),
        l2: u64::from_le_bytes(v[16..24].try_into().unwrap()),
        l3: u64::from_le_bytes(v[24..32].try_into().unwrap()),
    }
}

/// Decides equality of field values. Limb equality and value equality
/// coincide because the representation is canonical.
pub fn felt_eq(a: Felt, b: Felt) -> (r: bool)
    ensures
        r == (a@ == b@),
{
    proof {
        if a@ == b@ {
            lemma_felt_value_injective(a, b);
        }
    }
    a == b
}

/// `mux1(a, b, s) = (a - b)*s + b`: selects `a` when `s = 1` and `b` when
/// `s = 0`, without branching.
pub open spec fn spec_mux1(a: nat, b: nat, s: nat) -> nat {
    fadd(fmul(fsub(a, b), s), b)
}

/// `simple_hash(a, b) = 931*a + 2358*b`: the circuit's placeholder
/// combining function (not a cryptographic hash).
pub open spec fn spec_simple_hash(a: nat, b: nat) -> nat {
    fadd(fmul(931, a), fmul(2358, b))
}

/// `mux_hash(a, b, s) = s*simple_hash(a, b) + (1 - s)*simple_hash(b, a)`:
/// combines `a` and `b` with the operand order selected by `s`.
pub open spec fn spec_mux_hash(a: nat, b: nat, s: nat) -> nat {
    fadd(fmul(s, spec_simple_hash(a, b)), fmul(fsub(1, s), spec_simple_hash(b, a)))
}

/// Branch-free selection: returns `a` when `s = 1` and `b` when `s = 0`.
pub fn mux1(a: Felt, b: Felt, s: Felt) -> (r: Felt)
    ensures
        r@ == spec_mux1(a@, b@, s@),
{
    felt_add(felt_mul(felt_sub(a, b), s), b)
}

/// The placeholder combining function `931*a + 2358*b` over the field.
pub fn simple_hash(a: Felt, b: Felt) -> (r: Felt)
    ensures
        r@ == spec_simple_hash(a@, b@),
{
    felt_add(felt_mul(felt_from_u64(931), a), felt_mul(felt_from_u64(2358), b))
}

/// Combines two values with the operand order selected by `s`.
pub fn mux_hash(a: Felt, b: Felt, s: Felt) -> (r: Felt)
    ensures
        r@ == spec_mux_hash(a@, b@, s@),
{
    let one = felt_from_u64(1);
    felt_add(
        felt_mul(s, simple_hash(a, b)),
        felt_mul(felt_sub(one, s), simple_hash(b, a)),
    )
}

/// The mux/hash decomposition used by the row templates: for every selector
/// `s` (boolean or not), muxing the operands first and then combining them
/// equals the selector-weighted sum of the two combinations. Both sides are
/// the same polynomial over the field.
pub proof fn lemma_mux_hash_decomposition(a: nat, b: nat, s: nat)
    ensures
        spec_mux_hash(a, b, s) == spec_simple_hash(spec_mux1(a, b, s), spec_mux1(b, a, s)),
{
    let p = fr_order() as int;
    let x1: int = 931 * (a as int) + 2358 * (b as int);
    let x0: int = 931 * (b as int) + 2358 * (a as int);
    lemma_add_mod_noop(931 * (a as int), 2358 * (b as int), p);
    assert(spec_simple_hash(a, b) == emod(x1));
    lemma_add_mod_noop(931 * (b as int), 2358 * (a as int), p);
    assert(spec_simple_hash(b, a) == emod(x0));
    lemma_mul_mod_noop_right(s as int, x1, p);
    assert(fmul(s, spec_simple_hash(a, b)) == emod(s * x1));
    lemma_mul_mod_noop_general(1 - s, x0, p);
    assert(fmul(fsub(1, s), spec_simple_hash(b, a)) == emod((1 - s) * x0));
    lemma_add_mod_noop(s * x1, (1 - s) * x0, p);
    assert(spec_mux_hash(a, b, s) == emod(s * x1 + (1 - s) * x0));

    let y0: int = (a - b) * s + b;
    let y1: int = (b - a) * s + a;
    lemma_mul_mod_noop_left(a - b, s as int, p);
    lemma_add_mod_noop_right(b as int, (a - b) * s, p);
    assert(emod((a - b) * s) + b == b + emod((a - b) * s));
    assert(spec_mux1(a, b, s) == emod(y0));
    lemma_mul_mod_noop_left(b - a, s as int, p);
    lemma_add_mod_noop_right(a as int, (b - a) * s, p);
    assert(spec_mux1(b, a, s) == emod(y1));
    lemma_mul_mod_noop_right(931, y0, p);
    assert(fmul(931, spec_mux1(a, b, s)) == emod(931 * y0));
    lemma_mul_mod_noop_right(2358, y1, p);
    assert(fmul(2358, spec_mux1(b, a, s)) == emod(2358 * y1));
    lemma_add_mod_noop(931 * y0, 2358 * y1, p);
    assert(spec_simple_hash(spec_mux1(a, b, s), spec_mux1(b, a, s)) == emod(931 * y0 + 2358 * y1));

    assert(s * x1 + (1 - s) * x0 == 931 * y0 + 2358 * y1) by (nonlinear_arith)
        requires
            x1 == 931 * a + 2358 * b,
            x0 == 931 * b + 2358 * a,
            y0 == (a - b) * s + b,
            y1 == (b - a) * s + a,
    ;
}

/// A boolean selector satisfies the selector constraint: `s*(1 - s) = 0`
/// in the field when `s` is 0 or 1.
pub proof fn lemma_boolean_selector_of_bit(s: nat)
    ensures
        s == 0 || s == 1 ==> fmul(s, fsub(1, s)) == 0,
{
    let p = fr_order() as int;
    if s == 0 {
        lemma_small_mod(0, fr_order());
        assert(fmul(s, fsub(1, s)) == emod(0));
    } else if s == 1 {
        lemma_small_mod(0, fr_order());
        assert(fsub(1, s) == emod(0));
        assert(fmul(s, fsub(1, s)) == emod(0int));
    }
}

/// The inverse of 931 modulo the field order.
spec fn inv_931() -> nat {
    0x1bb456b541f48a2a08745967ef66a5cd648f018ba86723d9139d68d8f4ea46f2nat
}

/// The inverse of 2358 modulo the field order.
spec fn inv_2358() -> nat {
    0x254a0934e9ac51d5e377d471620e3a35fa9bf2805eaa5c7eb3a825599186d6f7nat
}

proof fn lemma_inv_931_product()
    ensures
        emod((931nat * inv_931()) as int) == 1,
{
}

proof fn lemma_inv_2358_product()
    ensures
        emod((2358nat * inv_2358()) as int) == 1,
{
}

/// Every reduced value is below the field order.
pub proof fn lemma_emod_bound(x: int)
    ensures
        emod(x) < fr_order(),
{
    lemma_mod_bound(x, fr_order() as int);
}

/// A mux-hash value is reduced.
pub proof fn lemma_mux_hash_bound(a: nat, b: nat, s: nat)
    ensures
        spec_mux_hash(a, b, s) < fr_order(),
{
    lemma_emod_bound(
        fmul(s, spec_simple_hash(a, b)) as int + fmul(fsub(1, s), spec_simple_hash(b, a)) as int,
    );
}

/// On a boolean selector the mux hash is one of the two plain combinations:
/// `mux_hash(a, b, 1) = simple_hash(a, b)` and
/// `mux_hash(a, b, 0) = simple_hash(b, a)`.
pub proof fn lemma_mux_hash_bit(a: nat, b: nat, s: nat)
    requires
        s == 0 || s == 1,
    ensures
        s == 1 ==> spec_mux_hash(a, b, s) == spec_simple_hash(a, b),
        s == 0 ==> spec_mux_hash(a, b, s) == spec_simple_hash(b, a),
{
    let h1 = spec_simple_hash(a, b);
    let h0 = spec_simple_hash(b, a);
    lemma_emod_bound(fmul(931, a) as int + fmul(2358, b) as int);
    lemma_emod_bound(fmul(931, b) as int + fmul(2358, a) as int);
    lemma_small_mod(0, fr_order());
    lemma_small_mod(1, fr_order());
    lemma_small_mod(h1, fr_order());
    lemma_small_mod(h0, fr_order());
    if s == 1 {
        assert(fmul(s, h1) == emod(h1 as int));
        assert(fsub(1, s) == emod(0int));
        assert(fmul(0, h0) == emod(0int));
        assert(fadd(h1, 0) == emod(h1 as int));
    } else {
        assert(fmul(s, h1) == emod(0int));
        assert(fsub(1, s) == emod(1int));
        assert(fmul(1, h0) == emod(h0 as int));
        assert(fadd(0, h0) == emod(h0 as int));
    }
}

/// Congruent sums with a shared summand have congruent remainders.
proof fn lemma_add_cancel(x: int, y: int, c: int)
    requires
        emod(x + c) == emod(y + c),
    ensures
        emod(x) == emod(y),
{
    let p = fr_order() as int;
    lemma_sub_mod_noop(x + c, c, p);
    lemma_sub_mod_noop(y + c, c, p);
}

/// Cancels an invertible factor: if `c*x` and `c*y` are congruent and `c`
/// has an inverse, reduced `x` and `y` are equal.
proof fn lemma_cancel_factor(c: nat, cinv: nat, x: nat, y: nat)
    requires
        emod((c * cinv) as int) == 1,
        x < fr_order(),
        y < fr_order(),
        emod((c * x) as int) == emod((c * y) as int),
    ensures
        x == y,
{
    let p = fr_order() as int;
    lemma_mul_mod_noop_right(cinv as int, (c * x) as int, p);
    lemma_mul_mod_noop_right(cinv as int, (c * y) as int, p);
    assert(emod(cinv as int * (c * x) as int) == emod(cinv as int * (c * y) as int));
    assert(cinv as int * (c * x) as int == (cinv * c) as int * x as int) by (nonlinear_arith);
    assert(cinv as int * (c * y) as int == (cinv * c) as int * y as int) by (nonlinear_arith);
    assert((cinv * c) == (c * cinv)) by (nonlinear_arith);
    lemma_mul_mod_noop_left((cinv * c) as int, x as int, p);
    lemma_mul_mod_noop_left((cinv * c) as int, y as int, p);
    lemma_small_mod(x, fr_order());
    lemma_small_mod(y, fr_order());
    assert(emod(1int * x as int) == emod(x as int));
    assert(emod(1int * y as int) == emod(y as int));
}

/// The mux hash with a boolean selector is injective in the running hash:
/// two different reduced hashes combined with the same sibling and selector
/// give different results, because the coefficients 931 and 2358 are
/// invertible modulo the field order.
pub proof fn lemma_mux_hash_injective_hash(h1: nat, h2: nat, b: nat, s: nat)
    requires
        s == 0 || s == 1,
        h1 < fr_order(),
        h2 < fr_order(),
        h1 != h2,
    ensures
        spec_mux_hash(h1, b, s) != spec_mux_hash(h2, b, s),
{
    let p = fr_order() as int;
    lemma_mux_hash_bit(h1, b, s);
    lemma_mux_hash_bit(h2, b, s);
    if spec_mux_hash(h1, b, s) == spec_mux_hash(h2, b, s) {
        if s == 1 {
            lemma_add_mod_noop(931 * (h1 as int), 2358 * (b as int), p);
            lemma_add_mod_noop(931 * (h2 as int), 2358 * (b as int), p);
            assert(emod(931 * (h1 as int) + 2358 * (b as int)) == emod(
                931 * (h2 as int) + 2358 * (b as int),
            ));
            lemma_add_cancel(931 * (h1 as int), 931 * (h2 as int), 2358 * (b as int));
            lemma_inv_931_product();
            lemma_cancel_factor(931, inv_931(), h1, h2);
        } else {
            lemma_add_mod_noop(931 * (b as int), 2358 * (h1 as int), p);
            lemma_add_mod_noop(931 * (b as int), 2358 * (h2 as int), p);
            assert(emod(2358 * (h1 as int) + 931 * (b as int)) == emod(
                2358 * (h2 as int) + 931 * (b as int),
            ));
            lemma_add_cancel(2358 * (h1 as int), 2358 * (h2 as int), 931 * (b as int));
            lemma_inv_2358_product();
            lemma_cancel_factor(2358, inv_2358(), h1, h2);
        }
    }
}

/// The mux hash with a boolean selector is injective in the sibling: two
/// different reduced siblings combined with the same running hash and
/// selector give different results.
pub proof fn lemma_mux_hash_injective_sibling(h: nat, b1: nat, b2: nat, s: nat)
    requires
        s == 0 || s == 1,
        b1 < fr_order(),
        b2 < fr_order(),
        b1 != b2,
    ensures
        spec_mux_hash(h, b1, s) != spec_mux_hash(h, b2, s),
{
    let p = fr_order() as int;
    lemma_mux_hash_bit(h, b1, s);
    lemma_mux_hash_bit(h, b2, s);
    if spec_mux_hash(h, b1, s) == spec_mux_hash(h, b2, s) {
        if s == 1 {
            lemma_add_mod_noop(931 * (h as int), 2358 * (b1 as int), p);
            lemma_add_mod_noop(931 * (h as int), 2358 * (b2 as int), p);
            assert(emod(2358 * (b1 as int) + 931 * (h as int)) == emod(
                2358 * (b2 as int) + 931 * (h as int),
            ));
            lemma_add_cancel(2358 * (b1 as int), 2358 * (b2 as int), 931 * (h as int));
            lemma_inv_2358_product();
            lemma_cancel_factor(2358, inv_2358(), b1, b2);
        } else {
            lemma_add_mod_noop(931 * (b1 as int), 2358 * (h as int), p);
            lemma_add_mod_noop(931 * (b2 as int), 2358 * (h as int), p);
            assert(emod(931 * (b1 as int) + 2358 * (h as int)) == emod(
                931 * (b2 as int) + 2358 * (h as int),
            ));
            lemma_add_cancel(931 * (b1 as int), 931 * (b2 as int), 2358 * (h as int));
            lemma_inv_931_product();
            lemma_cancel_factor(931, inv_931(), b1, b2);
        }
    }
}

/// Partial converse of the selector constraint: a selector other than 0 or 1
/// violates it, shown here for every selector whose product `s*(s - 1)` is
/// still below the field order. The unrestricted statement holds because the
/// order is prime, which is beyond what is proved here.
pub proof fn lemma_small_nonboolean_selector_violates(s: nat)
    requires
        2 <= s,
        s * (s - 1) < fr_order(),
    ensures
        fmul(s, fsub(1, s)) != 0,
{
    let p = fr_order() as int;
    assert(s <= s * (s - 1)) by (nonlinear_arith)
        requires
            2 <= s,
    ;
    lemma_mod_add_multiples_vanish(1 - s, p);
    lemma_small_mod((p + 1 - s) as nat, fr_order());
    assert(fsub(1, s) == (p + 1 - s) as nat);
    let t: int = s * (p + 1 - s);
    assert(t == p * s + s * (1 - s)) by (nonlinear_arith)
        requires
            t == s * (p + 1 - s),
    ;
    lemma_mod_multiples_vanish(s as int, s * (1 - s), p);
    assert(emod(t) == emod(s * (1 - s)));
    lemma_mod_add_multiples_vanish(s * (1 - s), p);
    assert((s as int) * (1 - s as int) == -((s as int) * (s as int - 1))) by (nonlinear_arith);
    assert(p + s * (1 - s) == p - s * (s - 1));
    lemma_small_mod((p - s * (s - 1)) as nat, fr_order());
    assert(emod(s * (1 - s)) == p - s * (s - 1));
    assert(fmul(s, fsub(1, s)) == emod(t));
}

} // verus!
