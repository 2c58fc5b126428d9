//! How many words a passphrase needs to reach a wanted strength.
//!
//! A passphrase of `w` words drawn uniformly from a list of `L` words carries
//! `w * log2(L)` bits of entropy. That amount reaches `E` bits exactly when
//! `L^w >= 2^E`, so all planning here is done on integers, with no rounding.
use vstd::arithmetic::div_mod::*;
use vstd::arithmetic::power::*;
use vstd::arithmetic::power2::*;
use vstd::prelude::*;

verus! {

/// Minimum entropy, in bits, used when the caller asks for nothing else.
pub const DEFAULT_MINIMUM_ENTROPY: usize = 80;

/// Entropy, in bits, that each strength level adds to the default.
pub const ENTROPY_PER_STRENGTH_LEVEL: usize = 20;

/// Radix of one limb of a big natural number.
pub open spec fn radix() -> int {
    0x1_0000_0000
}

/// The value of a little-endian sequence of 32-bit limbs.
pub open spec fn limbs_value(s: Seq<u32>) -> int
    decreases s.len(),
{
    if s.len() == 0 {
        0
    } else {
        limbs_value(s.drop_last()) + pow(radix(), (s.len() - 1) as nat) * s.last()
    }
}

/// No limb of zero at the top.
pub open spec fn limbs_normal(s: Seq<u32>) -> bool {
    s.len() > 0 ==> s.last() != 0
}

/// `words` words from a list of `list_length` give at least `bits` bits of
/// entropy: `words * log2(list_length) >= bits`, that is
/// `list_length^words >= 2^bits`.
pub open spec fn entropy_reached(list_length: nat, words: nat, bits: nat) -> bool {
    pow(list_length as int, words) >= pow(2, bits)
}

/// `words` is the fewest words from a list of `list_length` that give at
/// least `bits` bits of entropy.
pub open spec fn is_fewest_words(list_length: nat, words: nat, bits: nat) -> bool {
    &&& entropy_reached(list_length, words, bits)
    &&& (words == 0 || !entropy_reached(list_length, (words - 1) as nat, bits))
}

proof fn lemma_limbs_bounds(s: Seq<u32>)
    ensures
        0 <= limbs_value(s) < pow(radix(), s.len()),
    decreases s.len(),
{
    reveal(pow);
    if s.len() > 0 {
        let k = (s.len() - 1) as nat;
        lemma_limbs_bounds(s.drop_last());
        lemma_pow_positive(radix(), k);
        let p = pow(radix(), k);
        let v = limbs_value(s.drop_last());
        let d = s.last() as int;
        assert(pow(radix(), s.len()) == radix() * p);
        assert(0 <= v + p * d < radix() * p) by (nonlinear_arith)
            requires
                0 <= v < p,
                0 <= d < radix(),
        ;
    }
}

proof fn lemma_pow2_split(e: nat)
    ensures
        pow(2, e) == pow(radix(), e / 32) * pow(2, e % 32),
{
    lemma2_to64();
    lemma_pow2(32);
    lemma_pow_multiplies(2, 32, e / 32);
    lemma_pow_adds(2, 32 * (e / 32), e % 32);
}

proof fn lemma_pow_base_increases(a: nat, b: nat, e: nat)
    requires
        0 < a <= b,
    ensures
        pow(a as int, e) <= pow(b as int, e),
    decreases e,
{
    reveal(pow);
    if e > 0 {
        lemma_pow_base_increases(a, b, (e - 1) as nat);
        lemma_pow_positive(a as int, (e - 1) as nat);
        let x = pow(a as int, (e - 1) as nat);
        let y = pow(b as int, (e - 1) as nat);
        assert(a * x <= b * y) by (nonlinear_arith)
            requires
                0 <= a <= b,
                0 <= x <= y,
        ;
    }
}

/// Splits `t` into its low limb and the rest.
proof fn lemma_limb_split(t: int)
    requires
        t >= 0,
    ensures
        t == (t % radix()) + radix() * (t / radix()),
        0 <= t % radix() < radix(),
        t / radix() >= 0,
        t < radix() ==> t % radix() == t && t / radix() == 0,
{
    lemma_fundamental_div_mod(t, radix());
    lemma_mod_pos_bound(t, radix());
    lemma_div_pos_is_pos(t, radix());
    if t < radix() {
        lemma_small_mod(t as nat, radix() as nat);
        lemma_basic_div(t, radix());
    }
}

/// Multiplies a big natural number by `m`.
fn mul_limbs(p: &Vec<u32>, m: u64) -> (r: Vec<u32>)
    requires
        m > 0,
        limbs_normal(p@),
    ensures
        limbs_value(r@) == limbs_value(p@) * m,
        limbs_normal(r@),
{
    let ghost mg = m as int;
    let mut out: Vec<u32> = Vec::new();
    let mut carry: u128 = 0;
    let mut i: usize = 0;
    proof {
        reveal(pow);
        assert(p@.take(0) =~= Seq::<u32>::empty());
        assert(out@ =~= Seq::<u32>::empty());
    }
    while i < p.len()
        invariant
            0 <= i <= p@.len(),
            out@.len() == i,
            carry <= m,
            m > 0,
            mg == m,
            limbs_value(out@) + pow(radix(), i as nat) * carry == mg * limbs_value(p@.take(i as int)),
            i > 0 && p@[i - 1] != 0 && carry == 0 ==> out@[i - 1] != 0,
        decreases p@.len() - i,
    {
        let ghost pi = p@[i as int] as int;
        proof {
            assert(pi * mg <= 0xffff_ffff * 0xffff_ffff_ffff_ffffint) by (nonlinear_arith)
                requires
                    0 <= pi <= 0xffff_ffff,
                    0 <= mg <= 0xffff_ffff_ffff_ffffint,
            ;
        }
        let t: u128 = (p[i] as u128) * (m as u128) + carry;
        let d: u32 = (t % 0x1_0000_0000u128) as u32;
        let c: u128 = t / 0x1_0000_0000u128;
        proof {
            let ri = pow(radix(), i as nat);
            lemma_limb_split(t as int);
            reveal(pow);
            lemma_pow_positive(radix(), i as nat);
            assert(pow(radix(), (i + 1) as nat) == radix() * ri);
            assert(out@.push(d).drop_last() =~= out@);
            assert(p@.take(i + 1).drop_last() =~= p@.take(i as int));
            assert(limbs_value(out@.push(d)) == limbs_value(out@) + ri * d);
            assert(limbs_value(p@.take(i + 1)) == limbs_value(p@.take(i as int)) + ri * pi);
            assert(c <= mg) by (nonlinear_arith)
                requires
                    t == pi * mg + carry,
                    t == d + radix() * c,
                    0 <= pi < radix(),
                    0 <= d,
                    0 <= carry <= mg,
            ;
            let vo = limbs_value(out@);
            let vp = limbs_value(p@.take(i as int));
            assert(vo + ri * d + pow(radix(), (i + 1) as nat) * c == mg * (vp + ri * pi))
                by (nonlinear_arith)
                requires
                    t == pi * mg + carry,
                    t == d + radix() * c,
                    pow(radix(), (i + 1) as nat) == radix() * ri,
                    vo + ri * carry == mg * vp,
            ;
            if pi != 0 && c == 0 {
                assert(pi * mg >= 1) by (nonlinear_arith)
                    requires
                        pi >= 1,
                        mg >= 1,
                ;
                assert(d != 0);
            }
        }
        out.push(d);
        carry = c;
        i = i + 1;
    }
    proof {
        assert(p@.take(p@.len() as int) =~= p@);
    }
    while carry > 0
        invariant
            limbs_value(out@) + pow(radix(), out@.len()) * carry == mg * limbs_value(p@),
            mg == m,
            carry == 0 ==> limbs_normal(out@),
        decreases carry,
    {
        let d: u32 = (carry % 0x1_0000_0000u128) as u32;
        let c: u128 = carry / 0x1_0000_0000u128;
        proof {
            let n = out@.len();
            let rn = pow(radix(), n);
            lemma_limb_split(carry as int);
            reveal(pow);
            assert(pow(radix(), n + 1) == radix() * rn);
            assert(out@.push(d).drop_last() =~= out@);
            assert(limbs_value(out@.push(d)) == limbs_value(out@) + rn * d);
            assert(rn * carry == rn * d + radix() * rn * c) by (nonlinear_arith)
                requires
                    carry == d + radix() * c,
            ;
            if c == 0 {
                assert(carry < radix()) by (nonlinear_arith)
                    requires
                        carry == d + radix() * c,
                        d < radix(),
                        c == 0,
                ;
            }
        }
        out.push(d);
        carry = c;
    }
    loop
        invariant
            limbs_value(out@) == mg * limbs_value(p@),
            mg == m,
        ensures
            limbs_value(out@) == mg * limbs_value(p@),
            limbs_normal(out@),
            mg == m,
        decreases out@.len(),
    {
        if out.len() == 0 || out[out.len() - 1] != 0 {
            break;
        }
        let ghost before = out@;
        out.pop();
        proof {
            assert(out@ =~= before.drop_last());
            let top = before.last() as int;
            let w = pow(radix(), (before.len() - 1) as nat);
            assert(top == 0);
            assert(w * top == 0) by (nonlinear_arith)
                requires
                    top == 0,
            ;
            assert(limbs_value(before) == limbs_value(before.drop_last()) + w * top);
        }
    }
    proof {
        let vp = limbs_value(p@);
        assert(mg * vp == vp * m) by (nonlinear_arith)
            requires
                mg == m,
        ;
    }
    out
}

/// Whether a big natural number is at least `2^e`.
fn reaches_pow2(p: &Vec<u32>, e: usize) -> (r: bool)
    requires
        limbs_normal(p@),
    ensures
        r == (limbs_value(p@) >= pow(2, e as nat)),
{
    let n = p.len();
    let j: usize = e / 32;
    let b: usize = e % 32;
    proof {
        lemma_pow2_split(e as nat);
        lemma_pow_positive(radix(), j as nat);
        lemma_pow_positive(2, b as nat);
        lemma_pow_positive(2, e as nat);
        lemma_limbs_bounds(p@);
        reveal(pow);
    }
    if n == 0 {
        return false;
    }
    let top = p[n - 1];
    let mut two_b: u64 = 1;
    let mut k: usize = 0;
    while k < b
        invariant
            k <= b < 32,
            two_b == pow(2, k as nat),
        decreases b - k,
    {
        proof {
            reveal(pow);
            lemma_pow_strictly_increases(2, k as nat, 32);
            lemma2_to64();
            lemma_pow2(32);
        }
        two_b = two_b * 2;
        k = k + 1;
    }
    proof {
        let rest = p@.drop_last();
        let lo = limbs_value(rest);
        let rn = pow(radix(), (n - 1) as nat);
        let rj = pow(radix(), j as nat);
        let tb = pow(2, b as nat);
        lemma_limbs_bounds(rest);
        lemma_pow_strictly_increases(2, b as nat, 32);
        lemma2_to64();
        lemma_pow2(32);
        assert(limbs_value(p@) == lo + rn * top);
        if n - 1 > j {
            lemma_pow_increases(radix() as nat, (j + 1) as nat, (n - 1) as nat);
            reveal(pow);
            assert(pow(radix(), (j + 1) as nat) == radix() * rj);
            assert(rj * tb <= rn * top) by (nonlinear_arith)
                requires
                    radix() * rj <= rn,
                    0 < tb < radix(),
                    top >= 1,
                    rj > 0,
            ;
        } else if n - 1 < j {
            lemma_pow_increases(radix() as nat, n as nat, j as nat);
            assert(rj <= rj * tb) by (nonlinear_arith)
                requires
                    rj > 0,
                    tb >= 1,
            ;
        } else {
            if top >= tb {
                assert(rj * tb <= rj * top) by (nonlinear_arith)
                    requires
                        rj > 0,
                        top >= tb,
                ;
            } else {
                assert(lo + rj * top < rj * tb) by (nonlinear_arith)
                    requires
                        0 <= lo < rj,
                        0 <= top,
                        top + 1 <= tb,
                ;
            }
        }
    }
    if n - 1 > j {
        true
    } else if n - 1 < j {
        false
    } else {
        top as u64 >= two_b
    }
}

/// The fewest words from a list of `list_length` words that give at least
/// `minimum_entropy` bits of entropy: the smallest `w` with
/// `w * log2(list_length) >= minimum_entropy`.
pub fn convert_minimum_entropy_to_number_of_words(
    minimum_entropy: usize,
    list_length: usize,
) -> (r: usize)
    requires
        list_length >= 2,
    ensures
        is_fewest_words(list_length as nat, r as nat, minimum_entropy as nat),
{
    let ghost l = list_length as int;
    let ghost e = minimum_entropy as nat;
    let mut power: Vec<u32> = vec![1u32];
    let mut words: usize = 0;
    proof {
        reveal(pow);
        assert(power@.drop_last() =~= Seq::<u32>::empty());
        assert(limbs_value(Seq::<u32>::empty()) == 0);
        assert(pow(radix(), 0) == 1);
        assert(limbs_value(power@) == 1);
    }
    while !reaches_pow2(&power, minimum_entropy)
        invariant
            l == list_length,
            l >= 2,
            e == minimum_entropy,
            limbs_normal(power@),
            limbs_value(power@) == pow(l, words as nat),
            words <= e,
            words == 0 || !entropy_reached(l as nat, (words - 1) as nat, e),
        decreases e - words,
    {
        proof {
            lemma_pow_base_increases(2, l as nat, words as nat);
            lemma_pow_strictly_increases_converse(2, words as nat, e);
            reveal(pow);
        }
        power = mul_limbs(&power, list_length as u64);
        proof {
            reveal(pow);
            assert(pow(l, (words + 1) as nat) == l * pow(l, words as nat));
        }
        words = words + 1;
    }
    words
}

/// The entropy, in bits, that the caller's settings ask for: the strength
/// level converted to bits, the larger of that and an explicit minimum when
/// both are given, and the default when neither is.
pub open spec fn effective_minimum_entropy(minimum_entropy: Option<usize>, strength_count: u8) -> nat {
    let from_strength = DEFAULT_MINIMUM_ENTROPY + strength_count * ENTROPY_PER_STRENGTH_LEVEL;
    if strength_count > 0 {
        match minimum_entropy {
            Some(m) => if m > from_strength { m as nat } else { from_strength as nat },
            None => from_strength as nat,
        }
    } else {
        match minimum_entropy {
            Some(m) => m as nat,
            None => DEFAULT_MINIMUM_ENTROPY as nat,
        }
    }
}

/// `words` is the number of words the caller's settings ask for: the explicit
/// count when one is given, else the fewest words that reach the effective
/// minimum entropy.
pub open spec fn planned_words(
    number_of_words: Option<usize>,
    minimum_entropy: Option<usize>,
    strength_count: u8,
    list_length: nat,
    words: nat,
) -> bool {
    match number_of_words {
        Some(n) => words == n,
        None => is_fewest_words(
            list_length,
            words,
            effective_minimum_entropy(minimum_entropy, strength_count),
        ),
    }
}

/// With an explicit minimum entropy `e > 0` and no strength level, the planned
/// count `w` is the least that suffices: `w * log2(list_length) >= e` and
/// `(w - 1) * log2(list_length) < e`.
pub proof fn lemma_planned_words_are_fewest(list_length: usize, minimum_entropy: usize, w: nat)
    requires
        list_length >= 2,
        minimum_entropy > 0,
        planned_words(None, Some(minimum_entropy), 0, list_length as nat, w),
    ensures
        w >= 1,
        entropy_reached(list_length as nat, w, minimum_entropy as nat),
        !entropy_reached(list_length as nat, (w - 1) as nat, minimum_entropy as nat),
{
    if w == 0 {
        lemma_pow0(list_length as int);
        lemma_pow0(2);
        lemma_pow_strictly_increases(2, 0, minimum_entropy as nat);
    }
}

/// How many words a passphrase needs: the explicit count when one is given,
/// else the fewest words that reach the effective minimum entropy.
pub fn calculate_number_words_needed(
    number_of_words: Option<usize>,
    minimum_entropy: Option<usize>,
    strength_count: u8,
    list_length: usize,
) -> (r: usize)
    requires
        number_of_words is None ==> list_length >= 2,
    ensures
        planned_words(
            number_of_words,
            minimum_entropy,
            strength_count,
            list_length as nat,
            r as nat,
        ),
{
    if let Some(n) = number_of_words {
        return n;
    }
    if strength_count > 0 {
        let from_strength: usize = DEFAULT_MINIMUM_ENTROPY + (strength_count as usize)
            * ENTROPY_PER_STRENGTH_LEVEL;
        let bits = match minimum_entropy {
            Some(m) => if m > from_strength { m } else { from_strength },
            None => from_strength,
        };
        return convert_minimum_entropy_to_number_of_words(bits, list_length);
    }
    match minimum_entropy {
        Some(m) => convert_minimum_entropy_to_number_of_words(m, list_length),
        None => convert_minimum_entropy_to_number_of_words(DEFAULT_MINIMUM_ENTROPY, list_length),
    }
}

} // verus!
