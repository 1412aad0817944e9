//! Shannon entropy of first-label characters, in fixed point.
//!
//! The random-subdomain detector scores a source by the entropy of the
//! character distribution aggregated over the first label of every name the
//! source has queried.  Entropy is measured in millibits (thousandths of a
//! bit) so that the whole computation stays in integer arithmetic: for a
//! histogram with counts `c_i` summing to `n`, the score is
//! `(n*log2(n) - sum_i c_i*log2(c_i)) / n`, with each logarithm taken in
//! millibits by [`log2_millibits`].  Additions that could exceed the machine
//! word saturate instead of wrapping.

use vstd::prelude::*;
use vstd::string::StrSliceExecFns;
use vstd::arithmetic::power2::{
    pow2, lemma_pow2_unfold, lemma_pow2_strictly_increases, lemma2_to64,
    lemma2_to64_rest, lemma_pow2_pos,
};
use vstd::arithmetic::div_mod::lemma_multiply_divide_lt;

verus! {

/// One half of the fixed-point scale: fraction bits live below 2^32.
pub const FRAC_ONE: u128 = 0x1_0000_0000;

/// Twice the fixed-point scale.
pub const FRAC_TWO: u128 = 0x2_0000_0000;

/// Floor of the base-2 logarithm.
pub open spec fn spec_floor_log2(x: u64) -> nat
    decreases x,
{
    if x < 2 {
        0
    } else {
        1 + spec_floor_log2(x / 2)
    }
}

proof fn lemma_floor_log2_bounds(x: u64)
    requires
        x >= 1,
    ensures
        pow2(spec_floor_log2(x)) <= x < pow2(spec_floor_log2(x) + 1),
        spec_floor_log2(x) <= 63,
    decreases x,
{
    if x < 2 {
        assert(pow2(0) == 1) by {
            lemma2_to64();
        }
        assert(pow2(1) == 2) by {
            lemma2_to64();
        }
    } else {
        lemma_floor_log2_bounds(x / 2);
        let k = spec_floor_log2(x / 2);
        lemma_pow2_unfold(k + 1);
        lemma_pow2_unfold(k + 2);
        assert(pow2(k + 1) == 2 * pow2(k));
        assert(pow2(k + 2) == 2 * pow2(k + 1));
        assert(pow2(k + 1) <= x);
        assert(x < pow2(k + 2));
        // the result cannot reach 64 because x fits in a u64
        assert(pow2(64) == 0x10000000000000000) by {
            lemma2_to64_rest();
        }
        if spec_floor_log2(x) > 63 {
            if spec_floor_log2(x) > 64 {
                lemma_pow2_strictly_increases(64, spec_floor_log2(x));
            }
            assert(pow2(spec_floor_log2(x)) >= pow2(64));
            assert(false);
        }
    }
}

/// Floor of the base-2 logarithm of a positive number.
fn floor_log2(x: u64) -> (k: u64)
    requires
        x >= 1,
    ensures
        k as nat == spec_floor_log2(x),
        k <= 63,
{
    let mut y: u64 = x;
    let mut k: u64 = 0;
    proof {
        assert(pow2(0) == 1) by {
            lemma2_to64();
        }
    }
    while y >= 2
        invariant
            y >= 1,
            spec_floor_log2(x) == k + spec_floor_log2(y),
            pow2(k as nat) * y <= x,
        decreases y,
    {
        proof {
            lemma_pow2_unfold(k as nat + 1);
            assert(pow2(k as nat + 1) * (y / 2) <= pow2(k as nat) * y) by (nonlinear_arith)
                requires
                    pow2(k as nat + 1) == 2 * pow2(k as nat),
                    y >= 2,
            ;
            // k stays below 64, so k + 1 cannot overflow
            assert(pow2(64) == 0x10000000000000000) by {
                lemma2_to64_rest();
            }
            lemma_pow2_pos(k as nat);
            assert(pow2(k as nat) <= pow2(k as nat) * y) by (nonlinear_arith)
                requires
                    y >= 1,
                    pow2(k as nat) >= 1,
            ;
            if k as nat >= 64 {
                if k as nat > 64 {
                    lemma_pow2_strictly_increases(64, k as nat);
                }
                assert(false);
            }
        }
        y = y / 2;
        k = k + 1;
    }
    proof {
        lemma_floor_log2_bounds(x);
    }
    k
}

/// `pow2` as an executable function.
fn pow2_u64(k: u64) -> (p: u64)
    requires
        k <= 63,
    ensures
        p as nat == pow2(k as nat),
        p >= 1,
{
    let mut p: u64 = 1;
    let mut i: u64 = 0;
    proof {
        assert(pow2(0) == 1) by {
            lemma2_to64();
        }
    }
    while i < k
        invariant
            i <= k,
            k <= 63,
            p as nat == pow2(i as nat),
            p >= 1,
        decreases k - i,
    {
        proof {
            lemma_pow2_unfold(i as nat + 1);
            if i as nat + 1 < 64 {
                lemma_pow2_strictly_increases(i as nat + 1, 64);
            }
            assert(pow2(64) == 0x10000000000000000) by {
                lemma2_to64_rest();
            }
        }
        p = p * 2;
        i = i + 1;
    }
    p
}

/// The first `n` binary fraction digits of `log2(q / 2^32)`, read as an
/// integer with the leading digit most significant.
pub open spec fn spec_frac_bits(q: int, n: nat) -> int
    decreases n,
{
    if n == 0 {
        0
    } else {
        let q2 = (q * q) / (FRAC_ONE as int);
        if q2 >= FRAC_TWO as int {
            pow2((n - 1) as nat) as int + spec_frac_bits(q2 / 2, (n - 1) as nat)
        } else {
            spec_frac_bits(q2, (n - 1) as nat)
        }
    }
}

proof fn lemma_frac_bits_bound(q: int, n: nat)
    ensures
        0 <= spec_frac_bits(q, n) < pow2(n),
    decreases n,
{
    if n == 0 {
        assert(pow2(0) == 1) by {
            lemma2_to64();
        }
    } else {
        let q2 = (q * q) / (FRAC_ONE as int);
        lemma_frac_bits_bound(q2 / 2, (n - 1) as nat);
        lemma_frac_bits_bound(q2, (n - 1) as nat);
        lemma_pow2_unfold(n);
    }
}

/// Sixteen binary fraction digits of `log2(q0 / 2^32)`, by repeated
/// squaring of the fixed-point mantissa.
fn frac16(q0: u128) -> (f: u64)
    requires
        q0 < FRAC_TWO,
    ensures
        f as int == spec_frac_bits(q0 as int, 16),
        f < 0x1_0000,
{
    let mut q: u128 = q0;
    let mut f: u64 = 0;
    let mut i: u64 = 0;
    proof {
        assert(pow2(0) == 1 && pow2(16) == 0x1_0000) by {
            lemma2_to64();
        }
    }
    while i < 16
        invariant
            i <= 16,
            q < FRAC_TWO,
            (f as int) < pow2(i as nat),
            spec_frac_bits(q0 as int, 16) == f as int * pow2((16 - i) as nat) + spec_frac_bits(
                q as int,
                (16 - i) as nat,
            ),
        decreases 16 - i,
    {
        let ghost f_o: int = f as int;
        let ghost q_o: int = q as int;
        let ghost n: nat = (16 - i) as nat;
        proof {
            assert(q * q < 0x4_0000_0000_0000_0000) by (nonlinear_arith)
                requires
                    q < 0x2_0000_0000u128,
            ;
        }
        let q2: u128 = (q * q) / FRAC_ONE;
        proof {
            lemma_pow2_unfold(n);
            lemma_pow2_unfold(i as nat + 1);
            assert(pow2(16) == 0x1_0000) by {
                lemma2_to64();
            }
            if i as nat + 1 < 16 {
                lemma_pow2_strictly_increases(i as nat + 1, 16);
            }
        }
        let ghost bit: int = if q2 >= FRAC_TWO {
            1int
        } else {
            0int
        };
        if q2 >= FRAC_TWO {
            q = q2 / 2;
            f = f * 2 + 1;
        } else {
            q = q2;
            f = f * 2;
        }
        i = i + 1;
        proof {
            let m: nat = (16 - i) as nat;
            assert(spec_frac_bits(q_o, n) == bit * pow2(m) + spec_frac_bits(q as int, m));
            assert((2 * f_o + bit) * pow2(m) == f_o * pow2(n) + bit * pow2(m)) by (nonlinear_arith)
                requires
                    pow2(n) == 2 * pow2(m),
            ;
            assert(f as int == 2 * f_o + bit);
        }
    }
    proof {
        assert(pow2(0) == 1) by {
            lemma2_to64();
        }
        assert(spec_frac_bits(q as int, 0) == 0);
        assert(f as int * pow2(0) == f as int) by (nonlinear_arith)
            requires
                pow2(0) == 1,
        ;
    }
    f
}

/// Base-2 logarithm in millibits; 0 maps to 0.
pub open spec fn spec_log2_millibits(x: u64) -> int {
    if x == 0 {
        0
    } else {
        let k = spec_floor_log2(x);
        let q0 = (x * FRAC_ONE) / (pow2(k) as int);
        k * 1000 + (spec_frac_bits(q0, 16) * 1000) / 0x1_0000
    }
}

proof fn lemma_log2_millibits_bound(x: u64)
    ensures
        0 <= spec_log2_millibits(x) < 64000,
{
    if x != 0 {
        let k = spec_floor_log2(x);
        let q0 = (x * FRAC_ONE) / (pow2(k) as int);
        lemma_floor_log2_bounds(x);
        lemma_frac_bits_bound(q0, 16);
        assert(pow2(16) == 0x1_0000) by {
            lemma2_to64();
        }
        assert(spec_frac_bits(q0, 16) * 1000 < 0x1_0000 * 1000) by (nonlinear_arith)
            requires
                spec_frac_bits(q0, 16) < 0x1_0000,
        ;
        assert((spec_frac_bits(q0, 16) * 1000) / 0x1_0000 < 1000);
        assert(spec_frac_bits(q0, 16) * 1000 >= 0) by (nonlinear_arith)
            requires
                spec_frac_bits(q0, 16) >= 0,
        ;
    }
}

/// Base-2 logarithm in millibits, e.g. 1 maps to 0 and 2 maps to 1000.
pub fn log2_millibits(x: u64) -> (m: u64)
    ensures
        m as int == spec_log2_millibits(x),
        m < 64000,
{
    if x == 0 {
        return 0;
    }
    let k = floor_log2(x);
    let p = pow2_u64(k);
    let q0: u128 = ((x as u128) * FRAC_ONE) / (p as u128);
    proof {
        lemma_floor_log2_bounds(x);
        lemma_pow2_unfold(k as nat + 1);
        assert((x as int) < 2 * (p as int));
        assert((x as int) * (FRAC_ONE as int) < (p as int) * (FRAC_TWO as int)) by (nonlinear_arith)
            requires
                (x as int) < 2 * (p as int),
                (FRAC_TWO as int) == 2 * (FRAC_ONE as int),
                p >= 1,
                FRAC_ONE >= 1,
        ;
        lemma_multiply_divide_lt((x as int) * (FRAC_ONE as int), p as int, FRAC_TWO as int);
        assert(q0 < FRAC_TWO);
    }
    let f = frac16(q0);
    proof {
        lemma_log2_millibits_bound(x);
    }
    k * 1000 + (f * 1000) / 0x1_0000
}

/// Index of the first histogram entry for character `c`, or `-1`.
pub open spec fn char_find(h: Seq<(char, u64)>, c: char) -> int
    decreases h.len(),
{
    if h.len() == 0 {
        -1
    } else if h[0].0 == c {
        0
    } else {
        let r = char_find(h.skip(1), c);
        if r < 0 {
            -1
        } else {
            r + 1
        }
    }
}

pub proof fn lemma_char_find_of_match(h: Seq<(char, u64)>, c: char, i: int)
    requires
        0 <= i < h.len(),
        h[i].0 == c,
        forall|j: int| 0 <= j < i ==> h[j].0 != c,
    ensures
        char_find(h, c) == i,
    decreases h.len(),
{
    if i == 0 {
    } else {
        assert forall|j: int| 0 <= j < i - 1 implies h.skip(1)[j].0 != c by {
            assert(h.skip(1)[j] == h[j + 1]);
        }
        assert(h.skip(1)[i - 1] == h[i]);
        lemma_char_find_of_match(h.skip(1), c, i - 1);
    }
}

pub proof fn lemma_char_find_none(h: Seq<(char, u64)>, c: char)
    requires
        forall|j: int| 0 <= j < h.len() ==> h[j].0 != c,
    ensures
        char_find(h, c) == -1,
    decreases h.len(),
{
    if h.len() == 0 {
    } else {
        assert forall|j: int| 0 <= j < h.skip(1).len() implies h.skip(1)[j].0 != c by {
            assert(h.skip(1)[j] == h[j + 1]);
        }
        lemma_char_find_none(h.skip(1), c);
    }
}

/// One more observation of character `c`: bump its count, saturating, or
/// open a new entry with count 1.
pub open spec fn spec_histo_add(h: Seq<(char, u64)>, c: char) -> Seq<(char, u64)> {
    let i = char_find(h, c);
    if i >= 0 {
        h.update(i, (c, h[i].1.saturating_add(1)))
    } else {
        h.push((c, 1u64))
    }
}

fn histo_add(h: &mut Vec<(char, u64)>, c: char)
    ensures
        final(h)@ == spec_histo_add(old(h)@, c),
{
    let n = h.len();
    let mut i: usize = 0;
    while i < n
        invariant
            n == h@.len(),
            i <= n,
            h@ == old(h)@,
            forall|j: int| 0 <= j < i ==> h@[j].0 != c,
        decreases n - i,
    {
        if h[i].0 == c {
            proof {
                lemma_char_find_of_match(h@, c, i as int);
            }
            let e = &mut h[i];
            let n1 = e.1.saturating_add(1);
            e.1 = n1;
            proof {
                assert(h@ =~= spec_histo_add(old(h)@, c));
            }
            return ;
        }
        i += 1;
    }
    proof {
        lemma_char_find_none(h@, c);
    }
    h.push((c, 1));
}

/// Index of the first dot in a name, or `-1` when it has none.
pub open spec fn spec_dot(s: Seq<char>) -> int
    decreases s.len(),
{
    if s.len() == 0 {
        -1
    } else if s[0] == '.' {
        0
    } else {
        let r = spec_dot(s.skip(1));
        if r < 0 {
            -1
        } else {
            r + 1
        }
    }
}

pub proof fn lemma_spec_dot_of_match(s: Seq<char>, i: int)
    requires
        0 <= i < s.len(),
        s[i] == '.',
        forall|j: int| 0 <= j < i ==> s[j] != '.',
    ensures
        spec_dot(s) == i,
    decreases s.len(),
{
    if i == 0 {
    } else {
        assert forall|j: int| 0 <= j < i - 1 implies s.skip(1)[j] != '.' by {
            assert(s.skip(1)[j] == s[j + 1]);
        }
        assert(s.skip(1)[i - 1] == s[i]);
        lemma_spec_dot_of_match(s.skip(1), i - 1);
    }
}

pub proof fn lemma_spec_dot_none(s: Seq<char>)
    requires
        forall|j: int| 0 <= j < s.len() ==> s[j] != '.',
    ensures
        spec_dot(s) == -1,
    decreases s.len(),
{
    if s.len() == 0 {
    } else {
        assert forall|j: int| 0 <= j < s.skip(1).len() implies s.skip(1)[j] != '.' by {
            assert(s.skip(1)[j] == s[j + 1]);
        }
        lemma_spec_dot_none(s.skip(1));
    }
}

/// The first label of a queried name: everything before the first dot.
pub open spec fn spec_first_label(d: Seq<char>) -> Seq<char> {
    if spec_dot(d) >= 0 {
        d.subrange(0, spec_dot(d))
    } else {
        d
    }
}

/// Fold a run of characters into the histogram.
pub open spec fn spec_histo_chars(h: Seq<(char, u64)>, cs: Seq<char>) -> Seq<(char, u64)>
    decreases cs.len(),
{
    if cs.len() == 0 {
        h
    } else {
        spec_histo_add(spec_histo_chars(h, cs.drop_last()), cs.last())
    }
}

/// Count a run of characters, saturating.
pub open spec fn spec_count_chars(t: u64, cs: Seq<char>) -> u64
    decreases cs.len(),
{
    if cs.len() == 0 {
        t
    } else {
        spec_count_chars(t, cs.drop_last()).saturating_add(1)
    }
}

/// The histogram and total character count over the first labels of a run
/// of names.
pub open spec fn spec_process(ds: Seq<Seq<char>>) -> (Seq<(char, u64)>, u64)
    decreases ds.len(),
{
    if ds.len() == 0 {
        (Seq::<(char, u64)>::empty(), 0u64)
    } else {
        let p = spec_process(ds.drop_last());
        let label = spec_first_label(ds.last());
        (spec_histo_chars(p.0, label), spec_count_chars(p.1, label))
    }
}

/// Addition capped at the largest `u128` value.
pub open spec fn sat128(a: int, b: int) -> int {
    if a + b > u128::MAX {
        u128::MAX as int
    } else {
        a + b
    }
}

/// Left fold of `count * log2(count)` over the histogram, saturating.
pub open spec fn spec_weight_sum_from(acc: int, h: Seq<(char, u64)>) -> int
    decreases h.len(),
{
    if h.len() == 0 {
        acc
    } else {
        spec_weight_sum_from(sat128(acc, h[0].1 * spec_log2_millibits(h[0].1)), h.skip(1))
    }
}

/// Shannon entropy, in millibits, of the character distribution over the
/// first labels of the given names: `(n*log2(n) - sum_i c_i*log2(c_i)) / n`
/// for histogram counts `c_i` summing to `n`; an empty distribution has
/// entropy 0.
pub open spec fn spec_entropy_millibits(ds: Seq<Seq<char>>) -> int {
    let p = spec_process(ds);
    let total = p.1;
    if total == 0 {
        0
    } else {
        let a = total * spec_log2_millibits(total);
        let b = spec_weight_sum_from(0, p.0);
        if a >= b {
            (a - b) / (total as int)
        } else {
            0
        }
    }
}

/// Character position of the first dot of `s`, or the character length when
/// `s` has no dot.
fn first_dot(s: &str) -> (cut: usize)
    ensures
        cut as int == (if spec_dot(s@) >= 0 {
            spec_dot(s@)
        } else {
            s@.len() as int
        }),
        cut <= s@.len(),
{
    let len = s.unicode_len();
    let mut j: usize = 0;
    while j < len
        invariant
            j <= len,
            len as nat == s@.len(),
            forall|jj: int| 0 <= jj < j ==> s@[jj] != '.',
        decreases len - j,
    {
        if s.get_char(j) == '.' {
            proof {
                lemma_spec_dot_of_match(s@, j as int);
            }
            return j;
        }
        j += 1;
    }
    proof {
        lemma_spec_dot_none(s@);
    }
    len
}

/// Shannon entropy in millibits of the first-label character distribution
/// of `domains`; see [`spec_entropy_millibits`].
pub fn entropy_millibits(domains: &Vec<String>) -> (e: u128)
    ensures
        e as int == spec_entropy_millibits(domains@.map_values(|s: String| s@)),
{
    let ghost ds = domains@.map_values(|s: String| s@);
    let mut h: Vec<(char, u64)> = Vec::new();
    let mut total: u64 = 0;
    let nd = domains.len();
    let mut i: usize = 0;
    proof {
        assert(ds.subrange(0, 0) =~= Seq::<Seq<char>>::empty());
    }
    while i < nd
        invariant
            nd == domains@.len(),
            i <= nd,
            ds == domains@.map_values(|s: String| s@),
            h@ == spec_process(ds.subrange(0, i as int)).0,
            total == spec_process(ds.subrange(0, i as int)).1,
        decreases nd - i,
    {
        let s: &str = domains[i].as_str();
        let ghost dv = s@;
        let ghost h0 = h@;
        let ghost t0 = total;
        proof {
            assert(ds[i as int] == dv);
        }
        let ghost label = spec_first_label(dv);
        let cut = first_dot(s);
        proof {
            assert(label =~= dv.subrange(0, cut as int));
            assert(label.subrange(0, 0) =~= Seq::<char>::empty());
        }
        let mut j: usize = 0;
        while j < cut
            invariant
                j <= cut,
                cut <= dv.len(),
                dv == s@,
                label == spec_first_label(dv),
                label =~= dv.subrange(0, cut as int),
                h@ == spec_histo_chars(h0, label.subrange(0, j as int)),
                total == spec_count_chars(t0, label.subrange(0, j as int)),
            decreases cut - j,
        {
            let c = s.get_char(j);
            proof {
                assert(label.subrange(0, j + 1).drop_last() =~= label.subrange(0, j as int));
                assert(label.subrange(0, j + 1).last() == dv[j as int]);
            }
            histo_add(&mut h, c);
            total = total.saturating_add(1);
            j += 1;
        }
        proof {
            assert(label.subrange(0, cut as int) =~= label);
            assert(ds.subrange(0, i + 1).drop_last() =~= ds.subrange(0, i as int));
            assert(ds.subrange(0, i + 1).last() == ds[i as int]);
        }
        i += 1;
    }
    proof {
        assert(ds.subrange(0, nd as int) =~= ds);
    }
    if total == 0 {
        return 0;
    }
    let lm = log2_millibits(total);
    proof {
        assert((total as int) * (lm as int) <= u128::MAX) by (nonlinear_arith)
            requires
                total <= u64::MAX,
                lm < 64000,
        ;
    }
    let a: u128 = (total as u128) * (lm as u128);
    let mut b: u128 = 0;
    let nh = h.len();
    let mut t: usize = 0;
    proof {
        assert(h@.skip(0) =~= h@);
    }
    while t < nh
        invariant
            nh == h@.len(),
            t <= nh,
            spec_weight_sum_from(b as int, h@.skip(t as int)) == spec_weight_sum_from(0, h@),
        decreases nh - t,
    {
        let cnt = h[t].1;
        let clm = log2_millibits(cnt);
        proof {
            assert((cnt as int) * (clm as int) <= u128::MAX) by (nonlinear_arith)
                requires
                    cnt <= u64::MAX,
                    clm < 64000,
            ;
            assert(h@.skip(t as int)[0] == h@[t as int]);
            assert(h@.skip(t as int).skip(1) =~= h@.skip(t + 1));
        }
        let term: u128 = (cnt as u128) * (clm as u128);
        b = b.saturating_add(term);
        t += 1;
    }
    proof {
        assert(h@.skip(nh as int) =~= Seq::<(char, u64)>::empty());
    }
    if a >= b {
        (a - b) / (total as u128)
    } else {
        0
    }
}

} // verus!
