use vstd::prelude::*;

verus! {

/// Fractional part of the square root of 3.
pub const SQRT3: u64 = 0xbb67ae8584caa73b;

/// Fractional part of the square root of 5.
pub const SQRT5: u64 = 0x3c6ef372fe94f82b;

/// Fractional part of the square root of 19.
pub const SQRT19: u64 = 0x5be0cd19137e2179;

/// Increment of the counter word of `Konadare192PxPlusPlus`.
pub const KONADARE192_INC: u64 = 0xbb67ae8584caa73b;

/// Rotation of `x` to the right by `n` bits, `0 < n < 64`.
pub open spec fn rotr(x: u64, n: u64) -> u64 {
    (x >> n) | (x << ((64 - n) as u64))
}

fn rotate_right(x: u64, n: u64) -> (r: u64)
    requires
        0 < n < 64,
    ensures
        r == rotr(x, n),
{
    (x >> n) | (x << (64 - n))
}

// -------------------------------------------------------------------------------------------------
// KNOMUL
// -------------------------------------------------------------------------------------------------

/// One round `i` of the `KNOMUL` permutation on the pair `(x, c)`.
pub open spec fn knomul_round(x: u64, c: u64, i: u64) -> (u64, u64) {
    let x1 = x ^ rotr(x, 25) ^ rotr(x, 49);
    let c1 = c.wrapping_add(SQRT3.wrapping_add(c << 15u64).wrapping_add(c << 7u64).wrapping_add(i));
    let c2 = c1 ^ (c1 >> 47u64) ^ (c1 >> 23u64);
    let x2 = x1.wrapping_add(c2);
    let x3 = x2 ^ (x2 >> 11u64) ^ (x2 >> 3u64);
    (x3, c2)
}

/// The pair after rounds `0 .. n` of `KNOMUL`.
pub open spec fn knomul_rounds(x: u64, c: u64, n: nat) -> (u64, u64)
    decreases n,
{
    if n == 0 {
        (x, c)
    } else {
        let p = knomul_rounds(x, c, (n - 1) as nat);
        knomul_round(p.0, p.1, (n - 1) as u64)
    }
}

/// `KNOMUL`'s permutation of `x` indexed by `c`: five rounds.
pub open spec fn knomul_permute(x: u64, c: u64) -> u64 {
    knomul_rounds(x, c, 5).0
}

// -------------------------------------------------------------------------------------------------
// KSINK
// -------------------------------------------------------------------------------------------------

/// One round of the `KSINK` permutation on the pair `(x, c)`.
pub open spec fn ksink_round(x: u64, c: u64) -> (u64, u64) {
    let c1 = c.wrapping_add(SQRT3);
    let c2 = c1 ^ rotr(c1, 49) ^ rotr(c1, 25);
    let x1 = x ^ (x >> 47u64) ^ (x >> 29u64);
    let x2 = x1.wrapping_add(c2);
    let c3 = c2.wrapping_mul(SQRT5);
    let x3 = x2.wrapping_mul(SQRT19);
    (x3, c3)
}

/// The pair after `n` rounds of `KSINK`.
pub open spec fn ksink_rounds(x: u64, c: u64, n: nat) -> (u64, u64)
    decreases n,
{
    if n == 0 {
        (x, c)
    } else {
        let p = ksink_rounds(x, c, (n - 1) as nat);
        ksink_round(p.0, p.1)
    }
}

/// `KSINK`'s permutation of `x` indexed by `c`: three rounds.
pub open spec fn ksink_permute(x: u64, c: u64) -> u64 {
    ksink_rounds(x, c, 3).0
}

// -------------------------------------------------------------------------------------------------
// Hash, stir and mix, over either permutation
// -------------------------------------------------------------------------------------------------

/// The permutation of one of the two variants (`sink` selects `KSINK`).
pub open spec fn permute(sink: bool, x: u64, c: u64) -> u64 {
    if sink {
        ksink_permute(x, c)
    } else {
        knomul_permute(x, c)
    }
}

/// Left fold of `permute(byte, acc)` over `bytes`, starting from `seed`.
pub open spec fn hash_bytes(sink: bool, seed: u64, bytes: Seq<u8>) -> u64
    decreases bytes.len(),
{
    if bytes.len() == 0 {
        seed
    } else {
        permute(
            sink,
            bytes.last() as u64,
            hash_bytes(sink, seed, bytes.subrange(0, bytes.len() - 1)),
        )
    }
}

/// One stirring sweep over indices `0 .. k`: each word is permuted against its
/// left neighbour (cyclically), as it stands at that moment.
pub open spec fn sweep(sink: bool, s: Seq<u64>, k: nat) -> Seq<u64>
    decreases k,
{
    if k == 0 {
        s
    } else {
        let t = sweep(sink, s, (k - 1) as nat);
        let i: int = k - 1;
        let n: int = s.len() as int;
        t.update(i, permute(sink, t[i], t[(i + n - 1) % n]))
    }
}

/// All words are zero.
pub open spec fn all_zero(s: Seq<u64>) -> bool {
    forall|i: int| 0 <= i < s.len() ==> s[i] == 0
}

/// One full pass: a sweep and, where asked, the guard against the all-zero state.
pub open spec fn stir_pass(sink: bool, s: Seq<u64>, no_zeros: bool) -> Seq<u64> {
    let t = sweep(sink, s, s.len());
    if no_zeros && all_zero(t) {
        t.update(0, SQRT5)
    } else {
        t
    }
}

/// The state after `stir`.
pub open spec fn stirred(sink: bool, s: Seq<u64>, no_zeros: bool) -> Seq<u64> {
    if s.len() == 0 {
        s
    } else if s.len() == 1 {
        let x = permute(sink, s[0], SQRT19);
        if no_zeros && x == 0 {
            seq![permute(sink, 0, SQRT5)]
        } else {
            seq![x]
        }
    } else {
        stir_pass(sink, stir_pass(sink, s, no_zeros), no_zeros)
    }
}

/// `len` consecutive words from `seed` (wrapping).
pub open spec fn counted(seed: u64, len: nat) -> Seq<u64> {
    Seq::new(len, |i: int| seed.wrapping_add(i as u64))
}

/// The state after `mix`: counted words from `seed`, stirred with the guard on.
pub open spec fn mixed(sink: bool, seed: u64, len: nat) -> Seq<u64> {
    stirred(sink, counted(seed, len), true)
}

fn knomul_permute_exec(x: u64, c: u64) -> (r: u64)
    ensures
        r == knomul_permute(x, c),
{
    let mut x = x;
    let mut c = c;
    let ghost x0 = x;
    let ghost c0 = c;
    let mut i: u64 = 0;
    while i < 5
        invariant
            i <= 5,
            (x, c) == knomul_rounds(x0, c0, i as nat),
        decreases 5 - i,
    {
        x = x ^ rotate_right(x, 25) ^ rotate_right(x, 49);
        c = c.wrapping_add(SQRT3.wrapping_add(c << 15).wrapping_add(c << 7).wrapping_add(i));
        c = c ^ (c >> 47) ^ (c >> 23);
        x = x.wrapping_add(c);
        x = x ^ (x >> 11) ^ (x >> 3);
        i = i + 1;
    }
    x
}

fn ksink_permute_exec(x: u64, c: u64) -> (r: u64)
    ensures
        r == ksink_permute(x, c),
{
    let mut x = x;
    let mut c = c;
    let ghost x0 = x;
    let ghost c0 = c;
    let mut i: u64 = 0;
    while i < 3
        invariant
            i <= 3,
            (x, c) == ksink_rounds(x0, c0, i as nat),
        decreases 3 - i,
    {
        c = c.wrapping_add(SQRT3);
        c = c ^ rotate_right(c, 49) ^ rotate_right(c, 25);
        x = x ^ (x >> 47) ^ (x >> 29);
        x = x.wrapping_add(c);
        c = c.wrapping_mul(SQRT5);
        x = x.wrapping_mul(SQRT19);
        i = i + 1;
    }
    x
}

fn permute_exec(sink: bool, x: u64, c: u64) -> (r: u64)
    ensures
        r == permute(sink, x, c),
{
    if sink {
        ksink_permute_exec(x, c)
    } else {
        knomul_permute_exec(x, c)
    }
}

fn hash_exec(sink: bool, seed: u64, bytes: &[u8]) -> (r: u64)
    ensures
        r == hash_bytes(sink, seed, bytes@),
{
    let mut acc = seed;
    let mut i: usize = 0;
    while i < bytes.len()
        invariant
            i <= bytes@.len(),
            acc == hash_bytes(sink, seed, bytes@.subrange(0, i as int)),
        decreases bytes@.len() - i,
    {
        proof {
            let p = bytes@.subrange(0, i + 1);
            assert(p.subrange(0, p.len() - 1) =~= bytes@.subrange(0, i as int));
        }
        acc = permute_exec(sink, bytes[i] as u64, acc);
        i = i + 1;
    }
    assert(bytes@.subrange(0, bytes@.len() as int) =~= bytes@);
    acc
}

fn is_all_zero(s: &Vec<u64>) -> (r: bool)
    ensures
        r == all_zero(s@),
{
    let mut i: usize = 0;
    while i < s.len()
        invariant
            i <= s@.len(),
            forall|j: int| 0 <= j < i ==> s@[j] == 0,
        decreases s@.len() - i,
    {
        if s[i] != 0 {
            return false;
        }
        i = i + 1;
    }
    true
}

fn stir_pass_exec(sink: bool, s: &mut Vec<u64>, no_zeros: bool)
    requires
        old(s)@.len() >= 2,
    ensures
        final(s)@ == stir_pass(sink, old(s)@, no_zeros),
{
    let n = s.len();
    let ghost s0 = s@;
    let mut i: usize = 0;
    while i < n
        invariant
            n == s0.len(),
            n >= 2,
            i <= n,
            s@ == sweep(sink, s0, i as nat),
            s@.len() == n,
        decreases n - i,
    {
        proof {
            lemma_sweep_len(sink, s0, i as nat);
        }
        let k: usize = if i == 0 { n - 1 } else { i - 1 };
        proof {
            let (ii, nn) = (i as int, n as int);
            if ii == 0 {
                vstd::arithmetic::div_mod::lemma_mod_self_0(nn);
                assert((ii + nn - 1) % nn == nn - 1) by {
                    vstd::arithmetic::div_mod::lemma_small_mod((nn - 1) as nat, nn as nat);
                }
            } else {
                assert((ii + nn - 1) % nn == ii - 1) by {
                    vstd::arithmetic::div_mod::lemma_mod_add_multiples_vanish(ii - 1, nn);
                    vstd::arithmetic::div_mod::lemma_small_mod((ii - 1) as nat, nn as nat);
                }
            }
        }
        let left = s[k];
        let v = permute_exec(sink, s[i], left);
        s.set(i, v);
        i = i + 1;
    }
    if no_zeros && is_all_zero(s) {
        s.set(0, SQRT5);
    }
}

proof fn lemma_sweep_len(sink: bool, s: Seq<u64>, k: nat)
    requires
        k <= s.len(),
    ensures
        sweep(sink, s, k).len() == s.len(),
    decreases k,
{
    if k > 0 {
        lemma_sweep_len(sink, s, (k - 1) as nat);
    }
}

fn stir_exec(sink: bool, s: &mut Vec<u64>, no_zeros: bool)
    ensures
        final(s)@ == stirred(sink, old(s)@, no_zeros),
{
    let n = s.len();
    if n == 0 {
        return;
    }
    if n == 1 {
        let x = permute_exec(sink, s[0], SQRT19);
        if no_zeros && x == 0 {
            let y = permute_exec(sink, 0, SQRT5);
            s.set(0, y);
            assert(s@ =~= seq![permute(sink, 0, SQRT5)]);
        } else {
            s.set(0, x);
            assert(s@ =~= seq![x]);
        }
        return;
    }
    stir_pass_exec(sink, s, no_zeros);
    proof {
        lemma_sweep_len(sink, old(s)@, old(s)@.len());
    }
    stir_pass_exec(sink, s, no_zeros);
}

fn mix_exec(sink: bool, s: &mut Vec<u64>, seed: u64)
    requires
        old(s)@.len() < u64::MAX,
    ensures
        final(s)@ == mixed(sink, seed, old(s)@.len()),
{
    let n = s.len();
    let mut i: usize = 0;
    while i < n
        invariant
            n == s@.len(),
            n < u64::MAX,
            i <= n,
            forall|j: int| 0 <= j < i ==> s@[j] == seed.wrapping_add(j as u64),
        decreases n - i,
    {
        s.set(i, seed.wrapping_add(i as u64));
        i = i + 1;
    }
    assert(s@ =~= counted(seed, n as nat));
    stir_exec(sink, s, true);
}

/// The `KNOMUL` variant of the mixing primitive: five rounds of rotations,
/// shifts and additions. It seeds `Konadare192PxPlusPlus` and checksums the
/// legacy encoding.
pub struct KNOMUL;

impl KNOMUL {
    /// Permutes `x` with index `c`.
    pub fn permute_index(x: u64, c: u64) -> (r: u64)
        ensures
            r == knomul_permute(x, c),
    {
        knomul_permute_exec(x, c)
    }

    /// Stirs the words of `s`; with `dissallow_all_zeros` the result is never all zero.
    pub fn stir(s: &mut Vec<u64>, dissallow_all_zeros: bool)
        ensures
            final(s)@ == stirred(false, old(s)@, dissallow_all_zeros),
    {
        stir_exec(false, s, dissallow_all_zeros)
    }

    /// Sets `s[i] = seed + i` (wrapping) and stirs `s` with the all-zero guard on.
    pub fn mix(s: &mut Vec<u64>, seed: u64)
        requires
            old(s)@.len() < u64::MAX,
        ensures
            final(s)@ == mixed(false, seed, old(s)@.len()),
    {
        mix_exec(false, s, seed)
    }

    /// Folds `permute_index(byte, acc)` over `bytes`, `acc` starting at `seed`.
    pub fn hash(seed: u64, bytes: &[u8]) -> (r: u64)
        ensures
            r == hash_bytes(false, seed, bytes@),
    {
        hash_exec(false, seed, bytes)
    }
}

/// The `KSINK` variant of the mixing primitive: three rounds with
/// multiplications. It checksums revealed elements and the current encoding.
pub struct KSINK;

impl KSINK {
    /// Permutes `x` with index `c`.
    pub fn permute_index(x: u64, c: u64) -> (r: u64)
        ensures
            r == ksink_permute(x, c),
    {
        ksink_permute_exec(x, c)
    }

    /// Stirs the words of `s`; with `dissallow_all_zeros` the result is never all zero.
    pub fn stir(s: &mut Vec<u64>, dissallow_all_zeros: bool)
        ensures
            final(s)@ == stirred(true, old(s)@, dissallow_all_zeros),
    {
        stir_exec(true, s, dissallow_all_zeros)
    }

    /// Sets `s[i] = seed + i` (wrapping) and stirs `s` with the all-zero guard on.
    pub fn mix(s: &mut Vec<u64>, seed: u64)
        requires
            old(s)@.len() < u64::MAX,
        ensures
            final(s)@ == mixed(true, seed, old(s)@.len()),
    {
        mix_exec(true, s, seed)
    }

    /// Folds `permute_index(byte, acc)` over `bytes`, `acc` starting at `seed`.
    pub fn hash(seed: u64, bytes: &[u8]) -> (r: u64)
        ensures
            r == hash_bytes(true, seed, bytes@),
    {
        hash_exec(true, seed, bytes)
    }
}

// -------------------------------------------------------------------------------------------------
// Konadare192PxPlusPlus
// -------------------------------------------------------------------------------------------------

/// The state of the generator as three words `(a, b, c)`.
pub type RngState = (u64, u64, u64);

/// Upper bound on the redraws of one bounded draw; past it the last candidate is taken.
pub const MAX_REDRAWS: u64 = 0xffff_ffff_ffff_ffff;

/// The state that `from_seed(seed)` produces: three counted words, mixed by `KNOMUL`.
pub open spec fn seeded(seed: u64) -> RngState {
    let m = mixed(false, seed, 3);
    (m[0], m[1], m[2])
}

/// One step of the generator: the output `b ^ c` and the next state.
pub open spec fn step(s: RngState) -> (u64, RngState) {
    let (a, b, c) = s;
    let x = a ^ (a >> 32u64);
    let b1 = rotr(b.wrapping_add(x), 11);
    let c1 = rotr(c.wrapping_add(b1), 56);
    (b ^ c, (a.wrapping_add(KONADARE192_INC), b1, c1))
}

/// The 31-bit candidate taken from one output.
pub open spec fn candidate(out: u64) -> u32 {
    (out & 0x7fff_ffffu64) as u32
}

/// The rejection threshold `2^32 mod bound`.
pub open spec fn threshold_of(bound: u32) -> u32 {
    ((!bound).wrapping_add(1) % bound) as u32
}

/// A candidate is kept when the low word of `x * bound` is not under the threshold.
pub open spec fn accepted(x: u32, bound: u32) -> bool {
    x.wrapping_mul(bound) >= threshold_of(bound)
}

/// The number in `[0, bound)` that a kept candidate gives: the high word of `x * 2 * bound`.
pub open spec fn scaled(x: u32, bound: u32) -> u32 {
    (((x as u64 * ((bound as u64) << 1u64)) as u64) >> 32u64) as u32
}

/// A bounded draw from state `s` that may still redraw `fuel` times:
/// the number drawn and the state after it.
pub open spec fn draw_from(s: RngState, bound: u32, fuel: nat) -> (u32, RngState)
    decreases fuel,
{
    let (out, s1) = step(s);
    let x = candidate(out);
    if accepted(x, bound) || fuel == 0 {
        (scaled(x, bound), s1)
    } else {
        draw_from(s1, bound, (fuel - 1) as nat)
    }
}

/// The bounded draw of `next_with_upper_bound(bound)` from state `s`.
pub open spec fn bounded_draw(s: RngState, bound: u32) -> (u32, RngState) {
    draw_from(s, bound, MAX_REDRAWS as nat)
}

pub proof fn lemma_draw_from_in_range(s: RngState, bound: u32, fuel: nat)
    requires
        bound > 0,
    ensures
        draw_from(s, bound, fuel).0 < bound,
    decreases fuel,
{
    let x = candidate(step(s).0);
    lemma_candidate_small(step(s).0);
    lemma_scaled_in_range(x, bound);
    if !(accepted(x, bound) || fuel == 0) {
        lemma_draw_from_in_range(step(s).1, bound, (fuel - 1) as nat);
    }
}

proof fn lemma_double(bound: u32)
    ensures
        (bound as u64) << 1u64 == 2 * (bound as u64),
{
    let b = bound as u64;
    assert(b << 1u64 == 2 * b) by (bit_vector)
        requires
            b < 0x1_0000_0000u64,
    ;
}

proof fn lemma_product_fits(x: u32, bound: u32)
    requires
        x < 0x8000_0000,
    ensures
        (x as int) * (2 * bound as int) < 0x1_0000_0000_0000_0000,
{
    assert((x as int) * (2 * bound as int) < 0x1_0000_0000_0000_0000) by (nonlinear_arith)
        requires
            x < 0x8000_0000,
            bound < 0x1_0000_0000,
    ;
}

proof fn lemma_scaled_in_range(x: u32, bound: u32)
    requires
        bound > 0,
        x < 0x8000_0000,
    ensures
        scaled(x, bound) < bound,
{
    lemma_double(bound);
    lemma_product_fits(x, bound);
    let b = bound as u64;
    let p: u64 = (x as u64 * (b << 1u64)) as u64;
    assert(p as int == (x as int) * (2 * b as int));
    assert(p >> 32u64 == p / 0x1_0000_0000u64) by (bit_vector);
    assert(p / 0x1_0000_0000u64 < b) by (nonlinear_arith)
        requires
            p as int == (x as int) * (2 * b as int),
            x < 0x8000_0000,
            b > 0,
    ;
}

proof fn lemma_candidate_small(out: u64)
    ensures
        candidate(out) < 0x8000_0000,
{
    assert(out & 0x7fff_ffffu64 < 0x8000_0000u64) by (bit_vector);
}

fn take_candidate(out: u64) -> (x: u32)
    ensures
        x == candidate(out),
        x < 0x8000_0000,
{
    proof {
        lemma_candidate_small(out);
    }
    (out & 0x7fff_ffff) as u32
}

fn scale(x: u32, bound: u32) -> (m: u64)
    requires
        x < 0x8000_0000,
    ensures
        m == (x as u64 * ((bound as u64) << 1u64)) as u64,
        (m >> 32u64) as u32 == scaled(x, bound),
{
    proof {
        lemma_double(bound);
        lemma_product_fits(x, bound);
    }
    x as u64 * ((bound as u64) << 1)
}

/// A counter based generator of 192 bits of state. Its output is a function
/// of the seed alone, on every platform.
#[derive(Clone, Copy, Debug, PartialEq, Eq)]
pub struct Konadare192PxPlusPlus {
    a: u64,
    b: u64,
    c: u64,
}

impl View for Konadare192PxPlusPlus {
    type V = RngState;

    closed spec fn view(&self) -> RngState {
        (self.a, self.b, self.c)
    }
}

impl Konadare192PxPlusPlus {
    /// Creates a new `Konadare192PxPlusPlus` from `seed`.
    pub fn from_seed(seed: u64) -> (r: Konadare192PxPlusPlus)
        ensures
            r@ == seeded(seed),
    {
        let mut ss: Vec<u64> = vec![0u64, 0u64, 0u64];
        KNOMUL::mix(&mut ss, seed);
        proof {
            lemma_sweep_len(false, counted(seed, 3), 3);
            lemma_sweep_len(false, stir_pass(false, counted(seed, 3), true), 3);
        }
        Konadare192PxPlusPlus { a: ss[0], b: ss[1], c: ss[2] }
    }

    /// Next pseudo random number.
    pub fn next(&mut self) -> (r: u64)
        ensures
            (r, final(self)@) == step(old(self)@),
    {
        let out = self.b ^ self.c;
        let a = self.a ^ (self.a >> 32);
        self.a = self.a.wrapping_add(KONADARE192_INC);
        self.b = rotate_right(self.b.wrapping_add(a), 11);
        self.c = rotate_right(self.c.wrapping_add(self.b), 56);
        out
    }

    /// A pseudo random number in `[0, upper_bound)`, by Lemire's multiply and
    /// shift with rejection ("Fast Random Integer Generation in an Interval").
    pub fn next_with_upper_bound(&mut self, upper_bound: u32) -> (r: u32)
        requires
            upper_bound > 0,
        ensures
            (r, final(self)@) == bounded_draw(old(self)@, upper_bound),
            r < upper_bound,
    {
        let ghost s0 = self@;
        let mut prev = *self;
        let mut x: u32 = take_candidate(self.next());
        let mut m: u64 = scale(x, upper_bound);
        let mut l: u32 = x.wrapping_mul(upper_bound);
        let mut fuel: u64 = MAX_REDRAWS;
        if l < upper_bound {
            let t: u32 = (!upper_bound).wrapping_add(1) % upper_bound;
            while l < t && fuel > 0
                invariant
                    draw_from(s0, upper_bound, MAX_REDRAWS as nat) == draw_from(prev@, upper_bound, fuel as nat),
                    x == candidate(step(prev@).0),
                    self@ == step(prev@).1,
                    (m >> 32u64) as u32 == scaled(x, upper_bound),
                    x < 0x8000_0000,
                    l == x.wrapping_mul(upper_bound),
                    t == threshold_of(upper_bound),
                    upper_bound > 0,
                decreases fuel,
            {
                prev = *self;
                x = take_candidate(self.next());
                m = scale(x, upper_bound);
                l = x.wrapping_mul(upper_bound);
                fuel = fuel - 1;
            }
        }
        proof {
            lemma_draw_from_in_range(s0, upper_bound, MAX_REDRAWS as nat);
        }
        (m >> 32) as u32
    }
}

/// The generator as offered to a host: a thin handle on `Konadare192PxPlusPlus`.
pub struct PRNG(Konadare192PxPlusPlus);

impl View for PRNG {
    type V = RngState;

    closed spec fn view(&self) -> RngState {
        self.0@
    }
}

#[allow(non_snake_case)]
impl PRNG {
    /// Creates a new `PRNG` from `seed`.
    pub fn fromSeed(seed: u64) -> (r: PRNG)
        ensures
            r@ == seeded(seed),
    {
        PRNG(Konadare192PxPlusPlus::from_seed(seed))
    }

    /// Next pseudo random number.
    pub fn next(&mut self) -> (r: u64)
        ensures
            (r, final(self)@) == step(old(self)@),
    {
        self.0.next()
    }

    /// A pseudo random number in `[0, upperBound)`.
    pub fn nextWithUpperBound(&mut self, upperBound: u32) -> (r: u32)
        requires
            upperBound > 0,
        ensures
            (r, final(self)@) == bounded_draw(old(self)@, upperBound),
            r < upperBound,
    {
        self.0.next_with_upper_bound(upperBound)
    }
}

} // verus!
