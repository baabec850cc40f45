//! Sets of squares packed into a `u64`, one bit per square.
//!
//! Square `s` is the bit of weight `2^s`, with a1 at 0, b1 at 1 and h8 at 63.
//! Specifications speak of such a set through [`on`], and count and add over
//! it through [`tally`] and [`total`].

use vstd::prelude::*;

verus! {

/// Whether square `s` is in the set `bits`.
pub open spec fn on(bits: u64, s: int) -> bool {
    0 <= s < 64 && (bits >> (s as u64)) & 1 == 1
}

/// How many of the squares below `n` satisfy `p`.
pub open spec fn tally_below(p: spec_fn(int) -> bool, n: nat) -> nat
    decreases n,
{
    if n == 0 {
        0
    } else {
        tally_below(p, (n - 1) as nat) + if p(n - 1) { 1nat } else { 0nat }
    }
}

/// How many of the 64 squares satisfy `p`.
pub open spec fn tally(p: spec_fn(int) -> bool) -> nat {
    tally_below(p, 64)
}

/// The sum of `f` over the squares below `n` that are in `bits`.
pub open spec fn total_below(bits: u64, f: spec_fn(int) -> int, n: nat) -> int
    decreases n,
{
    if n == 0 {
        0
    } else {
        total_below(bits, f, (n - 1) as nat) + if on(bits, n - 1) { f(n - 1) } else { 0 }
    }
}

/// The sum of `f` over the squares in `bits`.
pub open spec fn total(bits: u64, f: spec_fn(int) -> int) -> int {
    total_below(bits, f, 64)
}

/// The predicate of being in `bits`, for counting.
pub open spec fn member(bits: u64) -> spec_fn(int) -> bool {
    |s: int| on(bits, s)
}

/// Whether the set holds the squares of the board that satisfy `p`, and no others.
pub open spec fn holds_just(bits: u64, p: spec_fn(int) -> bool) -> bool {
    forall|s: int| #[trigger] on(bits, s) == (0 <= s < 64 && p(s))
}

/// [`u64::count_ones`] returns the number of ones in the binary representation,
/// which is the number of squares in the set.
pub assume_specification[ u64::count_ones ](x: u64) -> (n: u32)
    ensures
        n == tally(member(x)),
;

pub proof fn lemma_tally_bound(p: spec_fn(int) -> bool, n: nat)
    ensures
        tally_below(p, n) <= n,
    decreases n,
{
    if n > 0 {
        lemma_tally_bound(p, (n - 1) as nat);
    }
}

/// Two predicates that agree on the board count the same.
pub proof fn lemma_tally_same(p: spec_fn(int) -> bool, q: spec_fn(int) -> bool, n: nat)
    requires
        forall|s: int| 0 <= s < n ==> #[trigger] p(s) == q(s),
    ensures
        tally_below(p, n) == tally_below(q, n),
    decreases n,
{
    if n > 0 {
        lemma_tally_same(p, q, (n - 1) as nat);
        assert(p(n - 1) == q(n - 1));
    }
}

/// The bitwise operators are the set operators.
pub proof fn lemma_ops(a: u64, b: u64)
    ensures
        forall|s: int| #![trigger on(a & b, s)] on(a & b, s) == (on(a, s) && on(b, s)),
        forall|s: int| #![trigger on(a | b, s)] on(a | b, s) == (on(a, s) || on(b, s)),
{
    assert forall|s: int| #![trigger on(a & b, s)] on(a & b, s) == (on(a, s) && on(b, s)) by {
        if 0 <= s < 64 {
            let k = s as u64;
            assert(((a & b) >> k) & 1 == 1 <==> (a >> k) & 1 == 1 && (b >> k) & 1 == 1)
                by (bit_vector);
        }
    }
    assert forall|s: int| #![trigger on(a | b, s)] on(a | b, s) == (on(a, s) || on(b, s)) by {
        if 0 <= s < 64 {
            let k = s as u64;
            assert(((a | b) >> k) & 1 == 1 <==> (a >> k) & 1 == 1 || (b >> k) & 1 == 1)
                by (bit_vector);
        }
    }
}

/// The complement holds the squares of the board that the set does not.
pub proof fn lemma_not(a: u64)
    ensures
        forall|s: int| #![trigger on(!a, s)] on(!a, s) == (0 <= s < 64 && !on(a, s)),
{
    assert forall|s: int| #![trigger on(!a, s)] on(!a, s) == (0 <= s < 64 && !on(a, s)) by {
        if 0 <= s < 64 {
            let k = s as u64;
            assert(((!a) >> k) & 1 == 1 <==> (a >> k) & 1 != 1) by (bit_vector)
                requires
                    k < 64,
            ;
        }
    }
}

/// The empty set holds nothing, and only it does.
pub proof fn lemma_empty(a: u64)
    ensures
        a == 0 <==> (forall|s: int| !on(a, s)),
{
    if a == 0 {
        assert forall|s: int| !on(a, s) by {
            if 0 <= s < 64 {
                let k = s as u64;
                assert((0u64 >> k) & 1 == 0) by (bit_vector);
            }
        }
    } else {
        vstd::std_specs::bits::axiom_u64_trailing_zeros(a);
        let z = vstd::std_specs::bits::u64_trailing_zeros(a);
        assert(on(a, z as int));
    }
}

/// Taking one square out of a set takes its term out of the sum.
pub proof fn lemma_total_pop(bits: u64, rest: u64, f: spec_fn(int) -> int, square: int, n: nat)
    requires
        on(bits, square),
        forall|s: int| #![trigger on(rest, s)] on(rest, s) == (on(bits, s) && s != square),
    ensures
        total_below(bits, f, n) == total_below(rest, f, n) + if square < n { f(square) } else { 0 },
    decreases n,
{
    if n > 0 {
        lemma_total_pop(bits, rest, f, square, (n - 1) as nat);
        assert(on(rest, n - 1) == (on(bits, n - 1) && n - 1 != square));
    }
}

/// The sum over no squares.
pub proof fn lemma_total_empty(f: spec_fn(int) -> int, n: nat)
    ensures
        total_below(0, f, n) == 0,
    decreases n,
{
    if n > 0 {
        lemma_total_empty(f, (n - 1) as nat);
        lemma_empty(0);
        assert(!on(0, n - 1));
    }
}

/// A sum of terms of at most `bound` each.
pub proof fn lemma_total_bound(bits: u64, f: spec_fn(int) -> int, bound: int, n: nat)
    requires
        0 <= bound,
        forall|s: int| 0 <= s < 64 && on(bits, s) ==> -bound <= #[trigger] f(s) <= bound,
        n <= 64,
    ensures
        -(n * bound) <= total_below(bits, f, n) <= n * bound,
    decreases n,
{
    if n > 0 {
        lemma_total_bound(bits, f, bound, (n - 1) as nat);
        assert((n - 1) * bound + bound == n * bound) by (nonlinear_arith);
        if on(bits, n - 1) {
            assert(-bound <= f(n - 1) <= bound);
        }
    }
}

/// The set that holds just `square`.
pub fn only(square: u8) -> (bits: u64)
    requires
        square < 64,
    ensures
        bits == 1u64 << (square as u64),
        forall|s: int| #![trigger on(bits, s)] on(bits, s) == (s == square),
{
    let k: u64 = square as u64;
    let bits: u64 = 1u64 << k;
    proof {
        assert forall|s: int| #![trigger on(bits, s)] on(bits, s) == (s == square) by {
            if 0 <= s < 64 {
                let j = s as u64;
                assert(((1u64 << k) >> j) & 1 == 1 <==> j == k) by (bit_vector)
                    requires
                        k < 64,
                        j < 64,
                ;
            }
        }
    }
    bits
}

/// Whether the set holds `square`.
pub fn contains(bits: u64, square: u8) -> (held: bool)
    requires
        square < 64,
    ensures
        held == on(bits, square as int),
{
    let k: u64 = square as u64;
    (bits >> k) & 1 == 1
}

/// The lowest square of a set that is not empty, and the set without it.
pub fn pop_lowest(bits: u64) -> (popped: (u8, u64))
    requires
        bits != 0,
    ensures
        popped.0 < 64,
        on(bits, popped.0 as int),
        forall|s: int| 0 <= s < popped.0 ==> !on(bits, s),
        forall|s: int|
            #![trigger on(popped.1, s)]
            on(popped.1, s) == (on(bits, s) && s != popped.0),
        popped.1 < bits,
{
    let zeros: u32 = bits.trailing_zeros();
    proof {
        vstd::std_specs::bits::axiom_u64_trailing_zeros(bits);
    }
    let rest: u64 = bits & (bits - 1);
    proof {
        let z = zeros as u64;
        assert((bits & ((bits - 1) as u64)) < bits) by (bit_vector)
            requires
                bits != 0,
        ;
        assert forall|s: int| 0 <= s < zeros implies !on(bits, s) by {
            let k = s as u64;
            assert((bits >> k) & 1 == 0);
        }
        assert forall|s: int| #![trigger on(rest, s)] on(rest, s) == (on(bits, s) && s
            != zeros) by {
            if 0 <= s < 64 {
                let k = s as u64;
                assert(((bits & ((bits - 1) as u64)) >> k) & 1 == 1 <==> (bits >> k) & 1 == 1 && k
                    != z) by (bit_vector)
                    requires
                        bits != 0,
                        bits << ((64 - z) as u64) == 0,
                        (bits >> z) & 1 == 1,
                        z < 64,
                        k < 64,
                ;
            }
        }
    }
    (zeros as u8, rest)
}

} // verus!
