//! The price boundary of a quote call, chosen from the order of the two
//! token addresses so that the call runs whatever the price.

use vstd::prelude::*;
use crate::bytes::be_nat;
use crate::types::{lex_lt, Address, U160};

verus! {

/// The lower bound of the prices that a boundary may name.
pub open spec fn min_boundary() -> nat {
    4295128739
}

/// The upper bound of the prices that a boundary may name:
/// 1461446703485210103287273052203988822378723970342, written in two parts
/// as it exceeds 128 bits.
pub open spec fn max_boundary() -> nat {
    0xfffd_8963 * (0x1_0000_0000_0000_0000 * 0x1_0000_0000_0000_0000)
        + 0xefd1_fc6a_5064_8849_5d95_1d52_6398_8d26
}

/// The swap direction that the two addresses imply: `true` when `token_in`
/// comes first.
pub open spec fn zero_for_one(token_in: Seq<u8>, token_out: Seq<u8>) -> bool {
    lex_lt(token_in, token_out)
}

/// The most permissive boundary for a direction.
pub open spec fn boundary_price(zero_for_one: bool) -> nat {
    if zero_for_one {
        min_boundary() + 1
    } else {
        (max_boundary() - 1) as nat
    }
}

/// The smallest boundary that still lets a swap run: one above the lower
/// bound.
pub fn lowest_boundary() -> (r: U160)
    ensures
        r@ == min_boundary() + 1,
{
    let r = U160 { bytes: [0, 0, 0, 0, 0, 0, 0, 0, 0, 0, 0, 0, 0, 0, 0, 1, 0, 2, 118, 164] };
    proof {
        lemma_spelt(r.bytes@);
        assert(spelt(r.bytes@, 20) == 4295128740) by {
            reveal_with_fuel(spelt, 21);
        }
    }
    r
}

/// The largest boundary that still lets a swap run: one below the upper
/// bound.
pub fn highest_boundary() -> (r: U160)
    ensures
        r@ == max_boundary() - 1,
{
    let r = U160 {
        bytes: [
            255,
            253,
            137,
            99,
            239,
            209,
            252,
            106,
            80,
            100,
            136,
            73,
            93,
            149,
            29,
            82,
            99,
            152,
            141,
            37,
        ],
    };
    proof {
        lemma_spelt(r.bytes@);
        assert(spelt(r.bytes@, 20) == max_boundary() - 1) by {
            reveal_with_fuel(spelt, 21);
        }
    }
    r
}

/// The number that twenty bytes spell, written out digit by digit.
proof fn lemma_spelt(s: Seq<u8>)
    requires
        s.len() == 20,
    ensures
        be_nat(s) == spelt(s, 20),
{
    lemma_spelt_prefix(s, 20);
    assert(s.subrange(0, 20) =~= s);
}

spec fn spelt(s: Seq<u8>, k: nat) -> nat
    decreases k,
{
    if k == 0 {
        0
    } else {
        spelt(s, (k - 1) as nat) * 256 + s[k - 1] as nat
    }
}

proof fn lemma_spelt_prefix(s: Seq<u8>, k: nat)
    requires
        k <= s.len(),
    ensures
        be_nat(s.subrange(0, k as int)) == spelt(s, k),
    decreases k,
{
    if k > 0 {
        lemma_spelt_prefix(s, (k - 1) as nat);
        assert(s.subrange(0, k as int).drop_last() =~= s.subrange(0, k - 1));
    }
}

/// The direction and the boundary price of a quote from `token_in` to
/// `token_out`.
pub fn boundary_for(token_in: &Address, token_out: &Address) -> (r: (bool, U160))
    requires
        token_in@ != token_out@,
    ensures
        r.0 == zero_for_one(token_in@, token_out@),
        r.1@ == boundary_price(r.0),
        lex_lt(token_in@, token_out@) ==> r.0 && r.1@ == min_boundary() + 1,
        lex_lt(token_out@, token_in@) ==> !r.0 && r.1@ == max_boundary() - 1,
{
    let forward = token_in.precedes(token_out);
    proof {
        lemma_lex_lt_asymmetric(token_in@, token_out@);
    }
    if forward {
        (true, lowest_boundary())
    } else {
        (false, highest_boundary())
    }
}

/// Of two byte strings at most one comes before the other.
pub proof fn lemma_lex_lt_asymmetric(a: Seq<u8>, b: Seq<u8>)
    ensures
        !(lex_lt(a, b) && lex_lt(b, a)),
{
    if lex_lt(a, b) && lex_lt(b, a) {
        let i = choose|i: int| #[trigger] crate::types::first_difference(a, b, i) && a[i] < b[i];
        let j = choose|j: int| #[trigger] crate::types::first_difference(b, a, j) && b[j] < a[j];
        if i < j {
            assert(b[i] == a[i]);
        } else if j < i {
            assert(a[j] == b[j]);
        }
    }
}

/// Of two different addresses exactly one comes before the other.
pub proof fn lemma_lex_lt_total(a: Seq<u8>, b: Seq<u8>)
    requires
        a.len() == b.len(),
        a != b,
    ensures
        lex_lt(a, b) != lex_lt(b, a),
{
    lemma_lex_lt_asymmetric(a, b);
    assert(a.subrange(0, a.len() as int) =~= a);
    assert(b.subrange(0, a.len() as int) =~= b);
    lemma_first_difference_exists(a, b, a.len() as int);
    let i = choose|i: int| #[trigger] crate::types::first_difference(a, b, i);
    assert(crate::types::first_difference(b, a, i));
}

proof fn lemma_first_difference_exists(a: Seq<u8>, b: Seq<u8>, n: int)
    requires
        a.len() == b.len(),
        0 <= n <= a.len(),
        a.subrange(0, n) != b.subrange(0, n),
    ensures
        exists|i: int| #[trigger] crate::types::first_difference(a, b, i),
    decreases n,
{
    if n == 0 {
        assert(a.subrange(0, 0) =~= b.subrange(0, 0));
    } else if a.subrange(0, n - 1) != b.subrange(0, n - 1) {
        lemma_first_difference_exists(a, b, n - 1);
    } else {
        assert forall|j: int| 0 <= j < n - 1 implies a[j] == b[j] by {
            assert(a.subrange(0, n - 1)[j] == b.subrange(0, n - 1)[j]);
        }
        if a[n - 1] == b[n - 1] {
            assert(a.subrange(0, n) =~= b.subrange(0, n));
        }
        assert(crate::types::first_difference(a, b, n - 1));
    }
}

} // verus!
