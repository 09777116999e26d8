//! Big-endian numbers in byte strings, and the 32-byte words built from them.

use vstd::prelude::*;

verus! {

/// The width of one word of an encoded tuple, in bytes.
pub const WORD: usize = 32;

/// 256 to the power `n`.
pub open spec fn pow256(n: nat) -> nat
    decreases n,
{
    if n == 0 {
        1
    } else {
        256 * pow256((n - 1) as nat)
    }
}

/// The number that the bytes `s` spell, most significant byte first.
pub open spec fn be_nat(s: Seq<u8>) -> nat
    decreases s.len(),
{
    if s.len() == 0 {
        0
    } else {
        be_nat(s.drop_last()) * 256 + s.last() as nat
    }
}

/// The `n` bytes that spell the low `n` base-256 digits of `v`, most
/// significant first.
pub open spec fn be_bytes(v: nat, n: nat) -> Seq<u8>
    decreases n,
{
    if n == 0 {
        Seq::empty()
    } else {
        be_bytes(v / 256, (n - 1) as nat).push((v % 256) as u8)
    }
}

/// `n` zero bytes.
pub open spec fn zeros(n: nat) -> Seq<u8> {
    Seq::new(n, |i: int| 0u8)
}

/// The 32-byte word that holds `v`.
pub open spec fn word_of(v: nat) -> Seq<u8> {
    be_bytes(v, 32)
}

/// A number is spelt in as many bytes as asked for.
pub proof fn lemma_be_bytes_len(v: nat, n: nat)
    ensures
        be_bytes(v, n).len() == n,
    decreases n,
{
    if n > 0 {
        lemma_be_bytes_len(v / 256, (n - 1) as nat);
    }
}

/// Spelling a number and reading it back gives the bytes again.
pub proof fn lemma_be_bytes_of_be_nat(s: Seq<u8>)
    ensures
        be_bytes(be_nat(s), s.len()) == s,
    decreases s.len(),
{
    if s.len() > 0 {
        let t = s.drop_last();
        lemma_be_bytes_of_be_nat(t);
        let v = be_nat(s);
        assert(v / 256 == be_nat(t));
        assert(v % 256 == s.last() as nat);
        assert(be_bytes(v, s.len()) =~= s);
    } else {
        assert(be_bytes(be_nat(s), s.len()) =~= s);
    }
}

/// A number below `256^n` is read back from its `n` bytes.
pub proof fn lemma_be_nat_of_be_bytes(v: nat, n: nat)
    requires
        v < pow256(n),
    ensures
        be_nat(be_bytes(v, n)) == v,
    decreases n,
{
    if n > 0 {
        lemma_be_nat_of_be_bytes(v / 256, (n - 1) as nat);
        let b = be_bytes(v, n);
        assert(b.drop_last() =~= be_bytes(v / 256, (n - 1) as nat));
        assert(b.last() == (v % 256) as u8);
    }
}

/// `n` bytes spell a number below `256^n`.
pub proof fn lemma_be_nat_bound(s: Seq<u8>)
    ensures
        be_nat(s) < pow256(s.len()),
    decreases s.len(),
{
    if s.len() > 0 {
        lemma_be_nat_bound(s.drop_last());
    }
}

/// Zero is spelt by zero bytes only.
pub proof fn lemma_be_bytes_zero(n: nat)
    ensures
        be_bytes(0, n) == zeros(n),
    decreases n,
{
    if n > 0 {
        lemma_be_bytes_zero((n - 1) as nat);
    }
    assert(be_bytes(0, n) =~= zeros(n));
}

/// In more bytes than it needs, a number is spelt with zeros in front.
pub proof fn lemma_be_bytes_pad(v: nat, n: nat, k: nat)
    requires
        v < pow256(n),
    ensures
        be_bytes(v, n + k) == zeros(k) + be_bytes(v, n),
    decreases n,
{
    if n == 0 {
        lemma_be_bytes_zero(k);
        assert(be_bytes(v, n + k) =~= zeros(k) + be_bytes(v, n));
    } else {
        lemma_be_bytes_pad(v / 256, (n - 1) as nat, k);
        assert(((n + k) - 1) as nat == (n - 1) as nat + k);
        assert(be_bytes(v, n + k) =~= zeros(k) + be_bytes(v, n));
    }
}

/// Zeros in front do not change the number.
pub proof fn lemma_be_nat_pad(s: Seq<u8>, k: nat)
    ensures
        be_nat(zeros(k) + s) == be_nat(s),
    decreases s.len(),
{
    if s.len() == 0 {
        assert(zeros(k) + s =~= zeros(k));
        lemma_be_bytes_zero(k);
        lemma_pow256_positive(k);
        lemma_be_nat_of_be_bytes(0, k);
    } else {
        lemma_be_nat_pad(s.drop_last(), k);
        assert((zeros(k) + s).drop_last() =~= zeros(k) + s.drop_last());
    }
}

/// No power of 256 is zero.
pub proof fn lemma_pow256_positive(n: nat)
    ensures
        pow256(n) > 0,
    decreases n,
{
    if n > 0 {
        lemma_pow256_positive((n - 1) as nat);
    }
}

/// The powers of 256 that bound the integer widths in use.
pub proof fn lemma_pow256_values()
    ensures
        pow256(3) == 0x100_0000,
        pow256(4) == 0x1_0000_0000,
        pow256(8) == 0x1_0000_0000_0000_0000,
        pow256(16) == u128::MAX + 1,
{
    reveal_with_fuel(pow256, 17);
}

/// A larger exponent gives no smaller power.
pub proof fn lemma_pow256_monotonic(a: nat, b: nat)
    requires
        a <= b,
    ensures
        pow256(a) <= pow256(b),
    decreases b,
{
    if a < b {
        lemma_pow256_monotonic(a, (b - 1) as nat);
    }
}

/// A word spells a number below `256^n` exactly when all but its last `n`
/// bytes are zero.
pub proof fn lemma_word_fits(w: Seq<u8>, n: nat)
    requires
        w.len() == 32,
        n <= 32,
    ensures
        be_nat(w) < pow256(n) <==> w.subrange(0, 32 - n) == zeros((32 - n) as nat),
        w.subrange(0, 32 - n) == zeros((32 - n) as nat) ==> be_nat(w) == be_nat(
            w.subrange(32 - n, 32),
        ),
{
    let k = (32 - n) as nat;
    let head = w.subrange(0, 32 - n);
    let tail = w.subrange(32 - n, 32);
    assert(w =~= head + tail);
    if head == zeros(k) {
        lemma_be_nat_pad(tail, k);
        lemma_be_nat_bound(tail);
    }
    if be_nat(w) < pow256(n) {
        lemma_be_bytes_of_be_nat(w);
        lemma_be_bytes_pad(be_nat(w), n, k);
        lemma_be_bytes_len(be_nat(w), n);
        assert(head =~= zeros(k));
    }
}

/// Appends `n` zero bytes to `out`.
pub fn append_zeros(out: &mut Vec<u8>, n: usize)
    ensures
        final(out)@ == old(out)@ + zeros(n as nat),
{
    let mut i: usize = 0;
    while i < n
        invariant
            i <= n,
            out@ == old(out)@ + zeros(i as nat),
        decreases n - i,
    {
        out.push(0u8);
        i = i + 1;
        assert(out@ =~= old(out)@ + zeros(i as nat));
    }
}

/// Appends the bytes of `src` to `out`.
pub fn append_bytes(out: &mut Vec<u8>, src: &[u8])
    ensures
        final(out)@ == old(out)@ + src@,
{
    let mut i: usize = 0;
    while i < src.len()
        invariant
            i <= src.len(),
            out@ == old(out)@ + src@.subrange(0, i as int),
        decreases src.len() - i,
    {
        out.push(src[i]);
        i = i + 1;
        assert(out@ =~= old(out)@ + src@.subrange(0, i as int));
    }
    assert(src@.subrange(0, src.len() as int) =~= src@);
}

/// Appends the word that holds `x` to `out`.
pub fn append_word_u128(out: &mut Vec<u8>, x: u128)
    ensures
        final(out)@ == old(out)@ + word_of(x as nat),
{
    let mut digits: [u8; 16] = [0u8; 16];
    let mut rest: u128 = x;
    let mut i: usize = 16;
    while i > 0
        invariant
            i <= 16,
            be_bytes(x as nat, 16) == be_bytes(rest as nat, i as nat) + digits@.subrange(
                i as int,
                16,
            ),
        decreases i,
    {
        i = i - 1;
        let ghost before = digits@;
        digits[i] = (rest % 256) as u8;
        proof {
            assert(be_bytes(rest as nat, (i + 1) as nat) + before.subrange(i + 1, 16) =~= be_bytes(
                (rest / 256) as nat,
                i as nat,
            ) + digits@.subrange(i as int, 16));
        }
        rest = rest / 256;
    }
    proof {
        assert(be_bytes(x as nat, 16) =~= digits@);
        lemma_pow256_values();
        lemma_be_bytes_pad(x as nat, 16, 16);
    }
    append_zeros(out, 16);
    append_bytes(out, digits.as_slice());
    assert(out@ =~= old(out)@ + word_of(x as nat));
}

/// Appends the word that holds the number spelt by the 20 bytes `src`.
pub fn append_word_bytes20(out: &mut Vec<u8>, src: &[u8; 20])
    ensures
        final(out)@ == old(out)@ + word_of(be_nat(src@)),
        word_of(be_nat(src@)) == zeros(12) + src@,
{
    proof {
        lemma_be_nat_bound(src@);
        lemma_be_bytes_pad(be_nat(src@), 20, 12);
        lemma_be_bytes_of_be_nat(src@);
    }
    append_zeros(out, 12);
    append_bytes(out, src.as_slice());
    assert(out@ =~= old(out)@ + word_of(be_nat(src@)));
}

/// Whether the `n` bytes of `data` from `at` on are all zero.
pub fn all_zero(data: &[u8], at: usize, n: usize) -> (r: bool)
    requires
        at + n <= data.len(),
    ensures
        r == (data@.subrange(at as int, at + n) == zeros(n as nat)),
{
    let mut i: usize = 0;
    while i < n
        invariant
            i <= n,
            at + n <= data.len(),
            data@.subrange(at as int, at + i) == zeros(i as nat),
        decreases n - i,
    {
        if data[at + i] != 0 {
            assert(data@.subrange(at as int, at + n)[i as int] != 0);
            return false;
        }
        i = i + 1;
        assert(data@.subrange(at as int, at + i) =~= zeros(i as nat));
    }
    true
}

/// Reads the word of `data` at `at` as a number of at most 128 bits.
pub fn read_word_u128(data: &[u8], at: usize) -> (r: Option<u128>)
    requires
        at + 32 <= data.len(),
    ensures
        r.is_some() <==> be_nat(data@.subrange(at as int, at + 32)) <= u128::MAX,
        r.is_some() ==> r.unwrap() == be_nat(data@.subrange(at as int, at + 32)),
{
    let ghost w = data@.subrange(at as int, at + 32);
    proof {
        lemma_word_fits(w, 16);
        lemma_pow256_values();
        assert(w.subrange(0, 16) =~= data@.subrange(at as int, at + 16));
    }
    if !all_zero(data, at, 16) {
        return None;
    }
    let ghost low = w.subrange(16, 32);
    let mut acc: u128 = 0;
    let mut i: usize = 0;
    while i < 16
        invariant
            i <= 16,
            at + 32 <= data.len(),
            low == data@.subrange(at + 16, at + 32),
            acc == be_nat(low.subrange(0, i as int)),
        decreases 16 - i,
    {
        proof {
            let next = low.subrange(0, i + 1);
            assert(next.drop_last() =~= low.subrange(0, i as int));
            assert(next.last() == data@[at + 16 + i]);
            assert(be_nat(next) == acc * 256 + data@[at + 16 + i]);
            lemma_be_nat_bound(next);
            lemma_pow256_monotonic((i + 1) as nat, 16);
            lemma_pow256_values();
        }
        acc = acc * 256 + data[at + 16 + i] as u128;
        i = i + 1;
    }
    assert(low.subrange(0, 16) =~= low);
    Some(acc)
}

/// Reads the word of `data` at `at` as a number of at most 160 bits, given
/// as the 20 bytes that spell it.
pub fn read_word_bytes20(data: &[u8], at: usize) -> (r: Option<[u8; 20]>)
    requires
        at + 32 <= data.len(),
    ensures
        r.is_some() <==> be_nat(data@.subrange(at as int, at + 32)) < pow256(20),
        r.is_some() ==> r.unwrap()@ == data@.subrange(at + 12, at + 32) && be_nat(r.unwrap()@)
            == be_nat(data@.subrange(at as int, at + 32)),
{
    let ghost w = data@.subrange(at as int, at + 32);
    proof {
        lemma_word_fits(w, 20);
        assert(w.subrange(0, 12) =~= data@.subrange(at as int, at + 12));
        assert(w.subrange(12, 32) =~= data@.subrange(at + 12, at + 32));
    }
    if !all_zero(data, at, 12) {
        return None;
    }
    let mut out: [u8; 20] = [0u8; 20];
    let mut i: usize = 0;
    while i < 20
        invariant
            i <= 20,
            at + 32 <= data.len(),
            out@.subrange(0, i as int) == data@.subrange(at + 12, at + 12 + i),
        decreases 20 - i,
    {
        out[i] = data[at + 12 + i];
        i = i + 1;
        assert(out@.subrange(0, i as int) =~= data@.subrange(at + 12, at + 12 + i));
    }
    assert(out@ =~= data@.subrange(at + 12, at + 32));
    Some(out)
}

/// The 32 bytes of `data` from `at` on.
pub fn read_bytes32(data: &[u8], at: usize) -> (r: [u8; 32])
    requires
        at + 32 <= data.len(),
    ensures
        r@ == data@.subrange(at as int, at + 32),
{
    let mut out: [u8; 32] = [0u8; 32];
    let mut i: usize = 0;
    while i < 32
        invariant
            i <= 32,
            at + 32 <= data.len(),
            out@.subrange(0, i as int) == data@.subrange(at as int, at + i),
        decreases 32 - i,
    {
        out[i] = data[at + i];
        i = i + 1;
        assert(out@.subrange(0, i as int) =~= data@.subrange(at as int, at + i));
    }
    assert(out@ =~= data@.subrange(at as int, at + 32));
    out
}

/// The bytes of `data` from `at` to its end.
pub fn copy_tail(data: &[u8], at: usize) -> (r: Vec<u8>)
    requires
        at <= data.len(),
    ensures
        r@ == data@.subrange(at as int, data@.len() as int),
{
    let mut out: Vec<u8> = Vec::new();
    let mut i: usize = at;
    while i < data.len()
        invariant
            at <= i <= data.len(),
            out@ == data@.subrange(at as int, i as int),
        decreases data.len() - i,
    {
        out.push(data[i]);
        i = i + 1;
        assert(out@ =~= data@.subrange(at as int, i as int));
    }
    out
}

} // verus!
