use vstd::prelude::*;

verus! {

// Byte-sequence utilities shared by the packing engine, the tar serializer
// and the image assembler: lexicographic ordering of paths, checksums, and
// the octal / decimal / hexadecimal renderings that the archive formats use.

/// Strict lexicographic order on byte sequences (shorter prefixes first).
pub open spec fn lex_lt(a: Seq<u8>, b: Seq<u8>) -> bool
    decreases a.len(),
{
    if b.len() == 0 {
        false
    } else if a.len() == 0 {
        true
    } else if a[0] < b[0] {
        true
    } else if a[0] > b[0] {
        false
    } else {
        lex_lt(a.skip(1), b.skip(1))
    }
}

pub proof fn lemma_lex_lt_irrefl(a: Seq<u8>)
    ensures
        !lex_lt(a, a),
    decreases a.len(),
{
    if a.len() > 0 {
        lemma_lex_lt_irrefl(a.skip(1));
    }
}

pub proof fn lemma_lex_lt_trans(a: Seq<u8>, b: Seq<u8>, c: Seq<u8>)
    ensures
        lex_lt(a, b) && lex_lt(b, c) ==> lex_lt(a, c),
    decreases a.len(),
{
    if a.len() > 0 && b.len() > 0 && c.len() > 0 && a[0] == b[0] && b[0] == c[0] {
        lemma_lex_lt_trans(a.skip(1), b.skip(1), c.skip(1));
    }
}

/// A strict prefix is lexicographically smaller than its extensions.
pub proof fn lemma_prefix_lex_lt(a: Seq<u8>, b: Seq<u8>)
    requires
        a.len() < b.len(),
        a =~= b.subrange(0, a.len() as int),
    ensures
        lex_lt(a, b),
    decreases a.len(),
{
    if a.len() > 0 {
        assert(a[0] == b[0]);
        assert(a.skip(1) =~= b.skip(1).subrange(0, a.skip(1).len() as int));
        lemma_prefix_lex_lt(a.skip(1), b.skip(1));
    }
}

/// Executable strict lexicographic comparison.
pub fn bytes_lt(a: &Vec<u8>, b: &Vec<u8>) -> (r: bool)
    ensures
        r == lex_lt(a@, b@),
{
    let mut i: usize = 0;
    proof {
        assert(a@.skip(0) =~= a@);
        assert(b@.skip(0) =~= b@);
    }
    loop
        invariant
            i <= a.len(),
            i <= b.len(),
            lex_lt(a@, b@) == lex_lt(a@.skip(i as int), b@.skip(i as int)),
        decreases a.len() - i,
    {
        if i == b.len() {
            return false;
        }
        if i == a.len() {
            return true;
        }
        let x = a[i];
        let y = b[i];
        proof {
            assert(a@.skip(i as int)[0] == a@[i as int]);
            assert(b@.skip(i as int)[0] == b@[i as int]);
        }
        if x < y {
            return true;
        }
        if x > y {
            return false;
        }
        proof {
            assert(a@.skip(i as int).skip(1) =~= a@.skip(i as int + 1));
            assert(b@.skip(i as int).skip(1) =~= b@.skip(i as int + 1));
        }
        i = i + 1;
    }
}

/// Executable byte-sequence equality.
pub fn bytes_eq(a: &Vec<u8>, b: &Vec<u8>) -> (r: bool)
    ensures
        r == (a@ =~= b@),
{
    if a.len() != b.len() {
        return false;
    }
    let mut i: usize = 0;
    while i < a.len()
        invariant
            i <= a.len(),
            a.len() == b.len(),
            forall|j: int| 0 <= j < i ==> a@[j] == b@[j],
        decreases a.len() - i,
    {
        if a[i] != b[i] {
            return false;
        }
        i = i + 1;
    }
    true
}

/// Sum of all bytes of a sequence, as an unbounded integer.
pub open spec fn sum_bytes(s: Seq<u8>) -> int
    decreases s.len(),
{
    if s.len() == 0 {
        0
    } else {
        sum_bytes(s.drop_last()) + s.last()
    }
}

pub proof fn lemma_sum_bytes_bound(s: Seq<u8>)
    ensures
        0 <= sum_bytes(s) <= 255 * s.len(),
    decreases s.len(),
{
    if s.len() > 0 {
        lemma_sum_bytes_bound(s.drop_last());
    }
}

/// Executable byte sum over a buffer. The length bound keeps the running
/// `u64` sum exact: 255 times the span must fit the accumulator.
pub fn byte_sum(v: &Vec<u8>, lo: usize, hi: usize) -> (r: u64)
    requires
        lo <= hi <= v.len(),
        hi - lo <= 0xffffffffffff,
    ensures
        r == sum_bytes(v@.subrange(lo as int, hi as int)),
{
    let mut i: usize = lo;
    let mut acc: u64 = 0;
    while i < hi
        invariant
            lo <= i <= hi <= v.len(),
            hi - lo <= 0xffffffffffff,
            acc == sum_bytes(v@.subrange(lo as int, i as int)),
            acc <= 255 * (i - lo),
        decreases hi - i,
    {
        proof {
            assert(v@.subrange(lo as int, i as int + 1).drop_last() =~= v@.subrange(
                lo as int,
                i as int,
            ));
            assert(v@.subrange(lo as int, i as int + 1).last() == v@[i as int]);
        }
        acc = acc + (v[i] as u64);
        i = i + 1;
    }
    proof {
        assert(v@.subrange(lo as int, hi as int) =~= v@.subrange(lo as int, i as int));
    }
    acc
}

/// Fixed-width zero-padded octal rendering, most significant digit first.
pub open spec fn octal_rep(v: nat, width: nat) -> Seq<u8>
    decreases width,
{
    if width == 0 {
        Seq::empty()
    } else {
        octal_rep(v / 8, (width - 1) as nat).push((48 + (v % 8)) as u8)
    }
}

pub proof fn lemma_octal_rep_len(v: nat, width: nat)
    ensures
        octal_rep(v, width).len() == width,
    decreases width,
{
    if width > 0 {
        lemma_octal_rep_len(v / 8, (width - 1) as nat);
    }
}

/// Executable fixed-width octal rendering.
pub fn octal_vec(v: u64, width: usize) -> (r: Vec<u8>)
    ensures
        r@ =~= octal_rep(v as nat, width as nat),
        r.len() == width,
    decreases width,
{
    proof {
        lemma_octal_rep_len(v as nat, width as nat);
    }
    if width == 0 {
        Vec::new()
    } else {
        let mut r = octal_vec(v / 8, width - 1);
        r.push(48 + (v % 8) as u8);
        r
    }
}

/// Minimal-width decimal rendering, most significant digit first.
pub open spec fn dec_rep(v: nat) -> Seq<u8>
    decreases v,
{
    if v < 10 {
        seq![(48 + v) as u8]
    } else {
        dec_rep(v / 10).push((48 + (v % 10)) as u8)
    }
}

/// Executable decimal rendering.
pub fn dec_vec(v: u64) -> (r: Vec<u8>)
    ensures
        r@ =~= dec_rep(v as nat),
    decreases v,
{
    if v < 10 {
        let mut r: Vec<u8> = Vec::new();
        r.push(48 + v as u8);
        r
    } else {
        let mut r = dec_vec(v / 10);
        r.push(48 + (v % 10) as u8);
        r
    }
}

pub proof fn lemma_dec_rep_len(v: nat)
    requires
        v < 0x10000000000000000,
    ensures
        1 <= dec_rep(v).len() <= 20,
{
    reveal_with_fuel(pow10, 22);
    assert(pow10(20) == 100000000000000000000);
    lemma_dec_len_le(v, 20);
}

/// A value below `10^n` needs at most `n` decimal digits.
proof fn lemma_dec_len_le(v: nat, n: nat)
    requires
        n >= 1,
        v < pow10(n),
    ensures
        dec_rep(v).len() <= n,
    decreases n,
{
    if v >= 10 {
        assert(pow10(n) == 10 * pow10((n - 1) as nat));
        assert(v / 10 < pow10((n - 1) as nat)) by (nonlinear_arith)
            requires
                v < 10 * pow10((n - 1) as nat),
        ;
        assert(n >= 2) by {
            if n == 1 {
                assert(pow10(1nat) == 10 * pow10(0nat));
                assert(pow10(0nat) == 1);
            }
        }
        lemma_dec_len_le(v / 10, (n - 1) as nat);
    }
}

pub open spec fn pow10(n: nat) -> nat
    decreases n,
{
    if n == 0 {
        1
    } else {
        10 * pow10((n - 1) as nat)
    }
}

/// Lower-case hex digit for a value below 16.
pub open spec fn hex_digit(d: nat) -> u8 {
    if d < 10 {
        (48 + d) as u8
    } else {
        (87 + d) as u8
    }
}

/// Lower-case hexadecimal rendering of a byte sequence, two digits per byte.
pub open spec fn hex_rep(s: Seq<u8>) -> Seq<u8> {
    Seq::new(
        s.len() * 2,
        |i: int|
            if i % 2 == 0 {
                hex_digit((s[i / 2] / 16) as nat)
            } else {
                hex_digit((s[i / 2] % 16) as nat)
            },
    )
}

/// Executable hexadecimal rendering.
pub fn hex_vec(s: &Vec<u8>) -> (r: Vec<u8>)
    requires
        s.len() < 0x7fffffffffffffff,
    ensures
        r@ =~= hex_rep(s@),
{
    let mut r: Vec<u8> = Vec::new();
    let mut i: usize = 0;
    while i < s.len()
        invariant
            i <= s.len(),
            s.len() < 0x7fffffffffffffff,
            r.len() == 2 * i,
            forall|j: int|
                0 <= j < 2 * i ==> r@[j] == (if j % 2 == 0 {
                    hex_digit((s@[j / 2] / 16) as nat)
                } else {
                    hex_digit((s@[j / 2] % 16) as nat)
                }),
        decreases s.len() - i,
    {
        let hi = s[i] / 16;
        let lo = s[i] % 16;
        if hi < 10 {
            r.push(48 + hi);
        } else {
            r.push(87 + hi);
        }
        if lo < 10 {
            r.push(48 + lo);
        } else {
            r.push(87 + lo);
        }
        i = i + 1;
    }
    r
}

/// Appends the whole of `src` to `dst`.
pub fn push_all(dst: &mut Vec<u8>, src: &Vec<u8>)
    ensures
        final(dst)@ =~= old(dst)@ + src@,
{
    let mut i: usize = 0;
    while i < src.len()
        invariant
            i <= src.len(),
            dst@ =~= old(dst)@ + src@.subrange(0, i as int),
        decreases src.len() - i,
    {
        dst.push(src[i]);
        proof {
            assert(old(dst)@ + src@.subrange(0, i as int + 1) =~= (old(dst)@ + src@.subrange(
                0,
                i as int,
            )).push(src@[i as int]));
        }
        i = i + 1;
    }
    proof {
        assert(src@.subrange(0, src@.len() as int) =~= src@);
    }
}

/// Appends `n` copies of `b` to `dst`.
pub fn push_repeat(dst: &mut Vec<u8>, b: u8, n: usize)
    ensures
        final(dst)@ =~= old(dst)@ + Seq::new(n as nat, |i: int| b),
{
    let mut i: usize = 0;
    while i < n
        invariant
            i <= n,
            dst@ =~= old(dst)@ + Seq::new(i as nat, |k: int| b),
        decreases n - i,
    {
        dst.push(b);
        proof {
            assert(old(dst)@ + Seq::new(i as nat + 1, |k: int| b) =~= (old(dst)@ + Seq::new(
                i as nat,
                |k: int| b,
            )).push(b));
        }
        i = i + 1;
    }
}

} // verus!
