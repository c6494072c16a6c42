use vstd::prelude::*;

verus! {

/// The eight little-endian bytes of `x`.
pub open spec fn u64_le(x: u64) -> Seq<u8> {
    seq![
        (x % 0x100) as u8,
        ((x / 0x100) % 0x100) as u8,
        ((x / 0x1_0000) % 0x100) as u8,
        ((x / 0x100_0000) % 0x100) as u8,
        ((x / 0x1_0000_0000) % 0x100) as u8,
        ((x / 0x100_0000_0000) % 0x100) as u8,
        ((x / 0x1_0000_0000_0000) % 0x100) as u8,
        ((x / 0x100_0000_0000_0000) % 0x100) as u8,
    ]
}

/// Appends the little-endian encoding of `x` to `out`.
pub fn push_u64_le(out: &mut Vec<u8>, x: u64)
    ensures
        final(out)@ == old(out)@ + u64_le(x),
{
    let mut v: u64 = x;
    let mut i: usize = 0;
    let ghost start = out@;
    let ghost parts: Seq<u8> = u64_le(x);
    while i < 8
        invariant
            0 <= i <= 8,
            parts == u64_le(x),
            out@ == start + parts.take(i as int),
            v as int == x as int / pow256(i as nat),
        decreases 8 - i,
    {
        proof {
            lemma_le_byte(x, i as nat);
        }
        out.push((v % 256) as u8);
        v = v / 256;
        proof {
            lemma_pow256_step(x, i as nat);
            assert(parts.take(i as int + 1) =~= parts.take(i as int).push(parts[i as int]));
        }
        i = i + 1;
    }
    assert(parts.take(8) =~= parts);
}

pub open spec fn pow256(n: nat) -> int
    decreases n,
{
    if n == 0 { 1 } else { 256 * pow256((n - 1) as nat) }
}

proof fn lemma_le_byte(x: u64, i: nat)
    requires
        i < 8,
    ensures
        u64_le(x)[i as int] == ((x as int / pow256(i)) % 256) as u8,
{
    reveal_with_fuel(pow256, 8);
}

proof fn lemma_pow256_step(x: u64, i: nat)
    ensures
        (x as int / pow256(i)) / 256 == x as int / pow256(i + 1),
{
    assert(pow256(i + 1) == 256 * pow256(i));
    assert(pow256(i) > 0) by {
        lemma_pow256_pos(i);
    }
    vstd::arithmetic::div_mod::lemma_div_denominator(x as int, pow256(i), 256);
    assert(pow256(i) * 256 == 256 * pow256(i)) by (nonlinear_arith);
}

proof fn lemma_pow256_pos(n: nat)
    ensures
        pow256(n) > 0,
    decreases n,
{
    if n > 0 {
        lemma_pow256_pos((n - 1) as nat);
    }
}

/// Three-way comparison of two byte strings.
#[derive(PartialEq, Eq, Structural, Clone, Copy, Debug)]
pub enum Ordering3 {
    Less,
    Equal,
    Greater,
}

/// `a` comes strictly before `b` in lexicographic byte order (equal lengths).
pub open spec fn lex_lt(a: Seq<u8>, b: Seq<u8>) -> bool {
    a.len() == b.len() && exists|i: int|
        0 <= i < a.len() && #[trigger] a.take(i) == b.take(i) && a[i] < b[i]
}

/// Lexicographic order is transitive.
pub proof fn lemma_lex_transitive(a: Seq<u8>, b: Seq<u8>, c: Seq<u8>)
    requires
        lex_lt(a, b),
        lex_lt(b, c),
    ensures
        lex_lt(a, c),
{
    let i = choose|i: int| 0 <= i < a.len() && #[trigger] a.take(i) == b.take(i) && a[i] < b[i];
    let j = choose|j: int| 0 <= j < b.len() && #[trigger] b.take(j) == c.take(j) && b[j] < c[j];
    if i < j {
        assert(b.take(i) =~= b.take(j).take(i));
        assert(c.take(i) =~= c.take(j).take(i));
        assert(b[i] == b.take(j)[i]);
        assert(c[i] == c.take(j)[i]);
        assert(a.take(i) == c.take(i) && a[i] < c[i]);
    } else if j < i {
        assert(a.take(j) =~= a.take(i).take(j));
        assert(b.take(j) =~= b.take(i).take(j));
        assert(a[j] == a.take(i)[j]);
        assert(b[j] == b.take(i)[j]);
        assert(a.take(j) == c.take(j) && a[j] < c[j]);
    } else {
        assert(a.take(i) == c.take(i) && a[i] < c[i]);
    }
}

/// Lexicographic order is asymmetric.
pub proof fn lemma_lex_asymmetric(a: Seq<u8>, b: Seq<u8>)
    requires
        lex_lt(a, b),
    ensures
        !lex_lt(b, a),
{
    if lex_lt(b, a) {
        lemma_lex_transitive(a, b, a);
    }
}

/// Compares two 32-byte strings lexicographically.
pub fn compare_bytes(a: &[u8; 32], b: &[u8; 32]) -> (r: Ordering3)
    ensures
        r == Ordering3::Less <==> lex_lt(a@, b@),
        r == Ordering3::Greater <==> lex_lt(b@, a@),
        r == Ordering3::Equal <==> a@ == b@,
{
    let mut i: usize = 0;
    while i < 32
        invariant
            0 <= i <= 32,
            a@.len() == 32,
            b@.len() == 32,
            a@.take(i as int) == b@.take(i as int),
        decreases 32 - i,
    {
        if a[i] < b[i] {
            assert(lex_lt(a@, b@));
            proof {
                lemma_lex_asymmetric(a@, b@);
            }
            return Ordering3::Less;
        } else if a[i] > b[i] {
            assert(b@.take(i as int) == a@.take(i as int));
            assert(lex_lt(b@, a@));
            proof {
                lemma_lex_asymmetric(b@, a@);
            }
            return Ordering3::Greater;
        }
        assert(a@.take(i as int + 1) =~= a@.take(i as int).push(a@[i as int]));
        assert(b@.take(i as int + 1) =~= b@.take(i as int).push(b@[i as int]));
        i = i + 1;
    }
    assert(a@ =~= a@.take(32));
    assert(b@ =~= b@.take(32));
    Ordering3::Equal
}

/// Whether two 32-byte keys are equal.
pub fn keys_equal(a: &[u8; 32], b: &[u8; 32]) -> (r: bool)
    ensures
        r == (a@ == b@),
{
    compare_bytes(a, b) == Ordering3::Equal
}

/// Copies a byte slice into a new vector.
pub fn bytes_to_vec(b: &[u8]) -> (r: Vec<u8>)
    ensures
        r@ == b@,
{
    let mut out: Vec<u8> = Vec::new();
    let mut i: usize = 0;
    while i < b.len()
        invariant
            0 <= i <= b@.len(),
            out@ == b@.take(i as int),
        decreases b@.len() - i,
    {
        out.push(b[i]);
        assert(b@.take(i as int + 1) =~= b@.take(i as int).push(b@[i as int]));
        i = i + 1;
    }
    assert(b@.take(i as int) =~= b@);
    out
}

} // verus!
