//! Byte strings: lexicographic order and little-endian integer framing.

use vstd::prelude::*;
use vstd::arithmetic::power::{pow, lemma_pow_increases};

verus! {

/// `a` sorts strictly before `b`: at the first index where they differ, `a` holds
/// the smaller byte.
pub open spec fn lex_lt(a: Seq<u8>, b: Seq<u8>) -> bool {
    exists|k: int| #[trigger] first_diff(a, b, k) && a[k] < b[k]
}

/// `k` is an index of both sequences where they differ, and they agree before it.
pub open spec fn first_diff(a: Seq<u8>, b: Seq<u8>, k: int) -> bool {
    &&& 0 <= k < a.len()
    &&& k < b.len()
    &&& a[k] != b[k]
    &&& forall|j: int| 0 <= j < k ==> a[j] == b[j]
}

/// The first index at which two sequences differ is unique.
pub proof fn lemma_first_diff_unique(a: Seq<u8>, b: Seq<u8>, k1: int, k2: int)
    requires
        first_diff(a, b, k1),
        first_diff(a, b, k2),
    ensures
        k1 == k2,
{
    if k1 < k2 {
        assert(a[k1] == b[k1]);
    } else if k2 < k1 {
        assert(a[k2] == b[k2]);
    }
}

/// No sequence sorts before itself, and two sequences never sort before each other.
pub proof fn lemma_lex_asymmetric(a: Seq<u8>, b: Seq<u8>)
    ensures
        !lex_lt(a, a),
        !(lex_lt(a, b) && lex_lt(b, a)),
{
    if lex_lt(a, b) && lex_lt(b, a) {
        let k1 = choose|k: int| #[trigger] first_diff(a, b, k) && a[k] < b[k];
        let k2 = choose|k: int| #[trigger] first_diff(b, a, k) && b[k] < a[k];
        assert(first_diff(a, b, k2));
        lemma_first_diff_unique(a, b, k1, k2);
    }
}

/// The lexicographic order is transitive.
pub proof fn lemma_lex_transitive(a: Seq<u8>, b: Seq<u8>, c: Seq<u8>)
    requires
        lex_lt(a, b),
        lex_lt(b, c),
    ensures
        lex_lt(a, c),
{
    let k1 = choose|k: int| #[trigger] first_diff(a, b, k) && a[k] < b[k];
    let k2 = choose|k: int| #[trigger] first_diff(b, c, k) && b[k] < c[k];
    let k = if k1 < k2 { k1 } else { k2 };
    assert(first_diff(a, c, k) && a[k] < c[k]);
}

/// Outcome of comparing two byte strings.
#[derive(Clone, Copy, Debug, PartialEq, Eq, Structural)]
pub enum Ordering {
    Less,
    Equal,
    Greater,
}

/// Compares two byte strings of equal length lexicographically.
pub fn compare_bytes(a: &[u8], b: &[u8]) -> (r: Ordering)
    requires
        a@.len() == b@.len(),
    ensures
        r == Ordering::Less <==> lex_lt(a@, b@),
        r == Ordering::Greater <==> lex_lt(b@, a@),
        r == Ordering::Equal <==> a@ == b@,
{
    proof {
        lemma_lex_asymmetric(a@, b@);
    }
    let mut i: usize = 0;
    while i < a.len()
        invariant
            a@.len() == b@.len(),
            0 <= i <= a@.len(),
            forall|j: int| 0 <= j < i ==> a@[j] == b@[j],
        decreases a@.len() - i,
    {
        if a[i] != b[i] {
            assert(first_diff(a@, b@, i as int));
            assert(first_diff(b@, a@, i as int));
            if a[i] < b[i] {
                return Ordering::Less;
            } else {
                return Ordering::Greater;
            }
        }
        i = i + 1;
    }
    assert(a@ =~= b@);
    assert forall|k: int| !first_diff(a@, b@, k) by {}
    assert forall|k: int| !first_diff(b@, a@, k) by {}
    Ordering::Equal
}

/// Tests two byte strings for equality.
pub fn bytes_eq(a: &[u8], b: &[u8]) -> (r: bool)
    ensures
        r == (a@ == b@),
{
    if a.len() != b.len() {
        return false;
    }
    compare_bytes(a, b) == Ordering::Equal
}

/// The number whose little-endian bytes are `s`.
pub open spec fn le_value(s: Seq<u8>) -> nat
    decreases s.len(),
{
    if s.len() == 0 {
        0
    } else {
        s[0] as nat + 256 * le_value(s.drop_first())
    }
}

/// Reads the first sixteen bytes of `b` as a little-endian number.
pub fn read_u128_le(b: &[u8]) -> (r: u128)
    requires
        b@.len() >= 16,
    ensures
        r as nat == le_value(b@.subrange(0, 16)),
{
    let mut acc: u128 = 0;
    let mut i: usize = 16;
    proof {
        assert(b@.subrange(16, 16) =~= Seq::<u8>::empty());
        reveal_with_fuel(pow, 17);
        assert(pow(256, 16) == 0x1_0000_0000_0000_0000_0000_0000_0000_0000int);
    }
    while i > 0
        invariant
            0 <= i <= 16,
            b@.len() >= 16,
            acc as nat == le_value(b@.subrange(i as int, 16)),
            acc < pow(256, (16 - i) as nat),
            pow(256, 16) == 0x1_0000_0000_0000_0000_0000_0000_0000_0000int,
        decreases i,
    {
        let byte = b[i - 1];
        proof {
            let e = (16 - i) as nat;
            assert(pow(256, e + 1) == 256 * pow(256, e)) by {
                reveal_with_fuel(pow, 2);
            }
            lemma_pow_increases(256, e + 1, 16);
            assert(acc * 256 + byte < 256 * pow(256, e)) by (nonlinear_arith)
                requires
                    acc < pow(256, e),
                    byte < 256,
            ;
            assert(b@.subrange(i - 1, 16).drop_first() =~= b@.subrange(i as int, 16));
        }
        acc = acc * 256 + byte as u128;
        i = i - 1;
    }
    acc
}

} // verus!
