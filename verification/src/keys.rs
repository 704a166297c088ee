//! The order of identifiers.
//!
//! Token ids and addresses are opaque strings; the registry stores and
//! paginates them in the order of their UTF-8 encodings, compared byte by
//! byte. [`key_lt`] is that order on string views, and [`str_compare`] is
//! the verified three-way comparison the executable code uses.

use vstd::prelude::*;
use vstd::utf8::encode_utf8;
use vstd::utf8::encode_utf8_decode_utf8;

verus! {

/// Strict lexicographic order on byte strings.
pub open spec fn bytes_lt(a: Seq<u8>, b: Seq<u8>) -> bool
    decreases a.len(),
{
    if b.len() == 0 {
        false
    } else if a.len() == 0 {
        true
    } else if a[0] < b[0] {
        true
    } else if a[0] > b[0] {
        false
    } else {
        bytes_lt(a.drop_first(), b.drop_first())
    }
}

/// The key order of the registry: identifiers compare as their UTF-8
/// encodings do, byte by byte.
pub open spec fn key_lt(a: Seq<char>, b: Seq<char>) -> bool {
    bytes_lt(encode_utf8(a), encode_utf8(b))
}

/// Order on the pair keys of the secondary structures: by the first
/// component, ties broken by the second.
pub open spec fn key_pair_lt(a0: Seq<char>, a1: Seq<char>, b0: Seq<char>, b1: Seq<char>) -> bool {
    key_lt(a0, b0) || (a0 == b0 && key_lt(a1, b1))
}

proof fn lemma_bytes_lt_irreflexive(a: Seq<u8>)
    ensures
        !bytes_lt(a, a),
    decreases a.len(),
{
    if a.len() > 0 {
        lemma_bytes_lt_irreflexive(a.drop_first());
    }
}

proof fn lemma_bytes_lt_asymmetric(a: Seq<u8>, b: Seq<u8>)
    requires
        bytes_lt(a, b),
    ensures
        !bytes_lt(b, a),
    decreases a.len(),
{
    if a.len() > 0 && b.len() > 0 && a[0] == b[0] {
        lemma_bytes_lt_asymmetric(a.drop_first(), b.drop_first());
    }
}

proof fn lemma_bytes_lt_connected(a: Seq<u8>, b: Seq<u8>)
    ensures
        bytes_lt(a, b) || bytes_lt(b, a) || a =~= b,
    decreases a.len(),
{
    if a.len() > 0 && b.len() > 0 && a[0] == b[0] {
        lemma_bytes_lt_connected(a.drop_first(), b.drop_first());
        if !bytes_lt(a, b) && !bytes_lt(b, a) {
            assert(a.drop_first() =~= b.drop_first());
            assert forall|j: int| 0 <= j < a.len() implies a[j] == b[j] by {
                if j > 0 {
                    assert(a[j] == a.drop_first()[j - 1]);
                    assert(b[j] == b.drop_first()[j - 1]);
                }
            }
            assert(a =~= b);
        }
    }
}

proof fn lemma_bytes_lt_transitive(a: Seq<u8>, b: Seq<u8>, c: Seq<u8>)
    requires
        bytes_lt(a, b),
        bytes_lt(b, c),
    ensures
        bytes_lt(a, c),
    decreases a.len(),
{
    if a.len() > 0 && b.len() > 0 && c.len() > 0 && a[0] == b[0] && b[0] == c[0] {
        lemma_bytes_lt_transitive(a.drop_first(), b.drop_first(), c.drop_first());
    }
}

/// UTF-8 encoding is injective: equal encodings come from equal strings.
proof fn lemma_encode_utf8_injective(a: Seq<char>, b: Seq<char>)
    requires
        encode_utf8(a) == encode_utf8(b),
    ensures
        a == b,
{
    encode_utf8_decode_utf8(a);
    encode_utf8_decode_utf8(b);
}

/// No identifier is below itself.
pub proof fn lemma_key_lt_irreflexive(a: Seq<char>)
    ensures
        !key_lt(a, a),
{
    lemma_bytes_lt_irreflexive(encode_utf8(a));
}

/// The key order is asymmetric.
pub proof fn lemma_key_lt_asymmetric(a: Seq<char>, b: Seq<char>)
    requires
        key_lt(a, b),
    ensures
        !key_lt(b, a),
{
    lemma_bytes_lt_asymmetric(encode_utf8(a), encode_utf8(b));
}

/// Two distinct identifiers are ordered one way or the other.
pub proof fn lemma_key_lt_connected(a: Seq<char>, b: Seq<char>)
    ensures
        a == b || key_lt(a, b) || key_lt(b, a),
{
    lemma_bytes_lt_connected(encode_utf8(a), encode_utf8(b));
    if !key_lt(a, b) && !key_lt(b, a) {
        lemma_encode_utf8_injective(a, b);
    }
}

/// The key order is transitive.
pub proof fn lemma_key_lt_transitive(a: Seq<char>, b: Seq<char>, c: Seq<char>)
    requires
        key_lt(a, b),
        key_lt(b, c),
    ensures
        key_lt(a, c),
{
    lemma_bytes_lt_transitive(encode_utf8(a), encode_utf8(b), encode_utf8(c));
}

/// The pair order is transitive.
pub proof fn lemma_key_pair_lt_transitive(
    a0: Seq<char>,
    a1: Seq<char>,
    b0: Seq<char>,
    b1: Seq<char>,
    c0: Seq<char>,
    c1: Seq<char>,
)
    requires
        key_pair_lt(a0, a1, b0, b1),
        key_pair_lt(b0, b1, c0, c1),
    ensures
        key_pair_lt(a0, a1, c0, c1),
{
    lemma_key_lt_irreflexive(a0);
    lemma_key_lt_irreflexive(b0);
    if key_lt(a0, b0) && key_lt(b0, c0) {
        lemma_key_lt_transitive(a0, b0, c0);
    }
    if a0 == b0 && b0 == c0 {
        lemma_key_lt_transitive(a1, b1, c1);
    }
}

/// Distinct pairs are ordered one way or the other.
pub proof fn lemma_key_pair_lt_connected(a0: Seq<char>, a1: Seq<char>, b0: Seq<char>, b1: Seq<char>)
    ensures
        (a0 == b0 && a1 == b1) || key_pair_lt(a0, a1, b0, b1) || key_pair_lt(b0, b1, a0, a1),
{
    lemma_key_lt_connected(a0, b0);
    lemma_key_lt_connected(a1, b1);
}

/// If the first `i` bytes of `a` and `b` agree, the order of `a` and `b`
/// is settled by what follows them.
proof fn lemma_bytes_lt_from_prefix(a: Seq<u8>, b: Seq<u8>, i: int)
    requires
        0 <= i <= a.len(),
        i <= b.len(),
        forall|j: int| 0 <= j < i ==> a[j] == b[j],
    ensures
        (i < a.len() && i < b.len() && a[i] < b[i]) ==> bytes_lt(a, b),
        (i == a.len() && i < b.len()) ==> bytes_lt(a, b),
        (i == a.len() && i == b.len()) ==> a =~= b,
    decreases i,
{
    if i > 0 {
        let a1 = a.drop_first();
        let b1 = b.drop_first();
        lemma_bytes_lt_from_prefix(a1, b1, i - 1);
        assert(a[0] == b[0]);
        if i == a.len() && i == b.len() {
            assert(a1 =~= b1);
            assert(a =~= b);
        }
    }
}

/// The result of a three-way comparison of identifiers.
#[derive(Clone, Copy, PartialEq, Eq, Structural, Debug)]
pub enum KeyCmp {
    Less,
    Equal,
    Greater,
}

/// Three-way comparison of two identifiers in the key order.
pub fn str_compare(a: &str, b: &str) -> (r: KeyCmp)
    ensures
        (r == KeyCmp::Less) == key_lt(a@, b@),
        (r == KeyCmp::Equal) == (a@ == b@),
        (r == KeyCmp::Greater) == key_lt(b@, a@),
{
    let ab: &[u8] = a.as_bytes();
    let bb: &[u8] = b.as_bytes();
    let alen: usize = ab.len();
    let blen: usize = bb.len();
    let mut i: usize = 0;
    while i < alen && i < blen
        invariant
            i <= alen,
            i <= blen,
            ab@ == encode_utf8(a@),
            bb@ == encode_utf8(b@),
            alen == ab@.len(),
            blen == bb@.len(),
            forall|j: int| 0 <= j < i ==> ab@[j] == bb@[j],
        decreases alen - i,
    {
        let x = ab[i];
        let y = bb[i];
        if x < y {
            proof {
                lemma_bytes_lt_from_prefix(ab@, bb@, i as int);
                lemma_bytes_lt_asymmetric(ab@, bb@);
                lemma_bytes_lt_irreflexive(ab@);
                if a@ == b@ {
                    assert(!bytes_lt(ab@, bb@));
                }
            }
            return KeyCmp::Less;
        }
        if x > y {
            proof {
                lemma_bytes_lt_from_prefix(bb@, ab@, i as int);
                lemma_bytes_lt_asymmetric(bb@, ab@);
                lemma_bytes_lt_irreflexive(bb@);
                if a@ == b@ {
                    assert(!bytes_lt(bb@, ab@));
                }
            }
            return KeyCmp::Greater;
        }
        i = i + 1;
    }
    if alen < blen {
        proof {
            lemma_bytes_lt_from_prefix(ab@, bb@, alen as int);
            lemma_bytes_lt_asymmetric(ab@, bb@);
            lemma_bytes_lt_irreflexive(ab@);
            if a@ == b@ {
                assert(!bytes_lt(ab@, bb@));
            }
        }
        return KeyCmp::Less;
    }
    if alen > blen {
        proof {
            lemma_bytes_lt_from_prefix(bb@, ab@, blen as int);
            lemma_bytes_lt_asymmetric(bb@, ab@);
            lemma_bytes_lt_irreflexive(bb@);
            if a@ == b@ {
                assert(!bytes_lt(bb@, ab@));
            }
        }
        return KeyCmp::Greater;
    }
    proof {
        lemma_bytes_lt_from_prefix(ab@, bb@, alen as int);
        assert(encode_utf8(a@) == encode_utf8(b@));
        lemma_encode_utf8_injective(a@, b@);
        lemma_bytes_lt_irreflexive(ab@);
    }
    KeyCmp::Equal
}

/// Whether `a` is strictly below `b` in the key order.
pub fn str_lt(a: &str, b: &str) -> (r: bool)
    ensures
        r == key_lt(a@, b@),
{
    match str_compare(a, b) {
        KeyCmp::Less => true,
        KeyCmp::Equal => false,
        KeyCmp::Greater => false,
    }
}

/// Whether `a` and `b` are the same identifier.
pub fn str_eq(a: &str, b: &str) -> (r: bool)
    ensures
        r == (a@ == b@),
{
    match str_compare(a, b) {
        KeyCmp::Less => false,
        KeyCmp::Equal => true,
        KeyCmp::Greater => false,
    }
}

} // verus!
