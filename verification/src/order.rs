//! The order of keys: strings compared by their UTF-8 bytes, the first difference deciding.

use vstd::prelude::*;
use vstd::string::StringSliceAdditionalSpecFns;
use vstd::utf8::{encode_utf8, encode_utf8_decode_utf8};

verus! {

/// `a` and `b` agree before place `k`, and at `k` either `a` ends and `b` goes on, or `a`
/// has the smaller byte.
pub open spec fn parts_at(a: Seq<u8>, b: Seq<u8>, k: int) -> bool {
    &&& 0 <= k <= a.len()
    &&& k < b.len()
    &&& forall|j: int| 0 <= j < k ==> a[j] == b[j]
    &&& k < a.len() ==> a[k] < b[k]
}

/// `a` comes before `b` in the lexicographic order of byte strings.
pub open spec fn bytes_before(a: Seq<u8>, b: Seq<u8>) -> bool {
    exists|k: int| parts_at(a, b, k)
}

/// The key `a` comes before the key `b`.
pub open spec fn key_before(a: Seq<char>, b: Seq<char>) -> bool {
    bytes_before(encode_utf8(a), encode_utf8(b))
}

/// No byte string comes before itself.
pub proof fn lemma_bytes_irreflexive(a: Seq<u8>)
    ensures
        !bytes_before(a, a),
{
}

/// The order of byte strings is transitive.
pub proof fn lemma_bytes_transitive(a: Seq<u8>, b: Seq<u8>, c: Seq<u8>)
    requires
        bytes_before(a, b),
        bytes_before(b, c),
    ensures
        bytes_before(a, c),
{
    let k1 = choose|k: int| parts_at(a, b, k);
    let k2 = choose|k: int| parts_at(b, c, k);
    let k = if k1 <= k2 {
        k1
    } else {
        k2
    };
    assert(parts_at(a, c, k));
}

/// No key comes before itself.
pub proof fn lemma_key_irreflexive(a: Seq<char>)
    ensures
        !key_before(a, a),
{
    lemma_bytes_irreflexive(encode_utf8(a));
}

/// The order of keys is transitive.
pub proof fn lemma_key_transitive(a: Seq<char>, b: Seq<char>, c: Seq<char>)
    requires
        key_before(a, b),
        key_before(b, c),
    ensures
        key_before(a, c),
{
    lemma_bytes_transitive(encode_utf8(a), encode_utf8(b), encode_utf8(c));
}

/// Of two keys at most one comes before the other.
pub proof fn lemma_key_asymmetric(a: Seq<char>, b: Seq<char>)
    requires
        key_before(a, b),
    ensures
        !key_before(b, a),
        a != b,
{
    if key_before(b, a) {
        lemma_key_transitive(a, b, a);
    }
    lemma_key_irreflexive(a);
}

/// How one key stands to another.
#[derive(Clone, Copy, Debug, PartialEq, Eq, Structural)]
pub enum KeyOrder {
    Before,
    Same,
    After,
}

/// Compares two keys by their bytes. Of two different keys exactly one comes before the
/// other.
pub fn compare_keys(a: &str, b: &str) -> (order: KeyOrder)
    ensures
        match order {
            KeyOrder::Before => key_before(a@, b@),
            KeyOrder::Same => a@ == b@,
            KeyOrder::After => key_before(b@, a@),
        },
{
    let x = a.as_bytes();
    let y = b.as_bytes();
    let mut i: usize = 0;
    while i < x.len() && i < y.len()
        invariant
            i <= x@.len(),
            i <= y@.len(),
            forall|j: int| 0 <= j < i ==> x@[j] == y@[j],
            x@ == encode_utf8(a@),
            y@ == encode_utf8(b@),
        decreases x@.len() - i,
    {
        if x[i] < y[i] {
            assert(parts_at(x@, y@, i as int));
            return KeyOrder::Before;
        }
        if y[i] < x[i] {
            assert(parts_at(y@, x@, i as int));
            return KeyOrder::After;
        }
        i += 1;
    }
    if i < y.len() {
        assert(parts_at(x@, y@, i as int));
        KeyOrder::Before
    } else if i < x.len() {
        assert(parts_at(y@, x@, i as int));
        KeyOrder::After
    } else {
        proof {
            assert(x@ =~= y@);
            encode_utf8_decode_utf8(a@);
            encode_utf8_decode_utf8(b@);
        }
        KeyOrder::Same
    }
}

} // verus!
