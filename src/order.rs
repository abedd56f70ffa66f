//! The order of keyspace names: byte by byte over their UTF-8 encodings,
//! which is the order of Rust's `str` comparison.

use vstd::prelude::*;
use vstd::utf8::{encode_utf8, encode_utf8_decode_utf8};

verus! {

/// `a` and `b` agree on their first `i` bytes, and at `i` either `a` ends
/// while `b` goes on, or `a` holds the smaller byte.
pub open spec fn lt_at(a: Seq<u8>, b: Seq<u8>, i: int) -> bool {
    &&& 0 <= i <= a.len()
    &&& i <= b.len()
    &&& forall|m: int| 0 <= m < i ==> a[m] == b[m]
    &&& if i == a.len() {
        i < b.len()
    } else {
        i < b.len() && a[i] < b[i]
    }
}

/// `a` sorts strictly before `b`, lexicographically.
pub open spec fn bytes_lt(a: Seq<u8>, b: Seq<u8>) -> bool {
    exists|i: int| #[trigger] lt_at(a, b, i)
}

/// Name `a` sorts strictly before name `b`.
pub open spec fn name_lt(a: Seq<char>, b: Seq<char>) -> bool {
    bytes_lt(encode_utf8(a), encode_utf8(b))
}

/// No sequence sorts before itself, and of two sequences at most one sorts
/// before the other.
pub proof fn lemma_lt_asymmetric(a: Seq<u8>, b: Seq<u8>)
    ensures
        bytes_lt(a, b) ==> !bytes_lt(b, a),
        bytes_lt(a, b) ==> a != b,
{
    if bytes_lt(a, b) {
        let i = choose|i: int| #[trigger] lt_at(a, b, i);
        if bytes_lt(b, a) {
            let j = choose|j: int| #[trigger] lt_at(b, a, j);
            if i < j {
                assert(a[i] == b[i]);
            } else if j < i {
                assert(a[j] == b[j]);
            }
        }
        if a == b {
            assert(lt_at(b, a, i));
        }
    }
}

/// The order is transitive.
pub proof fn lemma_lt_transitive(a: Seq<u8>, b: Seq<u8>, c: Seq<u8>)
    requires
        bytes_lt(a, b),
        bytes_lt(b, c),
    ensures
        bytes_lt(a, c),
{
    let i = choose|i: int| #[trigger] lt_at(a, b, i);
    let j = choose|j: int| #[trigger] lt_at(b, c, j);
    if i <= j {
        if i < j {
            assert(b[i] == c[i]);
        }
        assert(lt_at(a, c, i));
    } else {
        assert(a[j] == b[j]);
        assert(lt_at(a, c, j));
    }
}

/// Distinct names have distinct encodings.
pub proof fn lemma_encoding_injective(a: Seq<char>, b: Seq<char>)
    ensures
        encode_utf8(a) == encode_utf8(b) ==> a == b,
{
    encode_utf8_decode_utf8(a);
    encode_utf8_decode_utf8(b);
}

/// Compares `a` with `b`: negative where `a` sorts first, zero where they
/// are equal, positive where `b` sorts first.
pub fn compare_bytes(a: &[u8], b: &[u8]) -> (r: i8)
    ensures
        r < 0 <==> bytes_lt(a@, b@),
        r == 0 <==> a@ == b@,
        r > 0 <==> bytes_lt(b@, a@),
{
    let mut i: usize = 0;
    while i < a.len() && i < b.len() && a[i] == b[i]
        invariant
            i <= a.len(),
            i <= b.len(),
            forall|m: int| 0 <= m < i ==> a@[m] == b@[m],
        decreases a.len() - i,
    {
        i = i + 1;
    }
    proof {
        lemma_lt_asymmetric(a@, b@);
        lemma_lt_asymmetric(b@, a@);
    }
    if i < a.len() && i < b.len() {
        if a[i] < b[i] {
            assert(lt_at(a@, b@, i as int));
            -1
        } else {
            assert(lt_at(b@, a@, i as int));
            1
        }
    } else if i == a.len() && i == b.len() {
        assert(a@ =~= b@);
        0
    } else if i == a.len() {
        assert(lt_at(a@, b@, i as int));
        -1
    } else {
        assert(lt_at(b@, a@, i as int));
        1
    }
}

} // verus!
