//! The order in which names sort: byte by byte over their UTF-8 encoding, a
//! proper prefix before any of its extensions.

use vstd::prelude::*;
use vstd::utf8::*;

verus! {

/// Whether `a` and `b` agree before position `k` and `a` is the lesser at
/// `k`: either `a` ends there and `b` goes on, or `a` has the smaller byte.
pub open spec fn lesser_at(a: Seq<u8>, b: Seq<u8>, k: int) -> bool {
    &&& 0 <= k <= a.len()
    &&& k < b.len()
    &&& forall|j: int| 0 <= j < k ==> a[j] == b[j]
    &&& (k == a.len() || a[k] < b[k])
}

/// Whether `a` sorts strictly before `b`.
pub open spec fn bytes_before(a: Seq<u8>, b: Seq<u8>) -> bool {
    exists|k: int| lesser_at(a, b, k)
}

/// Whether the name `a` sorts strictly before the name `b`.
pub open spec fn sorts_before(a: Seq<char>, b: Seq<char>) -> bool {
    bytes_before(encode_utf8(a), encode_utf8(b))
}

/// Nothing sorts before itself.
pub proof fn lemma_bytes_irreflexive(a: Seq<u8>)
    ensures
        !bytes_before(a, a),
{
}

/// Sorting before is transitive.
pub proof fn lemma_bytes_transitive(a: Seq<u8>, b: Seq<u8>, c: Seq<u8>)
    requires
        bytes_before(a, b),
        bytes_before(b, c),
    ensures
        bytes_before(a, c),
{
    let k1 = choose|k: int| lesser_at(a, b, k);
    let k2 = choose|k: int| lesser_at(b, c, k);
    if k1 <= k2 {
        assert(lesser_at(a, c, k1));
    } else {
        assert(lesser_at(a, c, k2));
    }
}

proof fn lemma_bytes_total_from(a: Seq<u8>, b: Seq<u8>, i: int)
    requires
        0 <= i <= a.len(),
        i <= b.len(),
        forall|j: int| 0 <= j < i ==> a[j] == b[j],
        a != b,
    ensures
        bytes_before(a, b) || bytes_before(b, a),
    decreases a.len() - i,
{
    if i == a.len() {
        if i == b.len() {
            assert(a =~= b);
        } else {
            assert(lesser_at(a, b, i));
        }
    } else if i == b.len() {
        assert(lesser_at(b, a, i));
    } else if a[i] < b[i] {
        assert(lesser_at(a, b, i));
    } else if b[i] < a[i] {
        assert(lesser_at(b, a, i));
    } else {
        lemma_bytes_total_from(a, b, i + 1);
    }
}

/// Of two different byte strings, one sorts before the other.
pub proof fn lemma_bytes_total(a: Seq<u8>, b: Seq<u8>)
    requires
        a != b,
    ensures
        bytes_before(a, b) || bytes_before(b, a),
{
    lemma_bytes_total_from(a, b, 0);
}

/// The order on names is a strict total order.
pub proof fn lemma_names_ordered(a: Seq<char>, b: Seq<char>, c: Seq<char>)
    ensures
        !sorts_before(a, a),
        sorts_before(a, b) && sorts_before(b, c) ==> sorts_before(a, c),
        a != b ==> sorts_before(a, b) || sorts_before(b, a),
        !(sorts_before(a, b) && sorts_before(b, a)),
{
    lemma_bytes_irreflexive(encode_utf8(a));
    if sorts_before(a, b) && sorts_before(b, c) {
        lemma_bytes_transitive(encode_utf8(a), encode_utf8(b), encode_utf8(c));
    }
    if sorts_before(a, b) && sorts_before(b, a) {
        lemma_bytes_transitive(encode_utf8(a), encode_utf8(b), encode_utf8(a));
    }
    if a != b {
        encode_utf8_decode_utf8(a);
        encode_utf8_decode_utf8(b);
        lemma_bytes_total(encode_utf8(a), encode_utf8(b));
    }
}

/// Whether the name `a` sorts strictly before the name `b`.
pub fn name_before(a: &str, b: &str) -> (before: bool)
    ensures
        before == sorts_before(a@, b@),
{
    let x = a.as_bytes();
    let y = b.as_bytes();
    let mut i: usize = 0;
    while i < x.len() && i < y.len()
        invariant
            i <= x.len(),
            i <= y.len(),
            x@ == encode_utf8(a@),
            y@ == encode_utf8(b@),
            forall|j: int| 0 <= j < i ==> x@[j] == y@[j],
        decreases x.len() - i,
    {
        if x[i] < y[i] {
            assert(lesser_at(x@, y@, i as int));
            return true;
        }
        if x[i] > y[i] {
            assert forall|k: int| !lesser_at(x@, y@, k) by {
                if lesser_at(x@, y@, k) && k > i {
                    assert(x@[i as int] == y@[i as int]);
                }
            }
            return false;
        }
        i += 1;
    }
    if i < y.len() {
        assert(lesser_at(x@, y@, i as int));
        true
    } else {
        assert forall|k: int| !lesser_at(x@, y@, k) by {}
        false
    }
}

} // verus!
