//! The order of map keys: byte by byte over their UTF-8 form, a shorter key
//! before any key that extends it.

use vstd::prelude::*;
use vstd::string::*;
use vstd::utf8::*;

verus! {

/// How one key stands to another.
#[derive(Debug, Clone, Copy, PartialEq, Eq, Structural)]
pub enum KeyOrder {
    Before,
    Same,
    After,
}

/// Lexicographic comparison of two byte sequences.
pub open spec fn bytes_order(a: Seq<u8>, b: Seq<u8>) -> KeyOrder
    decreases a.len(),
{
    if a.len() == 0 {
        if b.len() == 0 {
            KeyOrder::Same
        } else {
            KeyOrder::Before
        }
    } else if b.len() == 0 {
        KeyOrder::After
    } else if a[0] < b[0] {
        KeyOrder::Before
    } else if a[0] > b[0] {
        KeyOrder::After
    } else {
        bytes_order(a.skip(1), b.skip(1))
    }
}

/// How key `a` stands to key `b`.
pub open spec fn key_order(a: Seq<char>, b: Seq<char>) -> KeyOrder {
    bytes_order(encode_utf8(a), encode_utf8(b))
}

/// Two byte sequences compare as the same exactly when they are equal.
pub proof fn same_bytes_iff_equal(a: Seq<u8>, b: Seq<u8>)
    ensures
        (bytes_order(a, b) == KeyOrder::Same) <==> a == b,
    decreases a.len(),
{
    if a.len() > 0 && b.len() > 0 && a[0] == b[0] {
        same_bytes_iff_equal(a.skip(1), b.skip(1));
        if a.skip(1) == b.skip(1) {
            assert forall|i: int| 0 <= i < a.len() implies a[i] == b[i] by {
                if i > 0 {
                    assert(a[i] == a.skip(1)[i - 1]);
                    assert(b[i] == b.skip(1)[i - 1]);
                }
            }
            assert(a.len() == a.skip(1).len() + 1);
            assert(b.len() == b.skip(1).len() + 1);
            assert(a =~= b);
        }
    } else if a.len() == 0 && b.len() == 0 {
        assert(a =~= b);
    }
}

/// Two keys compare as the same exactly when they are the same text.
pub proof fn same_key_iff_equal(a: Seq<char>, b: Seq<char>)
    ensures
        (key_order(a, b) == KeyOrder::Same) <==> a == b,
{
    same_bytes_iff_equal(encode_utf8(a), encode_utf8(b));
    encode_utf8_decode_utf8(a);
    encode_utf8_decode_utf8(b);
}

/// Swapping the sides of a comparison swaps before and after.
pub proof fn bytes_order_mirrors(a: Seq<u8>, b: Seq<u8>)
    ensures
        (bytes_order(a, b) == KeyOrder::Before) <==> (bytes_order(b, a) == KeyOrder::After),
        (bytes_order(a, b) == KeyOrder::Same) <==> (bytes_order(b, a) == KeyOrder::Same),
    decreases a.len(),
{
    if a.len() > 0 && b.len() > 0 && a[0] == b[0] {
        bytes_order_mirrors(a.skip(1), b.skip(1));
    }
}

/// What comes before something that comes before a third comes before the
/// third.
pub proof fn bytes_order_chains(a: Seq<u8>, b: Seq<u8>, c: Seq<u8>)
    requires
        bytes_order(a, b) == KeyOrder::Before,
        bytes_order(b, c) == KeyOrder::Before,
    ensures
        bytes_order(a, c) == KeyOrder::Before,
    decreases a.len(),
{
    if a.len() > 0 && a[0] == c[0] {
        bytes_order_chains(a.skip(1), b.skip(1), c.skip(1));
    }
}

/// The order of keys is transitive.
pub proof fn key_order_chains(a: Seq<char>, b: Seq<char>, c: Seq<char>)
    requires
        key_order(a, b) == KeyOrder::Before,
        key_order(b, c) == KeyOrder::Before,
    ensures
        key_order(a, c) == KeyOrder::Before,
{
    bytes_order_chains(encode_utf8(a), encode_utf8(b), encode_utf8(c));
}

/// A key comes after another exactly when the other comes before it.
pub proof fn key_order_mirrors(a: Seq<char>, b: Seq<char>)
    ensures
        (key_order(a, b) == KeyOrder::Before) <==> (key_order(b, a) == KeyOrder::After),
        (key_order(a, b) == KeyOrder::Same) <==> (key_order(b, a) == KeyOrder::Same),
{
    bytes_order_mirrors(encode_utf8(a), encode_utf8(b));
}

/// Compares two byte slices lexicographically.
pub fn compare_bytes(a: &[u8], b: &[u8]) -> (order: KeyOrder)
    ensures
        order == bytes_order(a@, b@),
{
    let mut i: usize = 0;
    proof {
        assert(a@.skip(0) == a@);
        assert(b@.skip(0) == b@);
    }
    loop
        invariant
            i <= a.len(),
            i <= b.len(),
            bytes_order(a@, b@) == bytes_order(a@.skip(i as int), b@.skip(i as int)),
        decreases a.len() - i,
    {
        if i == a.len() {
            if i == b.len() {
                return KeyOrder::Same;
            }
            return KeyOrder::Before;
        }
        if i == b.len() {
            return KeyOrder::After;
        }
        let x: u8 = a[i];
        let y: u8 = b[i];
        if x < y {
            return KeyOrder::Before;
        }
        if x > y {
            return KeyOrder::After;
        }
        proof {
            assert(a@.skip(i as int).skip(1) == a@.skip(i + 1));
            assert(b@.skip(i as int).skip(1) == b@.skip(i + 1));
        }
        i = i + 1;
    }
}

/// Compares two keys.
pub fn compare_keys(a: &String, b: &String) -> (order: KeyOrder)
    ensures
        order == key_order(a@, b@),
{
    compare_bytes(a.as_str().as_bytes(), b.as_str().as_bytes())
}

} // verus!
