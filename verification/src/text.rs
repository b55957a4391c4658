//! Exact comparison of text.

use vstd::prelude::*;
use vstd::utf8::*;

verus! {

/// Two texts with the same UTF-8 encoding are the same text.
pub proof fn lemma_encoding_is_injective(a: Seq<char>, b: Seq<char>)
    requires
        encode_utf8(a) == encode_utf8(b),
    ensures
        a == b,
{
    encode_utf8_decode_utf8(a);
    encode_utf8_decode_utf8(b);
}

/// Whether `a` and `b` are the same text, character for character.
///
/// Texts of the same length are compared over their whole length whatever
/// they hold, so the time taken does not tell where they first differ.
pub fn same_text(a: &str, b: &str) -> (same: bool)
    ensures
        same == (a@ == b@),
{
    let x = a.as_bytes();
    let y = b.as_bytes();
    if x.len() != y.len() {
        return false;
    }
    let n: usize = x.len();
    let mut diff: u8 = 0;
    let mut i: usize = 0;
    while i < n
        invariant
            i <= n,
            n == x@.len(),
            n == y@.len(),
            diff == 0 <==> x@.subrange(0, i as int) =~= y@.subrange(0, i as int),
        decreases n - i,
    {
        let xi: u8 = x[i];
        let yi: u8 = y[i];
        let next: u8 = diff | (xi ^ yi);
        proof {
            assert((next == 0) <==> (diff == 0 && xi == yi)) by (bit_vector)
                requires
                    next == diff | (xi ^ yi),
            ;
            let px = x@.subrange(0, i as int);
            let py = y@.subrange(0, i as int);
            let qx = x@.subrange(0, i as int + 1);
            let qy = y@.subrange(0, i as int + 1);
            assert(qx == px.push(xi));
            assert(qy == py.push(yi));
            if qx == qy {
                assert(qx.drop_last() == px);
                assert(qy.drop_last() == py);
                assert(qx.last() == xi);
                assert(qy.last() == yi);
            }
        }
        diff = next;
        i = i + 1;
    }
    proof {
        assert(x@.subrange(0, n as int) == x@);
        assert(y@.subrange(0, n as int) == y@);
        if x@ == y@ {
            lemma_encoding_is_injective(a@, b@);
        }
    }
    diff == 0
}

} // verus!
