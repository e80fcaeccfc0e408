//! The name sanitizer: deletes every byte that is illegal in a file name
//! (`\ / : * ? " < > |`) from a display name, keeping everything else in
//! order. Deleting, not replacing, so an all-illegal name collapses to the
//! empty label.

use vstd::prelude::*;

verus! {

/// The nine bytes that may not appear in a file name.
pub open spec fn is_illegal_byte(b: u8) -> bool {
    b == 92 || b == 47 || b == 58 || b == 42 || b == 63 || b == 34 || b == 60 || b == 62 || b == 124
}

/// What sanitizing computes: the subsequence of legal bytes.
pub open spec fn sanitize_spec(s: Seq<u8>) -> Seq<u8> {
    s.filter(|b: u8| !is_illegal_byte(b))
}

/// Decide whether one byte is illegal in a file name.
pub fn is_illegal_byte_exec(b: u8) -> (r: bool)
    ensures
        r == is_illegal_byte(b),
{
    b == 92 || b == 47 || b == 58 || b == 42 || b == 63 || b == 34 || b == 60 || b == 62 || b == 124
}

/// Delete every illegal byte from `name`.
pub fn sanitize_name(name: &Vec<u8>) -> (r: Vec<u8>)
    ensures
        r@ == sanitize_spec(name@),
{
    let mut r: Vec<u8> = Vec::new();
    let mut i: usize = 0;
    while i < name.len()
        invariant
            i <= name@.len(),
            r@ == sanitize_spec(name@.take(i as int)),
        decreases name@.len() - i,
    {
        let b = name[i];
        if !is_illegal_byte_exec(b) {
            r.push(b);
        }
        proof {
            assert(name@.take(i + 1) =~= name@.take(i as int).push(name@[i as int]));
            crate::byteseq::lemma_filter_push(
                name@.take(i as int),
                |x: u8| !is_illegal_byte(x),
                name@[i as int],
            );
        }
        i = i + 1;
    }
    proof {
        assert(name@.take(name@.len() as int) =~= name@);
    }
    r
}

/// Sanitizing is idempotent: a sanitized name passes through a second
/// sanitization unchanged.
pub proof fn lemma_sanitize_idempotent(s: Seq<u8>)
    ensures
        sanitize_spec(sanitize_spec(s)) == sanitize_spec(s),
    decreases s.len(),
{
    if s.len() == 0 {
        reveal(Seq::filter);
    } else {
        let last = s.last();
        lemma_sanitize_idempotent(s.drop_last());
        assert(s =~= s.drop_last().push(last));
        crate::byteseq::lemma_filter_push(s.drop_last(), |x: u8| !is_illegal_byte(x), last);
        if !is_illegal_byte(last) {
            crate::byteseq::lemma_filter_push(
                sanitize_spec(s.drop_last()),
                |x: u8| !is_illegal_byte(x),
                last,
            );
        }
    }
}

} // verus!
