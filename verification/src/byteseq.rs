//! Byte-sequence primitives: scanning for a byte, literal substring search,
//! ASCII case folding and concatenation, each with an exact contract.

use vstd::prelude::*;

verus! {

/// Least index at or after `pos` where `x` occurs in `b`, if any.
pub open spec fn find_from(b: Seq<u8>, pos: int, x: u8) -> Option<int>
    decreases b.len() - pos,
{
    if pos < 0 || pos >= b.len() {
        None
    } else if b[pos] == x {
        Some(pos)
    } else {
        find_from(b, pos + 1, x)
    }
}

/// `find_from` returns the least occurrence at or after `pos`, inside bounds,
/// and returns `None` exactly when no occurrence is left.
pub proof fn lemma_find_from(b: Seq<u8>, pos: int, x: u8)
    requires
        0 <= pos,
    ensures
        match find_from(b, pos, x) {
            Some(i) => pos <= i < b.len() && b[i] == x && (forall|j: int|
                pos <= j < i ==> b[j] != x),
            None => forall|j: int| pos <= j < b.len() ==> b[j] != x,
        },
    decreases b.len() - pos,
{
    if pos >= b.len() {
    } else if b[pos] == x {
    } else {
        lemma_find_from(b, pos + 1, x);
    }
}

/// Scan `b` from `pos` for the byte `x`.
pub fn find_byte_from(b: &Vec<u8>, pos: usize, x: u8) -> (r: Option<usize>)
    ensures
        match r {
            Some(i) => find_from(b@, pos as int, x) == Some(i as int),
            None => find_from(b@, pos as int, x) is None,
        },
{
    let mut i: usize = pos;
    while i < b.len()
        invariant
            pos <= i,
            find_from(b@, pos as int, x) == find_from(b@, i as int, x),
        decreases b@.len() - i,
    {
        if b[i] == x {
            return Some(i);
        }
        i = i + 1;
    }
    None
}

/// Where an occurrence of `x` at `k` is the first at or after `pos`,
/// `find_from` returns it.
pub proof fn lemma_find_from_at(b: Seq<u8>, pos: int, x: u8, k: int)
    requires
        0 <= pos <= k < b.len(),
        b[k] == x,
        forall|j: int| pos <= j < k ==> b[j] != x,
    ensures
        find_from(b, pos, x) == Some(k),
{
    lemma_find_from(b, pos, x);
    match find_from(b, pos, x) {
        Some(i) => {
            if i < k {
                assert(b[i] != x);
            }
            if i > k {
                assert(b[k] != x);
            }
        },
        None => {
            assert(b[k] != x);
        },
    }
}

/// The needle `n` occurs in `h` starting at index `i`.
pub open spec fn matches_at(h: Seq<u8>, n: Seq<u8>, i: int) -> bool {
    0 <= i && i + n.len() <= h.len() && h.subrange(i, i + n.len()) == n
}

/// The needle `n` occurs somewhere in `h` as a contiguous run.
pub open spec fn contains_seq(h: Seq<u8>, n: Seq<u8>) -> bool {
    exists|i: int| matches_at(h, n, i)
}

/// Least index at or after `pos` where `n` occurs in `h`, if any.
pub open spec fn first_match(h: Seq<u8>, n: Seq<u8>, pos: int) -> Option<int>
    decreases h.len() - pos,
{
    if pos < 0 || pos + n.len() > h.len() {
        None
    } else if n.len() == 0 {
        Some(pos)
    } else if matches_at(h, n, pos) {
        Some(pos)
    } else {
        first_match(h, n, pos + 1)
    }
}

/// `first_match` returns the least occurrence at or after `pos`, and `None`
/// exactly when there is no occurrence at or after `pos`.
pub proof fn lemma_first_match(h: Seq<u8>, n: Seq<u8>, pos: int)
    requires
        0 <= pos,
    ensures
        match first_match(h, n, pos) {
            Some(i) => pos <= i && matches_at(h, n, i) && (forall|j: int|
                pos <= j < i ==> !matches_at(h, n, j)),
            None => forall|j: int| j >= pos ==> !matches_at(h, n, j),
        },
    decreases h.len() - pos,
{
    if pos + n.len() > h.len() {
    } else if n.len() == 0 {
        assert(h.subrange(pos, pos) =~= n);
        assert(matches_at(h, n, pos));
    } else if matches_at(h, n, pos) {
    } else {
        lemma_first_match(h, n, pos + 1);
    }
}

/// A match from position zero exists exactly when `h` contains `n`.
pub proof fn lemma_first_match_contains(h: Seq<u8>, n: Seq<u8>)
    ensures
        (first_match(h, n, 0) is Some) == contains_seq(h, n),
{
    lemma_first_match(h, n, 0);
    if first_match(h, n, 0) is Some {
        let i = first_match(h, n, 0)->Some_0;
        assert(matches_at(h, n, i));
    }
}

/// Compare `h[i .. i + n.len()]` with `n`.
fn matches_at_exec(h: &Vec<u8>, n: &Vec<u8>, i: usize) -> (r: bool)
    requires
        i + n@.len() <= h@.len(),
    ensures
        r == matches_at(h@, n@, i as int),
{
    let hl = h.len();
    let nl = n.len();
    let mut j: usize = 0;
    while j < nl
        invariant
            hl == h@.len(),
            nl == n@.len(),
            i + n@.len() <= h@.len(),
            j <= n@.len(),
            forall|k: int| 0 <= k < j ==> h@[i + k] == n@[k],
        decreases n@.len() - j,
    {
        if h[i + j] != n[j] {
            proof {
                if matches_at(h@, n@, i as int) {
                    assert(h@.subrange(i as int, i + n@.len())[j as int] == n@[j as int]);
                }
            }
            return false;
        }
        j = j + 1;
    }
    proof {
        assert(h@.subrange(i as int, i + n@.len()) =~= n@);
    }
    true
}

/// Find the least index where `n` occurs in `h`.
pub fn find_first_match(h: &Vec<u8>, n: &Vec<u8>) -> (r: Option<usize>)
    ensures
        match r {
            Some(i) => first_match(h@, n@, 0) == Some(i as int),
            None => first_match(h@, n@, 0) is None,
        },
{
    if n.len() > h.len() {
        proof {
            lemma_first_match(h@, n@, 0);
            if first_match(h@, n@, 0) is Some {
                let i = first_match(h@, n@, 0)->Some_0;
                assert(matches_at(h@, n@, i));
            }
        }
        return None;
    }
    if n.len() == 0 {
        proof {
            assert(h@.subrange(0, 0) =~= n@);
            assert(matches_at(h@, n@, 0));
        }
        return Some(0);
    }
    let bound = h.len() - n.len();
    let mut i: usize = 0;
    while i <= bound
        invariant
            0 < n@.len() <= h@.len(),
            h@.len() <= usize::MAX,
            bound == h@.len() - n@.len(),
            0 <= i <= bound + 1,
            first_match(h@, n@, 0) == first_match(h@, n@, i as int),
        decreases h@.len() - i,
    {
        if matches_at_exec(h, n, i) {
            return Some(i);
        }
        i = i + 1;
    }
    None
}

/// `h` contains `n` as a contiguous run of bytes.
pub fn contains_bytes(h: &Vec<u8>, n: &Vec<u8>) -> (r: bool)
    ensures
        r == contains_seq(h@, n@),
{
    let r = find_first_match(h, n);
    proof {
        lemma_first_match_contains(h@, n@);
    }
    r.is_some()
}

/// ASCII lower-casing of one byte.
pub open spec fn lower_byte(b: u8) -> u8 {
    if 65 <= b <= 90 {
        (b + 32) as u8
    } else {
        b
    }
}

/// The two byte strings are equal up to ASCII case.
pub open spec fn key_is(k: Seq<u8>, name: Seq<u8>) -> bool {
    k.len() == name.len() && (forall|i: int|
        0 <= i < k.len() ==> lower_byte(k[i]) == lower_byte(name[i]))
}

/// ASCII lower-casing of one byte.
pub fn lower_byte_exec(b: u8) -> (r: u8)
    ensures
        r == lower_byte(b),
{
    if 65 <= b && b <= 90 {
        b + 32
    } else {
        b
    }
}

/// Compare two byte strings up to ASCII case.
pub fn eq_ignore_ascii_case(a: &Vec<u8>, b: &Vec<u8>) -> (r: bool)
    ensures
        r == key_is(a@, b@),
{
    if a.len() != b.len() {
        return false;
    }
    let mut i: usize = 0;
    while i < a.len()
        invariant
            a@.len() == b@.len(),
            i <= a@.len(),
            forall|k: int| 0 <= k < i ==> lower_byte(a@[k]) == lower_byte(b@[k]),
        decreases a@.len() - i,
    {
        if lower_byte_exec(a[i]) != lower_byte_exec(b[i]) {
            return false;
        }
        i = i + 1;
    }
    true
}

/// Copy the range `from .. to` of `b` into a fresh vector.
pub fn copy_range(b: &Vec<u8>, from: usize, to: usize) -> (r: Vec<u8>)
    requires
        from <= to <= b@.len(),
    ensures
        r@ == b@.subrange(from as int, to as int),
{
    let mut r: Vec<u8> = Vec::new();
    let mut i: usize = from;
    while i < to
        invariant
            from <= i <= to <= b@.len(),
            r@ == b@.subrange(from as int, i as int),
        decreases to - i,
    {
        r.push(b[i]);
        proof {
            assert(b@.subrange(from as int, i + 1) =~= b@.subrange(from as int, i as int).push(
                b@[i as int],
            ));
        }
        i = i + 1;
    }
    r
}

/// Append all of `b` to `a`.
pub fn append_bytes(a: &mut Vec<u8>, b: &Vec<u8>)
    ensures
        final(a)@ == old(a)@ + b@,
{
    let mut i: usize = 0;
    while i < b.len()
        invariant
            i <= b@.len(),
            a@ == old(a)@ + b@.subrange(0, i as int),
        decreases b@.len() - i,
    {
        a.push(b[i]);
        proof {
            assert(b@.subrange(0, i + 1) =~= b@.subrange(0, i as int).push(b@[i as int]));
            assert(old(a)@ + b@.subrange(0, i + 1) =~= (old(a)@ + b@.subrange(0, i as int)).push(
                b@[i as int],
            ));
        }
        i = i + 1;
    }
    proof {
        assert(b@.subrange(0, b@.len() as int) =~= b@);
    }
}

/// Concatenate two byte strings into a fresh vector.
pub fn concat_bytes(a: &Vec<u8>, b: &Vec<u8>) -> (r: Vec<u8>)
    ensures
        r@ == a@ + b@,
{
    let mut r = copy_range(a, 0, a.len());
    proof {
        assert(a@.subrange(0, a@.len() as int) =~= a@);
    }
    append_bytes(&mut r, b);
    r
}

/// The bytes of an ASCII character sequence, one byte per character.
pub open spec fn ascii_bytes(s: Seq<char>) -> Seq<u8> {
    s.map_values(|c: char| c as u8)
}

/// The bytes of an ASCII string slice.
pub fn str_bytes(s: &str) -> (v: Vec<u8>)
    requires
        s.is_ascii(),
    ensures
        v@ == ascii_bytes(s@),
{
    let v = s.as_bytes_vec();
    proof {
        vstd::string::is_ascii_spec_bytes(s);
        assert(v@ =~= ascii_bytes(s@));
    }
    v
}

/// A generic step law for `Seq::filter`: filtering a sequence extended by one
/// element keeps the element exactly when the predicate holds of it.
pub proof fn lemma_filter_push<A>(s: Seq<A>, pred: spec_fn(A) -> bool, x: A)
    ensures
        s.push(x).filter(pred) == if pred(x) {
            s.filter(pred).push(x)
        } else {
            s.filter(pred)
        },
{
    assert(s.push(x).drop_last() =~= s);
    assert(s.push(x).last() == x);
    reveal(Seq::filter);
}

} // verus!
