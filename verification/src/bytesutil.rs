//! Byte-level helpers shared by the decoder: ASCII whitespace trimming,
//! prefix tests, and byte-sequence equality, each with an exact
//! specification over `Seq<u8>`.

use vstd::prelude::*;

verus! {

/// ASCII whitespace as used by the wire protocol's line framing:
/// space, tab, line feed, vertical tab, form feed and carriage return.
/// The protocol frames its lines with ASCII bytes only, so line
/// trimming deliberately stops at ASCII whitespace and leaves the
/// multi-byte Unicode whitespace characters alone.
pub open spec fn is_ws(b: u8) -> bool {
    b == 0x20 || b == 0x09 || b == 0x0a || b == 0x0b || b == 0x0c || b == 0x0d
}

/// Executable counterpart of [`is_ws`].
pub fn is_ws_byte(b: u8) -> (r: bool)
    ensures
        r == is_ws(b),
{
    b == 0x20 || b == 0x09 || b == 0x0a || b == 0x0b || b == 0x0c || b == 0x0d
}

/// First index at or after `i` holding a non-whitespace byte (or the length).
pub open spec fn ws_start(s: Seq<u8>, i: int) -> int
    decreases s.len() - i,
{
    if 0 <= i < s.len() && is_ws(s[i]) {
        ws_start(s, i + 1)
    } else {
        i
    }
}

/// Last bound `j <= i` such that the byte before `j` is not whitespace (or 0).
pub open spec fn ws_end(s: Seq<u8>, i: int) -> int
    decreases i,
{
    if 0 < i <= s.len() && is_ws(s[i - 1]) {
        ws_end(s, i - 1)
    } else {
        i
    }
}

/// The bytes of `s` with leading and trailing ASCII whitespace removed.
pub open spec fn trim(s: Seq<u8>) -> Seq<u8> {
    let a = ws_start(s, 0);
    let b = ws_end(s, s.len() as int);
    if a <= b {
        s.subrange(a, b)
    } else {
        Seq::empty()
    }
}

pub proof fn lemma_ws_end_bounds(s: Seq<u8>, i: int)
    requires
        0 <= i <= s.len(),
    ensures
        0 <= ws_end(s, i) <= i,
    decreases i,
{
    if 0 < i && is_ws(s[i - 1]) {
        lemma_ws_end_bounds(s, i - 1);
    }
}

/// Extract `v[from..to]` as a fresh vector.
pub fn subvec(v: &Vec<u8>, from: usize, to: usize) -> (r: Vec<u8>)
    requires
        from <= to <= v.len(),
    ensures
        r@ == v@.subrange(from as int, to as int),
{
    let mut r: Vec<u8> = Vec::new();
    proof {
        assert(r@ =~= v@.subrange(from as int, from as int));
    }
    let mut i: usize = from;
    while i < to
        invariant
            from <= i <= to <= v.len(),
            r@ == v@.subrange(from as int, i as int),
        decreases to - i,
    {
        r.push(v[i]);
        i = i + 1;
        proof {
            assert(r@ =~= v@.subrange(from as int, i as int));
        }
    }
    r
}

/// The bytes of `v` with surrounding ASCII whitespace removed.
pub fn trim_vec(v: &Vec<u8>) -> (r: Vec<u8>)
    ensures
        r@ == trim(v@),
{
    let mut a: usize = 0;
    while a < v.len() && is_ws_byte(v[a])
        invariant
            0 <= a <= v.len(),
            ws_start(v@, 0) == ws_start(v@, a as int),
        decreases v.len() - a,
    {
        proof {
            assert(ws_start(v@, a as int) == ws_start(v@, a as int + 1));
        }
        a = a + 1;
    }
    proof {
        assert(ws_start(v@, a as int) == a as int);
    }
    let mut b: usize = v.len();
    while b > a && is_ws_byte(v[b - 1])
        invariant
            a <= b <= v.len(),
            ws_end(v@, v.len() as int) == ws_end(v@, b as int),
            ws_start(v@, 0) == a as int,
        decreases b,
    {
        proof {
            assert(ws_end(v@, b as int) == ws_end(v@, b as int - 1));
        }
        b = b - 1;
    }
    if b > a {
        proof {
            assert(!is_ws(v@[b as int - 1]));
            assert(ws_end(v@, b as int) == b as int);
        }
        subvec(v, a, b)
    } else {
        proof {
            lemma_ws_end_bounds(v@, b as int);
            assert(ws_end(v@, v@.len() as int) <= a as int);
            assert(trim(v@) =~= Seq::<u8>::empty());
        }
        Vec::new()
    }
}

/// Whether `p` is a prefix of `v`.
pub fn vec_starts_with(v: &Vec<u8>, p: &Vec<u8>) -> (r: bool)
    ensures
        r == p@.is_prefix_of(v@),
{
    if p.len() > v.len() {
        return false;
    }
    let mut i: usize = 0;
    while i < p.len()
        invariant
            0 <= i <= p.len() <= v.len(),
            forall|k: int| 0 <= k < i ==> v@[k] == p@[k],
        decreases p.len() - i,
    {
        if v[i] != p[i] {
            return false;
        }
        i = i + 1;
    }
    proof {
        assert(p@ =~= v@.subrange(0, p.len() as int));
    }
    true
}

/// Whether the two vectors hold the same bytes.
pub fn vec_eq(a: &Vec<u8>, b: &Vec<u8>) -> (r: bool)
    ensures
        r == (a@ == b@),
{
    if a.len() != b.len() {
        return false;
    }
    let mut i: usize = 0;
    while i < a.len()
        invariant
            0 <= i <= a.len() == b.len(),
            forall|k: int| 0 <= k < i ==> a@[k] == b@[k],
        decreases a.len() - i,
    {
        if a[i] != b[i] {
            return false;
        }
        i = i + 1;
    }
    proof {
        assert(a@ =~= b@);
    }
    true
}

} // verus!
