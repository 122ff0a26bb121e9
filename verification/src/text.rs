//! Byte-level text helpers: byte order, prefixes, and cutting strings at
//! ASCII separators.

use vstd::prelude::*;
use vstd::string::StringSliceAdditionalSpecFns;
use vstd::utf8::*;

verus! {

broadcast use vstd::seq_lib::group_seq_properties;

/// Lexicographic order on byte sequences (the order of Rust's `str::cmp`):
/// `a` comes strictly before `b`.
pub open spec fn lex_lt(a: Seq<u8>, b: Seq<u8>) -> bool
    decreases a.len(),
{
    if a.len() == 0 {
        b.len() > 0
    } else if b.len() == 0 {
        false
    } else if a[0] < b[0] {
        true
    } else if a[0] > b[0] {
        false
    } else {
        lex_lt(a.drop_first(), b.drop_first())
    }
}

/// `a` comes no later than `b`.
pub open spec fn lex_le(a: Seq<u8>, b: Seq<u8>) -> bool {
    !lex_lt(b, a)
}

pub proof fn lemma_lex_lt_irreflexive(a: Seq<u8>)
    ensures
        !lex_lt(a, a),
    decreases a.len(),
{
    if a.len() > 0 {
        lemma_lex_lt_irreflexive(a.drop_first());
    }
}

pub proof fn lemma_lex_lt_transitive(a: Seq<u8>, b: Seq<u8>, c: Seq<u8>)
    requires
        lex_lt(a, b),
        lex_lt(b, c),
    ensures
        lex_lt(a, c),
    decreases a.len(),
{
    if a.len() > 0 && b.len() > 0 && c.len() > 0 && a[0] == b[0] && b[0] == c[0] {
        lemma_lex_lt_transitive(a.drop_first(), b.drop_first(), c.drop_first());
    }
}

pub proof fn lemma_lex_lt_total(a: Seq<u8>, b: Seq<u8>)
    ensures
        a == b || lex_lt(a, b) || lex_lt(b, a),
    decreases a.len(),
{
    if a.len() > 0 && b.len() > 0 && a[0] == b[0] {
        lemma_lex_lt_total(a.drop_first(), b.drop_first());
        if a.drop_first() == b.drop_first() {
            assert(a =~= seq![a[0]] + a.drop_first());
            assert(b =~= seq![b[0]] + b.drop_first());
        }
    } else if a.len() == 0 && b.len() == 0 {
        assert(a =~= b);
    }
}

/// `lex_le` is a total preorder whose ties are equal sequences.
pub proof fn lemma_lex_order(a: Seq<u8>, b: Seq<u8>, c: Seq<u8>)
    ensures
        lex_le(a, a),
        lex_lt(a, b) ==> !lex_lt(b, a),
        lex_lt(a, b) ==> lex_le(a, b),
        lex_le(a, b) && lex_le(b, a) ==> a == b,
        lex_le(a, b) || lex_le(b, a),
        lex_le(a, b) && a != b ==> lex_lt(a, b),
        lex_le(a, b) && lex_le(b, c) ==> lex_le(a, c),
        lex_lt(a, b) && lex_le(b, c) ==> lex_lt(a, c),
        lex_le(a, b) && lex_lt(b, c) ==> lex_lt(a, c),
{
    lemma_lex_lt_irreflexive(a);
    lemma_lex_lt_total(a, b);
    lemma_lex_lt_total(b, c);
    lemma_lex_lt_total(a, c);
    if lex_lt(a, b) && lex_lt(b, a) {
        lemma_lex_lt_transitive(a, b, a);
    }
    if lex_lt(c, a) && lex_lt(a, b) {
        lemma_lex_lt_transitive(c, a, b);
    }
    if lex_lt(b, c) && lex_lt(c, a) {
        lemma_lex_lt_transitive(b, c, a);
    }
    if lex_lt(a, b) && lex_lt(b, c) {
        lemma_lex_lt_transitive(a, b, c);
    }
    if lex_lt(a, b) && lex_lt(c, a) {
        lemma_lex_lt_transitive(c, a, b);
    }
}

/// Whether `a` comes strictly before `b` in byte order.
pub fn bytes_lt(a: &[u8], b: &[u8]) -> (r: bool)
    ensures
        r == lex_lt(a@, b@),
{
    let mut i: usize = 0;
    while i < a.len() && i < b.len()
        invariant
            i <= a@.len(),
            i <= b@.len(),
            lex_lt(a@, b@) == lex_lt(a@.skip(i as int), b@.skip(i as int)),
        decreases a@.len() - i,
    {
        proof {
            assert(a@.skip(i as int).drop_first() =~= a@.skip(i + 1));
            assert(b@.skip(i as int).drop_first() =~= b@.skip(i + 1));
        }
        if a[i] < b[i] {
            return true;
        }
        if a[i] > b[i] {
            return false;
        }
        i = i + 1;
    }
    i == a.len() && i < b.len()
}

/// `a` begins with `p`.
pub open spec fn bytes_start_with(a: Seq<u8>, p: Seq<u8>) -> bool {
    p.len() <= a.len() && a.subrange(0, p.len() as int) == p
}

/// Whether `a` begins with `p`.
pub fn starts_with(a: &[u8], p: &[u8]) -> (r: bool)
    ensures
        r == bytes_start_with(a@, p@),
{
    if p.len() > a.len() {
        return false;
    }
    let mut i: usize = 0;
    while i < p.len()
        invariant
            p@.len() <= a@.len(),
            i <= p@.len(),
            forall|j: int| 0 <= j < i ==> a@[j] == p@[j],
        decreases p@.len() - i,
    {
        if a[i] != p[i] {
            assert(a@.subrange(0, p@.len() as int)[i as int] != p@[i as int]);
            return false;
        }
        i = i + 1;
    }
    assert(a@.subrange(0, p@.len() as int) =~= p@);
    true
}

/// The number of bytes equal to `c` in `s`.
pub open spec fn count_byte(s: Seq<u8>, c: u8) -> nat
    decreases s.len(),
{
    if s.len() == 0 {
        0
    } else {
        count_byte(s.drop_last(), c) + if s.last() == c { 1nat } else { 0nat }
    }
}

/// The index of the first byte equal to `c` at or after `i`, if any.
pub open spec fn find_byte_from(s: Seq<u8>, c: u8, i: int) -> Option<int>
    decreases s.len() - i,
{
    if i < 0 || i >= s.len() {
        None
    } else if s[i] == c {
        Some(i)
    } else {
        find_byte_from(s, c, i + 1)
    }
}

pub proof fn lemma_find_byte_from(s: Seq<u8>, c: u8, i: int)
    requires
        0 <= i,
    ensures
        find_byte_from(s, c, i) matches Some(j) ==> i <= j < s.len() && s[j] == c && forall|
            m: int,
        |
            i <= m < j ==> s[m] != c,
        find_byte_from(s, c, i) is None ==> forall|m: int| i <= m < s.len() ==> s[m] != c,
    decreases s.len() - i,
{
    if 0 <= i < s.len() && s[i] != c {
        lemma_find_byte_from(s, c, i + 1);
    }
}

/// The number of times byte `c` occurs in `s`.
pub fn count_bytes(s: &[u8], c: u8) -> (r: usize)
    ensures
        r == count_byte(s@, c),
{
    let mut n: usize = 0;
    let mut i: usize = 0;
    while i < s.len()
        invariant
            i <= s@.len(),
            n == count_byte(s@.take(i as int), c),
            n <= i,
        decreases s@.len() - i,
    {
        proof {
            assert(s@.take(i + 1).drop_last() =~= s@.take(i as int));
        }
        if s[i] == c {
            n = n + 1;
        }
        i = i + 1;
    }
    proof {
        assert(s@.take(s@.len() as int) =~= s@);
    }
    n
}

/// The index of the first byte equal to `c` at or after `start`, if any.
pub fn find_byte(s: &[u8], c: u8, start: usize) -> (r: Option<usize>)
    ensures
        r matches Some(j) ==> start <= j < s@.len(),
        match r {
            Some(j) => find_byte_from(s@, c, start as int) == Some(j as int),
            None => find_byte_from(s@, c, start as int) is None,
        },
{
    let mut i = start;
    proof {
        lemma_find_byte_from(s@, c, start as int);
    }
    while i < s.len()
        invariant
            start <= i,
            find_byte_from(s@, c, start as int) == find_byte_from(s@, c, i as int),
        decreases s@.len() - i,
    {
        if s[i] == c {
            return Some(i);
        }
        i = i + 1;
    }
    None
}

/// Whether `a` equals the part of `b` between `from` and `to`.
pub fn eq_range(a: &[u8], b: &[u8], from: usize, to: usize) -> (r: bool)
    requires
        from <= to <= b@.len(),
    ensures
        r == (a@ == b@.subrange(from as int, to as int)),
{
    if a.len() != to - from {
        return false;
    }
    let mut i: usize = 0;
    while i < a.len()
        invariant
            a@.len() == to - from,
            from <= to <= b@.len(),
            i <= a@.len(),
            forall|j: int| 0 <= j < i ==> a@[j] == b@[from + j],
        decreases a@.len() - i,
    {
        if a[i] != b[from + i] {
            assert(b@.subrange(from as int, to as int)[i as int] != a@[i as int]);
            return false;
        }
        i = i + 1;
    }
    assert(a@ =~= b@.subrange(from as int, to as int));
    true
}

/// Whether `a` begins with the part of `b` between `from` and `to`.
pub fn starts_with_range(a: &[u8], b: &[u8], from: usize, to: usize) -> (r: bool)
    requires
        from <= to <= b@.len(),
    ensures
        r == bytes_start_with(a@, b@.subrange(from as int, to as int)),
{
    let n = to - from;
    if n > a.len() {
        return false;
    }
    let mut i: usize = 0;
    while i < n
        invariant
            n == to - from,
            n <= a@.len(),
            from <= to <= b@.len(),
            i <= n,
            forall|j: int| 0 <= j < i ==> a@[j] == b@[from + j],
        decreases n - i,
    {
        if a[i] != b[from + i] {
            assert(a@.subrange(0, n as int)[i as int] != b@.subrange(from as int, to as int)[i as int]);
            return false;
        }
        i = i + 1;
    }
    assert(a@.subrange(0, n as int) =~= b@.subrange(from as int, to as int));
    true
}

/// In valid UTF-8, the index after an ASCII byte that starts a character
/// is a character boundary too.
pub proof fn lemma_ascii_next_boundary(bytes: Seq<u8>, i: int)
    requires
        valid_utf8(bytes),
        0 <= i < bytes.len(),
        is_char_boundary(bytes, i),
        bytes[i] < 0x80,
    ensures
        is_char_boundary(bytes, i + 1),
    decreases bytes.len(),
{
    let l = length_of_first_scalar(bytes);
    let rest = pop_first_scalar(bytes);
    if i == 0 {
        assert(l == 1);
        assert(is_char_boundary(rest, 0));
    } else {
        assert(is_char_boundary(rest, i - l));
        assert(rest[i - l] == bytes[i]);
        lemma_ascii_next_boundary(rest, i - l);
    }
}

/// Every ASCII byte of valid UTF-8 starts a character, and so does the
/// byte after it.
pub proof fn lemma_ascii_boundaries(bytes: Seq<u8>, i: int)
    requires
        valid_utf8(bytes),
        0 <= i < bytes.len(),
        bytes[i] < 0x80,
    ensures
        is_char_boundary(bytes, i),
        is_char_boundary(bytes, i + 1),
{
    is_char_boundary_iff_not_is_continuation_byte(bytes, i);
    lemma_ascii_next_boundary(bytes, i);
}

/// The part of `s` between two byte offsets that fall on character boundaries.
pub fn substring<'a>(s: &'a str, from: usize, to: usize) -> (t: &'a str)
    requires
        from <= to <= s.spec_bytes().len(),
        is_char_boundary(s.spec_bytes(), from as int),
        is_char_boundary(s.spec_bytes(), to as int),
    ensures
        t.spec_bytes() == s.spec_bytes().subrange(from as int, to as int),
{
    let ghost bytes = s.spec_bytes();
    proof {
        encode_utf8_valid_utf8(s@);
        let rest = bytes.subrange(from as int, bytes.len() as int);
        valid_utf8_split(bytes, from as int);
        if to == from {
        } else if to == bytes.len() {
            is_char_boundary_start_end_of_seq(rest);
        } else {
            is_char_boundary_iff_not_is_continuation_byte(bytes, to as int);
            is_char_boundary_iff_not_is_continuation_byte(rest, to - from);
            assert(rest[to - from] == bytes[to as int]);
        }
    }
    let (_, rest) = s.split_at(from);
    let (t, _) = rest.split_at(to - from);
    proof {
        assert(t.spec_bytes() =~= bytes.subrange(from as int, to as int));
    }
    t
}

} // verus!
