//! Byte-level text utilities shared by the parser, the matcher and the
//! ordering of the player list: ASCII case folding, substring search,
//! lexicographic comparison, prefix/suffix tests, trimming and decimal
//! parsing.  Specifications are over `Seq<u8>`.

use vstd::prelude::*;

verus! {

/// ASCII case folding of one byte: `A`..`Z` map to `a`..`z`.
pub open spec fn lower_byte(b: u8) -> u8 {
    if 65 <= b <= 90 {
        (b + 32) as u8
    } else {
        b
    }
}

/// ASCII case folding of a byte sequence.
pub open spec fn lower_bytes(s: Seq<u8>) -> Seq<u8> {
    s.map_values(|b: u8| lower_byte(b))
}

pub fn lower_byte_exec(b: u8) -> (r: u8)
    ensures
        r == lower_byte(b),
{
    if 65 <= b && b <= 90 {
        b + 32
    } else {
        b
    }
}

/// The needle occurs in the haystack starting at position `k`.
pub open spec fn match_at(hay: Seq<u8>, needle: Seq<u8>, k: int) -> bool {
    &&& 0 <= k
    &&& k + needle.len() <= hay.len()
    &&& forall|j: int| 0 <= j < needle.len() ==> hay[k + j] == needle[j]
}

/// The needle occurs somewhere in the haystack.
pub open spec fn has_subseq(hay: Seq<u8>, needle: Seq<u8>) -> bool {
    exists|k: int| match_at(hay, needle, k)
}

/// Case-insensitive containment: the folded needle occurs in the folded
/// haystack.
pub open spec fn has_subseq_ci(hay: Seq<u8>, needle: Seq<u8>) -> bool {
    has_subseq(lower_bytes(hay), lower_bytes(needle))
}

/// Naive substring search over folded bytes.
pub fn has_subseq_ci_exec(hay: &[u8], needle: &[u8]) -> (r: bool)
    ensures
        r == has_subseq_ci(hay@, needle@),
{
    let hay_len = hay.len();
    let needle_len = needle.len();
    if needle_len > hay_len {
        assert(forall|k: int| !match_at(lower_bytes(hay@), lower_bytes(needle@), k));
        return false;
    }
    let mut k: usize = 0;
    while k <= hay_len - needle_len
        invariant
            needle_len <= hay_len,
            hay_len == hay@.len(),
            needle_len == needle@.len(),
            k <= hay_len - needle_len + 1,
            forall|k0: int| 0 <= k0 < k ==> !match_at(lower_bytes(hay@), lower_bytes(needle@), k0),
        decreases hay_len - needle_len - k + 1,
    {
        if match_at_ci_exec(hay, needle, k) {
            return true;
        }
        k = k + 1;
    }
    assert(forall|k0: int| k <= k0 ==> !match_at(lower_bytes(hay@), lower_bytes(needle@), k0));
    false
}

/// Folded comparison of the needle against the haystack at one offset.
fn match_at_ci_exec(hay: &[u8], needle: &[u8], k: usize) -> (r: bool)
    requires
        k + needle@.len() <= hay@.len(),
    ensures
        r == match_at(lower_bytes(hay@), lower_bytes(needle@), k as int),
{
    let needle_len = needle.len();
    let hay_len = hay.len();
    let mut j: usize = 0;
    while j < needle_len
        invariant
            k + needle_len <= hay_len,
            hay_len == hay@.len(),
            needle_len == needle@.len(),
            j <= needle_len,
            forall|j0: int|
                0 <= j0 < j ==> lower_bytes(hay@)[k + j0] == lower_bytes(needle@)[j0],
        decreases needle_len - j,
    {
        let hb = lower_byte_exec(hay[k + j]);
        let nb = lower_byte_exec(needle[j]);
        if hb != nb {
            assert(lower_bytes(hay@)[k + j] != lower_bytes(needle@)[j as int]);
            return false;
        }
        j = j + 1;
    }
    true
}

/// Lexicographic order on byte sequences, not strict: the empty sequence
/// comes first, and a proper prefix comes before its extensions.
pub open spec fn lex_le(a: Seq<u8>, b: Seq<u8>) -> bool
    decreases a.len(),
{
    if a.len() == 0 {
        true
    } else if b.len() == 0 {
        false
    } else if a[0] < b[0] {
        true
    } else if a[0] > b[0] {
        false
    } else {
        lex_le(a.drop_first(), b.drop_first())
    }
}

/// `lex_le` is total.
pub proof fn lemma_lex_le_total(a: Seq<u8>, b: Seq<u8>)
    ensures
        lex_le(a, b) || lex_le(b, a),
    decreases a.len(),
{
    if a.len() == 0 || b.len() == 0 {
    } else if a[0] == b[0] {
        lemma_lex_le_total(a.drop_first(), b.drop_first());
    }
}

/// `lex_le` is transitive.
pub proof fn lemma_lex_le_trans(a: Seq<u8>, b: Seq<u8>, c: Seq<u8>)
    requires
        lex_le(a, b),
        lex_le(b, c),
    ensures
        lex_le(a, c),
    decreases a.len(),
{
    if a.len() == 0 || b.len() == 0 || c.len() == 0 {
    } else if a[0] == b[0] && b[0] == c[0] {
        lemma_lex_le_trans(a.drop_first(), b.drop_first(), c.drop_first());
    }
}

/// If the first `i` elements agree, comparison is decided by the tails.
proof fn lemma_lex_le_skip(a: Seq<u8>, b: Seq<u8>, i: int)
    requires
        0 <= i <= a.len(),
        i <= b.len(),
        forall|j: int| 0 <= j < i ==> a[j] == b[j],
    ensures
        lex_le(a, b) == lex_le(a.skip(i), b.skip(i)),
    decreases i,
{
    if i > 0 {
        assert(a.len() > 0 && b.len() > 0);
        assert(a[0] == b[0]);
        assert(forall|j: int| 0 <= j < i - 1 ==> a.drop_first()[j] == b.drop_first()[j]);
        lemma_lex_le_skip(a.drop_first(), b.drop_first(), i - 1);
        assert(a.drop_first().skip(i - 1) =~= a.skip(i));
        assert(b.drop_first().skip(i - 1) =~= b.skip(i));
        assert(lex_le(a, b) == lex_le(a.drop_first(), b.drop_first()));
    } else {
        assert(a.skip(0) =~= a);
        assert(b.skip(0) =~= b);
    }
}

/// Case-insensitive lexicographic comparison of two byte slices.
pub fn lex_le_ci_exec(a: &[u8], b: &[u8]) -> (r: bool)
    ensures
        r == lex_le(lower_bytes(a@), lower_bytes(b@)),
{
    let a_len = a.len();
    let b_len = b.len();
    let min = if a_len < b_len {
        a_len
    } else {
        b_len
    };
    let ghost la = lower_bytes(a@);
    let ghost lb = lower_bytes(b@);
    let mut i: usize = 0;
    while i < min
        invariant
            la == lower_bytes(a@),
            lb == lower_bytes(b@),
            a_len == a@.len(),
            b_len == b@.len(),
            min <= a_len,
            min <= b_len,
            i <= min,
            forall|j: int| 0 <= j < i ==> la[j] == lb[j],
        decreases min - i,
    {
        let ab = lower_byte_exec(a[i]);
        let bb = lower_byte_exec(b[i]);
        if ab < bb {
            proof {
                lemma_lex_le_skip(la, lb, i as int);
                assert(la.skip(i as int)[0] == la[i as int]);
                assert(lb.skip(i as int)[0] == lb[i as int]);
            }
            return true;
        }
        if ab > bb {
            proof {
                lemma_lex_le_skip(la, lb, i as int);
                assert(la.skip(i as int)[0] == la[i as int]);
                assert(lb.skip(i as int)[0] == lb[i as int]);
            }
            return false;
        }
        i = i + 1;
    }
    proof {
        lemma_lex_le_skip(la, lb, min as int);
        if a_len <= b_len {
            assert(la.skip(min as int).len() == 0);
        } else {
            assert(lb.skip(min as int).len() == 0);
            assert(la.skip(min as int).len() > 0);
        }
    }
    a_len <= b_len
}

/// `p` is a prefix of `s`.
pub open spec fn has_prefix(s: Seq<u8>, p: Seq<u8>) -> bool {
    p.len() <= s.len() && forall|j: int| 0 <= j < p.len() ==> s[j] == p[j]
}

pub fn has_prefix_exec(s: &[u8], p: &[u8]) -> (r: bool)
    ensures
        r == has_prefix(s@, p@),
{
    let s_len = s.len();
    let p_len = p.len();
    if p_len > s_len {
        return false;
    }
    let mut j: usize = 0;
    while j < p_len
        invariant
            p_len <= s_len,
            s_len == s@.len(),
            p_len == p@.len(),
            j <= p_len,
            forall|j0: int| 0 <= j0 < j ==> s@[j0] == p@[j0],
        decreases p_len - j,
    {
        if s[j] != p[j] {
            return false;
        }
        j = j + 1;
    }
    true
}

/// Index of the first occurrence of `t` in `s`, or `s.len()` when absent.
pub open spec fn find_first_byte(s: Seq<u8>, t: u8) -> int
    decreases s.len(),
{
    if s.len() == 0 {
        0
    } else if s[0] == t {
        0
    } else {
        1 + find_first_byte(s.drop_first(), t)
    }
}

pub proof fn lemma_find_first_byte(s: Seq<u8>, t: u8)
    ensures
        0 <= find_first_byte(s, t) <= s.len(),
        find_first_byte(s, t) < s.len() ==> s[find_first_byte(s, t)] == t,
        forall|j: int| 0 <= j < find_first_byte(s, t) ==> s[j] != t,
    decreases s.len(),
{
    if s.len() > 0 && s[0] != t {
        lemma_find_first_byte(s.drop_first(), t);
        assert(forall|j: int|
            1 <= j < find_first_byte(s, t) ==> s[j] == s.drop_first()[j - 1]);
    }
}

/// Index of the last occurrence of `t` in `s`, or `-1` when absent.
pub open spec fn find_last_byte(s: Seq<u8>, t: u8) -> int
    decreases s.len(),
{
    if s.len() == 0 {
        -1
    } else if s.last() == t {
        s.len() - 1
    } else {
        find_last_byte(s.drop_last(), t)
    }
}

pub proof fn lemma_find_last_byte(s: Seq<u8>, t: u8)
    ensures
        -1 <= find_last_byte(s, t) < s.len(),
        find_last_byte(s, t) >= 0 ==> s[find_last_byte(s, t)] == t,
        forall|j: int| find_last_byte(s, t) < j < s.len() ==> s[j] != t,
    decreases s.len(),
{
    if s.len() > 0 && s.last() != t {
        lemma_find_last_byte(s.drop_last(), t);
        assert(forall|j: int|
            find_last_byte(s, t) < j < s.len() - 1 ==> s[j] == s.drop_last()[j]);
    }
}

pub fn find_first_byte_exec(s: &[u8], t: u8) -> (r: usize)
    ensures
        r == find_first_byte(s@, t),
{
    proof {
        lemma_find_first_byte(s@, t);
    }
    let s_len = s.len();
    let mut i: usize = 0;
    while i < s_len
        invariant
            s_len == s@.len(),
            i <= s_len,
            forall|j: int| 0 <= j < i ==> s@[j] != t,
            0 <= find_first_byte(s@, t) <= s@.len(),
            find_first_byte(s@, t) < s@.len() ==> s@[find_first_byte(s@, t)] == t,
            forall|j: int| 0 <= j < find_first_byte(s@, t) ==> s@[j] != t,
        decreases s_len - i,
    {
        if s[i] == t {
            return i;
        }
        i = i + 1;
    }
    i
}

pub fn find_last_byte_exec(s: &[u8], t: u8) -> (r: Option<usize>)
    ensures
        match r {
            Some(i) => i == find_last_byte(s@, t),
            None => find_last_byte(s@, t) == -1,
        },
{
    proof {
        lemma_find_last_byte(s@, t);
    }
    let s_len = s.len();
    let mut i: usize = s_len;
    while i > 0
        invariant
            s_len == s@.len(),
            i <= s_len,
            forall|j: int| i <= j < s_len ==> s@[j] != t,
            -1 <= find_last_byte(s@, t) < s@.len(),
            find_last_byte(s@, t) >= 0 ==> s@[find_last_byte(s@, t)] == t,
            forall|j: int| find_last_byte(s@, t) < j < s@.len() ==> s@[j] != t,
        decreases i,
    {
        i = i - 1;
        if s[i] == t {
            return Some(i);
        }
    }
    None
}

/// An ASCII whitespace byte: space, tab, line feed, form feed or
/// carriage return.
pub open spec fn is_space(b: u8) -> bool {
    b == 32 || b == 9 || b == 10 || b == 12 || b == 13
}

pub fn is_space_exec(b: u8) -> (r: bool)
    ensures
        r == is_space(b),
{
    b == 32 || b == 9 || b == 10 || b == 12 || b == 13
}

pub open spec fn trim_start_spec(s: Seq<u8>) -> Seq<u8>
    decreases s.len(),
{
    if s.len() > 0 && is_space(s[0]) {
        trim_start_spec(s.drop_first())
    } else {
        s
    }
}

pub open spec fn trim_end_spec(s: Seq<u8>) -> Seq<u8>
    decreases s.len(),
{
    if s.len() > 0 && is_space(s.last()) {
        trim_end_spec(s.drop_last())
    } else {
        s
    }
}

/// ASCII whitespace removed from both ends.
pub open spec fn trim_spec(s: Seq<u8>) -> Seq<u8> {
    trim_end_spec(trim_start_spec(s))
}

proof fn lemma_trim_start_at(s: Seq<u8>, i: int)
    requires
        0 <= i <= s.len(),
        forall|j: int| 0 <= j < i ==> is_space(s[j]),
        i < s.len() ==> !is_space(s[i]),
    ensures
        trim_start_spec(s) == s.skip(i),
    decreases i,
{
    if i == 0 {
        assert(s.skip(0) =~= s);
    } else {
        lemma_trim_start_at(s.drop_first(), i - 1);
        assert(s.drop_first().skip(i - 1) =~= s.skip(i));
    }
}

proof fn lemma_trim_end_at(s: Seq<u8>, i: int)
    requires
        0 <= i <= s.len(),
        forall|j: int| i <= j < s.len() ==> is_space(s[j]),
        i > 0 ==> !is_space(s[i - 1]),
    ensures
        trim_end_spec(s) == s.take(i),
    decreases s.len() - i,
{
    if i == s.len() {
        assert(s.take(i) =~= s);
    } else {
        lemma_trim_end_at(s.drop_last(), i);
        assert(s.drop_last().take(i) =~= s.take(i));
    }
}

/// Copy of `s[from..to]`.
pub fn sub_bytes(s: &[u8], from: usize, to: usize) -> (r: Vec<u8>)
    requires
        from <= to <= s@.len(),
    ensures
        r@ == s@.subrange(from as int, to as int),
{
    let mut r: Vec<u8> = Vec::new();
    let mut i: usize = from;
    while i < to
        invariant
            from <= i <= to <= s@.len(),
            r@ == s@.subrange(from as int, i as int),
        decreases to - i,
    {
        r.push(s[i]);
        proof {
            assert(r@ =~= s@.subrange(from as int, (i + 1) as int));
        }
        i = i + 1;
    }
    r
}

/// Copy of `s` with ASCII whitespace removed from both ends.
pub fn trim_bytes(s: &[u8]) -> (r: Vec<u8>)
    ensures
        r@ == trim_spec(s@),
{
    let s_len = s.len();
    let mut lo: usize = 0;
    while lo < s_len && is_space_exec(s[lo])
        invariant
            s_len == s@.len(),
            lo <= s_len,
            forall|j: int| 0 <= j < lo ==> is_space(s@[j]),
        decreases s_len - lo,
    {
        lo = lo + 1;
    }
    proof {
        lemma_trim_start_at(s@, lo as int);
    }
    let mut hi: usize = s_len;
    while hi > lo && is_space_exec(s[hi - 1])
        invariant
            s_len == s@.len(),
            lo <= hi <= s_len,
            forall|j: int| hi <= j < s_len ==> is_space(s@[j]),
        decreases hi,
    {
        hi = hi - 1;
    }
    proof {
        let tail = s@.skip(lo as int);
        lemma_trim_end_at(tail, hi - lo);
        assert(trim_spec(s@) == tail.take(hi - lo));
        assert(tail.take(hi - lo) =~= s@.subrange(lo as int, hi as int));
    }
    sub_bytes(s, lo, hi)
}

/// Byte-for-byte equality of two slices.
pub fn bytes_eq(a: &[u8], b: &[u8]) -> (r: bool)
    ensures
        r == (a@ == b@),
{
    let a_len = a.len();
    let b_len = b.len();
    if a_len != b_len {
        return false;
    }
    let mut i: usize = 0;
    while i < a_len
        invariant
            a_len == a@.len(),
            a_len == b@.len(),
            i <= a_len,
            forall|j: int| 0 <= j < i ==> a@[j] == b@[j],
        decreases a_len - i,
    {
        if a[i] != b[i] {
            return false;
        }
        i = i + 1;
    }
    proof {
        assert(a@ =~= b@);
    }
    true
}

/// Equality of two strings, decided on their UTF-8 bytes.
pub fn str_eq(a: &str, b: &str) -> (r: bool)
    ensures
        r == (a@ == b@),
{
    proof {
        vstd::utf8::encode_utf8_decode_utf8(a@);
        vstd::utf8::encode_utf8_decode_utf8(b@);
    }
    bytes_eq(a.as_bytes(), b.as_bytes())
}

/// Whether `b` is an ASCII decimal digit.
pub open spec fn is_digit(b: u8) -> bool {
    48 <= b <= 57
}

pub open spec fn all_digits(s: Seq<u8>) -> bool {
    forall|j: int| 0 <= j < s.len() ==> is_digit(s[j])
}

/// Numeric value of a digit string.
pub open spec fn digits_val(s: Seq<u8>) -> nat
    decreases s.len(),
{
    if s.len() == 0 {
        0
    } else {
        (digits_val(s.drop_last()) * 10 + (s.last() - 48)) as nat
    }
}

/// Decimal parse of an unsigned 32-bit number: the whole string must be
/// one or more digits, and the value must fit.
pub open spec fn parse_u32_spec(s: Seq<u8>) -> Option<u32> {
    if s.len() > 0 && all_digits(s) && digits_val(s) <= u32::MAX {
        Some(digits_val(s) as u32)
    } else {
        None
    }
}

/// A digit-string prefix never exceeds the value of the whole string.
proof fn lemma_digits_val_prefix(s: Seq<u8>, i: int)
    requires
        all_digits(s),
        0 <= i <= s.len(),
    ensures
        digits_val(s.take(i)) <= digits_val(s),
    decreases s.len() - i,
{
    if i < s.len() {
        lemma_digits_val_prefix(s, i + 1);
        assert(s.take(i + 1).drop_last() =~= s.take(i));
        assert(digits_val(s.take(i + 1)) == digits_val(s.take(i)) * 10 + (s.take(i + 1).last()
            - 48));
    } else {
        assert(s.take(i) =~= s);
    }
}

pub fn parse_u32_exec(s: &[u8]) -> (r: Option<u32>)
    ensures
        r == parse_u32_spec(s@),
{
    let s_len = s.len();
    if s_len == 0 {
        return None;
    }
    let mut acc: u32 = 0;
    let mut i: usize = 0;
    while i < s_len
        invariant
            s_len == s@.len(),
            i <= s_len,
            all_digits(s@.take(i as int)),
            acc == digits_val(s@.take(i as int)),
        decreases s_len - i,
    {
        let b = s[i];
        if b < 48 || b > 57 {
            assert(!is_digit(s@[i as int]));
            return None;
        }
        let d: u32 = (b - 48) as u32;
        let next: u64 = acc as u64 * 10 + d as u64;
        proof {
            assert(s@.take(i + 1).drop_last() =~= s@.take(i as int));
        }
        if next > u32::MAX as u64 {
            proof {
                assert(digits_val(s@.take(i + 1)) > u32::MAX);
                if s@.len() > 0 && all_digits(s@) && digits_val(s@) <= u32::MAX {
                    lemma_digits_val_prefix(s@, i + 1);
                }
            }
            return None;
        }
        acc = next as u32;
        i = i + 1;
    }
    proof {
        assert(s@.take(s_len as int) =~= s@);
    }
    Some(acc)
}

} // verus!
