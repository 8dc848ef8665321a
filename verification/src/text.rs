//! Small verified helpers on text and bytes shared by the other modules.

use vstd::prelude::*;

verus! {

/// Byte-wise equality of two slices.
pub fn bytes_eq(a: &[u8], b: &[u8]) -> (r: bool)
    ensures
        r == (a@ == b@),
{
    if a.len() != b.len() {
        return false;
    }
    let mut i: usize = 0;
    while i < a.len()
        invariant
            a@.len() == b@.len(),
            i <= a@.len(),
            forall|j: int| 0 <= j < i ==> a@[j] == b@[j],
        decreases a@.len() - i,
    {
        if a[i] != b[i] {
            return false;
        }
        i = i + 1;
    }
    assert(a@ =~= b@);
    true
}

/// Equality of two strings, decided on their UTF-8 encodings.
pub fn str_eq(a: &str, b: &str) -> (r: bool)
    ensures
        r == (a@ == b@),
{
    let r = bytes_eq(a.as_bytes(), b.as_bytes());
    proof {
        vstd::utf8::encode_utf8_decode_utf8(a@);
        vstd::utf8::encode_utf8_decode_utf8(b@);
    }
    r
}

} // verus!

verus! {

/// Index of the last occurrence of `x` in `b`, or -1 when there is none.
pub open spec fn last_index_of(b: Seq<u8>, x: u8) -> int
    decreases b.len(),
{
    if b.len() == 0 {
        -1
    } else if b.last() == x {
        b.len() - 1
    } else {
        last_index_of(b.drop_last(), x)
    }
}

pub proof fn lemma_last_index_of_bounds(b: Seq<u8>, x: u8)
    ensures
        -1 <= last_index_of(b, x) < b.len(),
        last_index_of(b, x) >= 0 ==> b[last_index_of(b, x)] == x,
        forall|j: int| last_index_of(b, x) < j < b.len() ==> b[j] != x,
    decreases b.len(),
{
    if b.len() > 0 && b.last() != x {
        lemma_last_index_of_bounds(b.drop_last(), x);
        assert forall|j: int| last_index_of(b, x) < j < b.len() implies b[j] != x by {
            if j < b.len() - 1 {
                assert(b.drop_last()[j] == b[j]);
            }
        }
    }
}

/// The last index of `x` in `b[..end]`, if `x` occurs there.
pub fn find_last(b: &[u8], end: usize, x: u8) -> (r: Option<usize>)
    requires
        end <= b@.len(),
    ensures
        match r {
            Some(i) => i as int == last_index_of(b@.subrange(0, end as int), x),
            None => last_index_of(b@.subrange(0, end as int), x) == -1,
        },
{
    let mut k: usize = end;
    while k > 0
        invariant
            k <= end <= b@.len(),
            last_index_of(b@.subrange(0, end as int), x) == last_index_of(b@.subrange(0, k as int), x),
        decreases k,
    {
        assert(b@.subrange(0, k as int).drop_last() =~= b@.subrange(0, k - 1));
        if b[k - 1] == x {
            return Some(k - 1);
        }
        k = k - 1;
    }
    None
}

/// ASCII lowercase of one byte; every other byte is left alone.
pub open spec fn ascii_lower(c: u8) -> u8 {
    if 65 <= c <= 90 {
        (c + 32) as u8
    } else {
        c
    }
}

/// ASCII lowercase of a byte string, byte by byte.
pub open spec fn ascii_lower_seq(s: Seq<u8>) -> Seq<u8> {
    Seq::new(s.len(), |i: int| ascii_lower(s[i]))
}

pub fn to_ascii_lower(c: u8) -> (r: u8)
    ensures
        r == ascii_lower(c),
{
    if 65 <= c && c <= 90 {
        c + 32
    } else {
        c
    }
}

/// ASCII case-insensitive equality of `a[start..end]` and `b`.
pub fn eq_ignore_ascii_case(a: &[u8], start: usize, end: usize, b: &[u8]) -> (r: bool)
    requires
        start <= end <= a@.len(),
    ensures
        r == (ascii_lower_seq(a@.subrange(start as int, end as int)) == ascii_lower_seq(b@)),
{
    let ghost sa = a@.subrange(start as int, end as int);
    if end - start != b.len() {
        assert(ascii_lower_seq(sa).len() != ascii_lower_seq(b@).len());
        return false;
    }
    let mut i: usize = 0;
    while i < b.len()
        invariant
            start <= end <= a@.len(),
            end - start == b@.len(),
            sa == a@.subrange(start as int, end as int),
            i <= b@.len(),
            forall|j: int| 0 <= j < i ==> ascii_lower(sa[j]) == ascii_lower(b@[j]),
        decreases b@.len() - i,
    {
        if to_ascii_lower(a[start + i]) != to_ascii_lower(b[i]) {
            assert(ascii_lower_seq(sa)[i as int] != ascii_lower_seq(b@)[i as int]);
            return false;
        }
        i = i + 1;
    }
    assert(ascii_lower_seq(sa) =~= ascii_lower_seq(b@));
    true
}

} // verus!

verus! {

/// In valid UTF-8, a run of ASCII bytes at the start ends on a character
/// boundary.
pub proof fn lemma_ascii_prefix_is_boundary(b: Seq<u8>, k: int)
    requires
        vstd::utf8::valid_utf8(b),
        0 <= k <= b.len(),
        forall|j: int| 0 <= j < k ==> b[j] < 0x80,
    ensures
        vstd::utf8::is_char_boundary(b, k),
    decreases k,
{
    if k > 0 {
        assert(b[0] < 0x80);
        let rest = vstd::utf8::pop_first_scalar(b);
        assert(vstd::utf8::length_of_first_scalar(b) == 1);
        assert(vstd::utf8::valid_utf8(rest));
        assert forall|j: int| 0 <= j < k - 1 implies rest[j] < 0x80 by {
            assert(rest[j] == b[j + 1]);
        }
        lemma_ascii_prefix_is_boundary(rest, k - 1);
    }
}

/// `String::push`: appends one character.
#[verifier::external_body]
pub fn push_char(s: &mut String, c: char)
    ensures
        final(s)@ == old(s)@.push(c),
{
    s.push(c)
}

} // verus!

verus! {

/// One byte that is, by itself, the UTF-8 encoding of a Unicode White_Space
/// character (tab, line feed, vertical tab, form feed, carriage return,
/// space).
pub open spec fn is_ws1(x: u8) -> bool {
    x == 9 || x == 10 || x == 11 || x == 12 || x == 13 || x == 32
}

/// Two bytes that encode a White_Space character (U+0085, U+00A0).
pub open spec fn is_ws2(x: u8, y: u8) -> bool {
    x == 0xC2 && (y == 0x85 || y == 0xA0)
}

/// Three bytes that encode a White_Space character (U+1680, U+2000–U+200A,
/// U+2028, U+2029, U+202F, U+205F, U+3000).
pub open spec fn is_ws3(x: u8, y: u8, z: u8) -> bool {
    ||| x == 0xE1 && y == 0x9A && z == 0x80
    ||| x == 0xE2 && y == 0x80 && ((0x80 <= z <= 0x8A) || z == 0xA8 || z == 0xA9 || z == 0xAF)
    ||| x == 0xE2 && y == 0x81 && z == 0x9F
    ||| x == 0xE3 && y == 0x80 && z == 0x80
}

/// Length of the encoding of a White_Space character that starts at `i`,
/// or 0 when none does.
pub open spec fn ws_len_at(b: Seq<u8>, i: int) -> int {
    if 0 <= i < b.len() && is_ws1(b[i]) {
        1
    } else if 0 <= i && i + 1 < b.len() && is_ws2(b[i], b[i + 1]) {
        2
    } else if 0 <= i && i + 2 < b.len() && is_ws3(b[i], b[i + 1], b[i + 2]) {
        3
    } else {
        0
    }
}

/// Length of the encoding of a White_Space character that ends just before
/// `j`, or 0 when none does.
pub open spec fn ws_len_before(b: Seq<u8>, j: int) -> int {
    if 1 <= j <= b.len() && is_ws1(b[j - 1]) {
        1
    } else if 2 <= j <= b.len() && is_ws2(b[j - 2], b[j - 1]) {
        2
    } else if 3 <= j <= b.len() && is_ws3(b[j - 3], b[j - 2], b[j - 1]) {
        3
    } else {
        0
    }
}

/// Where the text starting at `i` stops being white space.
pub open spec fn skip_ws_forward(b: Seq<u8>, i: int) -> int
    decreases b.len() - i,
{
    if 0 <= i < b.len() && ws_len_at(b, i) > 0 {
        skip_ws_forward(b, i + ws_len_at(b, i))
    } else {
        i
    }
}

/// Where the text ending at `j` stops being white space, going back no
/// further than `lo`.
pub open spec fn skip_ws_backward(b: Seq<u8>, lo: int, j: int) -> int
    decreases j - lo,
{
    if ws_len_before(b, j) > 0 && j - ws_len_before(b, j) >= lo {
        skip_ws_backward(b, lo, j - ws_len_before(b, j))
    } else {
        j
    }
}

pub fn ws_len_at_exec(b: &[u8], i: usize) -> (r: usize)
    ensures
        r == ws_len_at(b@, i as int),
{
    let n = b.len();
    if i < n && (b[i] == 9 || b[i] == 10 || b[i] == 11 || b[i] == 12 || b[i] == 13 || b[i] == 32) {
        1
    } else if i < n && n - i > 1 && b[i] == 0xC2 && (b[i + 1] == 0x85 || b[i + 1] == 0xA0) {
        2
    } else if i < n && n - i > 2 && ((b[i] == 0xE1 && b[i + 1] == 0x9A && b[i + 2] == 0x80) || (
    b[i] == 0xE2 && b[i + 1] == 0x80 && ((0x80 <= b[i + 2] && b[i + 2] <= 0x8A) || b[i + 2]
        == 0xA8 || b[i + 2] == 0xA9 || b[i + 2] == 0xAF)) || (b[i] == 0xE2 && b[i + 1] == 0x81
        && b[i + 2] == 0x9F) || (b[i] == 0xE3 && b[i + 1] == 0x80 && b[i + 2] == 0x80)) {
        3
    } else {
        0
    }
}

pub fn ws_len_before_exec(b: &[u8], j: usize) -> (r: usize)
    requires
        j <= b@.len(),
    ensures
        r == ws_len_before(b@, j as int),
{
    if j >= 1 && (b[j - 1] == 9 || b[j - 1] == 10 || b[j - 1] == 11 || b[j - 1] == 12 || b[j - 1]
        == 13 || b[j - 1] == 32) {
        1
    } else if j >= 2 && b[j - 2] == 0xC2 && (b[j - 1] == 0x85 || b[j - 1] == 0xA0) {
        2
    } else if j >= 3 && ((b[j - 3] == 0xE1 && b[j - 2] == 0x9A && b[j - 1] == 0x80) || (b[j - 3]
        == 0xE2 && b[j - 2] == 0x80 && ((0x80 <= b[j - 1] && b[j - 1] <= 0x8A) || b[j - 1] == 0xA8
        || b[j - 1] == 0xA9 || b[j - 1] == 0xAF)) || (b[j - 3] == 0xE2 && b[j - 2] == 0x81 && b[j
        - 1] == 0x9F) || (b[j - 3] == 0xE3 && b[j - 2] == 0x80 && b[j - 1] == 0x80)) {
        3
    } else {
        0
    }
}

} // verus!

verus! {

/// Index of the first byte of `s` that is `x` or `y`, or -1 when none is.
pub open spec fn first_index_of2(s: Seq<u8>, x: u8, y: u8) -> int
    decreases s.len(),
{
    if s.len() == 0 {
        -1
    } else if s[0] == x || s[0] == y {
        0
    } else {
        let r = first_index_of2(s.drop_first(), x, y);
        if r < 0 {
            -1
        } else {
            r + 1
        }
    }
}

/// How many bytes at the start of `s` are `x` or `y`.
pub open spec fn leading_count2(s: Seq<u8>, x: u8, y: u8) -> int
    decreases s.len(),
{
    if s.len() > 0 && (s[0] == x || s[0] == y) {
        1 + leading_count2(s.drop_first(), x, y)
    } else {
        0
    }
}

pub proof fn lemma_first_index_of2_bounds(s: Seq<u8>, x: u8, y: u8)
    ensures
        -1 <= first_index_of2(s, x, y) < s.len(),
        first_index_of2(s, x, y) >= 0 ==> (s[first_index_of2(s, x, y)] == x || s[first_index_of2(
            s,
            x,
            y,
        )] == y),
    decreases s.len(),
{
    if s.len() > 0 && !(s[0] == x || s[0] == y) {
        lemma_first_index_of2_bounds(s.drop_first(), x, y);
    }
}

pub proof fn lemma_leading_count2_bounds(s: Seq<u8>, x: u8, y: u8)
    ensures
        0 <= leading_count2(s, x, y) <= s.len(),
        forall|j: int| 0 <= j < leading_count2(s, x, y) ==> s[j] == x || s[j] == y,
    decreases s.len(),
{
    if s.len() > 0 && (s[0] == x || s[0] == y) {
        lemma_leading_count2_bounds(s.drop_first(), x, y);
        assert forall|j: int| 0 <= j < leading_count2(s, x, y) implies s[j] == x || s[j] == y by {
            if j > 0 {
                assert(s[j] == s.drop_first()[j - 1]);
            }
        }
    }
}

/// The first position in `b[from..to]` that holds `x` or `y`, or `to`.
pub fn scan_until(b: &[u8], from: usize, to: usize, x: u8, y: u8) -> (k: usize)
    requires
        from <= to <= b@.len(),
    ensures
        from <= k <= to,
        first_index_of2(b@.subrange(from as int, to as int), x, y) == if k == to {
            -1
        } else {
            k - from
        },
{
    let mut k = from;
    while k < to && b[k] != x && b[k] != y
        invariant
            from <= k <= to <= b@.len(),
            first_index_of2(b@.subrange(from as int, to as int), x, y) == ({
                let r = first_index_of2(b@.subrange(k as int, to as int), x, y);
                if r < 0 {
                    -1
                } else {
                    r + (k - from)
                }
            }),
        decreases to - k,
    {
        assert(b@.subrange(k as int, to as int).drop_first() =~= b@.subrange(k + 1, to as int));
        k = k + 1;
    }
    k
}

/// The first position in `b[from..to]` that holds neither `x` nor `y`, or
/// `to`.
pub fn scan_while(b: &[u8], from: usize, to: usize, x: u8, y: u8) -> (k: usize)
    requires
        from <= to <= b@.len(),
    ensures
        from <= k <= to,
        leading_count2(b@.subrange(from as int, to as int), x, y) == k - from,
{
    let mut k = from;
    while k < to && (b[k] == x || b[k] == y)
        invariant
            from <= k <= to <= b@.len(),
            leading_count2(b@.subrange(from as int, to as int), x, y) == leading_count2(
                b@.subrange(k as int, to as int),
                x,
                y,
            ) + (k - from),
        decreases to - k,
    {
        assert(b@.subrange(k as int, to as int).drop_first() =~= b@.subrange(k + 1, to as int));
        k = k + 1;
    }
    k
}

} // verus!

verus! {

/// The character of a decimal digit.
pub open spec fn digit_char(d: nat) -> char {
    (48 + d) as char
}

/// The decimal representation of `n`, without leading zeros.
pub open spec fn decimal(n: nat) -> Seq<char>
    decreases n,
{
    if n < 10 {
        seq![digit_char(n)]
    } else {
        decimal(n / 10).push(digit_char(n % 10))
    }
}

/// Appends the decimal representation of `n`.
pub fn push_decimal(s: &mut String, n: u64)
    ensures
        final(s)@ == old(s)@ + decimal(n as nat),
    decreases n,
{
    if n >= 10 {
        push_decimal(s, n / 10);
    }
    let d = (n % 10) as u8;
    push_char(s, (48 + d) as char);
    assert(s@ =~= old(s)@ + decimal(n as nat)) by {
        assert(digit_char((n % 10) as nat) == (48 + d) as char);
    }
}

} // verus!

verus! {

/// In valid UTF-8, the byte after an ASCII byte starts a character.
pub proof fn lemma_after_ascii_not_continuation(b: Seq<u8>, k: int)
    requires
        vstd::utf8::valid_utf8(b),
        0 < k < b.len(),
        b[k - 1] < 0x80,
    ensures
        !vstd::utf8::is_continuation_byte(b[k]),
    decreases b.len(),
{
    let w = vstd::utf8::length_of_first_scalar(b);
    let rest = vstd::utf8::pop_first_scalar(b);
    assert(vstd::utf8::valid_first_scalar(b));
    assert(vstd::utf8::valid_utf8(rest));
    if k - 1 == 0 {
        assert(w == 1);
        assert(rest.len() > 0);
        assert(vstd::utf8::valid_first_scalar(rest));
        assert(rest[0] == b[k]);
    } else if k - 1 < w {
        assert(vstd::utf8::is_continuation_byte(b[k - 1]));
    } else {
        assert forall|j: int| 0 <= j < rest.len() implies rest[j] == b[j + w] by {}
        lemma_after_ascii_not_continuation(rest, k - w);
    }
}

/// In valid UTF-8, the positions next to an ASCII byte are character
/// boundaries.
pub proof fn lemma_ascii_neighbours_are_boundaries(b: Seq<u8>, k: int)
    requires
        vstd::utf8::valid_utf8(b),
        0 <= k < b.len(),
        b[k] < 0x80,
    ensures
        vstd::utf8::is_char_boundary(b, k),
        vstd::utf8::is_char_boundary(b, k + 1),
{
    vstd::utf8::is_char_boundary_iff_is_leading_byte(b, k);
    if k + 1 < b.len() {
        lemma_after_ascii_not_continuation(b, k + 1);
        vstd::utf8::is_char_boundary_iff_not_is_continuation_byte(b, k + 1);
    } else {
        vstd::utf8::is_char_boundary_start_end_of_seq(b);
    }
}

} // verus!

verus! {

proof fn lemma_digit_char_injective(x: nat, y: nat)
    requires
        x < 10,
        y < 10,
        digit_char(x) == digit_char(y),
    ensures
        x == y,
{
    assert((digit_char(x) as u32) == 48 + x);
    assert((digit_char(y) as u32) == 48 + y);
}

pub proof fn lemma_decimal_len(n: nat)
    ensures
        decimal(n).len() >= 1,
        n >= 10 ==> decimal(n).len() >= 2,
    decreases n,
{
    if n >= 10 {
        lemma_decimal_len(n / 10);
    }
}

/// Different numbers have different decimal representations.
pub proof fn lemma_decimal_injective(a: nat, b: nat)
    requires
        decimal(a) == decimal(b),
    ensures
        a == b,
    decreases a,
{
    lemma_decimal_len(a);
    lemma_decimal_len(b);
    if a < 10 && b < 10 {
        assert(decimal(a)[0] == digit_char(a));
        assert(decimal(b)[0] == digit_char(b));
        lemma_digit_char_injective(a, b);
    } else if a >= 10 && b >= 10 {
        assert(decimal(a).drop_last() =~= decimal(a / 10));
        assert(decimal(b).drop_last() =~= decimal(b / 10));
        lemma_decimal_injective(a / 10, b / 10);
        assert(decimal(a).last() == digit_char(a % 10));
        assert(decimal(b).last() == digit_char(b % 10));
        lemma_digit_char_injective(a % 10, b % 10);
    } else {
        assert(decimal(a).len() != decimal(b).len());
    }
}

/// The last `x` in `a + b` is the last one in `b`, if `b` has one, and
/// otherwise the last one in `a`.
pub proof fn lemma_last_index_of_append(a: Seq<u8>, b: Seq<u8>, x: u8)
    ensures
        last_index_of(a + b, x) == if last_index_of(b, x) >= 0 {
            a.len() + last_index_of(b, x)
        } else {
            last_index_of(a, x)
        },
    decreases b.len(),
{
    if b.len() == 0 {
        assert(a + b =~= a);
    } else {
        assert((a + b).drop_last() =~= a + b.drop_last());
        assert((a + b).last() == b.last());
        lemma_last_index_of_append(a, b.drop_last(), x);
    }
}

/// A byte string without `x` has no last `x`.
pub proof fn lemma_last_index_of_absent(b: Seq<u8>, x: u8)
    requires
        forall|j: int| 0 <= j < b.len() ==> b[j] != x,
    ensures
        last_index_of(b, x) == -1,
{
    lemma_last_index_of_bounds(b, x);
}

/// The first `x` or `y` in `a + b` is the first one in `a`, if `a` has one,
/// and otherwise the first one in `b`, shifted past `a`.
pub proof fn lemma_first_index_of2_append(a: Seq<u8>, b: Seq<u8>, x: u8, y: u8)
    ensures
        first_index_of2(a + b, x, y) == if first_index_of2(a, x, y) >= 0 {
            first_index_of2(a, x, y)
        } else if first_index_of2(b, x, y) >= 0 {
            a.len() + first_index_of2(b, x, y)
        } else {
            -1
        },
    decreases a.len(),
{
    if a.len() == 0 {
        assert(a + b =~= b);
    } else {
        assert((a + b)[0] == a[0]);
        assert((a + b).drop_first() =~= a.drop_first() + b);
        lemma_first_index_of2_append(a.drop_first(), b, x, y);
    }
}

/// The leading run of `x`s and `y`s in `a + b` is that of `a`, and goes on
/// into `b` only when all of `a` is in it.
pub proof fn lemma_leading_count2_append(a: Seq<u8>, b: Seq<u8>, x: u8, y: u8)
    ensures
        leading_count2(a + b, x, y) == if leading_count2(a, x, y) < a.len() {
            leading_count2(a, x, y)
        } else {
            a.len() + leading_count2(b, x, y)
        },
    decreases a.len(),
{
    lemma_leading_count2_bounds(a, x, y);
    if a.len() == 0 {
        assert(a + b =~= b);
    } else {
        assert((a + b)[0] == a[0]);
        assert((a + b).drop_first() =~= a.drop_first() + b);
        lemma_leading_count2_append(a.drop_first(), b, x, y);
    }
}

} // verus!
