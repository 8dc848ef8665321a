//! "Is there a newer release?" — the decisions of the update notice. The
//! app only tells the user that a newer version exists and links to its
//! release page; it never downloads or installs anything.

use vstd::prelude::*;
use vstd::string::StringSliceAdditionalSpecFns;

use crate::text::{
    ascii_lower_seq, decimal, eq_ignore_ascii_case, push_decimal, skip_ws_forward, ws_len_at,
    ws_len_at_exec, first_index_of2, lemma_ascii_prefix_is_boundary, lemma_first_index_of2_bounds,
    lemma_leading_count2_bounds, leading_count2, scan_until, scan_while,
    lemma_first_index_of2_append, lemma_leading_count2_append,
};

verus! {

/// Whether a byte is an ASCII digit.
pub open spec fn is_digit(c: u8) -> bool {
    48 <= c <= 57
}

/// The decimal value of a string of digits.
pub open spec fn digits_value(s: Seq<u8>) -> nat
    decreases s.len(),
{
    if s.len() == 0 {
        0
    } else {
        digits_value(s.drop_last()) * 10 + (s.last() - 48) as nat
    }
}

/// What `str::parse::<u64>` makes of a version component, with a failure
/// read as 0: the value of a non-empty run of digits that fits in a `u64`,
/// and 0 for anything else. (A component never holds `+`, which `parse`
/// would also accept as a sign: versions are cut at the first `-` or `+`.)
pub open spec fn component_value(s: Seq<u8>) -> u64 {
    if s.len() > 0 && (forall|i: int| 0 <= i < s.len() ==> is_digit(#[trigger] s[i]))
        && digits_value(s) <= u64::MAX {
        digits_value(s) as u64
    } else {
        0
    }
}

proof fn lemma_digits_value_grows(s: Seq<u8>, i: int)
    requires
        0 <= i <= s.len(),
        forall|j: int| 0 <= j < s.len() ==> is_digit(#[trigger] s[j]),
    ensures
        digits_value(s.subrange(0, i)) <= digits_value(s),
    decreases s.len(),
{
    if i < s.len() {
        assert(s.drop_last() =~= s.subrange(0, s.len() - 1));
        assert(s.subrange(0, i) =~= s.drop_last().subrange(0, i));
        lemma_digits_value_grows(s.drop_last(), i);
    } else {
        assert(s.subrange(0, i) =~= s);
    }
}

/// The value of `b[from..to]` as a version component.
fn parse_component(b: &[u8], from: usize, to: usize) -> (r: u64)
    requires
        from <= to <= b@.len(),
    ensures
        r == component_value(b@.subrange(from as int, to as int)),
{
    let ghost s = b@.subrange(from as int, to as int);
    if from == to {
        return 0;
    }
    let mut v: u64 = 0;
    let mut k = from;
    while k < to
        invariant
            from <= k <= to <= b@.len(),
            s == b@.subrange(from as int, to as int),
            forall|j: int| 0 <= j < k - from ==> is_digit(#[trigger] s[j]),
            v == digits_value(s.subrange(0, k - from)),
        decreases to - k,
    {
        let c = b[k];
        if c < 48 || c > 57 {
            assert(!is_digit(s[k - from]));
            return 0;
        }
        let d = (c - 48) as u64;
        assert(s.subrange(0, k + 1 - from).drop_last() =~= s.subrange(0, k - from));
        if v > 1844674407370955161 || (v == 1844674407370955161 && d > 5) {
            // The value no longer fits: `parse` fails, whatever follows.
            assert(digits_value(s.subrange(0, k + 1 - from)) > u64::MAX);
            proof {
                if forall|j: int| 0 <= j < s.len() ==> is_digit(#[trigger] s[j]) {
                    lemma_digits_value_grows(s, k + 1 - from);
                }
            }
            return 0;
        }
        v = v * 10 + d;
        k = k + 1;
    }
    assert(s.subrange(0, to - from) =~= s);
    v
}

/// The components of a version string: split at `.`, each read by
/// [`component_value`].
pub open spec fn components(s: Seq<u8>) -> Seq<u64>
    decreases s.len(),
{
    let k = first_index_of2(s, 46, 46);
    if k < 0 {
        seq![component_value(s)]
    } else {
        proof {
            lemma_first_index_of2_bounds(s, 46, 46);
        }
        seq![component_value(s.subrange(0, k))] + components(s.subrange(k + 1, s.len() as int))
    }
}

/// A version without its leading `v`s and `V`s (as Git tags have them).
pub open spec fn normalized(b: Seq<u8>) -> Seq<u8> {
    b.subrange(leading_count2(b, 118, 86), b.len() as int)
}

/// The release part of a version: what comes before the first `-` or `+`
/// (a pre-release or build suffix is ignored).
pub open spec fn release_part(b: Seq<u8>) -> Seq<u8> {
    let k = first_index_of2(b, 45, 43);
    if k < 0 {
        b
    } else {
        b.subrange(0, k)
    }
}

/// The numeric components of a version string.
pub open spec fn version_parts(b: Seq<u8>) -> Seq<u64> {
    components(release_part(normalized(b)))
}

/// The component at `i`, with missing components read as 0 (so `1.2`
/// equals `1.2.0`).
pub open spec fn part_at(p: Seq<u64>, i: int) -> u64 {
    if 0 <= i < p.len() {
        p[i]
    } else {
        0
    }
}

/// Compared component by component from `i` on, the first difference before
/// `n` favours `a`.
pub open spec fn newer_from(a: Seq<u64>, b: Seq<u64>, i: int, n: int) -> bool
    decreases n - i,
{
    if i >= n {
        false
    } else if part_at(a, i) != part_at(b, i) {
        part_at(a, i) > part_at(b, i)
    } else {
        newer_from(a, b, i + 1, n)
    }
}

pub open spec fn max_len(a: Seq<u64>, b: Seq<u64>) -> int {
    if a.len() >= b.len() {
        a.len() as int
    } else {
        b.len() as int
    }
}

/// `latest` is a higher version than `current`: numerically, component by
/// component, so `1.10` beats `1.9`, `1.2` equals `1.2.0`, and any
/// `-pre`/`+build` suffix is ignored.
pub open spec fn spec_is_newer(latest: Seq<u8>, current: Seq<u8>) -> bool {
    let a = version_parts(latest);
    let b = version_parts(current);
    newer_from(a, b, 0, max_len(a, b))
}

/// The numeric components of `version`.
fn parts(version: &str) -> (r: Vec<u64>)
    ensures
        r@ == version_parts(version.spec_bytes()),
{
    let b = version.as_bytes();
    let n = b.len();
    assert(b@.subrange(0, n as int) =~= b@);
    let start = scan_while(b, 0, n, 118, 86);
    let ghost norm = b@.subrange(start as int, n as int);
    assert(norm =~= normalized(b@));
    let end = scan_until(b, start, n, 45, 43);
    assert(release_part(norm) =~= b@.subrange(start as int, end as int)) by {
        lemma_first_index_of2_bounds(norm, 45, 43);
    }
    assert(version_parts(version.spec_bytes()) == components(b@.subrange(start as int, end as int)));
    let mut out: Vec<u64> = Vec::new();
    let mut seg = start;
    loop
        invariant
            start <= seg <= end <= n == b@.len(),
            version_parts(version.spec_bytes()) == components(b@.subrange(start as int, end as int)),
            out@ + components(b@.subrange(seg as int, end as int)) == components(
                b@.subrange(start as int, end as int),
            ),
        decreases end - seg,
    {
        let k = scan_until(b, seg, end, 46, 46);
        let ghost rest = b@.subrange(seg as int, end as int);
        let v = parse_component(b, seg, k);
        if k == end {
            assert(rest.subrange(0, rest.len() as int) =~= rest);
            let ghost before = out@;
            out.push(v);
            assert(components(rest) == seq![v]);
            assert(out@ =~= before + components(rest));
            return out;
        }
        assert(rest.subrange(0, k - seg) =~= b@.subrange(seg as int, k as int));
        assert(rest.subrange(k - seg + 1, rest.len() as int) =~= b@.subrange(k + 1, end as int));
        assert(components(rest) == seq![v] + components(b@.subrange(k + 1, end as int)));
        out.push(v);
        assert(out@ + components(b@.subrange(k + 1, end as int)) =~= (out@.drop_last() + seq![v])
            + components(b@.subrange(k + 1, end as int)));
        seg = k + 1;
    }
}

/// Appending a `-` or `+` and then anything to a version changes none of
/// its numeric components.
proof fn lemma_suffix_keeps_parts(v: Seq<u8>, sep: u8, suffix: Seq<u8>)
    requires
        sep == 45 || sep == 43,
    ensures
        version_parts(v + seq![sep] + suffix) == version_parts(v),
{
    let tail = seq![sep] + suffix;
    let w = v + seq![sep] + suffix;
    assert(w =~= v + tail);
    lemma_leading_count2_append(v, tail, 118, 86);
    lemma_leading_count2_bounds(v, 118, 86);
    assert(leading_count2(tail, 118, 86) == 0) by {
        assert(tail[0] == sep);
    }
    let c = leading_count2(v, 118, 86);
    let nv = normalized(v);
    assert(normalized(w) =~= nv + tail);
    lemma_first_index_of2_append(nv, tail, 45, 43);
    assert(first_index_of2(tail, 45, 43) == 0) by {
        assert(tail[0] == sep);
    }
    lemma_first_index_of2_bounds(nv, 45, 43);
    if first_index_of2(nv, 45, 43) >= 0 {
        assert(release_part(nv + tail) =~= release_part(nv));
    } else {
        assert(release_part(nv + tail) =~= nv);
    }
}

/// A pre-release or build suffix is ignored: cutting `-…` or `+…` off the
/// end of either version never changes which one is newer.
pub proof fn lemma_is_newer_ignores_suffix(v: Seq<u8>, suffix: Seq<u8>)
    ensures
        forall|c: Seq<u8>|
            #![trigger spec_is_newer(v + seq![45u8] + suffix, c)]
            spec_is_newer(v + seq![45u8] + suffix, c) == spec_is_newer(v, c),
        forall|c: Seq<u8>|
            #![trigger spec_is_newer(v + seq![43u8] + suffix, c)]
            spec_is_newer(v + seq![43u8] + suffix, c) == spec_is_newer(v, c),
        forall|c: Seq<u8>|
            #![trigger spec_is_newer(c, v + seq![45u8] + suffix)]
            spec_is_newer(c, v + seq![45u8] + suffix) == spec_is_newer(c, v),
        forall|c: Seq<u8>|
            #![trigger spec_is_newer(c, v + seq![43u8] + suffix)]
            spec_is_newer(c, v + seq![43u8] + suffix) == spec_is_newer(c, v),
{
    lemma_suffix_keeps_parts(v, 45, suffix);
    lemma_suffix_keeps_parts(v, 43, suffix);
}

/// A leading `v` or `V` (as Git tags have it) is ignored: prefixing either
/// version with one never changes which one is newer.
pub proof fn lemma_is_newer_ignores_v_prefix(v: Seq<u8>, prefix: u8)
    requires
        prefix == 118 || prefix == 86,
    ensures
        forall|c: Seq<u8>|
            #![trigger spec_is_newer(seq![prefix] + v, c)]
            spec_is_newer(seq![prefix] + v, c) == spec_is_newer(v, c),
        forall|c: Seq<u8>|
            #![trigger spec_is_newer(c, seq![prefix] + v)]
            spec_is_newer(c, seq![prefix] + v) == spec_is_newer(c, v),
{
    let w = seq![prefix] + v;
    lemma_leading_count2_append(seq![prefix], v, 118, 86);
    assert(leading_count2(seq![prefix], 118, 86) == 1) by {
        let one = seq![prefix];
        assert(one.len() == 1 && one[0] == prefix);
        assert(one.drop_first() =~= Seq::<u8>::empty());
        assert(leading_count2(Seq::<u8>::empty(), 118, 86) == 0);
        assert(leading_count2(one, 118, 86) == 1 + leading_count2(one.drop_first(), 118, 86));
    }
    lemma_leading_count2_bounds(v, 118, 86);
    assert(normalized(w) =~= normalized(v));
}

/// Numeric, component-wise "is `latest` a higher version than `current`?"
pub fn is_newer(latest: &str, current: &str) -> (r: bool)
    ensures
        r == spec_is_newer(latest.spec_bytes(), current.spec_bytes()),
{
    let a = parts(latest);
    let b = parts(current);
    let n = if a.len() >= b.len() {
        a.len()
    } else {
        b.len()
    };
    let mut i: usize = 0;
    while i < n
        invariant
            a@ == version_parts(latest.spec_bytes()),
            b@ == version_parts(current.spec_bytes()),
            n == max_len(a@, b@),
            i <= n,
            newer_from(a@, b@, 0, n as int) == newer_from(a@, b@, i as int, n as int),
        decreases n - i,
    {
        let l = if i < a.len() {
            a[i]
        } else {
            0
        };
        let r = if i < b.len() {
            b[i]
        } else {
            0
        };
        if l != r {
            return l > r;
        }
        i = i + 1;
    }
    false
}

/// Drops the leading `v`s and `V`s of a version (Git tags), leaving the bare
/// version.
pub fn normalize(version: &str) -> (r: String)
    ensures
        vstd::utf8::encode_utf8(r@) == normalized(version.spec_bytes()),
{
    let b = version.as_bytes();
    let n = b.len();
    assert(b@.subrange(0, n as int) =~= b@);
    let k = scan_while(b, 0, n, 118, 86);
    proof {
        lemma_leading_count2_bounds(b@, 118, 86);
        vstd::utf8::encode_utf8_valid_utf8(version@);
        lemma_ascii_prefix_is_boundary(b@, k as int);
    }
    let (_, rest) = version.split_at(k);
    String::from_str(rest)
}

} // verus!

verus! {

proof fn lemma_newer_from_strict(a: Seq<u64>, b: Seq<u64>, c: Seq<u64>, i: int, n: int)
    ensures
        !newer_from(a, a, i, n),
        newer_from(a, b, i, n) ==> !newer_from(b, a, i, n),
        newer_from(a, b, i, n) && newer_from(b, c, i, n) ==> newer_from(a, c, i, n),
    decreases n - i,
{
    if i < n {
        lemma_newer_from_strict(a, b, c, i + 1, n);
    }
}

/// Comparing further than both versions reach changes nothing: missing
/// components are 0 on both sides.
proof fn lemma_newer_from_past_end(a: Seq<u64>, b: Seq<u64>, i: int, n: int, m: int)
    requires
        max_len(a, b) <= n <= m,
    ensures
        newer_from(a, b, i, n) == newer_from(a, b, i, m),
    decreases m - i,
{
    if i < m {
        lemma_newer_from_past_end(a, b, i + 1, n, m);
        if i >= n {
            assert(part_at(a, i) == 0 && part_at(b, i) == 0);
        }
    }
}

/// "Newer than" is a strict order on versions: no version is newer than
/// itself, of two versions at most one is newer than the other, and a
/// version newer than one that is newer than a third is newer than the
/// third.
pub proof fn lemma_is_newer_is_strict_order(x: Seq<u8>, y: Seq<u8>, z: Seq<u8>)
    ensures
        !spec_is_newer(x, x),
        spec_is_newer(x, y) ==> !spec_is_newer(y, x),
        spec_is_newer(x, y) && spec_is_newer(y, z) ==> spec_is_newer(x, z),
{
    let a = version_parts(x);
    let b = version_parts(y);
    let c = version_parts(z);
    let n = if max_len(a, b) >= max_len(b, c) {
        if max_len(a, b) >= max_len(a, c) {
            max_len(a, b)
        } else {
            max_len(a, c)
        }
    } else if max_len(b, c) >= max_len(a, c) {
        max_len(b, c)
    } else {
        max_len(a, c)
    };
    lemma_newer_from_past_end(a, b, 0, max_len(a, b), n);
    lemma_newer_from_past_end(b, a, 0, max_len(b, a), n);
    lemma_newer_from_past_end(b, c, 0, max_len(b, c), n);
    lemma_newer_from_past_end(a, c, 0, max_len(a, c), n);
    lemma_newer_from_strict(a, b, c, 0, n);
    lemma_newer_from_strict(a, b, c, 0, max_len(a, a));
}

} // verus!

verus! {

/// What the update notice shows about a newer release.
pub struct UpdateInfo {
    pub version: String,
    pub url: String,
    pub notes: Option<String>,
}

/// The text holds something other than white space.
pub open spec fn has_text(b: Seq<u8>) -> bool {
    skip_ws_forward(b, 0) < b.len()
}

/// Whether `s` holds something other than white space.
pub fn is_blank(s: &str) -> (r: bool)
    ensures
        r == !has_text(s.spec_bytes()),
{
    let b = s.as_bytes();
    let n = b.len();
    let mut i: usize = 0;
    while i < n && ws_len_at_exec(b, i) > 0
        invariant
            i <= n == b@.len(),
            skip_ws_forward(b@, 0) == skip_ws_forward(b@, i as int),
        decreases n - i,
    {
        i = i + ws_len_at_exec(b, i);
    }
    i == n
}

/// What the notice says of a published release: nothing for a draft or a
/// version that is not newer than the running one; otherwise the bare
/// version, the release page, and the release notes unless they are blank.
pub fn release_update(
    tag_name: &str,
    html_url: String,
    body: Option<String>,
    draft: bool,
    current_version: &str,
) -> (r: Option<UpdateInfo>)
    ensures
        r is Some <==> !draft && spec_is_newer(tag_name.spec_bytes(), current_version.spec_bytes()),
        r matches Some(info) ==> {
            &&& vstd::utf8::encode_utf8(info.version@) == normalized(tag_name.spec_bytes())
            &&& info.url@ == html_url@
            &&& match body {
                Some(b) => if has_text(vstd::utf8::encode_utf8(b@)) {
                    info.notes matches Some(n) && n@ == b@
                } else {
                    info.notes is None
                },
                None => info.notes is None,
            }
        },
{
    if draft {
        return None;
    }
    if !is_newer(tag_name, current_version) {
        return None;
    }
    let notes = match body {
        Some(b) => {
            if is_blank(b.as_str()) {
                None
            } else {
                Some(b)
            }
        },
        None => None,
    };
    Some(UpdateInfo { version: normalize(tag_name), url: html_url, notes })
}

/// How the release endpoint answered.
#[derive(Debug, PartialEq, Eq)]
pub enum ReleaseStatus {
    /// A release was returned.
    Found,
    /// Any other answer, a missing release (404) included; the message says
    /// which.
    Failed(String),
}

/// The status line of an HTTP answer, read: a 2xx code is a release,
/// anything else (404, when nothing is published yet, too) a failure.
pub fn release_status(status: u16) -> (r: ReleaseStatus)
    ensures
        200 <= status <= 299 ==> r == ReleaseStatus::Found,
        !(200 <= status <= 299) ==> (r matches ReleaseStatus::Failed(m) && m@
            == "GitHub returned HTTP "@ + decimal(status as nat)),
{
    if 200 <= status && status <= 299 {
        ReleaseStatus::Found
    } else {
        let mut m = String::from_str("GitHub returned HTTP ");
        push_decimal(&mut m, status as u64);
        ReleaseStatus::Failed(m)
    }
}

/// The bytes of `https://` and `http://`.
pub open spec fn https_prefix() -> Seq<u8> {
    seq![104u8, 116u8, 116u8, 112u8, 115u8, 58u8, 47u8, 47u8]
}

pub open spec fn http_prefix() -> Seq<u8> {
    seq![104u8, 116u8, 116u8, 112u8, 58u8, 47u8, 47u8]
}

/// The URL is a web link: it starts with `https://` or `http://`, in any
/// case.
pub open spec fn spec_is_web_url(b: Seq<u8>) -> bool {
    ||| b.len() >= 8 && ascii_lower_seq(b.subrange(0, 8)) == https_prefix()
    ||| b.len() >= 7 && ascii_lower_seq(b.subrange(0, 7)) == http_prefix()
}

/// The error given for a link that is not a web link.
pub open spec fn not_web_url_message() -> Seq<char> {
    "Only http(s) URLs may be opened"@
}

/// Checks that a release link may be opened: only http(s) links are, so
/// that the front end can only ever hand over a web link.
pub fn check_release_url(url: &str) -> (r: Result<(), String>)
    ensures
        r is Ok <==> spec_is_web_url(url.spec_bytes()),
        r matches Err(m) ==> m@ == not_web_url_message(),
{
    let b = url.as_bytes();
    let https: [u8; 8] = [104, 116, 116, 112, 115, 58, 47, 47];
    let http: [u8; 7] = [104, 116, 116, 112, 58, 47, 47];
    assert(ascii_lower_seq(https@) =~= https_prefix());
    assert(ascii_lower_seq(http@) =~= http_prefix());
    let ok = (b.len() >= 8 && eq_ignore_ascii_case(b, 0, 8, &https)) || (b.len() >= 7
        && eq_ignore_ascii_case(b, 0, 7, &http));
    if ok {
        Ok(())
    } else {
        Err(String::from_str("Only http(s) URLs may be opened"))
    }
}

} // verus!
