//! What the library reads from a file path: its file name and extension,
//! with the meaning that `std::path::Path` gives them on Unix.

use vstd::prelude::*;
use vstd::string::StringSliceAdditionalSpecFns;

use crate::text::{
    ascii_lower, ascii_lower_seq, decimal, eq_ignore_ascii_case, find_last, last_index_of,
    lemma_decimal_injective, lemma_decimal_len, lemma_last_index_of_absent,
    lemma_last_index_of_append, lemma_last_index_of_bounds, push_decimal,
};

verus! {

/// The byte `/`.
pub open spec fn slash() -> u8 {
    47
}

/// The byte `.`.
pub open spec fn dot() -> u8 {
    46
}

/// The final component of a path, as `Path::file_name` finds it: trailing
/// separators and `.` components are skipped, and a final `..` (or a path
/// with no component left) has no file name.
pub open spec fn file_name_of(b: Seq<u8>) -> Option<Seq<u8>>
    decreases b.len(),
{
    if b.len() == 0 {
        None
    } else if b.last() == slash() {
        file_name_of(b.drop_last())
    } else {
        let k = last_index_of(b, slash());
        let seg = b.subrange(k + 1, b.len() as int);
        if seg == seq![dot()] {
            if k < 0 {
                None
            } else {
                proof {
                    lemma_last_index_of_bounds(b, slash());
                }
                file_name_of(b.subrange(0, k))
            }
        } else if seg == seq![dot(), dot()] {
            None
        } else {
            Some(seg)
        }
    }
}

/// The extension of a file name, as `Path::extension` finds it: what follows
/// the last `.`, unless there is no `.` or the only `.` starts the name.
pub open spec fn extension_of(name: Seq<u8>) -> Option<Seq<u8>> {
    let d = last_index_of(name, dot());
    if d <= 0 {
        None
    } else {
        Some(name.subrange(d + 1, name.len() as int))
    }
}

/// The extension of the path's file name, if it has both.
pub open spec fn path_extension(b: Seq<u8>) -> Option<Seq<u8>> {
    match file_name_of(b) {
        Some(name) => extension_of(name),
        None => None,
    }
}

/// The bytes of `epub`.
pub open spec fn epub_bytes() -> Seq<u8> {
    seq![101u8, 112u8, 117u8, 98u8]
}

/// The path's extension is `epub`, in any ASCII case.
pub open spec fn spec_has_epub_extension(b: Seq<u8>) -> bool {
    match path_extension(b) {
        Some(ext) => ascii_lower_seq(ext) == epub_bytes(),
        None => false,
    }
}

/// Where the file name of `b` sits in it.
pub fn file_name_range(b: &[u8]) -> (r: Option<(usize, usize)>)
    ensures
        match r {
            Some((s, e)) => s <= e <= b@.len() && file_name_of(b@) == Some(
                b@.subrange(s as int, e as int),
            ) && (s == 0 || b@[s - 1] == slash()) && (e == b@.len() || b@[e as int] == slash()),
            None => file_name_of(b@) is None,
        },
{
    let mut end: usize = b.len();
    assert(b@.subrange(0, end as int) =~= b@);
    while end > 0
        invariant
            end <= b@.len(),
            end == b@.len() || b@[end as int] == slash(),
            file_name_of(b@) == file_name_of(b@.subrange(0, end as int)),
        decreases end,
    {
        let ghost cur = b@.subrange(0, end as int);
        if b[end - 1] == 47 {
            assert(cur.drop_last() =~= b@.subrange(0, end - 1));
            end = end - 1;
        } else {
            let k = find_last(b, end, 47);
            proof {
                lemma_last_index_of_bounds(cur, slash());
            }
            let start: usize = match k {
                Some(i) => i + 1,
                None => 0,
            };
            let ghost seg = cur.subrange(last_index_of(cur, slash()) + 1, cur.len() as int);
            assert(seg =~= b@.subrange(start as int, end as int));
            if end - start == 1 && b[start] == 46 {
                assert(seg =~= seq![dot()]);
                match k {
                    None => {
                        return None;
                    },
                    Some(i) => {
                        assert(cur.subrange(0, i as int) =~= b@.subrange(0, i as int));
                        end = i;
                    },
                }
            } else if end - start == 2 && b[start] == 46 && b[start + 1] == 46 {
                assert(seg =~= seq![dot(), dot()]);
                return None;
            } else {
                assert(seg.len() == 1 ==> seg[0] == b@[start as int]);
                assert(seg.len() == 2 ==> seg[0] == b@[start as int] && seg[1] == b@[start + 1]);
                assert(seg != seq![dot()]);
                assert(seg != seq![dot(), dot()]);
                return Some((start, end));
            }
        }
    }
    None
}

/// True when `path` has the `.epub` extension (any case). Cheap pre-filter
/// for drag-and-drop; the shrink engine verifies the actual container anyway.
pub fn has_epub_extension(path: &str) -> (r: bool)
    ensures
        r == spec_has_epub_extension(path.spec_bytes()),
{
    let b = path.as_bytes();
    assert(b@ == path.spec_bytes());
    match file_name_range(b) {
        None => false,
        Some((s, e)) => {
            let name = &b[s..e];
            let d = find_last(name, name.len(), 46);
            assert(name@.subrange(0, name@.len() as int) =~= name@);
            proof {
                lemma_last_index_of_bounds(name@, dot());
            }
            match d {
                None => false,
                Some(i) => {
                    if i == 0 {
                        false
                    } else {
                        let epub: [u8; 4] = [101, 112, 117, 98];
                        assert(epub@ =~= epub_bytes());
                        assert(ascii_lower_seq(epub@) =~= epub_bytes());
                        assert(path_extension(b@) == Some(name@.subrange(i + 1, name@.len() as int)));
                        eq_ignore_ascii_case(name, i + 1, name.len(), &epub)
                    }
                },
            }
        },
    }
}

/// A byte whose ASCII lower case is a letter is neither `/` nor `.`.
proof fn lemma_letters_are_not_separators(ext: Seq<u8>)
    requires
        ascii_lower_seq(ext) == epub_bytes(),
    ensures
        ext.len() == 4,
        forall|j: int| 0 <= j < ext.len() ==> ext[j] != slash() && ext[j] != dot(),
{
    assert(ascii_lower_seq(ext).len() == ext.len());
    assert(epub_bytes().len() == 4);
    assert forall|j: int| 0 <= j < ext.len() implies ext[j] != slash() && ext[j] != dot() by {
        assert(ascii_lower_seq(ext)[j] == ascii_lower(ext[j]));
        assert(epub_bytes()[j] == ascii_lower(ext[j]));
        assert(epub_bytes()[j] >= 98);
    }
}

/// The extension is what follows the last `.` of the file name: a file
/// name `name` (not empty, without `/`) followed by `.` and a last segment
/// `ext` (without `.` or `/`) is an EPUB name exactly when `ext` is `epub`
/// in some ASCII case, whatever `.`s `name` already holds and whatever
/// directory it stands in.
pub proof fn lemma_epub_extension_is_last_segment(dir: Seq<u8>, name: Seq<u8>, ext: Seq<u8>)
    requires
        dir.len() == 0 || dir.last() == slash(),
        name.len() > 0,
        forall|j: int| 0 <= j < name.len() ==> name[j] != slash(),
        forall|j: int| 0 <= j < ext.len() ==> ext[j] != slash() && ext[j] != dot(),
    ensures
        spec_has_epub_extension(dir + name + seq![dot()] + ext) == (ascii_lower_seq(ext)
            == epub_bytes()),
{
    let head = name + seq![dot()];
    let seg = head + ext;
    let b = dir + seg;
    assert(dir + name + seq![dot()] + ext =~= b);
    assert(epub_bytes().len() == 4);
    assert(ascii_lower_seq(ext).len() == ext.len());
    // No `/` in the file name part.
    assert forall|j: int| 0 <= j < seg.len() implies seg[j] != slash() by {
        if j < name.len() {
            assert(seg[j] == name[j]);
        } else if j == name.len() {
            assert(seg[j] == dot());
        } else {
            assert(seg[j] == ext[j - name.len() - 1]);
        }
    }
    lemma_last_index_of_absent(seg, slash());
    lemma_last_index_of_append(dir, seg, slash());
    if dir.len() > 0 {
        assert(last_index_of(dir, slash()) == dir.len() - 1);
    }
    let k = last_index_of(b, slash());
    assert(k == dir.len() - 1);
    assert(b.last() == seg.last());
    assert(b.last() != slash());
    assert(b.subrange(k + 1, b.len() as int) =~= seg);
    assert(seg != seq![dot()]);
    if seg == seq![dot(), dot()] {
        // `name` is `.` and `ext` is empty: no file name, and no `epub`.
        assert(ext.len() == 0);
        assert(file_name_of(b) is None);
    } else {
        assert(file_name_of(b) == Some(seg));
        // The last `.` of the file name is the one before `ext`.
        lemma_last_index_of_absent(ext, dot());
        lemma_last_index_of_append(head, ext, dot());
        assert(head.last() == dot());
        assert(last_index_of(head, dot()) == name.len());
        assert(last_index_of(seg, dot()) == name.len());
        assert(seg.subrange(name.len() + 1 as int, seg.len() as int) =~= ext);
        assert(extension_of(seg) == Some(ext));
    }
}

/// A file name (not empty, without `/`) followed by `.epub`, in any ASCII
/// case, is an EPUB name, whatever `.`s it already holds and whatever
/// directory it stands in.
pub proof fn lemma_epub_extension_follows_last_dot(dir: Seq<u8>, name: Seq<u8>, ext: Seq<u8>)
    requires
        dir.len() == 0 || dir.last() == slash(),
        name.len() > 0,
        forall|j: int| 0 <= j < name.len() ==> name[j] != slash(),
        ascii_lower_seq(ext) == epub_bytes(),
    ensures
        spec_has_epub_extension(dir + name + seq![dot()] + ext),
{
    lemma_letters_are_not_separators(ext);
    lemma_epub_extension_is_last_segment(dir, name, ext);
}

} // verus!

verus! {

/// The file name of a path, as text.
pub fn file_name(path: &str) -> (r: Option<String>)
    ensures
        match r {
            Some(name) => file_name_of(path.spec_bytes()) == Some(vstd::utf8::encode_utf8(name@)),
            None => file_name_of(path.spec_bytes()) is None,
        },
{
    let b = path.as_bytes();
    match file_name_range(b) {
        None => None,
        Some((s, e)) => {
            proof {
                vstd::utf8::encode_utf8_valid_utf8(path@);
                if e < b@.len() {
                    crate::text::lemma_ascii_neighbours_are_boundaries(b@, e as int);
                } else {
                    vstd::utf8::is_char_boundary_start_end_of_seq(b@);
                }
            }
            let (head, _) = path.split_at(e);
            proof {
                let hb = b@.subrange(0, e as int);
                vstd::utf8::valid_utf8_split(b@, e as int);
                assert(head.spec_bytes() =~= hb);
                if s > 0 {
                    assert(hb[s - 1] == b@[s - 1]);
                    crate::text::lemma_ascii_neighbours_are_boundaries(hb, s - 1);
                } else {
                    vstd::utf8::is_char_boundary_start_end_of_seq(hb);
                }
            }
            let (_, name) = head.split_at(s);
            assert(name.spec_bytes() =~= b@.subrange(s as int, e as int));
            Some(String::from_str(name))
        },
    }
}

} // verus!

verus! {

/// The stem of a file name, as `Path::file_stem` finds it: the name without
/// its extension (see [`extension_of`]).
pub open spec fn stem_of(name: Seq<u8>) -> Seq<u8> {
    let d = last_index_of(name, dot());
    if d <= 0 {
        name
    } else {
        name.subrange(0, d)
    }
}

/// The stem used for output names: the stem of the input's file name, or
/// `book` when there is no file name or its stem is empty.
pub open spec fn spec_output_stem(file_name: Option<Seq<u8>>) -> Seq<u8> {
    match file_name {
        Some(n) => if stem_of(n).len() > 0 {
            stem_of(n)
        } else {
            book_bytes()
        },
        None => book_bytes(),
    }
}

pub open spec fn book_bytes() -> Seq<u8> {
    seq![98u8, 111u8, 111u8, 107u8]
}

proof fn lemma_book_bytes()
    ensures
        vstd::utf8::encode_utf8("book"@) == book_bytes(),
{
    reveal_strlit("book");
    vstd::utf8::is_ascii_chars_encode_utf8("book"@);
    assert(vstd::utf8::encode_utf8("book"@) =~= book_bytes());
}

/// The stem output files are named after.
pub fn output_stem(file_name: Option<&str>) -> (r: String)
    ensures
        vstd::utf8::encode_utf8(r@) == spec_output_stem(
            match file_name {
                Some(n) => Some(n.spec_bytes()),
                None => None,
            },
        ),
{
    match file_name {
        None => {
            let r = String::from_str("book");
            proof {
                lemma_book_bytes();
            }
            r
        },
        Some(n) => {
            let b = n.as_bytes();
            let d = find_last(b, b.len(), 46);
            assert(b@.subrange(0, b@.len() as int) =~= b@);
            proof {
                lemma_last_index_of_bounds(b@, dot());
            }
            let stem: &str = match d {
                Some(i) => {
                    if i == 0 {
                        n
                    } else {
                        proof {
                            vstd::utf8::encode_utf8_valid_utf8(n@);
                            crate::text::lemma_ascii_neighbours_are_boundaries(b@, i as int);
                        }
                        let (head, _) = n.split_at(i);
                        head
                    }
                },
                None => n,
            };
            assert(stem.spec_bytes() =~= stem_of(b@));
            if stem.len() == 0 {
                let r = String::from_str("book");
                proof {
                    lemma_book_bytes();
                }
                r
            } else {
                String::from_str(stem)
            }
        },
    }
}

} // verus!

verus! {

/// The name of the output file of an attempt: `<stem> (shrunk).epub` on the
/// first, `<stem> (shrunk N).epub` on attempt N after that.
pub open spec fn spec_output_name(stem: Seq<char>, attempt: nat) -> Seq<char> {
    if attempt == 1 {
        stem + " (shrunk).epub"@
    } else {
        stem + " (shrunk "@ + decimal(attempt) + ").epub"@
    }
}

/// The name of the output file of an attempt.
pub fn output_file_name(stem: &str, attempt: u32) -> (r: String)
    ensures
        r@ == spec_output_name(stem@, attempt as nat),
{
    let mut name = String::from_str(stem);
    if attempt == 1 {
        name.append(" (shrunk).epub");
    } else {
        name.append(" (shrunk ");
        push_decimal(&mut name, attempt as u64);
        name.append(").epub");
    }
    name
}

/// Every attempt claims a name of its own: the names of two different
/// attempts differ, so numbering past a collision can never land on the
/// same name again.
pub proof fn lemma_output_names_differ(stem: Seq<char>, a: nat, b: nat)
    requires
        a >= 1,
        b >= 1,
        a != b,
    ensures
        spec_output_name(stem, a) != spec_output_name(stem, b),
{
    reveal_strlit(" (shrunk).epub");
    reveal_strlit(" (shrunk ");
    reveal_strlit(").epub");
    let k = stem.len() as int;
    if a == 1 || b == 1 {
        let other = if a == 1 {
            b
        } else {
            a
        };
        lemma_decimal_len(other);
        assert(spec_output_name(stem, 1)[k + 8] == ')');
        assert(spec_output_name(stem, other)[k + 8] == ' ');
    } else if spec_output_name(stem, a) == spec_output_name(stem, b) {
        let na = spec_output_name(stem, a);
        let la = decimal(a).len() as int;
        let lb = decimal(b).len() as int;
        assert(na.len() == k + 9 + la + 6);
        assert(spec_output_name(stem, b).len() == k + 9 + lb + 6);
        assert(na.subrange(k + 9, k + 9 + la) =~= decimal(a));
        assert(spec_output_name(stem, b).subrange(k + 9, k + 9 + lb) =~= decimal(b));
        lemma_decimal_injective(a, b);
    }
}

/// How an attempt to claim an output file went.
#[derive(Clone, Copy, Debug, PartialEq, Eq, Structural)]
pub enum ClaimOutcome {
    /// The file was created: it is ours.
    Created,
    /// A file of that name exists already.
    AlreadyExists,
    /// Creating the file failed for another reason.
    Failed,
}

/// What to do after an attempt to claim an output file.
#[derive(Clone, Copy, Debug, PartialEq, Eq, Structural)]
pub enum ClaimStep {
    /// The file is claimed; write to it.
    Claimed,
    /// Try the given attempt next.
    Retry(u32),
    /// Give up: every name is taken.
    Exhausted,
    /// Give up: the file system refused.
    Failed,
}

/// Attempts are numbered from 1 up to, but not including, this.
pub const MAX_ATTEMPTS: u32 = 10000;

/// The decision after attempt `attempt` to claim an output file: done when
/// the file was created, failed on any error but a name collision, and on a
/// collision the next number, until [`MAX_ATTEMPTS`] is reached.
pub fn after_attempt(attempt: u32, outcome: ClaimOutcome) -> (r: ClaimStep)
    requires
        1 <= attempt < MAX_ATTEMPTS,
    ensures
        outcome == ClaimOutcome::Created ==> r == ClaimStep::Claimed,
        outcome == ClaimOutcome::Failed ==> r == ClaimStep::Failed,
        outcome == ClaimOutcome::AlreadyExists ==> r == if attempt + 1 < MAX_ATTEMPTS {
            ClaimStep::Retry((attempt + 1) as u32)
        } else {
            ClaimStep::Exhausted
        },
{
    match outcome {
        ClaimOutcome::Created => ClaimStep::Claimed,
        ClaimOutcome::Failed => ClaimStep::Failed,
        ClaimOutcome::AlreadyExists => {
            if attempt + 1 < MAX_ATTEMPTS {
                ClaimStep::Retry(attempt + 1)
            } else {
                ClaimStep::Exhausted
            }
        },
    }
}

} // verus!
