//! The decisions of the command-line front end that are not I/O.

use vstd::prelude::*;
use vstd::string::StringSliceAdditionalSpecFns;

use crate::quality::Quality;
use crate::text::{ascii_lower_seq, eq_ignore_ascii_case};

verus! {

/// The tiers in [`Quality::ALL`] order.
pub open spec fn all_tiers() -> Seq<Quality> {
    seq![
        Quality::VeryHigh,
        Quality::High,
        Quality::Medium,
        Quality::Low,
        Quality::VeryLow,
        Quality::Terrible,
        Quality::Atrocious,
    ]
}

/// `text` names tier `q`, in any ASCII case.
pub open spec fn names_tier(text: Seq<u8>, q: Quality) -> bool {
    ascii_lower_seq(text) == vstd::utf8::encode_utf8(q.spec_id())
}

/// The identifiers of the first `n` tiers, joined by `, `.
pub open spec fn joined_ids(n: int) -> Seq<char>
    decreases n,
{
    if n <= 0 {
        Seq::empty()
    } else if n == 1 {
        all_tiers()[0].spec_id()
    } else {
        joined_ids(n - 1) + ", "@ + all_tiers()[n - 1].spec_id()
    }
}

/// The message for a tier name that names no tier.
pub open spec fn unknown_tier_message() -> Seq<char> {
    "unknown quality tier (expected one of: "@ + joined_ids(7) + ")"@
}

/// Reads a quality tier given on the command line: a tier identifier in any
/// case, or a message listing the identifiers.
pub fn parse_quality(raw: &str) -> (r: Result<Quality, String>)
    ensures
        match r {
            Ok(q) => names_tier(raw.spec_bytes(), q),
            Err(m) => (forall|q: Quality| !names_tier(raw.spec_bytes(), q)) && m@
                == unknown_tier_message(),
        },
{
    let all = Quality::ALL;
    let b = raw.as_bytes();
    let mut i: usize = 0;
    while i < 7
        invariant
            all@ == all_tiers(),
            b@ == raw.spec_bytes(),
            i <= 7,
            forall|j: int| 0 <= j < i ==> !names_tier(b@, #[trigger] all_tiers()[j]),
        decreases 7 - i,
    {
        let q = all[i];
        let id = q.id().as_bytes();
        proof {
            assert(ascii_lower_seq(id@) == id@) by {
                lemma_ids_are_lower(q);
            }
        }
        assert(b@.subrange(0, b@.len() as int) =~= b@);
        if eq_ignore_ascii_case(b, 0, b.len(), id) {
            return Ok(q);
        }
        i = i + 1;
    }
    assert forall|q: Quality| !names_tier(b@, q) by {
        assert(q == all_tiers()[q.rank()]);
    }
    let mut m = String::from_str("unknown quality tier (expected one of: ");
    let mut k: usize = 0;
    let ghost start = m@;
    while k < 7
        invariant
            all@ == all_tiers(),
            k <= 7,
            m@ == start + joined_ids(k as int),
        decreases 7 - k,
    {
        if k > 0 {
            m.append(", ");
        }
        m.append(all[k].id());
        assert(m@ =~= start + joined_ids(k + 1));
        k = k + 1;
    }
    m.append(")");
    Err(m)
}

/// The tier identifiers are lower case already.
proof fn lemma_ids_are_lower(q: Quality)
    ensures
        ascii_lower_seq(vstd::utf8::encode_utf8(q.spec_id())) == vstd::utf8::encode_utf8(q.spec_id()),
{
    reveal_strlit("veryhigh");
    reveal_strlit("high");
    reveal_strlit("medium");
    reveal_strlit("low");
    reveal_strlit("verylow");
    reveal_strlit("terrible");
    reveal_strlit("atrocious");
    let c = q.spec_id();
    vstd::utf8::is_ascii_chars_encode_utf8(c);
    let e = vstd::utf8::encode_utf8(c);
    assert(ascii_lower_seq(e) =~= e);
}

} // verus!
