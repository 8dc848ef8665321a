//! Compression tiers, from "barely touch it" to "scorched earth".

use vstd::prelude::*;

use crate::text::str_eq;

verus! {

/// A compression tier.
///
/// Each tier maps to a JPEG encode quality, a PNG quantization quality range,
/// and (for the lower tiers) a maximum image width: images wider than the cap
/// are downscaled before re-encoding, since huge page scans dominate EPUB size.
#[derive(Clone, Copy, Debug, PartialEq, Eq, Structural)]
pub enum Quality {
    VeryHigh,
    High,
    Medium,
    Low,
    VeryLow,
    Terrible,
    Atrocious,
}

impl Quality {
    pub const ALL: [Quality; 7] = [
        Quality::VeryHigh,
        Quality::High,
        Quality::Medium,
        Quality::Low,
        Quality::VeryLow,
        Quality::Terrible,
        Quality::Atrocious,
    ];

    /// Position of the tier in [`Quality::ALL`]: 0 is the mildest.
    pub open spec fn rank(self) -> int {
        match self {
            Quality::VeryHigh => 0,
            Quality::High => 1,
            Quality::Medium => 2,
            Quality::Low => 3,
            Quality::VeryLow => 4,
            Quality::Terrible => 5,
            Quality::Atrocious => 6,
        }
    }

    /// The stable machine identifier of the tier.
    pub open spec fn spec_id(self) -> Seq<char> {
        match self {
            Quality::VeryHigh => "veryhigh"@,
            Quality::High => "high"@,
            Quality::Medium => "medium"@,
            Quality::Low => "low"@,
            Quality::VeryLow => "verylow"@,
            Quality::Terrible => "terrible"@,
            Quality::Atrocious => "atrocious"@,
        }
    }

    /// The human-readable name of the tier.
    pub open spec fn spec_label(self) -> Seq<char> {
        match self {
            Quality::VeryHigh => "Very High"@,
            Quality::High => "High"@,
            Quality::Medium => "Medium"@,
            Quality::Low => "Low"@,
            Quality::VeryLow => "Very Low"@,
            Quality::Terrible => "Terrible"@,
            Quality::Atrocious => "Atrocious"@,
        }
    }

    /// The first tier, in [`Quality::ALL`] order, whose identifier is `id`.
    pub open spec fn spec_from_id(id: Seq<char>) -> Option<Quality> {
        if id == Quality::VeryHigh.spec_id() {
            Some(Quality::VeryHigh)
        } else if id == Quality::High.spec_id() {
            Some(Quality::High)
        } else if id == Quality::Medium.spec_id() {
            Some(Quality::Medium)
        } else if id == Quality::Low.spec_id() {
            Some(Quality::Low)
        } else if id == Quality::VeryLow.spec_id() {
            Some(Quality::VeryLow)
        } else if id == Quality::Terrible.spec_id() {
            Some(Quality::Terrible)
        } else if id == Quality::Atrocious.spec_id() {
            Some(Quality::Atrocious)
        } else {
            None
        }
    }

    pub open spec fn spec_jpeg_quality(self) -> u8 {
        match self {
            Quality::VeryHigh => 90,
            Quality::High => 80,
            Quality::Medium => 70,
            Quality::Low => 55,
            Quality::VeryLow => 40,
            Quality::Terrible => 25,
            Quality::Atrocious => 10,
        }
    }

    pub open spec fn spec_png_quality(self) -> (u8, u8) {
        match self {
            Quality::VeryHigh => (70, 95),
            Quality::High => (50, 85),
            Quality::Medium => (30, 70),
            Quality::Low => (15, 55),
            Quality::VeryLow => (10, 40),
            Quality::Terrible => (5, 25),
            Quality::Atrocious => (0, 15),
        }
    }

    pub open spec fn spec_max_width(self) -> Option<u32> {
        match self {
            Quality::VeryHigh | Quality::High | Quality::Medium => None,
            Quality::Low => Some(1600),
            Quality::VeryLow => Some(1200),
            Quality::Terrible => Some(900),
            Quality::Atrocious => Some(600),
        }
    }

    /// Stable machine identifier, used over IPC and in saved settings.
    pub fn id(self) -> (r: &'static str)
        ensures
            r@ == self.spec_id(),
    {
        match self {
            Quality::VeryHigh => "veryhigh",
            Quality::High => "high",
            Quality::Medium => "medium",
            Quality::Low => "low",
            Quality::VeryLow => "verylow",
            Quality::Terrible => "terrible",
            Quality::Atrocious => "atrocious",
        }
    }

    pub fn label(self) -> (r: &'static str)
        ensures
            r@ == self.spec_label(),
    {
        match self {
            Quality::VeryHigh => "Very High",
            Quality::High => "High",
            Quality::Medium => "Medium",
            Quality::Low => "Low",
            Quality::VeryLow => "Very Low",
            Quality::Terrible => "Terrible",
            Quality::Atrocious => "Atrocious",
        }
    }

    /// The tier whose identifier is `id`, if any.
    pub fn from_id(id: &str) -> (r: Option<Quality>)
        ensures
            r == Quality::spec_from_id(id@),
    {
        let all = Quality::ALL;
        let mut i: usize = 0;
        while i < 7
            invariant
                all@ == seq![
                    Quality::VeryHigh,
                    Quality::High,
                    Quality::Medium,
                    Quality::Low,
                    Quality::VeryLow,
                    Quality::Terrible,
                    Quality::Atrocious,
                ],
                i <= 7,
                forall|j: int| 0 <= j < i ==> all@[j].spec_id() != id@,
            decreases 7 - i,
        {
            let q = all[i];
            if str_eq(q.id(), id) {
                return Some(q);
            }
            i = i + 1;
        }
        None
    }

    /// JPEG encode quality of the tier, on the 1–100 scale.
    pub fn jpeg_quality(self) -> (r: u8)
        ensures
            r == self.spec_jpeg_quality(),
    {
        match self {
            Quality::VeryHigh => 90,
            Quality::High => 80,
            Quality::Medium => 70,
            Quality::Low => 55,
            Quality::VeryLow => 40,
            Quality::Terrible => 25,
            Quality::Atrocious => 10,
        }
    }

    /// (min, max) quality for palette quantization, on its 0–100 scale. The
    /// min is a floor below which quantization fails and the original is
    /// kept: high tiers refuse to butcher hard-to-quantize (photographic)
    /// PNGs, low tiers accept whatever they can get.
    pub fn png_quality(self) -> (r: (u8, u8))
        ensures
            r == self.spec_png_quality(),
    {
        match self {
            Quality::VeryHigh => (70, 95),
            Quality::High => (50, 85),
            Quality::Medium => (30, 70),
            Quality::Low => (15, 55),
            Quality::VeryLow => (10, 40),
            Quality::Terrible => (5, 25),
            Quality::Atrocious => (0, 15),
        }
    }

    /// Width cap of the tier: wider images are downscaled to it.
    pub fn max_width(self) -> (r: Option<u32>)
        ensures
            r == self.spec_max_width(),
    {
        match self {
            Quality::VeryHigh | Quality::High | Quality::Medium => None,
            Quality::Low => Some(1600),
            Quality::VeryLow => Some(1200),
            Quality::Terrible => Some(900),
            Quality::Atrocious => Some(600),
        }
    }
}

/// Looking a tier up by its own identifier gives the tier back, and the
/// identifiers of two different tiers are different.
pub proof fn lemma_id_round_trip(q: Quality)
    ensures
        Quality::spec_from_id(q.spec_id()) == Some(q),
        forall|p: Quality| p != q ==> p.spec_id() != q.spec_id(),
{
    reveal_strlit("veryhigh");
    reveal_strlit("high");
    reveal_strlit("medium");
    reveal_strlit("low");
    reveal_strlit("verylow");
    reveal_strlit("terrible");
    reveal_strlit("atrocious");
    assert(Quality::VeryHigh.spec_id().len() == 8 && Quality::VeryHigh.spec_id()[0] == 'v');
    assert(Quality::High.spec_id().len() == 4);
    assert(Quality::Medium.spec_id().len() == 6);
    assert(Quality::Low.spec_id().len() == 3);
    assert(Quality::VeryLow.spec_id().len() == 7);
    assert(Quality::Terrible.spec_id().len() == 8 && Quality::Terrible.spec_id()[0] == 't');
    assert(Quality::Atrocious.spec_id().len() == 9);
}

/// Each tier is harsher than the one before it: a strictly lower JPEG
/// quality, a strictly lower PNG quality target, and a width cap that is
/// never looser.
pub proof fn lemma_tiers_get_harsher(a: Quality, b: Quality)
    requires
        a.rank() < b.rank(),
    ensures
        a.spec_jpeg_quality() > b.spec_jpeg_quality(),
        a.spec_png_quality().1 > b.spec_png_quality().1,
        a.spec_png_quality().0 >= b.spec_png_quality().0,
        match (a.spec_max_width(), b.spec_max_width()) {
            (None, _) => true,
            (Some(x), Some(y)) => x >= y,
            (Some(_), None) => false,
        },
{
}

/// The lower case of an ASCII letter; any other character as it is.
pub open spec fn lower_char(c: char) -> char {
    if 'A' <= c <= 'Z' {
        ((c as u32) + 32) as char
    } else {
        c
    }
}

/// A label read as an identifier: its characters in lower case, its spaces
/// left out.
pub open spec fn label_as_id(s: Seq<char>) -> Seq<char>
    decreases s.len(),
{
    if s.len() == 0 {
        Seq::empty()
    } else if s[0] == ' ' {
        label_as_id(s.drop_first())
    } else {
        seq![lower_char(s[0])] + label_as_id(s.drop_first())
    }
}

/// Each tier's label names that tier: it is the tier's identifier written
/// as words, capitalised and spaced (lower-cased, without its spaces, it is
/// the identifier), and it starts with a capital letter.
pub proof fn lemma_labels_name_their_tier(q: Quality)
    ensures
        label_as_id(q.spec_label()) == q.spec_id(),
        q.spec_label().len() > 0 && 'A' <= q.spec_label()[0] <= 'Z',
{
    reveal_strlit("veryhigh");
    reveal_strlit("high");
    reveal_strlit("medium");
    reveal_strlit("low");
    reveal_strlit("verylow");
    reveal_strlit("terrible");
    reveal_strlit("atrocious");
    reveal_strlit("Very High");
    reveal_strlit("High");
    reveal_strlit("Medium");
    reveal_strlit("Low");
    reveal_strlit("Very Low");
    reveal_strlit("Terrible");
    reveal_strlit("Atrocious");
    reveal_with_fuel(label_as_id, 10);
    assert(label_as_id(q.spec_label()) =~= q.spec_id());
}

} // verus!
