//! What the desktop front end is shown: path descriptions, progress and
//! results of shrink jobs, and the system colours of the window theme.

use vstd::prelude::*;
use vstd::string::StringSliceAdditionalSpecFns;

use crate::epub::{Progress, Shrunk};
use crate::quality::Quality;
use crate::paths::{file_name, file_name_of, has_epub_extension, spec_has_epub_extension};
use crate::text::push_char;

verus! {

/// OS accent/highlight colors for window theming (every field is `None`
/// where the platform has none to offer, and the front end falls back to
/// its defaults).
pub struct SystemColors {
    pub accent_color: Option<String>,
    pub accent_text_color: Option<String>,
    pub highlight_color: Option<String>,
    pub highlight_text_color: Option<String>,
}

/// The system colours on a platform without an accent colour API.
pub fn get_system_colors() -> (r: SystemColors)
    ensures
        r.accent_color is None,
        r.accent_text_color is None,
        r.highlight_color is None,
        r.highlight_text_color is None,
{
    SystemColors {
        accent_color: None,
        accent_text_color: None,
        highlight_color: None,
        highlight_text_color: None,
    }
}

/// The message for a quality tier identifier that names no tier.
pub open spec fn unknown_tier_error(id: Seq<char>) -> Seq<char> {
    "Unknown quality tier \""@ + id + "\""@
}

/// Reads the quality tier that the front end names by its identifier
/// (exactly, case included), or says that there is no such tier.
pub fn quality_tier(id: &str) -> (r: Result<Quality, String>)
    ensures
        match r {
            Ok(q) => Quality::spec_from_id(id@) == Some(q),
            Err(m) => Quality::spec_from_id(id@) is None && m@ == unknown_tier_error(id@),
        },
{
    match Quality::from_id(id) {
        Some(q) => Ok(q),
        None => {
            let mut m = String::from_str("Unknown quality tier \"");
            m.append(id);
            m.append("\"");
            Err(m)
        },
    }
}

/// The upper-case hexadecimal digit of a value below 16.
pub open spec fn hex_digit(v: nat) -> char {
    if v < 10 {
        (48 + v) as char
    } else {
        (55 + v) as char
    }
}

/// `#RRGGBB`, in upper-case hexadecimal.
pub open spec fn spec_rgb_hex(r: u8, g: u8, b: u8) -> Seq<char> {
    seq![
        '#',
        hex_digit((r / 16) as nat),
        hex_digit((r % 16) as nat),
        hex_digit((g / 16) as nat),
        hex_digit((g % 16) as nat),
        hex_digit((b / 16) as nat),
        hex_digit((b % 16) as nat),
    ]
}

fn push_hex_byte(s: &mut String, v: u8)
    ensures
        final(s)@ == old(s)@ + seq![hex_digit((v / 16) as nat), hex_digit((v % 16) as nat)],
{
    let hi = v / 16;
    let lo = v % 16;
    let c_hi = if hi < 10 {
        (48 + hi) as char
    } else {
        (55 + hi) as char
    };
    let c_lo = if lo < 10 {
        (48 + lo) as char
    } else {
        (55 + lo) as char
    };
    push_char(s, c_hi);
    push_char(s, c_lo);
    assert(s@ =~= old(s)@ + seq![hex_digit((v / 16) as nat), hex_digit((v % 16) as nat)]);
}

/// A colour as `#RRGGBB`.
pub fn rgb_to_hex(rgb: (u8, u8, u8)) -> (r: String)
    ensures
        r@ == spec_rgb_hex(rgb.0, rgb.1, rgb.2),
{
    let (red, green, blue) = rgb;
    let mut s = String::new();
    push_char(&mut s, '#');
    push_hex_byte(&mut s, red);
    push_hex_byte(&mut s, green);
    push_hex_byte(&mut s, blue);
    assert(s@ =~= spec_rgb_hex(red, green, blue));
    s
}

/// The accent colour used when the system reports none.
pub const DEFAULT_ACCENT: (u8, u8, u8) = (0, 122, 255);

/// The text colour that reads on a background: black on a light one, white
/// otherwise.
pub open spec fn contrast_text(light: bool) -> (u8, u8, u8) {
    if light {
        (0, 0, 0)
    } else {
        (255, 255, 255)
    }
}

/// `c` is the text colour for `background`: the given reading when there
/// is one, otherwise the contrast colour for what `is_light` says of the
/// background.
pub open spec fn text_colour_for<F: Fn((u8, u8, u8)) -> bool>(
    reading: Option<(u8, u8, u8)>,
    background: (u8, u8, u8),
    is_light: F,
    c: (u8, u8, u8),
) -> bool {
    match reading {
        Some(t) => c == t,
        None => exists|light: bool|
            call_ensures(is_light, (background,), light) && c == contrast_text(light),
    }
}

/// The theme's accent: the reading, or [`DEFAULT_ACCENT`].
pub open spec fn theme_accent(accent: Option<(u8, u8, u8)>) -> (u8, u8, u8) {
    match accent {
        Some(c) => c,
        None => DEFAULT_ACCENT,
    }
}

/// The theme's highlight: the reading, or the accent.
pub open spec fn theme_highlight(
    accent: Option<(u8, u8, u8)>,
    highlight: Option<(u8, u8, u8)>,
) -> (u8, u8, u8) {
    match highlight {
        Some(c) => c,
        None => theme_accent(accent),
    }
}

/// The reading the highlight's text colour comes from: the selected-text
/// colour, else the selected-control text colour.
pub open spec fn highlight_text_reading(
    selected_control_text: Option<(u8, u8, u8)>,
    selected_text: Option<(u8, u8, u8)>,
) -> Option<(u8, u8, u8)> {
    match selected_text {
        Some(c) => Some(c),
        None => selected_control_text,
    }
}

/// The window theme's colours from the system's readings: the accent
/// (defaulting to [`DEFAULT_ACCENT`]), the highlight (defaulting to the
/// accent), the accent's text colour (the selected-control text colour, or
/// the contrast colour for the accent) and the highlight's text colour (the
/// selected-text colour, else the selected-control text colour, else the
/// contrast colour for the highlight). Whether a colour is light is the
/// caller's `is_light` rule.
pub fn theme_colors<F: Fn((u8, u8, u8)) -> bool>(
    accent: Option<(u8, u8, u8)>,
    highlight: Option<(u8, u8, u8)>,
    selected_control_text: Option<(u8, u8, u8)>,
    selected_text: Option<(u8, u8, u8)>,
    is_light: F,
) -> (r: SystemColors)
    requires
        forall|c: (u8, u8, u8)| call_requires(is_light, (c,)),
    ensures
        r.accent_color matches Some(x) && x@ == spec_rgb_hex(
            theme_accent(accent).0,
            theme_accent(accent).1,
            theme_accent(accent).2,
        ),
        r.highlight_color matches Some(x) && x@ == spec_rgb_hex(
            theme_highlight(accent, highlight).0,
            theme_highlight(accent, highlight).1,
            theme_highlight(accent, highlight).2,
        ),
        r.accent_text_color matches Some(x) && exists|t: (u8, u8, u8)|
            text_colour_for(selected_control_text, theme_accent(accent), is_light, t) && x@
                == spec_rgb_hex(t.0, t.1, t.2),
        r.highlight_text_color matches Some(x) && exists|t: (u8, u8, u8)|
            text_colour_for(
                highlight_text_reading(selected_control_text, selected_text),
                theme_highlight(accent, highlight),
                is_light,
                t,
            ) && x@ == spec_rgb_hex(t.0, t.1, t.2),
{
    let a = match accent {
        Some(c) => c,
        None => DEFAULT_ACCENT,
    };
    let h = match highlight {
        Some(c) => c,
        None => a,
    };
    let accent_text = match selected_control_text {
        Some(c) => c,
        None => {
            let light = is_light(a);
            assert(call_ensures(is_light, (a,), light) && contrast_text(light) == (if light {
                (0u8, 0u8, 0u8)
            } else {
                (255u8, 255u8, 255u8)
            }));
            if light {
                (0u8, 0u8, 0u8)
            } else {
                (255u8, 255u8, 255u8)
            }
        },
    };
    let highlight_reading = match selected_text {
        Some(c) => Some(c),
        None => selected_control_text,
    };
    let highlight_text = match highlight_reading {
        Some(c) => c,
        None => {
            let light = is_light(h);
            assert(call_ensures(is_light, (h,), light) && contrast_text(light) == (if light {
                (0u8, 0u8, 0u8)
            } else {
                (255u8, 255u8, 255u8)
            }));
            if light {
                (0u8, 0u8, 0u8)
            } else {
                (255u8, 255u8, 255u8)
            }
        },
    };
    let accent_hex = rgb_to_hex(a);
    let accent_text_hex = rgb_to_hex(accent_text);
    let highlight_hex = rgb_to_hex(h);
    let highlight_text_hex = rgb_to_hex(highlight_text);
    assert(text_colour_for(selected_control_text, theme_accent(accent), is_light, accent_text));
    assert(text_colour_for(
        highlight_text_reading(selected_control_text, selected_text),
        theme_highlight(accent, highlight),
        is_light,
        highlight_text,
    ));
    SystemColors {
        accent_color: Some(accent_hex),
        accent_text_color: Some(accent_text_hex),
        highlight_color: Some(highlight_hex),
        highlight_text_color: Some(highlight_text_hex),
    }
}

/// What the front end needs to show for a dropped or picked path before
/// shrinking it.
pub struct PathInfo {
    pub path: String,
    pub name: String,
    pub size_bytes: u64,
    pub is_dir: bool,
    pub is_epub: bool,
}

/// Describes a path from what the file system says of it (`Some((is_dir,
/// size))`, or `None` when it could not be read): its file name (the whole
/// path when it has none), its size (0 when unknown), whether it is a
/// directory, and whether it looks like an EPUB (not a directory, `.epub`
/// extension).
pub fn describe_path(raw: String, metadata: Option<(bool, u64)>) -> (r: PathInfo)
    ensures
        r.path@ == raw@,
        match file_name_of(vstd::utf8::encode_utf8(raw@)) {
            Some(n) => vstd::utf8::encode_utf8(r.name@) == n,
            None => r.name@ == raw@,
        },
        r.size_bytes == match metadata {
            Some((_, size)) => size,
            None => 0,
        },
        r.is_dir == (metadata matches Some((d, _)) && d),
        r.is_epub == (!r.is_dir && spec_has_epub_extension(vstd::utf8::encode_utf8(raw@))),
{
    let is_dir = match metadata {
        Some((d, _)) => d,
        None => false,
    };
    let size_bytes = match metadata {
        Some((_, size)) => size,
        None => 0,
    };
    let name = match file_name(raw.as_str()) {
        Some(n) => n,
        None => raw.clone(),
    };
    let is_epub = !is_dir && has_epub_extension(raw.as_str());
    PathInfo { path: raw, name, size_bytes, is_dir, is_epub }
}

} // verus!

verus! {

#[verifier::external_type_specification]
#[verifier::external_body]
pub struct ExPathBuf(std::path::PathBuf);

/// What a completed shrink did.
pub struct ShrinkReport {
    pub output_path: std::path::PathBuf,
    pub input_bytes: u64,
    pub output_bytes: u64,
    /// Images replaced by a smaller re-encoded version.
    pub images_recompressed: usize,
    /// Images kept as-is (re-encoding failed or was not smaller).
    pub images_kept: usize,
    pub entries_total: usize,
}

impl ShrinkReport {
    /// The report of a shrink that wrote `shrunk` to `output_path`.
    pub fn new(output_path: std::path::PathBuf, input_bytes: u64, output_bytes: u64, shrunk: &Shrunk) -> (r: ShrinkReport)
        ensures
            r.output_path == output_path,
            r.input_bytes == input_bytes,
            r.output_bytes == output_bytes,
            r.images_recompressed == shrunk.images_recompressed,
            r.images_kept == shrunk.images_kept,
            r.entries_total == shrunk.entries_total,
    {
        ShrinkReport {
            output_path,
            input_bytes,
            output_bytes,
            images_recompressed: shrunk.images_recompressed,
            images_kept: shrunk.images_kept,
            entries_total: shrunk.entries_total,
        }
    }
}

/// Per-entry progress of a running shrink job, keyed by the front end's job
/// id.
pub struct ShrinkProgress {
    pub job_id: String,
    pub index: usize,
    pub total: usize,
    pub entry_name: String,
}

/// The progress event of a job for one progress report.
pub fn progress_event(job_id: &String, progress: &Progress<'_>) -> (r: ShrinkProgress)
    ensures
        r.job_id@ == job_id@,
        r.index == progress.index,
        r.total == progress.total,
        r.entry_name@ == progress.entry_name@,
{
    ShrinkProgress {
        job_id: job_id.clone(),
        index: progress.index,
        total: progress.total,
        entry_name: String::from_str(progress.entry_name),
    }
}

/// Entry-level progress can fire thousands of times per second on
/// image-heavy books; the front end only needs a smooth bar, so events are
/// sent at most this often (in nanoseconds) — besides the first and last.
pub const PROGRESS_INTERVAL_NANOS: u128 = 60000000;

/// Whether a progress report is sent on: always the first and the last
/// entry's, and otherwise once [`PROGRESS_INTERVAL_NANOS`] have passed since
/// the last one sent (`None`: none was sent yet).
pub fn should_emit_progress(index: usize, total: usize, since_last_emit: Option<u128>) -> (r: bool)
    requires
        index < total,
    ensures
        r == (index == 0 || index + 1 == total || match since_last_emit {
            None => true,
            Some(elapsed) => elapsed >= PROGRESS_INTERVAL_NANOS,
        }),
{
    let is_edge = index == 0 || index + 1 == total;
    is_edge || match since_last_emit {
        None => true,
        Some(elapsed) => elapsed >= PROGRESS_INTERVAL_NANOS,
    }
}

/// Result of a completed shrink job, as the front end shows it.
pub struct ShrinkOutcome {
    pub output_path: String,
    pub input_bytes: u64,
    pub output_bytes: u64,
    pub images_recompressed: usize,
    pub images_kept: usize,
    pub entries_total: usize,
}

impl ShrinkOutcome {
    /// The outcome shown for a report, its output path given as text.
    pub fn from_report(output_path: String, report: &ShrinkReport) -> (r: ShrinkOutcome)
        ensures
            r.output_path@ == output_path@,
            r.input_bytes == report.input_bytes,
            r.output_bytes == report.output_bytes,
            r.images_recompressed == report.images_recompressed,
            r.images_kept == report.images_kept,
            r.entries_total == report.entries_total,
    {
        ShrinkOutcome {
            output_path,
            input_bytes: report.input_bytes,
            output_bytes: report.output_bytes,
            images_recompressed: report.images_recompressed,
            images_kept: report.images_kept,
            entries_total: report.entries_total,
        }
    }
}

} // verus!
