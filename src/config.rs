//! Small decisions taken once per output or per file: the host pixel format,
//! the name of a background surface, a workspace number from a file name, and
//! when to flush handed-over file descriptors.
use vstd::prelude::*;
use crate::compositor::{digits_value, is_digit};
use crate::pixels::ShmFormat;

verus! {

/// The host-memory pixel format requested on the command line.
#[derive(Clone, Copy, Debug, PartialEq, Eq, Structural)]
pub enum PixelFormat {
    /// Three-byte pixels where the display server offers them.
    Auto,
    /// Always the four-byte format that every display server offers.
    Baseline,
}

/// The host-memory format: three-byte pixels where allowed and offered, which
/// take less memory, else four-byte pixels.
pub fn choose_shm_format(pixel_format: PixelFormat, bgr888_offered: bool) -> (r: ShmFormat)
    ensures
        r == (if pixel_format == PixelFormat::Auto && bgr888_offered {
            ShmFormat::Bgr888
        } else {
            ShmFormat::Xrgb8888
        }),
{
    match pixel_format {
        PixelFormat::Auto => if bgr888_offered {
            ShmFormat::Bgr888
        } else {
            ShmFormat::Xrgb8888
        },
        PixelFormat::Baseline => ShmFormat::Xrgb8888,
    }
}

/// Whether a decoder can write the image straight into the buffer: same size,
/// three-byte RGB pixels into a three-byte format with unpadded rows, and no
/// color adjustment.
pub fn decodes_directly(
    image_width: u32,
    image_height: u32,
    surface_width: u32,
    surface_height: u32,
    surface_stride: usize,
    format: ShmFormat,
    rgb8: bool,
    color_adjusted: bool,
) -> (r: bool)
    ensures
        r == (image_width == surface_width && image_height == surface_height && rgb8 && format
            == ShmFormat::Bgr888 && !color_adjusted && surface_stride == surface_width as int * 3),
{
    image_width == surface_width && image_height == surface_height && rgb8 && format == ShmFormat::Bgr888
        && !color_adjusted && surface_stride as u64 == surface_width as u64 * 3
}

/// The name given to the background surface of an output.
pub fn layer_surface_name(output_name: &str) -> (r: String)
    ensures
        r@ == "multibg-wayland_wallpaper_"@ + output_name@,
{
    let mut r = String::new();
    r.append("multibg-wayland_wallpaper_");
    r.append(output_name);
    r
}

/// The length of the sign that a number starts with: one for `-` or `+`.
pub open spec fn sign_len(s: Seq<char>) -> int {
    if s.len() > 0 && (s[0] == '-' || s[0] == '+') {
        1
    } else {
        0
    }
}

pub open spec fn all_digits(d: Seq<char>) -> bool {
    forall|k: int| 0 <= k < d.len() ==> is_digit(#[trigger] d[k])
}

/// The integer a workspace file name spells: an optional sign and at least
/// one digit, nothing else, within 32-bit range.
pub open spec fn workspace_number_spec(s: Seq<char>) -> Option<i32> {
    let neg = s.len() > 0 && s[0] == '-';
    let digits = s.subrange(sign_len(s), s.len() as int);
    if digits.len() == 0 || !all_digits(digits) {
        None
    } else if neg && digits_value(digits) <= 0x8000_0000 {
        Some((0 - digits_value(digits)) as i32)
    } else if !neg && digits_value(digits) <= 0x7fff_ffff {
        Some(digits_value(digits) as i32)
    } else {
        None
    }
}

/// The workspace number that a wallpaper file name spells, if it spells one.
pub fn workspace_number(stem: &str) -> (r: Option<i32>)
    ensures
        r == workspace_number_spec(stem@),
{
    let n = stem.unicode_len();
    let mut start: usize = 0;
    let mut neg = false;
    if n > 0 {
        let c = stem.get_char(0);
        if c == '-' {
            neg = true;
            start = 1;
        } else if c == '+' {
            start = 1;
        }
    }
    assert(start as int == sign_len(stem@));
    assert(neg == (stem@.len() > 0 && stem@[0] == '-'));
    if start == n {
        assert(stem@.subrange(start as int, n as int).len() == 0);
        return None;
    }
    let ghost digits = stem@.subrange(start as int, n as int);
    let mut i: usize = start;
    let mut acc: u64 = 0;
    while i < n
        invariant
            n == stem@.len(),
            start <= i <= n,
            digits == stem@.subrange(start as int, n as int),
            start as int == sign_len(stem@),
            neg == (stem@.len() > 0 && stem@[0] == '-'),
            start < n,
            forall|k: int| 0 <= k < i - start ==> is_digit(digits[k]),
            acc == digits_value(stem@.subrange(start as int, i as int)),
            acc <= 0x8000_0000,
        decreases n - i,
    {
        let c = stem.get_char(i);
        if c < '0' || c > '9' {
            assert(!is_digit(digits[i - start]));
            return None;
        }
        let ghost prev = stem@.subrange(start as int, i as int);
        let ghost next = stem@.subrange(start as int, i + 1);
        assert(next.drop_last() =~= prev);
        acc = acc * 10 + (c as u32 - '0' as u32) as u64;
        if acc > 0x8000_0000 {
            proof {
                if all_digits(digits) {
                    lemma_digits_grow(digits, (i + 1 - start) as nat);
                    assert(digits.subrange(0, (i + 1 - start) as int) =~= next);
                }
            }
            return None;
        }
        i = i + 1;
    }
    assert(stem@.subrange(start as int, n as int) =~= stem@.subrange(start as int, i as int));
    if neg {
        Some((0 - acc as i64) as i32)
    } else if acc <= 0x7fff_ffff {
        Some(acc as i32)
    } else {
        None
    }
}

/// A string of digits is worth at least any of its prefixes.
proof fn lemma_digits_grow(s: Seq<char>, m: nat)
    requires
        m <= s.len(),
        all_digits(s),
    ensures
        digits_value(s.subrange(0, m as int)) <= digits_value(s),
    decreases s.len() - m,
{
    if m < s.len() {
        assert forall|k: int| 0 <= k < s.drop_last().len() implies is_digit(#[trigger] s.drop_last()[k]) by {
            assert(s.drop_last()[k] == s[k]);
        }
        lemma_digits_grow(s.drop_last(), m);
        assert(s.drop_last().subrange(0, m as int) =~= s.subrange(0, m as int));
    } else {
        assert(s.subrange(0, m as int) =~= s);
    }
}

/// The most file descriptors sent to the display server between flushes.
pub const MAX_FDS_OUT: usize = 28;

/// Counts the file descriptors queued for the display server since its last
/// flush.
pub struct FdBatch {
    pub pending: usize,
}

impl FdBatch {
    pub fn new() -> (r: FdBatch)
        ensures
            r.pending == 0,
    {
        FdBatch { pending: 0 }
    }

    /// Adds `count` descriptors; true when the queued ones must be flushed
    /// first, so that no more than the maximum are ever in flight.
    pub fn add(&mut self, count: usize) -> (flush: bool)
        requires
            old(self).pending <= MAX_FDS_OUT,
            count <= MAX_FDS_OUT,
        ensures
            flush == (old(self).pending + count > MAX_FDS_OUT),
            final(self).pending == if flush { count as int } else { old(self).pending + count },
            final(self).pending <= MAX_FDS_OUT,
    {
        let flush = self.pending + count > MAX_FDS_OUT;
        if flush {
            self.pending = 0;
        }
        self.pending = self.pending + count;
        flush
    }
}

/// What became of one wallpaper file while an output's wallpapers load.
#[derive(Clone, Copy, Debug, PartialEq, Eq, Structural)]
pub enum FileOutcome {
    /// A live wallpaper stood for it.
    Reused,
    /// It was decoded into new memory.
    Loaded,
    /// It could not be read, decoded or placed; it is skipped.
    Failed,
    /// Its upload to the accelerator failed; it goes to host memory instead.
    UploadFailed,
}

pub open spec fn bump(n: usize) -> usize {
    if n < usize::MAX { (n + 1) as usize } else { n }
}

/// The state of loading one output's wallpapers: whether files still go to
/// accelerator memory, and what became of the files so far.
#[derive(Clone, Copy, Debug, PartialEq, Eq, Structural)]
pub struct LoadTally {
    pub accelerated: bool,
    pub loaded: usize,
    pub reused: usize,
    pub errors: usize,
}

impl LoadTally {
    pub fn new(accelerated: bool) -> (r: LoadTally)
        ensures
            r == (LoadTally { accelerated, loaded: 0, reused: 0, errors: 0 }),
    {
        LoadTally { accelerated, loaded: 0, reused: 0, errors: 0 }
    }

    /// Records one file's outcome. After an upload failure every later file
    /// goes to host memory; a failed file counts as an error and is skipped.
    pub fn record(&mut self, outcome: FileOutcome)
        ensures
            final(self).accelerated == (old(self).accelerated && outcome != FileOutcome::UploadFailed),
            final(self).loaded == if outcome == FileOutcome::Loaded {
                bump(old(self).loaded)
            } else {
                old(self).loaded
            },
            final(self).reused == if outcome == FileOutcome::Reused {
                bump(old(self).reused)
            } else {
                old(self).reused
            },
            final(self).errors == if outcome == FileOutcome::Failed {
                bump(old(self).errors)
            } else {
                old(self).errors
            },
    {
        match outcome {
            FileOutcome::Reused => {
                if self.reused < usize::MAX {
                    self.reused = self.reused + 1;
                }
            },
            FileOutcome::Loaded => {
                if self.loaded < usize::MAX {
                    self.loaded = self.loaded + 1;
                }
            },
            FileOutcome::Failed => {
                if self.errors < usize::MAX {
                    self.errors = self.errors + 1;
                }
            },
            FileOutcome::UploadFailed => {
                self.accelerated = false;
            },
        }
    }
}

} // verus!
