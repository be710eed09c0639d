//! Zero-copy feedback: which modifiers an output accepts for its wallpapers.
use vstd::prelude::*;
use crate::drm::DRM_FORMAT_XRGB8888;

verus! {

/// An entry of the display server's format table.
#[derive(Clone, Copy, Debug, PartialEq, Eq, Structural)]
pub struct DmabufFormat {
    pub format: u32,
    pub modifier: u64,
}

/// A group of format table entries preferred for one target device.
pub struct Tranche {
    pub device: u64,
    /// Indices into the format table.
    pub formats: Vec<u16>,
}

/// Why feedback gives no way to share accelerator memory.
#[derive(Clone, Copy, Debug, PartialEq, Eq, Structural)]
pub enum FeedbackError {
    NoTranches,
    NoMainDeviceTranche,
    NoModifiers,
}

/// The modifiers for the wallpaper format among the first `n` indices, in
/// order; indices out of the table are skipped.
pub open spec fn xrgb_modifiers(table: Seq<DmabufFormat>, indices: Seq<u16>, n: nat) -> Seq<u64>
    decreases n,
{
    if n == 0 {
        Seq::empty()
    } else {
        let rest = xrgb_modifiers(table, indices, (n - 1) as nat);
        let i = indices[n - 1] as int;
        if i < table.len() && table[i].format == DRM_FORMAT_XRGB8888 {
            rest.push(table[i].modifier)
        } else {
            rest
        }
    }
}

/// The first tranche whose target device is the main device.
pub open spec fn is_main_tranche(tranches: Seq<Tranche>, main_device: u64, t: int) -> bool {
    0 <= t < tranches.len() && tranches[t].device == main_device && forall|k: int|
        0 <= k < t ==> tranches[k].device != main_device
}

/// The modifiers that per-surface feedback offers for the wallpaper format:
/// those of the first tranche whose target is the main device.
pub fn tranche_modifiers(main_device: u64, format_table: &Vec<DmabufFormat>, tranches: &Vec<Tranche>) -> (r:
    Result<Vec<u64>, FeedbackError>)
    ensures
        tranches@.len() == 0 <==> r == Err::<Vec<u64>, FeedbackError>(FeedbackError::NoTranches),
        r == Err::<Vec<u64>, FeedbackError>(FeedbackError::NoMainDeviceTranche) <==> (tranches@.len() > 0
            && forall|k: int| 0 <= k < tranches@.len() ==> tranches@[k].device != main_device),
        r matches Ok(v) ==> exists|t: int|
            is_main_tranche(tranches@, main_device, t) && v@ == xrgb_modifiers(
                format_table@,
                tranches@[t].formats@,
                tranches@[t].formats@.len(),
            ) && v@.len() > 0,
        r == Err::<Vec<u64>, FeedbackError>(FeedbackError::NoModifiers) ==> exists|t: int|
            is_main_tranche(tranches@, main_device, t) && xrgb_modifiers(
                format_table@,
                tranches@[t].formats@,
                tranches@[t].formats@.len(),
            ).len() == 0,
{
    if tranches.len() == 0 {
        return Err(FeedbackError::NoTranches);
    }
    let mut t: usize = 0;
    while t < tranches.len() && tranches[t].device != main_device
        invariant
            t <= tranches@.len(),
            forall|k: int| 0 <= k < t ==> tranches@[k].device != main_device,
        decreases tranches@.len() - t,
    {
        t = t + 1;
    }
    if t == tranches.len() {
        return Err(FeedbackError::NoMainDeviceTranche);
    }
    let formats = &tranches[t].formats;
    let mut r: Vec<u64> = Vec::new();
    let mut j: usize = 0;
    while j < formats.len()
        invariant
            j <= formats@.len(),
            r@ == xrgb_modifiers(format_table@, formats@, j as nat),
        decreases formats@.len() - j,
    {
        let i = formats[j] as usize;
        if i < format_table.len() && format_table[i].format == DRM_FORMAT_XRGB8888 {
            r.push(format_table[i].modifier);
        }
        j = j + 1;
    }
    assert(is_main_tranche(tranches@, main_device, t as int));
    if r.len() == 0 {
        return Err(FeedbackError::NoModifiers);
    }
    Ok(r)
}

/// The modifiers for the wallpaper format among the first `n` entries.
pub open spec fn legacy_xrgb_modifiers(formats: Seq<DmabufFormat>, n: nat) -> Seq<u64>
    decreases n,
{
    if n == 0 {
        Seq::empty()
    } else {
        let rest = legacy_xrgb_modifiers(formats, (n - 1) as nat);
        if formats[n - 1].format == DRM_FORMAT_XRGB8888 {
            rest.push(formats[n - 1].modifier)
        } else {
            rest
        }
    }
}

/// The modifiers that the legacy global format list offers for the wallpaper
/// format, in order.
pub fn legacy_modifiers(formats: &Vec<DmabufFormat>) -> (r: Vec<u64>)
    ensures
        r@ == legacy_xrgb_modifiers(formats@, formats@.len()),
{
    let mut r: Vec<u64> = Vec::new();
    let mut j: usize = 0;
    while j < formats.len()
        invariant
            j <= formats@.len(),
            r@ == legacy_xrgb_modifiers(formats@, j as nat),
        decreases formats@.len() - j,
    {
        if formats[j].format == DRM_FORMAT_XRGB8888 {
            r.push(formats[j].modifier);
        }
        j = j + 1;
    }
    r
}

/// How a new output learns which accelerator memory it can share.
#[derive(Clone, Copy, Debug, PartialEq, Eq, Structural)]
pub enum FeedbackMode {
    /// Accelerator use is off: host memory only.
    HostOnly,
    /// Per-surface feedback (protocol version 4 and later), tied to a device.
    PerSurface,
    /// The legacy global format list, with no device to match.
    Legacy,
}

/// The feedback mode for a new output, given whether accelerator use is on and
/// the zero-copy protocol version the display server offers.
pub fn feedback_mode(accelerator: bool, protocol_version: Option<u32>) -> (r: FeedbackMode)
    ensures
        r == if !accelerator || protocol_version is None {
            FeedbackMode::HostOnly
        } else if protocol_version->Some_0 >= 4 {
            FeedbackMode::PerSurface
        } else {
            FeedbackMode::Legacy
        },
{
    if !accelerator {
        return FeedbackMode::HostOnly;
    }
    match protocol_version {
        None => FeedbackMode::HostOnly,
        Some(v) => if v >= 4 {
            FeedbackMode::PerSurface
        } else {
            FeedbackMode::Legacy
        },
    }
}

} // verus!
