//! Decisions of the accelerator context: which physical device to use, which
//! device to reuse, which capabilities and modifiers are available.
use vstd::prelude::*;
use crate::drm::DRM_FORMAT_MOD_LINEAR;

verus! {

/// The class of a physical accelerator.
#[derive(Clone, Copy, Debug, PartialEq, Eq, Structural)]
pub enum DeviceType {
    Discrete,
    Integrated,
    Virtual,
    Cpu,
    Other,
}

pub const SCORE_MATCHES_DRM_DEV: u32 = 8;
pub const SCORE_DISCRETE_GPU: u32 = 4;
pub const SCORE_INTEGRATED_GPU: u32 = 2;
pub const SCORE_VIRTUAL_GPU: u32 = 1;

/// What probing a physical device found: its class and its DRM nodes.
#[derive(Clone, Copy, Debug, PartialEq, Eq, Structural)]
pub struct DeviceProbe {
    pub device_type: DeviceType,
    pub primary: Option<u64>,
    pub render: Option<u64>,
}

pub open spec fn type_weight(t: DeviceType) -> u32 {
    match t {
        DeviceType::Discrete => SCORE_DISCRETE_GPU,
        DeviceType::Integrated => SCORE_INTEGRATED_GPU,
        DeviceType::Virtual => SCORE_VIRTUAL_GPU,
        _ => 0,
    }
}

/// Whether the probed device is the one the display server reported.
pub open spec fn probe_matches(p: DeviceProbe, dmabuf_dev: Option<u64>) -> bool {
    dmabuf_dev is Some && (p.primary == dmabuf_dev || p.render == dmabuf_dev)
}

/// The score of a probed device: the weights of its class and of a match with
/// the reported device, each a bit of its own.
pub open spec fn score_spec(p: DeviceProbe, dmabuf_dev: Option<u64>) -> u32 {
    (type_weight(p.device_type) + if probe_matches(p, dmabuf_dev) {
        SCORE_MATCHES_DRM_DEV
    } else {
        0
    }) as u32
}

/// Scores a probed device against the device the display server reported.
pub fn device_score(probe: &DeviceProbe, dmabuf_dev: Option<u64>) -> (r: u32)
    ensures
        r == score_spec(*probe, dmabuf_dev),
{
    let mut score: u32 = match probe.device_type {
        DeviceType::Discrete => SCORE_DISCRETE_GPU,
        DeviceType::Integrated => SCORE_INTEGRATED_GPU,
        DeviceType::Virtual => SCORE_VIRTUAL_GPU,
        _ => 0,
    };
    if dmabuf_dev.is_some() && (probe.primary == dmabuf_dev || probe.render == dmabuf_dev) {
        score = score + SCORE_MATCHES_DRM_DEV;
    }
    score
}

/// A device that matches the reported node outranks one of the same class that
/// does not, whatever their other nodes.
pub proof fn lemma_matching_device_outranks(a: DeviceProbe, b: DeviceProbe, dmabuf_dev: Option<u64>)
    requires
        a.device_type == b.device_type,
        probe_matches(a, dmabuf_dev),
        !probe_matches(b, dmabuf_dev),
    ensures
        score_spec(a, dmabuf_dev) > score_spec(b, dmabuf_dev),
{
}

/// Index `i` holds a highest score of `scores`.
pub open spec fn is_top(scores: Seq<u32>, i: int) -> bool {
    0 <= i < scores.len() && forall|k: int| 0 <= k < scores.len() ==> scores[k] <= scores[i]
}

/// The order in which devices are tried: every index of a highest score, in
/// enumeration order.
pub fn device_candidates(scores: &Vec<u32>) -> (r: Vec<usize>)
    ensures
        forall|j: int| 0 <= j < r@.len() ==> is_top(scores@, r@[j] as int),
        forall|i: int| is_top(scores@, i) ==> r@.contains(i as usize),
        forall|j: int, k: int| 0 <= j < k < r@.len() ==> r@[j] < r@[k],
{
    let mut max: u32 = 0;
    let mut i: usize = 0;
    while i < scores.len()
        invariant
            i <= scores@.len(),
            forall|k: int| 0 <= k < i ==> scores@[k] <= max,
            i > 0 ==> exists|k: int| 0 <= k < i && scores@[k] == max,
            i == 0 ==> max == 0,
        decreases scores@.len() - i,
    {
        if scores[i] > max {
            max = scores[i];
        } else if i == 0 {
            assert(scores@[0] == max);
        }
        assert(scores@[i as int] == max ==> exists|k: int| 0 <= k < i + 1 && scores@[k] == max);
        i = i + 1;
    }
    let mut r: Vec<usize> = Vec::new();
    let mut i: usize = 0;
    while i < scores.len()
        invariant
            i <= scores@.len(),
            forall|k: int| 0 <= k < scores@.len() ==> scores@[k] <= max,
            scores@.len() > 0 ==> exists|k: int| 0 <= k < scores@.len() && scores@[k] == max,
            forall|j: int| 0 <= j < r@.len() ==> r@[j] < i && scores@[r@[j] as int] == max,
            forall|k: int| 0 <= k < i && scores@[k] == max ==> r@.contains(k as usize),
            forall|j: int, k: int| 0 <= j < k < r@.len() ==> r@[j] < r@[k],
        decreases scores@.len() - i,
    {
        let ghost old_r = r@;
        if scores[i] == max {
            r.push(i);
            assert(r@[r@.len() - 1] == i);
        }
        assert forall|k: int| 0 <= k < i + 1 && scores@[k] == max implies r@.contains(
            k as usize,
        ) by {
            if k < i {
                assert(old_r.contains(k as usize));
                let j = choose|j: int| 0 <= j < old_r.len() && old_r[j] == k as usize;
                assert(r@[j] == k as usize);
            } else {
                assert(r@[r@.len() - 1] == i);
            }
        }
        i = i + 1;
    }
    proof {
        assert forall|i: int| is_top(scores@, i) implies r@.contains(i as usize) by {
            let k = choose|k: int| 0 <= k < scores@.len() && scores@[k] == max;
            assert(scores@[k] <= scores@[i]);
        }
    }
    r
}

/// The DRM nodes of a created device: primary, render, and the node that the
/// display server reported when the device was requested.
#[derive(Clone, Copy, Debug, PartialEq, Eq, Structural)]
pub struct DeviceNodes {
    pub primary: Option<u64>,
    pub render: Option<u64>,
    pub dmabuf: Option<u64>,
}

/// Whether a device with these nodes serves a request for `dev`.
pub open spec fn nodes_match(n: DeviceNodes, dev: Option<u64>) -> bool {
    match dev {
        Some(d) => n.dmabuf == Some(d) || n.render == Some(d) || n.primary == Some(d),
        None => n.dmabuf is None,
    }
}

impl DeviceNodes {
    /// Whether this device serves a request for `drm_dev`: one of its nodes is
    /// that node, or, without a reported node, it too was made without one.
    pub fn dmabuf_drm_dev_eq(&self, drm_dev: Option<u64>) -> (r: bool)
        ensures
            r == nodes_match(*self, drm_dev),
    {
        match drm_dev {
            Some(_) => drm_dev == self.dmabuf || drm_dev == self.render || drm_dev == self.primary,
            None => self.dmabuf.is_none(),
        }
    }
}

/// The first existing device that serves a request for `drm_dev`.
pub fn find_reusable_device(devices: &Vec<DeviceNodes>, drm_dev: Option<u64>) -> (r: Option<usize>)
    ensures
        r matches Some(i) ==> i < devices@.len() && nodes_match(devices@[i as int], drm_dev)
            && forall|k: int| 0 <= k < i ==> !nodes_match(devices@[k], drm_dev),
        r is None ==> forall|k: int| 0 <= k < devices@.len() ==> !nodes_match(devices@[k], drm_dev),
{
    let mut i: usize = 0;
    while i < devices.len()
        invariant
            i <= devices@.len(),
            forall|k: int| 0 <= k < i ==> !nodes_match(devices@[k], drm_dev),
        decreases devices@.len() - i,
    {
        if devices[i].dmabuf_drm_dev_eq(drm_dev) {
            return Some(i);
        }
        i = i + 1;
    }
    None
}

pub open spec fn api_variant(v: u32) -> u32 {
    v >> 29u32
}

pub open spec fn api_major(v: u32) -> u32 {
    (v >> 22u32) & 0x7fu32
}

pub open spec fn api_minor(v: u32) -> u32 {
    (v >> 12u32) & 0x3ffu32
}

/// Whether a packed API version is variant 0, version 1.1 or a later 1.x.
pub fn api_version_supported(version: u32) -> (r: bool)
    ensures
        r == (api_variant(version) == 0 && api_major(version) == 1 && api_minor(version) >= 1),
{
    let variant = version >> 29u32;
    let major = (version >> 22u32) & 0x7fu32;
    let minor = (version >> 12u32) & 0x3ffu32;
    variant == 0 && major == 1 && minor >= 1
}

/// What a queue family offers.
#[derive(Clone, Copy, Debug, PartialEq, Eq, Structural)]
pub struct QueueFamily {
    pub graphics: bool,
    pub queue_count: u32,
}

/// The first queue family with graphics support and at least one queue.
pub fn find_queue_family(families: &Vec<QueueFamily>) -> (r: Option<usize>)
    ensures
        r matches Some(i) ==> i < families@.len() && families@[i as int].graphics
            && families@[i as int].queue_count > 0 && forall|k: int|
            0 <= k < i ==> !(families@[k].graphics && families@[k].queue_count > 0),
        r is None ==> forall|k: int|
            0 <= k < families@.len() ==> !(families@[k].graphics && families@[k].queue_count > 0),
{
    let mut i: usize = 0;
    while i < families.len()
        invariant
            i <= families@.len(),
            forall|k: int| 0 <= k < i ==> !(families@[k].graphics && families@[k].queue_count > 0),
        decreases families@.len() - i,
    {
        if families[i].graphics && families[i].queue_count > 0 {
            return Some(i);
        }
        i = i + 1;
    }
    None
}

/// Memory type `i` is allowed by `type_bits` and has every flag of `required`.
pub open spec fn memory_type_fits(type_bits: u32, flags: Seq<u32>, required: u32, i: int) -> bool {
    0 <= i < flags.len() && (1u32 << i as u32) & type_bits != 0 && flags[i] & required == required
}

/// The first memory type that the requirement bits allow and that has all the
/// required property flags.
pub fn find_memorytype_index(type_bits: u32, property_flags: &Vec<u32>, required: u32) -> (r: Option<
    u32,
>)
    requires
        property_flags@.len() <= 32,
    ensures
        r matches Some(i) ==> memory_type_fits(type_bits, property_flags@, required, i as int)
            && forall|k: int| 0 <= k < i ==> !memory_type_fits(type_bits, property_flags@, required, k),
        r is None ==> forall|k: int|
            0 <= k < property_flags@.len() ==> !memory_type_fits(type_bits, property_flags@, required, k),
{
    let mut i: u32 = 0;
    while (i as usize) < property_flags.len()
        invariant
            i as int <= property_flags@.len() <= 32,
            forall|k: int| 0 <= k < i ==> !memory_type_fits(type_bits, property_flags@, required, k),
        decreases property_flags@.len() - i,
    {
        if (1u32 << i) & type_bits != 0 && property_flags[i as usize] & required == required {
            return Some(i);
        }
        i = i + 1;
    }
    None
}

/// Where one memory plane of a realized image lies in its exported memory.
#[derive(Clone, Copy, Debug, PartialEq, Eq, Structural)]
pub struct MemoryPlane {
    pub offset: u64,
    pub stride: u64,
}

/// What the device reports of one modifier for the wallpaper format.
#[derive(Clone, Copy, Debug, PartialEq, Eq, Structural)]
pub struct ModifierProperties {
    pub modifier: u64,
    pub plane_count: u32,
    /// Whether an image with this modifier can be a transfer destination.
    pub transfer_dst: bool,
}

/// The limits of a two-dimensional image with one modifier on the device.
#[derive(Clone, Copy, Debug, PartialEq, Eq, Structural)]
pub struct ImageLimits {
    pub max_width: u32,
    pub max_height: u32,
    pub max_depth: u32,
    pub max_mip_levels: u32,
    pub max_array_layers: u32,
    pub single_sample: bool,
    pub max_resource_size: u64,
}

/// Why a modifier cannot be used for the wallpaper image.
#[derive(Clone, Copy, Debug, PartialEq, Eq, Structural)]
pub enum ModifierRejection {
    /// The device does not list the modifier.
    Unknown,
    NoTransferDst,
    /// The device offers no image of the format with this modifier.
    FormatUnsupported,
    TooWide,
    TooTall,
    TooLarge,
}

/// The first properties entry of modifier `m`.
pub open spec fn is_first_props(props: Seq<ModifierProperties>, m: u64, i: int) -> bool {
    0 <= i < props.len() && props[i].modifier == m && forall|k: int| 0 <= k < i ==> props[k].modifier != m
}

/// The size in bytes of a `width` by `height` image of four-byte pixels.
pub open spec fn image_size(width: u32, height: u32) -> int {
    width as int * height as int * 4
}

/// Whether an image of `width` by `height` can be made with modifier `m`.
pub open spec fn modifier_usable(
    props: Seq<ModifierProperties>,
    limits: Option<ImageLimits>,
    width: u32,
    height: u32,
    m: u64,
) -> bool {
    &&& exists|i: int| is_first_props(props, m, i) && props[i].transfer_dst
    &&& limits matches Some(l) && l.max_depth >= 1 && l.max_mip_levels >= 1 && l.max_array_layers >= 1
        && l.single_sample
    &&& width <= limits->Some_0.max_width
    &&& height <= limits->Some_0.max_height
    &&& image_size(width, height) <= limits->Some_0.max_resource_size
}

/// Checks modifier `m` against the device's properties and the image limits
/// reported for it (`None`: the device offers no such image).
pub fn check_modifier(
    props: &Vec<ModifierProperties>,
    limits: Option<ImageLimits>,
    width: u32,
    height: u32,
    m: u64,
) -> (r: Result<(), ModifierRejection>)
    ensures
        r is Ok <==> modifier_usable(props@, limits, width, height, m),
{
    let mut i: usize = 0;
    while i < props.len() && props[i].modifier != m
        invariant
            i <= props@.len(),
            forall|k: int| 0 <= k < i ==> props@[k].modifier != m,
        decreases props@.len() - i,
    {
        i = i + 1;
    }
    if i == props.len() {
        return Err(ModifierRejection::Unknown);
    }
    assert(is_first_props(props@, m, i as int));
    if !props[i].transfer_dst {
        assert forall|j: int| is_first_props(props@, m, j) implies j == i by {
            if j < i {
            } else if j > i {
                assert(props@[i as int].modifier == m);
            }
        }
        return Err(ModifierRejection::NoTransferDst);
    }
    let l = match limits {
        Some(l) => l,
        None => return Err(ModifierRejection::FormatUnsupported),
    };
    if l.max_depth < 1 || l.max_mip_levels < 1 || l.max_array_layers < 1 || !l.single_sample {
        return Err(ModifierRejection::FormatUnsupported);
    }
    if width > l.max_width {
        return Err(ModifierRejection::TooWide);
    }
    if height > l.max_height {
        return Err(ModifierRejection::TooTall);
    }
    proof {
        assert(width as int * height as int <= 0xffff_ffff * 0xffff_ffff) by (nonlinear_arith)
            requires
                width <= 0xffff_ffff,
                height <= 0xffff_ffff,
        ;
    }
    let size: u128 = width as u128 * height as u128 * 4;
    if size > l.max_resource_size as u128 {
        return Err(ModifierRejection::TooLarge);
    }
    Ok(())
}

/// The usable modifiers among the first `n` candidates, in order.
pub open spec fn usable_modifiers(
    candidates: Seq<u64>,
    props: Seq<ModifierProperties>,
    limits: Seq<Option<ImageLimits>>,
    width: u32,
    height: u32,
    n: nat,
) -> Seq<u64>
    decreases n,
{
    if n == 0 {
        Seq::empty()
    } else {
        let rest = usable_modifiers(candidates, props, limits, width, height, (n - 1) as nat);
        if modifier_usable(props, limits[n - 1], width, height, candidates[n - 1]) {
            rest.push(candidates[n - 1])
        } else {
            rest
        }
    }
}

/// Why no upload session can be made for the offered modifiers.
#[derive(Clone, Copy, Debug, PartialEq, Eq, Structural)]
pub enum UploaderError {
    /// The device cannot make the image with any of the offered modifiers.
    NoUsableModifier,
    /// Without modifier-aware tiling only the linear layout can be made, and it
    /// was not offered.
    LinearUnavailable,
}

/// The modifiers an upload session may use. With modifier-aware tiling
/// (`props` is `Some`), the candidates that the device can use, in order;
/// `limits[i]` are the image limits reported for `candidates[i]`. Without it,
/// the linear layout, if it is offered.
pub fn filter_modifiers(
    candidates: &Vec<u64>,
    props: &Option<Vec<ModifierProperties>>,
    limits: &Vec<Option<ImageLimits>>,
    width: u32,
    height: u32,
) -> (res: Result<Vec<u64>, UploaderError>)
    requires
        limits@.len() == candidates@.len(),
    ensures
        props is Some ==> {
            let u = usable_modifiers(candidates@, props->Some_0@, limits@, width, height, candidates@.len());
            &&& u.len() > 0 ==> (res matches Ok(v) && v@ == u)
            &&& u.len() == 0 ==> res == Err::<Vec<u64>, UploaderError>(UploaderError::NoUsableModifier)
        },
        props is None ==> {
            &&& candidates@.contains(DRM_FORMAT_MOD_LINEAR) ==> (res matches Ok(v) && v@ == seq![
                DRM_FORMAT_MOD_LINEAR,
            ])
            &&& !candidates@.contains(DRM_FORMAT_MOD_LINEAR) ==> res == Err::<Vec<u64>, UploaderError>(
                UploaderError::LinearUnavailable,
            )
        },
{
    match props {
        Some(p) => {
            let mut r: Vec<u64> = Vec::new();
            let mut i: usize = 0;
            while i < candidates.len()
                invariant
                    i <= candidates@.len() == limits@.len(),
                    r@ == usable_modifiers(candidates@, p@, limits@, width, height, i as nat),
                decreases candidates@.len() - i,
            {
                if check_modifier(p, limits[i], width, height, candidates[i]).is_ok() {
                    r.push(candidates[i]);
                }
                i = i + 1;
            }
            if r.len() == 0 {
                Err(UploaderError::NoUsableModifier)
            } else {
                Ok(r)
            }
        },
        None => {
            let mut i: usize = 0;
            while i < candidates.len()
                invariant
                    props is None,
                    i <= candidates@.len(),
                    forall|k: int| 0 <= k < i ==> candidates@[k] != DRM_FORMAT_MOD_LINEAR,
                decreases candidates@.len() - i,
            {
                if candidates[i] == DRM_FORMAT_MOD_LINEAR {
                    let mut linear: Vec<u64> = Vec::new();
                    linear.push(DRM_FORMAT_MOD_LINEAR);
                    return Ok(linear);
                }
                i = i + 1;
            }
            Err(UploaderError::LinearUnavailable)
        },
    }
}

/// The number of memory planes of an image realized with modifier `realized`:
/// one for a linear image made without modifier-aware tiling, else the plane
/// count the device lists for the modifier, which must be between one and four.
pub fn realized_plane_count(modifier_tiling: bool, realized: u64, props: &Vec<ModifierProperties>) -> (r:
    Option<usize>)
    ensures
        !modifier_tiling ==> r == Some(1usize),
        modifier_tiling ==> (r is Some <==> exists|i: int|
            is_first_props(props@, realized, i) && 1 <= props@[i].plane_count <= 4),
        modifier_tiling ==> (r matches Some(n) ==> exists|i: int|
            is_first_props(props@, realized, i) && n == props@[i].plane_count),
{
    if !modifier_tiling {
        return Some(1);
    }
    let mut i: usize = 0;
    while i < props.len() && props[i].modifier != realized
        invariant
            i <= props@.len(),
            forall|k: int| 0 <= k < i ==> props@[k].modifier != realized,
        decreases props@.len() - i,
    {
        i = i + 1;
    }
    if i == props.len() {
        return None;
    }
    assert(is_first_props(props@, realized, i as int));
    assert forall|j: int| is_first_props(props@, realized, j) implies j == i by {
        if j > i {
            assert(props@[i as int].modifier == realized);
        }
    }
    let n = props[i].plane_count;
    if n < 1 || n > 4 {
        return None;
    }
    Some(n as usize)
}

/// A device extension without which accelerator memory cannot be exported.
#[derive(Clone, Copy, Debug, PartialEq, Eq, Structural)]
pub enum RequiredExtension {
    ExternalMemoryFd,
    ExternalMemoryDmaBuf,
    QueueFamilyForeign,
}

pub open spec fn has_name(available: Seq<String>, name: Seq<char>) -> bool {
    exists|i: int| 0 <= i < available.len() && #[trigger] available[i]@ == name
}

fn contains_name(available: &Vec<String>, name: &str) -> (r: bool)
    ensures
        r == has_name(available@, name@),
{
    let wanted = name.to_owned();
    let mut i: usize = 0;
    while i < available.len()
        invariant
            i <= available@.len(),
            wanted@ == name@,
            forall|k: int| 0 <= k < i ==> available@[k]@ != name@,
        decreases available@.len() - i,
    {
        if available[i] == wanted {
            assert(available@[i as int]@ == name@);
            return true;
        }
        i = i + 1;
    }
    false
}

/// The device extensions to enable: the mandatory chain (memory export as a
/// file descriptor, as a DMA-BUF, and handoff to a foreign queue), and
/// modifier-aware tiling where the device offers both it and the image
/// format list it depends on. Returns whether tiling with modifiers is
/// available, or the first mandatory extension missing.
pub fn negotiate_device_extensions(available: &Vec<String>) -> (r: Result<bool, RequiredExtension>)
    ensures
        !has_name(available@, "VK_KHR_external_memory_fd"@) ==> r == Err::<bool, RequiredExtension>(
            RequiredExtension::ExternalMemoryFd,
        ),
        has_name(available@, "VK_KHR_external_memory_fd"@) && !has_name(available@, "VK_EXT_external_memory_dma_buf"@)
            ==> r == Err::<bool, RequiredExtension>(RequiredExtension::ExternalMemoryDmaBuf),
        has_name(available@, "VK_KHR_external_memory_fd"@) && has_name(available@, "VK_EXT_external_memory_dma_buf"@)
            && !has_name(available@, "VK_EXT_queue_family_foreign"@) ==> r == Err::<bool, RequiredExtension>(
            RequiredExtension::QueueFamilyForeign,
        ),
        r is Ok <==> has_name(available@, "VK_KHR_external_memory_fd"@) && has_name(
            available@,
            "VK_EXT_external_memory_dma_buf"@,
        ) && has_name(available@, "VK_EXT_queue_family_foreign"@),
        r matches Ok(tiling) ==> tiling == (has_name(available@, "VK_EXT_image_drm_format_modifier"@)
            && has_name(available@, "VK_KHR_image_format_list"@)),
{
    if !contains_name(available, "VK_KHR_external_memory_fd") {
        return Err(RequiredExtension::ExternalMemoryFd);
    }
    if !contains_name(available, "VK_EXT_external_memory_dma_buf") {
        return Err(RequiredExtension::ExternalMemoryDmaBuf);
    }
    if !contains_name(available, "VK_EXT_queue_family_foreign") {
        return Err(RequiredExtension::QueueFamilyForeign);
    }
    let modifier = contains_name(available, "VK_EXT_image_drm_format_modifier");
    let format_list = contains_name(available, "VK_KHR_image_format_list");
    Ok(modifier && format_list)
}

} // verus!
