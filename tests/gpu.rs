use multibg_wayland::gpu::{negotiate_device_extensions, RequiredExtension};
use multibg_wayland::drm::{fmt_modifier, fourcc_code, fourcc_mod_code, DRM_FORMAT_MOD_LINEAR, DRM_FORMAT_XRGB8888};
use multibg_wayland::gpu::{
    api_version_supported, check_modifier, device_candidates, device_score, filter_modifiers,
    find_memorytype_index, find_queue_family, find_reusable_device, realized_plane_count, DeviceNodes,
    DeviceProbe, DeviceType, ImageLimits, ModifierProperties, ModifierRejection, QueueFamily, UploaderError,
};

fn probe(t: DeviceType, primary: Option<u64>, render: Option<u64>) -> DeviceProbe {
    DeviceProbe { device_type: t, primary, render }
}

#[test]
fn scores_by_class_and_match() {
    assert_eq!(device_score(&probe(DeviceType::Discrete, None, None), None), 4);
    assert_eq!(device_score(&probe(DeviceType::Integrated, None, None), Some(1)), 2);
    assert_eq!(device_score(&probe(DeviceType::Virtual, Some(1), None), Some(1)), 9);
    assert_eq!(device_score(&probe(DeviceType::Cpu, None, Some(5)), Some(5)), 8);
    assert_eq!(device_score(&probe(DeviceType::Other, None, None), None), 0);
    assert_eq!(device_score(&probe(DeviceType::Integrated, Some(1), Some(2)), Some(2)), 10);
}

#[test]
fn matching_device_outranks_in_any_order() {
    let dev = Some(0xe280);
    let matching = probe(DeviceType::Integrated, Some(0xe200), Some(0xe280));
    let other = probe(DeviceType::Integrated, Some(0xe201), Some(0xe281));
    let s1 = vec![device_score(&other, dev), device_score(&matching, dev)];
    let s2 = vec![device_score(&matching, dev), device_score(&other, dev)];
    assert_eq!(device_candidates(&s1), vec![1]);
    assert_eq!(device_candidates(&s2), vec![0]);
    // A discrete device without the match still loses to the matching one.
    let discrete = probe(DeviceType::Discrete, None, None);
    let s3 = vec![device_score(&discrete, dev), device_score(&matching, dev)];
    assert_eq!(device_candidates(&s3), vec![1]);
}

#[test]
fn ties_are_tried_in_enumeration_order() {
    assert_eq!(device_candidates(&vec![2, 4, 1, 4, 4]), vec![1, 3, 4]);
    assert_eq!(device_candidates(&vec![]), Vec::<usize>::new());
    assert_eq!(device_candidates(&vec![0, 0]), vec![0, 1]);
}

#[test]
fn devices_are_reused_by_node() {
    let a = DeviceNodes { primary: Some(1), render: Some(2), dmabuf: Some(2) };
    let b = DeviceNodes { primary: None, render: None, dmabuf: None };
    assert!(a.dmabuf_drm_dev_eq(Some(1)));
    assert!(a.dmabuf_drm_dev_eq(Some(2)));
    assert!(!a.dmabuf_drm_dev_eq(Some(3)));
    assert!(!a.dmabuf_drm_dev_eq(None));
    assert!(b.dmabuf_drm_dev_eq(None));
    assert!(!b.dmabuf_drm_dev_eq(Some(1)));
    assert_eq!(find_reusable_device(&vec![a, b], None), Some(1));
    assert_eq!(find_reusable_device(&vec![a, b], Some(1)), Some(0));
    assert_eq!(find_reusable_device(&vec![a, b], Some(9)), None);
}

#[test]
fn api_version_floor() {
    let ver = |variant: u32, major: u32, minor: u32, patch: u32| (variant << 29) | (major << 22) | (minor << 12) | patch;
    assert!(api_version_supported(ver(0, 1, 1, 0)));
    assert!(api_version_supported(ver(0, 1, 3, 281)));
    assert!(!api_version_supported(ver(0, 1, 0, 0)));
    assert!(!api_version_supported(ver(1, 1, 3, 0)));
    assert!(!api_version_supported(ver(0, 2, 0, 0)));
}

#[test]
fn queue_family_and_memory_type() {
    let families = vec![
        QueueFamily { graphics: false, queue_count: 4 },
        QueueFamily { graphics: true, queue_count: 0 },
        QueueFamily { graphics: true, queue_count: 1 },
    ];
    assert_eq!(find_queue_family(&families), Some(2));
    assert_eq!(find_queue_family(&vec![]), None);
    let flags = vec![0b001, 0b111, 0b110, 0b111];
    assert_eq!(find_memorytype_index(0b1111, &flags, 0b110), Some(1));
    assert_eq!(find_memorytype_index(0b1100, &flags, 0b110), Some(2));
    assert_eq!(find_memorytype_index(0b0001, &flags, 0b110), None);
}

fn limits() -> ImageLimits {
    ImageLimits {
        max_width: 4096,
        max_height: 2048,
        max_depth: 1,
        max_mip_levels: 1,
        max_array_layers: 1,
        single_sample: true,
        max_resource_size: 1 << 30,
    }
}

#[test]
fn modifiers_are_checked_against_the_device() {
    let props = vec![
        ModifierProperties { modifier: 5, plane_count: 1, transfer_dst: true },
        ModifierProperties { modifier: 6, plane_count: 2, transfer_dst: false },
    ];
    assert_eq!(check_modifier(&props, Some(limits()), 1920, 1080, 5), Ok(()));
    assert_eq!(check_modifier(&props, Some(limits()), 1920, 1080, 7), Err(ModifierRejection::Unknown));
    assert_eq!(check_modifier(&props, Some(limits()), 1920, 1080, 6), Err(ModifierRejection::NoTransferDst));
    assert_eq!(check_modifier(&props, None, 1920, 1080, 5), Err(ModifierRejection::FormatUnsupported));
    assert_eq!(check_modifier(&props, Some(limits()), 5000, 1080, 5), Err(ModifierRejection::TooWide));
    assert_eq!(check_modifier(&props, Some(limits()), 1920, 3000, 5), Err(ModifierRejection::TooTall));
    let small = ImageLimits { max_resource_size: 100, ..limits() };
    assert_eq!(check_modifier(&props, Some(small), 10, 10, 5), Err(ModifierRejection::TooLarge));
    let no_sample = ImageLimits { single_sample: false, ..limits() };
    assert_eq!(check_modifier(&props, Some(no_sample), 10, 10, 5), Err(ModifierRejection::FormatUnsupported));
}

#[test]
fn modifier_filter_keeps_usable_in_order() {
    let props = vec![
        ModifierProperties { modifier: 5, plane_count: 1, transfer_dst: true },
        ModifierProperties { modifier: 0, plane_count: 1, transfer_dst: true },
    ];
    let l = Some(limits());
    assert_eq!(filter_modifiers(&vec![9, 0, 5], &Some(props.clone()), &vec![l, l, l], 64, 64), Ok(vec![0, 5]));
    assert_eq!(filter_modifiers(&vec![5, 0], &Some(props.clone()), &vec![None, l], 64, 64), Ok(vec![0]));
    assert_eq!(filter_modifiers(&vec![9], &Some(props), &vec![l], 64, 64), Err(UploaderError::NoUsableModifier));
    assert_eq!(filter_modifiers(&vec![9, DRM_FORMAT_MOD_LINEAR], &None, &vec![None, None], 64, 64), Ok(vec![DRM_FORMAT_MOD_LINEAR]));
    assert_eq!(filter_modifiers(&vec![9], &None, &vec![None], 64, 64), Err(UploaderError::LinearUnavailable));
}

#[test]
fn plane_counts() {
    let props = vec![
        ModifierProperties { modifier: 5, plane_count: 2, transfer_dst: true },
        ModifierProperties { modifier: 6, plane_count: 5, transfer_dst: true },
    ];
    assert_eq!(realized_plane_count(false, 5, &props), Some(1));
    assert_eq!(realized_plane_count(true, 5, &props), Some(2));
    assert_eq!(realized_plane_count(true, 6, &props), None);
    assert_eq!(realized_plane_count(true, 7, &props), None);
}

#[test]
fn drm_codes() {
    assert_eq!(fourcc_code(b'X', b'R', b'2', b'4'), DRM_FORMAT_XRGB8888);
    assert_eq!(fourcc_code(1, 2, 3, 4), 0x04030201);
    assert_eq!(fourcc_mod_code(0, 0), DRM_FORMAT_MOD_LINEAR);
    assert_eq!(fourcc_mod_code(0x01, 0x1234), 0x0100_0000_0000_1234);
    assert_eq!(fourcc_mod_code(0x02, u64::MAX), 0x02ff_ffff_ffff_ffff);
    assert_eq!(fmt_modifier(0), "0000000000000000");
    assert_eq!(fmt_modifier(0x0100_0000_00ab_cdef), "0100000000abcdef");
    assert_eq!(fmt_modifier(0x00ff_ffff_ffff_ffff), "00ffffffffffffff");
}

#[test]
fn extension_chain() {
    let all: Vec<String> = [
        "VK_KHR_external_memory_fd",
        "VK_EXT_external_memory_dma_buf",
        "VK_EXT_queue_family_foreign",
        "VK_KHR_image_format_list",
        "VK_EXT_image_drm_format_modifier",
    ]
    .iter()
    .map(|s| s.to_string())
    .collect();
    let without = |name: &str| -> Vec<String> { all.iter().filter(|s| s.as_str() != name).cloned().collect() };
    assert_eq!(negotiate_device_extensions(&all), Ok(true));
    // Modifier-aware tiling degrades to linear without either of its extensions.
    assert_eq!(negotiate_device_extensions(&without("VK_EXT_image_drm_format_modifier")), Ok(false));
    assert_eq!(negotiate_device_extensions(&without("VK_KHR_image_format_list")), Ok(false));
    assert_eq!(negotiate_device_extensions(&all[..3].to_vec()), Ok(false));
    assert_eq!(negotiate_device_extensions(&without("VK_KHR_external_memory_fd")), Err(RequiredExtension::ExternalMemoryFd));
    assert_eq!(negotiate_device_extensions(&without("VK_EXT_external_memory_dma_buf")), Err(RequiredExtension::ExternalMemoryDmaBuf));
    assert_eq!(negotiate_device_extensions(&without("VK_EXT_queue_family_foreign")), Err(RequiredExtension::QueueFamilyForeign));
}
