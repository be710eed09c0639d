use multibg_wayland::feedback::{feedback_mode, FeedbackMode};
use multibg_wayland::drm::DRM_FORMAT_XRGB8888;
use multibg_wayland::feedback::{legacy_modifiers, tranche_modifiers, DmabufFormat, FeedbackError, Tranche};

fn table() -> Vec<DmabufFormat> {
    vec![
        DmabufFormat { format: DRM_FORMAT_XRGB8888, modifier: 0 },
        DmabufFormat { format: 0x3432_5241, modifier: 0 },
        DmabufFormat { format: DRM_FORMAT_XRGB8888, modifier: 0x0100_0000_0000_0002 },
    ]
}

#[test]
fn selects_first_tranche_of_main_device() {
    let tranches = vec![
        Tranche { device: 7, formats: vec![0] },
        Tranche { device: 9, formats: vec![2, 1, 0, 40] },
        Tranche { device: 9, formats: vec![0] },
    ];
    assert_eq!(tranche_modifiers(9, &table(), &tranches), Ok(vec![0x0100_0000_0000_0002, 0]));
    assert_eq!(tranche_modifiers(7, &table(), &tranches), Ok(vec![0]));
}

#[test]
fn feedback_errors() {
    assert_eq!(tranche_modifiers(9, &table(), &vec![]), Err(FeedbackError::NoTranches));
    let tranches = vec![Tranche { device: 7, formats: vec![0] }];
    assert_eq!(tranche_modifiers(9, &table(), &tranches), Err(FeedbackError::NoMainDeviceTranche));
    let tranches = vec![Tranche { device: 9, formats: vec![1, 99] }];
    assert_eq!(tranche_modifiers(9, &table(), &tranches), Err(FeedbackError::NoModifiers));
}

#[test]
fn legacy_list_is_filtered_by_format() {
    assert_eq!(legacy_modifiers(&table()), vec![0, 0x0100_0000_0000_0002]);
    assert_eq!(legacy_modifiers(&vec![]), Vec::<u64>::new());
}

#[test]
fn feedback_modes() {
    assert_eq!(feedback_mode(false, Some(5)), FeedbackMode::HostOnly);
    assert_eq!(feedback_mode(true, None), FeedbackMode::HostOnly);
    assert_eq!(feedback_mode(true, Some(4)), FeedbackMode::PerSurface);
    assert_eq!(feedback_mode(true, Some(3)), FeedbackMode::Legacy);
}
