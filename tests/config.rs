use multibg_wayland::config::{FileOutcome, LoadTally, choose_shm_format, decodes_directly, layer_surface_name, workspace_number, FdBatch, PixelFormat, MAX_FDS_OUT};
use multibg_wayland::pixels::ShmFormat;

#[test]
fn shm_format_choice() {
    assert_eq!(choose_shm_format(PixelFormat::Auto, true), ShmFormat::Bgr888);
    assert_eq!(choose_shm_format(PixelFormat::Auto, false), ShmFormat::Xrgb8888);
    assert_eq!(choose_shm_format(PixelFormat::Baseline, true), ShmFormat::Xrgb8888);
}

#[test]
fn direct_decoding() {
    assert!(decodes_directly(4, 2, 4, 2, 12, ShmFormat::Bgr888, true, false));
    assert!(!decodes_directly(4, 2, 4, 2, 24, ShmFormat::Bgr888, true, false));
    assert!(!decodes_directly(4, 2, 4, 3, 12, ShmFormat::Bgr888, true, false));
    assert!(!decodes_directly(4, 2, 4, 2, 16, ShmFormat::Xrgb8888, true, false));
    assert!(!decodes_directly(4, 2, 4, 2, 12, ShmFormat::Bgr888, false, false));
    assert!(!decodes_directly(4, 2, 4, 2, 12, ShmFormat::Bgr888, true, true));
}

#[test]
fn surface_names() {
    assert_eq!(layer_surface_name("eDP-1"), "multibg-wayland_wallpaper_eDP-1");
}

#[test]
fn workspace_numbers_from_file_names() {
    assert_eq!(workspace_number("1"), Some(1));
    assert_eq!(workspace_number("-12"), Some(-12));
    assert_eq!(workspace_number("+7"), Some(7));
    assert_eq!(workspace_number("_default"), None);
    assert_eq!(workspace_number("1a"), None);
    assert_eq!(workspace_number(""), None);
    assert_eq!(workspace_number("-"), None);
    assert_eq!(workspace_number("2147483647"), Some(i32::MAX));
    assert_eq!(workspace_number("2147483648"), None);
    assert_eq!(workspace_number("-2147483648"), Some(i32::MIN));
    assert_eq!(workspace_number("99999999999x"), None);
}

#[test]
fn descriptors_are_flushed_in_batches() {
    let mut b = FdBatch::new();
    assert!(!b.add(4));
    assert!(!b.add(24));
    assert_eq!(b.pending, MAX_FDS_OUT);
    assert!(b.add(1));
    assert_eq!(b.pending, 1);
}

#[test]
fn load_tally_falls_back_after_upload_failure() {
    let mut t = LoadTally::new(true);
    t.record(FileOutcome::Loaded);
    t.record(FileOutcome::Reused);
    t.record(FileOutcome::Failed);
    assert!(t.accelerated);
    t.record(FileOutcome::UploadFailed);
    assert!(!t.accelerated);
    t.record(FileOutcome::Loaded);
    assert_eq!((t.loaded, t.reused, t.errors), (2, 1, 1));
    let mut full = LoadTally { accelerated: false, loaded: usize::MAX, reused: 0, errors: 0 };
    full.record(FileOutcome::Loaded);
    assert_eq!(full.loaded, usize::MAX);
}
