use multibg_wayland::pixels::{write_resized, copy_pad_stride, load_pixels, shm_stride, swizzle_bgra_from_rgb, write_pixels, PixelError, ShmFormat};

#[test]
fn strides() {
    assert_eq!(shm_stride(ShmFormat::Xrgb8888, 1920), 7680);
    assert_eq!(shm_stride(ShmFormat::Bgr888, 1920), 5760);
    assert_eq!(shm_stride(ShmFormat::Bgr888, 1366), 4104);
    assert_eq!(shm_stride(ShmFormat::Bgr888, 1), 12);
    assert_eq!(shm_stride(ShmFormat::Bgr888, 0), 0);
}

#[test]
fn rows_are_padded() {
    let src = [1u8, 2, 3, 4, 5, 6];
    let mut dst = [0u8; 10];
    copy_pad_stride(&src, &mut dst, 3, 5, 2);
    assert_eq!(dst, [1, 2, 3, 0, 0, 4, 5, 6, 0, 0]);
}

#[test]
fn rgb_becomes_bgrx() {
    let src = [10u8, 20, 30, 40, 50, 60];
    let mut dst = [0u8; 8];
    swizzle_bgra_from_rgb(&src, &mut dst);
    assert_eq!(dst, [30, 20, 10, 255, 60, 50, 40, 255]);
}

#[test]
fn write_pixels_in_both_formats() {
    let img = [1u8, 2, 3, 4, 5, 6, 7, 8, 9, 10, 11, 12];
    let mut bgr = [0u8; 24];
    assert_eq!(write_pixels(&img, 2, 2, 12, ShmFormat::Bgr888, &mut bgr), Ok(()));
    assert_eq!(&bgr[0..6], &[1, 2, 3, 4, 5, 6]);
    assert_eq!(&bgr[12..18], &[7, 8, 9, 10, 11, 12]);
    let mut xrgb = [0u8; 16];
    assert_eq!(write_pixels(&img, 2, 2, 8, ShmFormat::Xrgb8888, &mut xrgb), Ok(()));
    assert_eq!(xrgb, [3, 2, 1, 255, 6, 5, 4, 255, 9, 8, 7, 255, 12, 11, 10, 255]);
    let mut small = [0u8; 15];
    assert_eq!(write_pixels(&img, 2, 2, 8, ShmFormat::Xrgb8888, &mut small), Err(PixelError::BufferTooSmall));
    assert_eq!(small, [0u8; 15]);
}

#[test]
fn load_pixels_resizes_when_sizes_differ() {
    // A uniform 4x4 image resized to 2x2 stays uniform.
    let rgb = [200u8, 100, 50].repeat(16);
    let mut dst = vec![0u8; 2 * 2 * 4];
    assert_eq!(load_pixels(rgb, 4, 4, 2, 2, 8, ShmFormat::Xrgb8888, &mut dst), Ok(()));
    assert_eq!(dst, [50u8, 100, 200, 255].repeat(4));
    // A black and a white pixel resampled to one pixel give neither.
    let rgb = vec![0u8, 0, 0, 255, 255, 255];
    let mut dst = vec![0u8; 4];
    assert_eq!(load_pixels(rgb, 2, 1, 1, 1, 4, ShmFormat::Xrgb8888, &mut dst), Ok(()));
    assert!(dst[0] > 50 && dst[0] < 205, "got {:?}", dst);
    assert_eq!(dst[3], 255);
    let rgb = vec![9u8; 12];
    let mut dst = vec![0u8; 12];
    assert_eq!(load_pixels(rgb, 2, 2, 2, 2, 6, ShmFormat::Bgr888, &mut dst), Ok(()));
    assert_eq!(dst, vec![9u8; 12]);
    let mut dst = vec![0u8; 4];
    assert_eq!(load_pixels(vec![0u8; 12], 2, 2, 2, 2, 8, ShmFormat::Xrgb8888, &mut dst), Err(PixelError::BufferTooSmall));
}

#[test]
fn resampler_result_is_written_or_reported() {
    let mut dst = [7u8; 8];
    assert_eq!(write_resized(None, 1, 1, 4, ShmFormat::Xrgb8888, &mut dst), Err(PixelError::ResizeFailed));
    assert_eq!(dst, [7u8; 8]);
    assert_eq!(write_resized(Some(vec![1, 2, 3]), 1, 1, 4, ShmFormat::Xrgb8888, &mut dst), Ok(()));
    assert_eq!(&dst[..4], &[3, 2, 1, 255]);
    let mut tiny = [0u8; 2];
    assert_eq!(write_resized(Some(vec![1, 2, 3]), 1, 1, 4, ShmFormat::Xrgb8888, &mut tiny), Err(PixelError::BufferTooSmall));
}
