use fba::geometry::{center_offset, compute_offset, get_framebuffer_info, FramebufferInfo};

#[test]
fn framebuffer_info_from_screen_description() {
    let info = get_framebuffer_info(800, 600, 32, 3300);
    assert_eq!(info.width, 800);
    assert_eq!(info.height, 600);
    assert_eq!(info.channels, 4);
    // Alignment is the stored row length less the visible pixel bytes.
    assert_eq!(info.alignment, 3300 - 800 * 4);
}

#[test]
fn centering_uses_truncating_division() {
    // Frame smaller than the canvas.
    assert_eq!(center_offset(10, 4), 3);
    assert_eq!(center_offset(5, 5), 0);
    // Frame larger than the canvas: negative, truncated toward zero.
    assert_eq!(center_offset(3, 8), -2);
    assert_eq!(center_offset(0, 1), 0);
    assert_eq!(center_offset(0, 3), -1);
}

#[test]
fn offset_is_identity_unless_centering() {
    let off = compute_offset(false, 100, 100, 10, 10);
    assert_eq!(off.x, 0);
    assert_eq!(off.y, 0);
    let off = compute_offset(true, 100, 80, 10, 30);
    assert_eq!(off.x, 45);
    assert_eq!(off.y, 25);
    let off = compute_offset(true, 10, 10, 21, 15);
    assert_eq!(off.x, -5);
    assert_eq!(off.y, -2);
}

#[test]
fn well_formedness_check() {
    let good = FramebufferInfo { width: 800, height: 600, channels: 4, alignment: 100 };
    assert!(good.is_well_formed());
    let narrow = FramebufferInfo { width: 800, height: 600, channels: 2, alignment: 0 };
    assert!(!narrow.is_well_formed());
    let negative = FramebufferInfo { width: 800, height: 600, channels: 4, alignment: -1 };
    assert!(!negative.is_well_formed());
    let empty = FramebufferInfo { width: 0, height: 600, channels: 4, alignment: 0 };
    assert!(!empty.is_well_formed());
    let huge = FramebufferInfo {
        width: i64::MAX / 4,
        height: i64::MAX / 4,
        channels: 4,
        alignment: 0,
    };
    assert!(!huge.is_well_formed());
}
