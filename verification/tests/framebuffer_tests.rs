use maze_raycaster::framebuffer::Framebuffer;

#[test]
fn new_framebuffer_is_zeroed() {
    let fb = Framebuffer::new(4, 3);
    assert_eq!(fb.width, 4);
    assert_eq!(fb.height, 3);
    assert_eq!(fb.buffer.len(), 12);
    assert!(fb.buffer.iter().all(|&c| c == 0));
}

#[test]
fn clear_fills_with_background() {
    let mut fb = Framebuffer::new(4, 3);
    fb.set_background_color(0x333355);
    fb.clear();
    assert!(fb.buffer.iter().all(|&c| c == 0x333355));
}

#[test]
fn point_writes_current_color_in_bounds() {
    let mut fb = Framebuffer::new(4, 3);
    fb.set_current_color(0xABCDEF);
    fb.point(2, 1);
    assert_eq!(fb.get_pixel(2, 1), 0xABCDEF);
    assert_eq!(fb.get_pixel(1, 1), 0);
}

#[test]
fn point_out_of_bounds_is_silent_noop() {
    let mut fb = Framebuffer::new(4, 3);
    fb.set_current_color(0xABCDEF);
    let before = fb.buffer.clone();
    fb.point(4, 0);
    fb.point(0, 3);
    fb.point(1000, 1000);
    assert_eq!(fb.buffer, before);
}
