use soft_renderer::framebuffer::{clear, set_pixel, FrameBuffer, DEPTH_CLEAR};

#[test]
fn depth_clear_is_the_bit_pattern_of_one() {
    assert_eq!(DEPTH_CLEAR, 1.0f32.to_bits());
}

#[test]
fn new_frame_buffer_is_black_and_far() {
    let fb = FrameBuffer::new(4, 3);
    assert_eq!(fb.width(), 4);
    assert_eq!(fb.height(), 3);
    assert_eq!(fb.color_buffer().len(), 12);
    assert!(fb.color_buffer().iter().all(|&c| c == 0));
    for y in 0..3 {
        for x in 0..4 {
            assert_eq!(fb.get_depth(x, y), DEPTH_CLEAR);
        }
    }
}

#[test]
fn depth_read_after_write() {
    let mut fb = FrameBuffer::new(4, 3);
    let d = 0.25f32.to_bits();
    fb.set_depth(2, 1, d);
    assert_eq!(fb.get_depth(2, 1), d);
    assert_eq!(fb.get_depth(1, 2), DEPTH_CLEAR);
    assert_eq!(f32::from_bits(fb.get_depth(2, 1)), 0.25);
}

#[test]
fn depth_outside_reads_far_and_writes_are_ignored() {
    let mut fb = FrameBuffer::new(4, 3);
    fb.set_depth(-1, 0, 7);
    fb.set_depth(4, 0, 7);
    fb.set_depth(0, 3, 7);
    assert_eq!(fb.get_depth(-1, 0), DEPTH_CLEAR);
    assert_eq!(fb.get_depth(4, 0), DEPTH_CLEAR);
    for y in 0..3 {
        for x in 0..4 {
            assert_eq!(fb.get_depth(x, y), DEPTH_CLEAR);
        }
    }
}

#[test]
fn set_pixel_stores_row_major() {
    let mut fb = FrameBuffer::new(4, 3);
    fb.set_pixel(1, 2, 0xdeadbeef);
    assert_eq!(fb.color_buffer()[2 * 4 + 1], 0xdeadbeef);
    assert_eq!(fb.color_buffer().iter().filter(|&&c| c != 0).count(), 1);
    fb.set_pixel(4, 0, 1);
    fb.set_pixel(0, -1, 1);
    assert_eq!(fb.color_buffer().iter().filter(|&&c| c != 0).count(), 1);
}

#[test]
fn packed_set_pixel_is_argb() {
    let mut fb = FrameBuffer::new(2, 2);
    set_pixel(&mut fb, 1, 0, 0x11, 0x22, 0x33, 0x44);
    assert_eq!(fb.color_buffer()[1], 0x44112233);
}

#[test]
fn clear_resets_colours_and_depths() {
    let mut fb = FrameBuffer::new(3, 2);
    fb.set_depth(1, 1, 5);
    fb.set_pixel(0, 0, 9);
    clear(&mut fb, 0, 0, 0, 255);
    assert!(fb.color_buffer().iter().all(|&c| c == 0xff000000));
    assert_eq!(fb.get_depth(1, 1), DEPTH_CLEAR);
    fb.clear(7);
    assert!(fb.color_buffer().iter().all(|&c| c == 7));
}

#[test]
fn empty_frame_buffer() {
    let mut fb = FrameBuffer::new(0, 5);
    assert_eq!(fb.color_buffer().len(), 0);
    fb.set_pixel(0, 0, 1);
    assert_eq!(fb.get_depth(0, 0), DEPTH_CLEAR);
}
