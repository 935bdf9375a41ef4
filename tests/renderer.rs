use atlas::renderer::{Color, FrameBuffer, Renderer};

fn lit(fb: &FrameBuffer<f32>) -> Vec<(usize, usize)> {
    let mut out = Vec::new();
    for y in 0..fb.height {
        for x in 0..fb.width {
            if fb.color_buffer[y * fb.width + x] != 0 {
                out.push((x, y));
            }
        }
    }
    out
}

#[test]
fn color_red_packs_to_ffff0000() {
    let red = Color::new(255, 0, 0, 255);
    assert_eq!(red.to_u32(), 0xFFFF0000);
}

#[test]
fn color_packs_each_channel_in_place() {
    let c = Color::new(0x12, 0x34, 0x56, 0x78);
    assert_eq!(c.to_u32(), 0x78123456);
    assert_eq!(Color::new(0, 0, 0, 0).to_u32(), 0);
    assert_eq!(Color::new(128, 128, 128, 255).to_u32(), 0xFF808080);
}

#[test]
fn color_new_keeps_channels() {
    let c = Color::new(1, 2, 3, 4);
    assert_eq!((c.r, c.g, c.b, c.a), (1, 2, 3, 4));
}

#[test]
fn framebuffer_new_is_black() {
    let fb: FrameBuffer<f32> = FrameBuffer::new(4, 3);
    assert_eq!(fb.width, 4);
    assert_eq!(fb.height, 3);
    assert_eq!(fb.color_buffer, vec![0u32; 12]);
    assert_eq!(fb.depth_buffer, vec![0.0f32; 12]);
}

#[test]
fn framebuffer_new_empty() {
    let fb: FrameBuffer<f32> = FrameBuffer::new(0, 5);
    assert!(fb.color_buffer.is_empty());
    assert!(fb.depth_buffer.is_empty());
}

#[test]
fn set_pixel_writes_color_and_depth() {
    let mut fb: FrameBuffer<f32> = FrameBuffer::new(4, 3);
    let c = Color::new(255, 0, 0, 255);
    fb.set_pixel(2, 1, &c, 0.5);
    assert_eq!(fb.color_buffer[1 * 4 + 2], 0xFFFF0000);
    assert_eq!(fb.depth_buffer[1 * 4 + 2], 0.5);
    assert_eq!(lit(&fb), vec![(2, 1)]);
}

#[test]
fn set_pixel_ignores_the_column_at_width() {
    let mut fb: FrameBuffer<f32> = FrameBuffer::new(4, 3);
    let c = Color::new(255, 255, 255, 255);
    fb.set_pixel(4, 0, &c, 1.0);
    fb.set_pixel(0, 3, &c, 1.0);
    fb.set_pixel(100, 100, &c, 1.0);
    assert!(lit(&fb).is_empty());
    assert_eq!(fb.depth_buffer, vec![0.0f32; 12]);
}

#[test]
fn clear_zeroes_colors_and_keeps_depth() {
    let mut fb: FrameBuffer<f32> = FrameBuffer::new(3, 2);
    let c = Color::new(9, 9, 9, 9);
    fb.set_pixel(0, 0, &c, 2.0);
    fb.set_pixel(2, 1, &c, 3.0);
    fb.clear();
    assert_eq!(fb.color_buffer, vec![0u32; 6]);
    assert_eq!(fb.depth_buffer[0], 2.0);
    assert_eq!(fb.depth_buffer[5], 3.0);
}

#[test]
fn drawline_shallow_slope() {
    let mut fb: FrameBuffer<f32> = FrameBuffer::new(6, 4);
    fb.drawline(0, 0, 4, 2, &Color::new(255, 255, 255, 255));
    let mut expected = vec![(0, 0), (1, 1), (2, 1), (3, 2), (4, 2)];
    expected.sort_by_key(|p| (p.1, p.0));
    assert_eq!(lit(&fb), expected);
}

#[test]
fn drawline_steep_slope() {
    let mut fb: FrameBuffer<f32> = FrameBuffer::new(4, 6);
    fb.drawline(1, 0, 2, 4, &Color::new(255, 255, 255, 255));
    assert_eq!(lit(&fb), vec![(1, 0), (1, 1), (2, 2), (2, 3), (2, 4)]);
}

#[test]
fn drawline_backwards_diagonal() {
    let mut fb: FrameBuffer<f32> = FrameBuffer::new(4, 4);
    fb.drawline(3, 3, 0, 0, &Color::new(255, 255, 255, 255));
    assert_eq!(lit(&fb), vec![(0, 0), (1, 1), (2, 2), (3, 3)]);
}

#[test]
fn drawline_skips_points_off_the_grid() {
    let mut fb: FrameBuffer<f32> = FrameBuffer::new(3, 3);
    fb.drawline(-2, 1, 3, 1, &Color::new(255, 255, 255, 255));
    assert_eq!(lit(&fb), vec![(0, 1), (1, 1), (2, 1)]);
}

#[test]
fn drawline_single_point() {
    let mut fb: FrameBuffer<f32> = FrameBuffer::new(3, 3);
    fb.drawline(1, 2, 1, 2, &Color::new(1, 2, 3, 4));
    assert_eq!(lit(&fb), vec![(1, 2)]);
    assert_eq!(fb.color_buffer[2 * 3 + 1], 0x04010203);
}

#[test]
fn drawline_far_ends_do_not_overflow() {
    let mut fb: FrameBuffer<f32> = FrameBuffer::new(2, 2);
    fb.drawline(i32::MIN, 0, i32::MIN + 3, 1, &Color::new(255, 255, 255, 255));
    assert!(lit(&fb).is_empty());
}

#[test]
fn draw_scanline_fills_span_in_either_order() {
    let mut r = Renderer { framebuffer: FrameBuffer::<f32>::new(6, 3), camera: () };
    r.draw_scanline(4, 1, 1, &Color::new(255, 255, 255, 255));
    assert_eq!(lit(&r.framebuffer), vec![(1, 1), (2, 1), (3, 1), (4, 1)]);
}

#[test]
fn draw_scanline_is_cut_to_the_buffer() {
    let mut r = Renderer { framebuffer: FrameBuffer::<f32>::new(4, 3), camera: () };
    r.draw_scanline(-5, 10, 2, &Color::new(255, 255, 255, 255));
    assert_eq!(lit(&r.framebuffer), vec![(0, 2), (1, 2), (2, 2), (3, 2)]);
}

#[test]
fn draw_scanline_off_the_buffer_draws_nothing() {
    let mut r = Renderer { framebuffer: FrameBuffer::<f32>::new(4, 3), camera: () };
    let white = Color::new(255, 255, 255, 255);
    r.draw_scanline(0, 3, -1, &white);
    r.draw_scanline(0, 3, 3, &white);
    r.draw_scanline(-7, -2, 1, &white);
    r.draw_scanline(4, 9, 1, &white);
    assert!(lit(&r.framebuffer).is_empty());
}
