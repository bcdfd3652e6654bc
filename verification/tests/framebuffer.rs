use hello_kernel::framebuffer::{
    draw_hello_world, draw_hello_world_to_framebuffer, draw_text, Color, FramebufferInfo, FramebufferWriter,
    PixelFormat, FRAMEBUFFER_RGB,
};

fn has_ink(bytes: &[u8], pitch: usize, x_range: core::ops::Range<usize>, y_range: core::ops::Range<usize>) -> bool {
    for y in y_range {
        for x in x_range.clone() {
            let offset = y * pitch + x * 4;
            if bytes[offset..offset + 4] != [0, 0, 0, 0] {
                return true;
            }
        }
    }

    false
}

fn rgb888() -> PixelFormat {
    PixelFormat::new(32, 8, 16, 8, 8, 8, 0).unwrap()
}

#[test]
fn pixel_format_packs_rgb_using_limine_masks() {
    let format = PixelFormat::new(32, 8, 16, 8, 8, 8, 0).unwrap();

    assert_eq!(format.encode(Color::rgb(0x12, 0x34, 0x56)), 0x0012_3456);
}

#[test]
fn draw_text_renders_hello_world_across_pitch_padded_rows() {
    let width = 128;
    let height = 40;
    let pitch = 640;
    let mut bytes = vec![0; pitch * height];
    let format = PixelFormat::new(32, 8, 16, 8, 8, 8, 0).unwrap();

    {
        let mut writer = FramebufferWriter::new(&mut bytes, width, height, pitch, format).unwrap();
        draw_text(&mut writer, 4, 4, "你好，世界", Color::rgb(0xff, 0xff, 0xff), 1);
    }

    let glyph_width = 16;
    let spacing = 2;
    let y_range = 4..20;

    for glyph_index in 0..5 {
        let start_x = 4 + glyph_index * (glyph_width + spacing);
        assert!(
            has_ink(&bytes, pitch, start_x..start_x + glyph_width, y_range.clone()),
            "glyph cell {glyph_index} should contain ink"
        );
    }

    assert_eq!(
        &bytes[width * 4..pitch],
        vec![0; pitch - width * 4].as_slice(),
        "padding bytes after the visible row must not be touched"
    );
}

#[test]
fn pixel_format_new_refuses_bad_layouts() {
    assert!(PixelFormat::new(0, 8, 16, 8, 8, 8, 0).is_none());
    assert!(PixelFormat::new(12, 4, 8, 4, 4, 4, 0).is_none());
    assert!(PixelFormat::new(40, 8, 16, 8, 8, 8, 0).is_none());
    assert!(PixelFormat::new(32, 9, 16, 8, 8, 8, 0).is_none());
    assert!(PixelFormat::new(32, 8, 25, 8, 8, 8, 0).is_none());
    assert!(PixelFormat::new(32, 8, 16, 8, 8, 8, 30).is_none());
    assert!(PixelFormat::new(32, 0, 200, 8, 8, 8, 0).is_some());
    assert!(PixelFormat::new(8, 3, 5, 3, 2, 2, 0).is_some());
}

#[test]
fn pixel_format_bytes_per_pixel() {
    assert_eq!(PixelFormat::new(24, 8, 16, 8, 8, 8, 0).unwrap().bytes_per_pixel(), 3);
    assert_eq!(PixelFormat::new(16, 5, 11, 6, 5, 5, 0).unwrap().bytes_per_pixel(), 2);
    assert_eq!(rgb888().bytes_per_pixel(), 4);
}

#[test]
fn pixel_format_scales_narrow_channels() {
    let rgb565 = PixelFormat::new(16, 5, 11, 6, 5, 5, 0).unwrap();
    assert_eq!(rgb565.encode(Color::rgb(0xff, 0xff, 0xff)), 0xffff);
    assert_eq!(rgb565.encode(Color::rgb(0, 0, 0)), 0);
    assert_eq!(rgb565.encode(Color::rgb(128, 128, 128)), 0x8410);
    assert_eq!(rgb565.encode(Color::rgb(0xff, 0, 0)), 0xf800);
}

#[test]
fn pixel_format_empty_mask_contributes_nothing() {
    let red_only = PixelFormat::new(32, 8, 16, 0, 8, 0, 0).unwrap();
    assert_eq!(red_only.encode(Color::rgb(0x12, 0x34, 0x56)), 0x0012_0000);
}

#[test]
fn channel_extremes_fill_the_mask() {
    for size in 1u8..=8 {
        let format = PixelFormat::new(32, size, 0, 0, 0, 0, 0).unwrap();
        assert_eq!(format.encode(Color::rgb(0, 0, 0)), 0);
        assert_eq!(format.encode(Color::rgb(255, 0, 0)), (1u32 << size) - 1);
    }
}

#[test]
fn channel_scaling_is_monotonic() {
    let format = PixelFormat::new(32, 3, 0, 0, 0, 0, 0).unwrap();
    let mut last = 0;
    for value in 0u8..=255 {
        let encoded = format.encode(Color::rgb(value, 0, 0));
        assert!(encoded >= last);
        assert!(encoded <= 7);
        last = encoded;
    }
}

#[test]
fn channel_bits_stay_in_their_mask() {
    let format = PixelFormat::new(32, 5, 20, 0, 0, 0, 0).unwrap();
    for value in 0u8..=255 {
        let encoded = format.encode(Color::rgb(value, 0, 0));
        assert_eq!(encoded & !(0x1f << 20), 0);
    }
}

#[test]
fn pixel_format_from_framebuffer_description() {
    let info = FramebufferInfo {
        width: 4,
        height: 4,
        pitch: 16,
        bpp: 32,
        memory_model: FRAMEBUFFER_RGB,
        red_mask_size: 8,
        red_mask_shift: 16,
        green_mask_size: 8,
        green_mask_shift: 8,
        blue_mask_size: 8,
        blue_mask_shift: 0,
    };
    let format = PixelFormat::from_limine(&info).unwrap();
    assert_eq!(format, rgb888());
    let bad = FramebufferInfo { bpp: 7, ..info };
    assert!(PixelFormat::from_limine(&bad).is_none());
}

#[test]
fn writer_new_checks_the_geometry() {
    let mut bytes = vec![0u8; 64];
    assert!(FramebufferWriter::new(&mut bytes, 4, 4, 15, rgb888()).is_none());
    assert!(FramebufferWriter::new(&mut bytes, 4, 5, 16, rgb888()).is_none());
    assert!(FramebufferWriter::new(&mut bytes, 4, 4, 16, rgb888()).is_some());
    assert!(FramebufferWriter::new(&mut bytes, usize::MAX, 1, 16, rgb888()).is_none());
    assert!(FramebufferWriter::new(&mut bytes, 1, usize::MAX, 16, rgb888()).is_none());
}

#[test]
fn put_pixel_writes_little_endian_pixel() {
    let mut bytes = vec![0u8; 2 * 12];
    {
        let mut writer = FramebufferWriter::new(&mut bytes, 2, 2, 12, rgb888()).unwrap();
        writer.put_pixel(1, 1, Color::rgb(0x12, 0x34, 0x56));
    }
    let offset = 12 + 4;
    assert_eq!(&bytes[offset..offset + 4], &[0x56, 0x34, 0x12, 0x00]);
    assert_eq!(u32::from_le_bytes([bytes[16], bytes[17], bytes[18], bytes[19]]), 0x0012_3456);
    let touched: usize = bytes.iter().filter(|b| **b != 0).count();
    assert_eq!(touched, 3);
}

#[test]
fn put_pixel_with_three_byte_pixels() {
    let format = PixelFormat::new(24, 8, 16, 8, 8, 8, 0).unwrap();
    let mut bytes = vec![0xaau8; 10];
    {
        let mut writer = FramebufferWriter::new(&mut bytes, 3, 1, 10, format).unwrap();
        writer.put_pixel(2, 0, Color::rgb(1, 2, 3));
    }
    assert_eq!(bytes, vec![0xaa, 0xaa, 0xaa, 0xaa, 0xaa, 0xaa, 3, 2, 1, 0xaa]);
}

#[test]
fn put_pixel_off_screen_changes_nothing() {
    let mut bytes = vec![7u8; 64];
    {
        let mut writer = FramebufferWriter::new(&mut bytes, 2, 2, 16, rgb888()).unwrap();
        writer.put_pixel(2, 0, Color::rgb(1, 2, 3));
        writer.put_pixel(0, 2, Color::rgb(1, 2, 3));
        writer.put_pixel(usize::MAX, usize::MAX, Color::rgb(1, 2, 3));
    }
    assert_eq!(bytes, vec![7u8; 64]);
}

#[test]
fn clear_fills_visible_pixels_and_keeps_padding() {
    let mut bytes = vec![0xeeu8; 3 * 12 + 5];
    {
        let mut writer = FramebufferWriter::new(&mut bytes, 2, 3, 12, rgb888()).unwrap();
        writer.clear(Color::rgb(0x01, 0x02, 0x03));
    }
    for row in 0..3 {
        for column in 0..2 {
            let offset = row * 12 + column * 4;
            assert_eq!(&bytes[offset..offset + 4], &[0x03, 0x02, 0x01, 0x00]);
        }
        assert_eq!(&bytes[row * 12 + 8..row * 12 + 12], &[0xee; 4]);
    }
    assert_eq!(&bytes[36..], &[0xee; 5]);
}

#[test]
fn clear_twice_is_clear_once() {
    let mut once = vec![9u8; 48];
    let mut twice = vec![9u8; 48];
    {
        let mut writer = FramebufferWriter::new(&mut once, 3, 3, 16, rgb888()).unwrap();
        writer.clear(Color::rgb(4, 5, 6));
    }
    {
        let mut writer = FramebufferWriter::new(&mut twice, 3, 3, 16, rgb888()).unwrap();
        writer.clear(Color::rgb(4, 5, 6));
        writer.clear(Color::rgb(4, 5, 6));
    }
    assert_eq!(once, twice);
}

#[test]
fn draw_text_twice_is_draw_text_once() {
    let mut once = vec![0u8; 100 * 4 * 20];
    let mut twice = vec![0u8; 100 * 4 * 20];
    {
        let mut writer = FramebufferWriter::new(&mut once, 100, 20, 400, rgb888()).unwrap();
        draw_text(&mut writer, 1, 2, "世界", Color::rgb(1, 1, 1), 1);
    }
    {
        let mut writer = FramebufferWriter::new(&mut twice, 100, 20, 400, rgb888()).unwrap();
        draw_text(&mut writer, 1, 2, "世界", Color::rgb(1, 1, 1), 1);
        draw_text(&mut writer, 1, 2, "世界", Color::rgb(1, 1, 1), 1);
    }
    assert_eq!(once, twice);
}

#[test]
fn draw_text_stays_in_its_band() {
    let width = 200;
    let height = 60;
    let pitch = width * 4;
    let mut bytes = vec![0u8; pitch * height];
    {
        let mut writer = FramebufferWriter::new(&mut bytes, width, height, pitch, rgb888()).unwrap();
        draw_text(&mut writer, 10, 5, "你好", Color::rgb(0xff, 0, 0), 2);
    }
    let band_end = 10 + 2 * 36;
    for y in 0..height {
        for x in 0..width {
            let inside = (10..band_end).contains(&x) && (5..5 + 32).contains(&y);
            if !inside {
                assert!(!has_ink(&bytes, pitch, x..x + 1, y..y + 1), "ink outside the band at ({x}, {y})");
            }
        }
    }
    assert!(has_ink(&bytes, pitch, 10..46, 5..37));
    assert!(has_ink(&bytes, pitch, 46..82, 5..37));
}

#[test]
fn draw_text_scaled_glyph_pixels_are_squares() {
    let width = 40;
    let height = 40;
    let pitch = width * 4;
    let mut bytes = vec![0u8; pitch * height];
    {
        let mut writer = FramebufferWriter::new(&mut bytes, width, height, pitch, rgb888()).unwrap();
        draw_text(&mut writer, 0, 0, "，", Color::rgb(0xff, 0xff, 0xff), 2);
    }
    // Row 10 of the comma glyph is 0b0000001110000000: columns 6 to 8.
    for x in 0..32 {
        let inked = (12..18).contains(&x);
        assert_eq!(has_ink(&bytes, pitch, x..x + 1, 20..21), inked, "column {x}");
        assert_eq!(has_ink(&bytes, pitch, x..x + 1, 21..22), inked, "column {x}");
    }
}

#[test]
fn draw_text_skips_unknown_characters_and_zero_scale() {
    let width = 80;
    let height = 20;
    let pitch = width * 4;
    let mut bytes = vec![0u8; pitch * height];
    {
        let mut writer = FramebufferWriter::new(&mut bytes, width, height, pitch, rgb888()).unwrap();
        draw_text(&mut writer, 0, 0, "ab", Color::rgb(0xff, 0xff, 0xff), 1);
        draw_text(&mut writer, 0, 0, "你好", Color::rgb(0xff, 0xff, 0xff), 0);
    }
    assert!(bytes.iter().all(|b| *b == 0));
    {
        let mut writer = FramebufferWriter::new(&mut bytes, width, height, pitch, rgb888()).unwrap();
        draw_text(&mut writer, 0, usize::MAX, "ab", Color::rgb(0xff, 0xff, 0xff), 1);
    }
    assert!(bytes.iter().all(|b| *b == 0));
    {
        let mut writer = FramebufferWriter::new(&mut bytes, width, height, pitch, rgb888()).unwrap();
        draw_text(&mut writer, 0, 0, "a界", Color::rgb(0xff, 0xff, 0xff), 1);
    }
    assert!(!has_ink(&bytes, pitch, 0..18, 0..20));
    assert!(has_ink(&bytes, pitch, 18..34, 0..16));
}

#[test]
fn draw_hello_world_centers_the_greeting() {
    let width = 640;
    let height = 360;
    let pitch = width * 4;
    let mut bytes = vec![0u8; pitch * height];
    {
        let mut writer = FramebufferWriter::new(&mut bytes, width, height, pitch, rgb888()).unwrap();
        draw_hello_world(&mut writer);
    }
    let background = [0x0d, 0x0a, 0x08, 0x00];
    let foreground = [0xfb, 0xf7, 0xf4, 0x00];
    // Scale 4: the text is 5 * 64 + 4 * 8 = 352 pixels wide and 64 high.
    let x0 = (640 - 352) / 2;
    let y0 = (360 - 64) / 2;
    for y in 0..height {
        for x in 0..width {
            let offset = y * pitch + x * 4;
            let pixel = &bytes[offset..offset + 4];
            let in_band = (x0..x0 + 352).contains(&x) && (y0..y0 + 64).contains(&y);
            if !in_band {
                assert_eq!(pixel, &background, "pixel ({x}, {y})");
            } else {
                assert!(pixel == &background || pixel == &foreground);
            }
        }
    }
    // Row 2 of the first glyph starts with bit pattern 0b0010...: glyph column 2.
    let offset = (y0 + 2 * 4) * pitch + (x0 + 2 * 4) * 4;
    assert_eq!(&bytes[offset..offset + 4], &foreground);
    let offset = (y0 + 2 * 4) * pitch + (x0 + 1 * 4) * 4;
    assert_eq!(&bytes[offset..offset + 4], &background);
}

#[test]
fn draw_hello_world_on_a_tiny_screen_starts_at_the_corner() {
    let width = 50;
    let height = 10;
    let pitch = width * 4;
    let mut bytes = vec![0u8; pitch * height];
    {
        let mut writer = FramebufferWriter::new(&mut bytes, width, height, pitch, rgb888()).unwrap();
        draw_hello_world(&mut writer);
    }
    // Scale 1; too small to center, so the glyph at (0, 0) is cut off.
    // Row 0 of the first glyph is 0b0001000001000000: columns 3 and 9.
    let foreground = [0xfb, 0xf7, 0xf4, 0x00];
    assert_eq!(&bytes[3 * 4..3 * 4 + 4], &foreground);
    assert_eq!(&bytes[9 * 4..9 * 4 + 4], &foreground);
    assert_eq!(&bytes[0..4], &[0x0d, 0x0a, 0x08, 0x00]);
}

fn framebuffer_info(memory_model: u8) -> FramebufferInfo {
    FramebufferInfo {
        width: 320,
        height: 180,
        pitch: 320 * 4 + 16,
        bpp: 32,
        memory_model,
        red_mask_size: 8,
        red_mask_shift: 16,
        green_mask_size: 8,
        green_mask_shift: 8,
        blue_mask_size: 8,
        blue_mask_shift: 0,
    }
}

#[test]
fn hello_world_to_framebuffer_draws_on_rgb_framebuffers() {
    let info = framebuffer_info(FRAMEBUFFER_RGB);
    let pitch = info.pitch as usize;
    let mut bytes = vec![0u8; pitch * 180];
    draw_hello_world_to_framebuffer(&info, &mut bytes);
    assert_eq!(&bytes[0..4], &[0x0d, 0x0a, 0x08, 0x00]);
    assert_eq!(&bytes[320 * 4..pitch], &[0u8; 16]);

    let mut expected = vec![0u8; pitch * 180];
    {
        let mut writer = FramebufferWriter::new(&mut expected, 320, 180, pitch, rgb888()).unwrap();
        draw_hello_world(&mut writer);
    }
    assert_eq!(bytes, expected);
}

#[test]
fn hello_world_to_framebuffer_skips_other_framebuffers() {
    let info = framebuffer_info(0);
    let mut bytes = vec![0u8; info.pitch as usize * 180];
    draw_hello_world_to_framebuffer(&info, &mut bytes);
    assert!(bytes.iter().all(|b| *b == 0));

    let info = FramebufferInfo { bpp: 20, ..framebuffer_info(FRAMEBUFFER_RGB) };
    draw_hello_world_to_framebuffer(&info, &mut bytes);
    assert!(bytes.iter().all(|b| *b == 0));

    let info = framebuffer_info(FRAMEBUFFER_RGB);
    let mut short = vec![0u8; info.pitch as usize * 179];
    draw_hello_world_to_framebuffer(&info, &mut short);
    assert!(short.iter().all(|b| *b == 0));
}

#[test]
fn into_bytes_hands_back_what_was_drawn() {
    let mut bytes = vec![0u8; 24];
    let mut writer = FramebufferWriter::new(&mut bytes, 2, 2, 12, rgb888()).unwrap();
    writer.put_pixel(1, 1, Color::rgb(0x12, 0x34, 0x56));
    let drawn = writer.into_bytes();
    assert_eq!(&drawn[16..20], &[0x56, 0x34, 0x12, 0x00]);
    drawn[0] = 9;
    assert_eq!(bytes[0], 9);
    assert_eq!(bytes.iter().filter(|b| **b != 0).count(), 4);
}

#[test]
fn clear_after_drawing_is_clear_alone() {
    let mut drawn = vec![5u8; 60 * 4 * 20];
    let mut plain = vec![5u8; 60 * 4 * 20];
    {
        let mut writer = FramebufferWriter::new(&mut drawn, 50, 20, 240, rgb888()).unwrap();
        writer.put_pixel(3, 3, Color::rgb(9, 9, 9));
        draw_text(&mut writer, 0, 0, "好", Color::rgb(7, 7, 7), 1);
        writer.clear(Color::rgb(1, 2, 3));
    }
    {
        let mut writer = FramebufferWriter::new(&mut plain, 50, 20, 240, rgb888()).unwrap();
        writer.clear(Color::rgb(1, 2, 3));
    }
    assert_eq!(drawn, plain);
}

#[test]
fn drawing_a_concatenation_is_drawing_its_parts() {
    let mut whole = vec![0u8; 120 * 4 * 40];
    let mut parts = vec![0u8; 120 * 4 * 40];
    {
        let mut writer = FramebufferWriter::new(&mut whole, 120, 40, 480, rgb888()).unwrap();
        draw_text(&mut writer, 3, 4, "你好，世界", Color::rgb(1, 2, 3), 1);
    }
    {
        let mut writer = FramebufferWriter::new(&mut parts, 120, 40, 480, rgb888()).unwrap();
        draw_text(&mut writer, 3, 4, "你好", Color::rgb(1, 2, 3), 1);
        draw_text(&mut writer, 3 + 2 * 18, 4, "，世界", Color::rgb(1, 2, 3), 1);
    }
    assert_eq!(whole, parts);
}
