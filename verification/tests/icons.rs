use meeting_agent::gui::icons::{badge, blend, detected_icon, idle_icon, recording_icon};
use meeting_agent::gui::tray::icon_for;
use meeting_agent::gui::GuiState;
use meeting_agent::screen::phash::{swap_red_and_blue, to_image};
use meeting_agent::session::SessionContext;
use meeting_agent::state::HwndHandle;

fn png(width: u32, height: u32) -> Vec<u8> {
    let img = image::RgbaImage::from_fn(width, height, |x, y| {
        image::Rgba([x as u8, y as u8, (x + y) as u8, 200])
    });
    let mut bytes = std::io::Cursor::new(Vec::new());
    image::DynamicImage::ImageRgba8(img).write_to(&mut bytes, image::ImageFormat::Png).unwrap();
    bytes.into_inner()
}

/// How much of a pixel the badge covers, computed in floating point.
fn float_alpha(x: u32, y: u32, w: u32, h: u32) -> Option<u32> {
    let dx = x as f32 - (w as f32 - 6.5);
    let dy = y as f32 - (h as f32 - 6.5);
    let d = (dx * dx + dy * dy).sqrt();
    if d > 6.5 {
        return None;
    }
    let alpha = if d <= 4.5 { 1.0 } else { ((6.5 - d) / 2.0).clamp(0.0, 1.0) };
    Some((alpha * 255.0) as u32)
}

#[test]
fn colours_are_mixed_in_parts_of_255() {
    assert_eq!(blend(10, 200, 0), 10);
    assert_eq!(blend(10, 200, 255), 200);
    assert_eq!(blend(0, 255, 128), 128);
    assert_eq!(blend(100, 50, 127), 75);
}

#[test]
fn the_idle_icon_is_the_mascot() {
    let icon = idle_icon(&png(32, 32)).unwrap();
    assert_eq!((icon.width, icon.height, icon.rgba.len()), (32, 32, 4096));
    let i = (5 * 32 + 3) * 4;
    assert_eq!(&icon.rgba[i..i + 4], &[3, 5, 8, 200]);
}

#[test]
fn a_mascot_of_another_size_is_resized() {
    let icon = idle_icon(&png(64, 20)).unwrap();
    assert_eq!((icon.width, icon.height, icon.rgba.len()), (32, 32, 4096));
}

#[test]
fn a_file_without_a_picture_gives_no_icon() {
    assert!(idle_icon(b"not a picture").is_none());
    assert!(detected_icon(b"").is_none());
    assert!(recording_icon(&png(32, 32)[..20]).is_none());
}

#[test]
fn the_badge_is_painted_in_the_corner() {
    for (w, h) in [(32u32, 32u32), (9, 14), (40, 8)] {
        let base: Vec<u8> = (0..w * h * 4).map(|i| (i % 251) as u8).collect();
        let mut painted = base.clone();
        badge(&mut painted, w, h, 0xE0, 0xA8, 0x00);
        for y in 0..h {
            for x in 0..w {
                let i = ((y * w + x) * 4) as usize;
                let expected = match float_alpha(x, y, w, h) {
                    None => base[i..i + 4].to_vec(),
                    Some(a) => vec![
                        blend(base[i], 0xE0, a),
                        blend(base[i + 1], 0xA8, a),
                        blend(base[i + 2], 0x00, a),
                        base[i + 3].max(a as u8),
                    ],
                };
                assert_eq!(&painted[i..i + 4], &expected[..]);
            }
        }
    }
}

#[test]
fn the_colour_of_the_badge_shows_the_state() {
    let file = png(32, 32);
    let middle = (26 * 32 + 26) * 4;
    let amber = detected_icon(&file).unwrap();
    assert_eq!(&amber.rgba[middle..middle + 4], &[0xE0, 0xA8, 0x00, 255]);
    let red = recording_icon(&file).unwrap();
    assert_eq!(&red.rgba[middle..middle + 4], &[0xCC, 0x20, 0x20, 255]);
    assert_eq!(&red.rgba[..4], &[0, 0, 0, 200]);
    let ctx = SessionContext { teams_hwnd: HwndHandle(1), teams_pid: 1, title: None };
    let ignored = icon_for(&GuiState::Ignored { ctx }, &file).unwrap();
    assert_eq!(ignored.rgba, amber.rgba);
    assert_eq!(icon_for(&GuiState::AwaitingEndConfirm, &file).unwrap().rgba, red.rgba);
    assert_eq!(icon_for(&GuiState::Idle, &file).unwrap().rgba, idle_icon(&file).unwrap().rgba);
}

#[test]
fn red_and_blue_are_exchanged() {
    let bgra = [1u8, 2, 3, 4, 5, 6, 7, 8];
    assert_eq!(swap_red_and_blue(&bgra), vec![3, 2, 1, 4, 7, 6, 5, 8]);
    assert_eq!(swap_red_and_blue(&swap_red_and_blue(&bgra)), bgra);
}

#[test]
fn a_frame_becomes_a_picture() {
    let bgra = [1u8, 2, 3, 4, 5, 6, 7, 8];
    let img = to_image(&bgra, 2, 1).unwrap().into_rgba8();
    assert_eq!(img.dimensions(), (2, 1));
    assert_eq!(img.get_pixel(1, 0).0, [7, 6, 5, 8]);
    assert!(to_image(&bgra, 3, 1).is_none());
    assert!(to_image(&bgra, 1, 1).is_some());
}
