use embedded_graphics_web_simulator::display::physical_size;
use embedded_graphics_web_simulator::display::pixel_footprint;
use embedded_graphics_web_simulator::display::validate_frame_length;
use embedded_graphics_web_simulator::display::PresentError;
use embedded_graphics_web_simulator::display::WebSimulatorDisplay;
use embedded_graphics_web_simulator::frame::Pixel;
use embedded_graphics_web_simulator::frame::Rgb;
use embedded_graphics_web_simulator::output_settings::OutputSettingsBuilder;

const RED: Rgb = Rgb { r: 255, g: 0, b: 0 };
const TEAL: Rgb = Rgb { r: 0, g: 128, b: 128 };

/// Byte index of channel `c` of physical pixel `(px, py)` in a frame of
/// width `cw`.
fn idx(cw: u32, px: u32, py: u32, c: u32) -> usize {
    (4 * (py * cw + px) + c) as usize
}

#[test]
fn physical_size_follows_the_formula() {
    let settings = OutputSettingsBuilder::new().scale(3).pixel_spacing(2).build();
    let size = physical_size((10, 20), &settings);
    assert_eq!(size.0, 10 * 3 + 9 * 2);
    assert_eq!(size.1, 20 * 3 + 19 * 2);
}

#[test]
fn physical_size_two_by_two_scale_three_spacing_one() {
    let settings = OutputSettingsBuilder::new().scale(3).pixel_spacing(1).build();
    assert_eq!(physical_size((2, 2), &settings), (7, 7));
}

#[test]
fn physical_size_is_identity_at_scale_one_no_spacing() {
    let settings = OutputSettingsBuilder::new().scale(1).pixel_spacing(0).build();
    assert_eq!(physical_size((128, 64), &settings), (128, 64));
}

#[test]
fn new_display_has_a_black_zeroed_frame() {
    let settings = OutputSettingsBuilder::new().scale(3).pixel_spacing(1).build();
    let display = WebSimulatorDisplay::new((2, 2), &settings);
    assert_eq!(display.size(), (2, 2));
    assert_eq!(display.canvas_size(), (7, 7));
    let frame = display.frame_bytes();
    assert_eq!(frame.len(), 4 * 7 * 7);
    assert!(frame.iter().all(|&b| b == 0));
}

#[test]
fn pixel_write_paints_a_scaled_block_at_the_pitched_origin() {
    // Logical 2x2 at scale 3 with spacing 1: pitch 4, canvas 7x7.  Writing
    // (1, 1) red must paint a 3x3 block with top-left physical corner (4, 4)
    // and touch nothing else.
    let settings = OutputSettingsBuilder::new().scale(3).pixel_spacing(1).build();
    let mut display = WebSimulatorDisplay::new((2, 2), &settings);
    display.draw_pixel(1, 1, RED);
    let frame = display.flush().expect("flush cannot fail on a well-formed display");
    for py in 0..7 {
        for px in 0..7 {
            let inside = (4..7).contains(&px) && (4..7).contains(&py);
            let expected: [u8; 4] = if inside { [255, 0, 0, 255] } else { [0, 0, 0, 0] };
            for c in 0..4 {
                assert_eq!(
                    frame[idx(7, px, py, c)],
                    expected[c as usize],
                    "channel {} of physical pixel ({}, {})",
                    c,
                    px,
                    py
                );
            }
        }
    }
}

#[test]
fn out_of_bounds_writes_leave_the_frame_unchanged() {
    let settings = OutputSettingsBuilder::new().scale(3).pixel_spacing(1).build();
    let mut display = WebSimulatorDisplay::new((2, 2), &settings);
    display.draw_pixel(0, 0, TEAL);
    let before = display.frame_bytes().clone();
    display.draw_pixel(-1, 0, RED);
    display.draw_pixel(0, -1, RED);
    display.draw_pixel(2, 0, RED);
    display.draw_pixel(0, 2, RED);
    display.draw_pixel(i32::MIN, i32::MAX, RED);
    assert_eq!(display.frame_bytes(), &before);
}

#[test]
fn writing_a_pixel_twice_equals_writing_it_once() {
    let settings = OutputSettingsBuilder::new().scale(2).pixel_spacing(1).build();
    let mut once = WebSimulatorDisplay::new((3, 3), &settings);
    let mut twice = WebSimulatorDisplay::new((3, 3), &settings);
    once.draw_pixel(2, 1, TEAL);
    twice.draw_pixel(2, 1, TEAL);
    twice.draw_pixel(2, 1, TEAL);
    assert_eq!(once.frame_bytes(), twice.frame_bytes());
}

#[test]
fn fill_region_matches_individual_pixel_writes() {
    let settings = OutputSettingsBuilder::new().scale(3).pixel_spacing(1).build();
    let mut filled = WebSimulatorDisplay::new((4, 4), &settings);
    let mut pixel_by_pixel = WebSimulatorDisplay::new((4, 4), &settings);
    filled.fill_region(1, 0, 2, 3, TEAL);
    for y in 0..3 {
        for x in 1..3 {
            pixel_by_pixel.draw_pixel(x, y, TEAL);
        }
    }
    assert_eq!(filled.frame_bytes(), pixel_by_pixel.frame_bytes());
}

#[test]
fn fill_region_is_clipped_like_single_writes() {
    let settings = OutputSettingsBuilder::new().scale(2).pixel_spacing(0).build();
    let mut filled = WebSimulatorDisplay::new((2, 2), &settings);
    let mut pixel_by_pixel = WebSimulatorDisplay::new((2, 2), &settings);
    // The rectangle hangs over every edge of the 2x2 surface.
    filled.fill_region(-1, -1, 4, 4, RED);
    for y in 0..2 {
        for x in 0..2 {
            pixel_by_pixel.draw_pixel(x, y, RED);
        }
    }
    assert_eq!(filled.frame_bytes(), pixel_by_pixel.frame_bytes());
}

#[test]
fn scale_one_maps_logical_pixels_one_to_one() {
    let settings = OutputSettingsBuilder::new().scale(1).pixel_spacing(0).build();
    let mut display = WebSimulatorDisplay::new((128, 64), &settings);
    display.draw_pixel(5, 3, TEAL);
    let frame = display.frame_bytes();
    for py in 0..64 {
        for px in 0..128 {
            let expected: [u8; 4] = if px == 5 && py == 3 {
                [0, 128, 128, 255]
            } else {
                [0, 0, 0, 0]
            };
            for c in 0..4 {
                assert_eq!(frame[idx(128, px, py, c)], expected[c as usize]);
            }
        }
    }
}

#[test]
fn draw_iter_applies_writes_in_order() {
    let settings = OutputSettingsBuilder::new().scale(1).pixel_spacing(0).build();
    let mut batch = WebSimulatorDisplay::new((4, 4), &settings);
    let mut one_by_one = WebSimulatorDisplay::new((4, 4), &settings);
    let pixels = vec![
        Pixel { x: 0, y: 0, color: RED },
        Pixel { x: 3, y: 3, color: TEAL },
        Pixel { x: -7, y: 2, color: RED },
        // Overlapping write: the last one wins.
        Pixel { x: 0, y: 0, color: TEAL },
    ];
    batch.draw_iter(&pixels);
    for p in &pixels {
        one_by_one.draw_pixel(p.x, p.y, p.color);
    }
    assert_eq!(batch.frame_bytes(), one_by_one.frame_bytes());
    let frame = batch.frame_bytes();
    assert_eq!(&frame[idx(4, 0, 0, 0)..idx(4, 0, 0, 0) + 4], &[0, 128, 128, 255]);
    assert_eq!(&frame[idx(4, 3, 3, 0)..idx(4, 3, 3, 0) + 4], &[0, 128, 128, 255]);
}

#[test]
fn flush_hands_out_the_backing_frame() {
    let settings = OutputSettingsBuilder::new().scale(2).pixel_spacing(0).build();
    let mut display = WebSimulatorDisplay::new((2, 2), &settings);
    display.draw_pixel(0, 1, RED);
    let frame = display.flush().expect("flush cannot fail on a well-formed display");
    assert_eq!(frame, display.frame_bytes());
}

#[test]
fn a_wrong_buffer_length_is_a_presentation_error() {
    // 4x4 canvas needs 64 bytes; anything else must be rejected.
    assert_eq!(validate_frame_length(64, 4, 4), Ok(()));
    assert_eq!(validate_frame_length(63, 4, 4), Err(PresentError::BufferSizeMismatch));
    assert_eq!(validate_frame_length(65, 4, 4), Err(PresentError::BufferSizeMismatch));
    assert_eq!(validate_frame_length(0, 4, 4), Err(PresentError::BufferSizeMismatch));
}

#[test]
fn pixel_footprint_gives_the_painted_rectangle() {
    let settings = OutputSettingsBuilder::new().scale(3).pixel_spacing(1).build();
    assert_eq!(pixel_footprint((2, 2), &settings, 1, 1), Some((4, 4, 3, 3)));
    assert_eq!(pixel_footprint((2, 2), &settings, 0, 0), Some((0, 0, 3, 3)));
    assert_eq!(pixel_footprint((2, 2), &settings, 2, 1), None);
    assert_eq!(pixel_footprint((2, 2), &settings, -1, 0), None);
}
