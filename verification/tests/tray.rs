use easy_term::id_map::IdMap;
use easy_term::process_manager::ProjectStatus;
use easy_term::project_store::Project;
use easy_term::tray::{badge_label, build_tooltip, glyph_for, status_glyph};

#[test]
fn glyph_for_digits_and_plus_are_non_empty() {
    for c in "0123456789+".chars() {
        assert_ne!(glyph_for(c), [0, 0, 0, 0, 0], "glyph for {c:?} should draw something");
    }
}

#[test]
fn glyph_for_unknown_char_is_blank() {
    assert_eq!(glyph_for('?'), [0, 0, 0, 0, 0]);
}

#[test]
fn glyph_for_draws_the_expected_rows() {
    assert_eq!(glyph_for('1'), [0b010, 0b110, 0b010, 0b010, 0b111]);
    assert_eq!(glyph_for('+'), [0b000, 0b010, 0b111, 0b010, 0b000]);
}

#[test]
fn badge_label_caps_at_nine_plus() {
    assert_eq!(badge_label(0), "0");
    assert_eq!(badge_label(3), "3");
    assert_eq!(badge_label(9), "9");
    assert_eq!(badge_label(10), "9+");
    assert_eq!(badge_label(15), "9+");
}

#[test]
fn status_glyphs_are_the_colored_circles() {
    assert_eq!(status_glyph(ProjectStatus::Running), "🟢");
    assert_eq!(status_glyph(ProjectStatus::Starting), "🟡");
    assert_eq!(status_glyph(ProjectStatus::Crashed), "🔴");
    assert_eq!(status_glyph(ProjectStatus::Stopped), "⚪");
}

fn project(id: &str, name: &str) -> Project {
    Project {
        id: id.to_string(),
        name: name.to_string(),
        path: String::new(),
        command: String::new(),
        port: None,
        env: Vec::new(),
        auto_restart: false,
        group_id: None,
        was_running: false,
        color: None,
        pinned: false,
    }
}

#[test]
fn the_tooltip_lists_each_project_with_its_status() {
    let mut statuses: IdMap<ProjectStatus> = IdMap::new();
    assert_eq!(build_tooltip(&Vec::new(), &statuses), "easy-term");
    statuses.insert("a", ProjectStatus::Running);
    let projects = vec![project("a", "api"), project("b", "web")];
    assert_eq!(build_tooltip(&projects, &statuses), "🟢 api\n⚪ web");
}

use easy_term::tray::paint_badge;

fn solid_icon(size: u32, color: [u8; 4]) -> Vec<u8> {
    let mut rgba = Vec::with_capacity((size * size * 4) as usize);
    for _ in 0..(size * size) {
        rgba.extend_from_slice(&color);
    }
    rgba
}

fn pixel(rgba: &[u8], width: u32, x: u32, y: u32) -> [u8; 4] {
    let idx = ((y * width + x) * 4) as usize;
    [rgba[idx], rgba[idx + 1], rgba[idx + 2], rgba[idx + 3]]
}

/// The badge's size for a square icon, as the app works it out.
fn badge_size(size: u32) -> (i32, i32) {
    ((size as f32 * 0.55) as i32, (size as f32 * 0.04) as i32)
}

#[test]
fn paint_badge_keeps_the_buffer_size() {
    let mut rgba = solid_icon(64, [10, 10, 10, 255]);
    let (d, m) = badge_size(64);
    paint_badge(&mut rgba, 64, 64, d, m, 3);
    assert_eq!(rgba.len(), 64 * 64 * 4);
}

#[test]
fn paint_badge_paints_a_red_disc_near_the_top_right_corner() {
    let mut rgba = solid_icon(64, [10, 10, 10, 255]);
    let (d, m) = badge_size(64);
    assert_eq!((d, m), (35, 2));
    paint_badge(&mut rgba, 64, 64, d, m, 3);
    // The disc centers at (45, 19); (30, 19) is inside it, left of the digit.
    assert_eq!(pixel(&rgba, 64, 30, 19), [220, 38, 38, 255], "badge circle should be solid red");
    // Far from the badge, the base color is untouched.
    assert_eq!(pixel(&rgba, 64, 2, 62), [10, 10, 10, 255]);
    // On the ring: white.
    assert_eq!(pixel(&rgba, 64, 45, 1), [255, 255, 255, 255]);
    // The top-left dot of the "3" is white: x from 39, y from 9.
    assert_eq!(pixel(&rgba, 64, 39, 9), [255, 255, 255, 255]);
    // The "3" has no dot at row 1, column 0.
    assert_eq!(pixel(&rgba, 64, 39, 13), [220, 38, 38, 255]);
}

#[test]
fn paint_badge_caps_the_label_at_nine_plus() {
    let mut rgba = solid_icon(64, [10, 10, 10, 255]);
    let (d, m) = badge_size(64);
    paint_badge(&mut rgba, 64, 64, d, m, 15);
    assert_eq!(rgba.len(), 64 * 64 * 4);
    // "9+" is 28 px wide, starting at 45 - 14 = 31: its first dot is white.
    assert_eq!(pixel(&rgba, 64, 31, 9), [255, 255, 255, 255]);
}

#[test]
fn paint_badge_on_an_empty_icon_does_nothing() {
    let mut rgba: Vec<u8> = Vec::new();
    paint_badge(&mut rgba, 0, 0, 0, 0, 1);
    assert!(rgba.is_empty());
}

#[test]
fn paint_badge_touches_nothing_outside_its_square() {
    let base = solid_icon(64, [10, 10, 10, 255]);
    let (d, m) = badge_size(64);
    for count in [1, 7, 42] {
        let mut rgba = base.clone();
        paint_badge(&mut rgba, 64, 64, d, m, count);
        // radius 17, border 2, center (45, 19): the square spans 26..=64 by 0..=38.
        for y in 0..64u32 {
            for x in 0..64u32 {
                if (x as i32 - 45).abs() > 19 || (y as i32 - 19).abs() > 19 {
                    assert_eq!(pixel(&rgba, 64, x, y), [10, 10, 10, 255], "pixel ({x}, {y}) changed");
                }
            }
        }
    }
}
