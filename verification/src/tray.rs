//! What the menu-bar icon shows: a per-project tooltip and a running-count
//! badge drawn with a tiny bitmap font.

use crate::id_map::IdMap;
use crate::process_manager::{is_live, ProjectStatus, StatusPayload};
use crate::project_store::{project_views, Project, ProjectView};
use crate::text::{chars_of, decimal_text, to_owned_string, u64_text};
use vstd::prelude::*;

verus! {

/// The 3x5 bitmap of a badge character, one row per byte (bits 2..0 are the
/// left..right columns). Digits and `+` are drawn; anything else is blank.
pub open spec fn glyph_rows(c: char) -> [u8; 5] {
    if c == '0' { [7, 5, 5, 5, 7] }
    else if c == '1' { [2, 6, 2, 2, 7] }
    else if c == '2' { [7, 1, 7, 4, 7] }
    else if c == '3' { [7, 1, 7, 1, 7] }
    else if c == '4' { [5, 5, 7, 1, 1] }
    else if c == '5' { [7, 4, 7, 1, 7] }
    else if c == '6' { [7, 4, 7, 5, 7] }
    else if c == '7' { [7, 1, 1, 1, 1] }
    else if c == '8' { [7, 5, 7, 5, 7] }
    else if c == '9' { [7, 5, 7, 1, 7] }
    else if c == '+' { [0, 2, 7, 2, 0] }
    else { [0, 0, 0, 0, 0] }
}

pub fn glyph_for(c: char) -> (g: [u8; 5])
    ensures
        g == glyph_rows(c),
{
    match c {
        '0' => [0b111, 0b101, 0b101, 0b101, 0b111],
        '1' => [0b010, 0b110, 0b010, 0b010, 0b111],
        '2' => [0b111, 0b001, 0b111, 0b100, 0b111],
        '3' => [0b111, 0b001, 0b111, 0b001, 0b111],
        '4' => [0b101, 0b101, 0b111, 0b001, 0b001],
        '5' => [0b111, 0b100, 0b111, 0b001, 0b111],
        '6' => [0b111, 0b100, 0b111, 0b101, 0b111],
        '7' => [0b111, 0b001, 0b001, 0b001, 0b001],
        '8' => [0b111, 0b101, 0b111, 0b101, 0b111],
        '9' => [0b111, 0b101, 0b111, 0b001, 0b111],
        '+' => [0b000, 0b010, 0b111, 0b010, 0b000],
        _ => [0, 0, 0, 0, 0],
    }
}


/// The glyph shown before a project in the tooltip.
pub open spec fn status_glyph_text(st: ProjectStatus) -> Seq<char> {
    match st {
        ProjectStatus::Running => "🟢"@,
        ProjectStatus::Starting => "🟡"@,
        ProjectStatus::Crashed => "🔴"@,
        ProjectStatus::Stopped => "⚪"@,
    }
}

pub fn status_glyph(st: ProjectStatus) -> (g: &'static str)
    ensures
        g@ == status_glyph_text(st),
{
    match st {
        ProjectStatus::Running => "🟢",
        ProjectStatus::Starting => "🟡",
        ProjectStatus::Crashed => "🔴",
        ProjectStatus::Stopped => "⚪",
    }
}

/// The badge text for `count` running projects: the number, or `9+` past
/// nine.
pub open spec fn badge_text(count: u32) -> Seq<char> {
    if count > 9 { "9+"@ } else { decimal_text(count as nat) }
}

pub fn badge_label(count: u32) -> (r: String)
    ensures
        r@ == badge_text(count),
{
    if count > 9 {
        return to_owned_string("9+");
    }
    u64_text(count as u64)
}

/// The status a project is shown with: its last known one, or stopped.
pub open spec fn shown_status(statuses: Map<Seq<char>, ProjectStatus>, id: Seq<char>) -> ProjectStatus {
    if statuses.contains_key(id) { statuses[id] } else { ProjectStatus::Stopped }
}

/// The tooltip lines so far: one per project, `glyph name`, joined by line
/// feeds.
pub open spec fn tooltip_lines(ps: Seq<ProjectView>, statuses: Map<Seq<char>, ProjectStatus>) -> Seq<char>
    decreases ps.len(),
{
    if ps.len() == 0 {
        seq![]
    } else {
        let line = status_glyph_text(shown_status(statuses, ps.last().id)) + " "@ + ps.last().name;
        if ps.len() == 1 { line } else { tooltip_lines(ps.drop_last(), statuses) + "\n"@ + line }
    }
}

/// The tray tooltip: `easy-term` with no projects, otherwise one line per
/// project with its status glyph and name.
pub open spec fn tooltip_text(ps: Seq<ProjectView>, statuses: Map<Seq<char>, ProjectStatus>) -> Seq<char> {
    if ps.len() == 0 { "easy-term"@ } else { tooltip_lines(ps, statuses) }
}

pub fn build_tooltip(projects: &Vec<Project>, statuses: &IdMap<ProjectStatus>) -> (r: String)
    ensures
        r@ == tooltip_text(project_views(projects@), statuses@),
{
    if projects.len() == 0 {
        return to_owned_string("easy-term");
    }
    let mut out = String::new();
    let mut i: usize = 0;
    while i < projects.len()
        invariant
            i <= projects@.len(),
            out@ == tooltip_lines(project_views(projects@.take(i as int)), statuses@),
        decreases projects@.len() - i,
    {
        let p = &projects[i];
        let st = match statuses.get(p.id.as_str()) {
            Some(s) => *s,
            None => ProjectStatus::Stopped,
        };
        proof {
            assert(project_views(projects@.take(i + 1)).drop_last() =~= project_views(projects@.take(i as int)));
            assert(project_views(projects@.take(i + 1)).last() == p@);
        }
        if i > 0 {
            out.append("\n");
        }
        out.append(status_glyph(st));
        out.append(" ");
        out.append(p.name.as_str());
        proof {
            let line = status_glyph_text(shown_status(statuses@, p.id@)) + " "@ + p.name@;
            if i == 0 {
                assert(out@ =~= line);
            } else {
                assert(out@ =~= tooltip_lines(project_views(projects@.take(i as int)), statuses@) + "\n"@ + line);
            }
        }
        i += 1;
    }
    assert(projects@.take(projects@.len() as int) =~= projects@);
    out
}


// ---------------------------------------------------------------------------
// Statuses as the supervisor reports them
// ---------------------------------------------------------------------------

/// The status map a snapshot stands for: each id to the status of its last
/// row in the snapshot.
pub open spec fn snapshot_map(rows: Seq<StatusPayload>) -> Map<Seq<char>, ProjectStatus>
    decreases rows.len(),
{
    if rows.len() == 0 {
        Map::empty()
    } else {
        snapshot_map(rows.drop_last()).insert(rows.last().id@, rows.last().status)
    }
}

/// The statuses of a snapshot, by project id.
pub fn statuses_by_id(rows: &Vec<StatusPayload>) -> (r: IdMap<ProjectStatus>)
    ensures
        r@ == snapshot_map(rows@),
{
    let mut m: IdMap<ProjectStatus> = IdMap::new();
    let mut i: usize = 0;
    while i < rows.len()
        invariant
            i <= rows@.len(),
            m@ == snapshot_map(rows@.take(i as int)),
        decreases rows@.len() - i,
    {
        proof {
            assert(rows@.take(i + 1).drop_last() =~= rows@.take(i as int));
        }
        m.insert(rows[i].id.as_str(), rows[i].status);
        i += 1;
    }
    assert(rows@.take(rows@.len() as int) =~= rows@);
    m
}

/// The ids of the rows that are running or starting, in order.
pub open spec fn live_rows(rows: Seq<StatusPayload>) -> Seq<Seq<char>>
    decreases rows.len(),
{
    if rows.len() == 0 {
        seq![]
    } else if is_live(rows.last().status) {
        live_rows(rows.drop_last()).push(rows.last().id@)
    } else {
        live_rows(rows.drop_last())
    }
}

/// The projects a snapshot shows running or starting: what a clean quit
/// records for the next launch to restore, and what the badge counts.
pub fn live_ids_in(rows: &Vec<StatusPayload>) -> (r: Vec<String>)
    ensures
        r@.map_values(|s: String| s@) == live_rows(rows@),
        r@.map_values(|s: String| s@) == rows@.filter(|r: StatusPayload| shows_alive(r)).map_values(
            |r: StatusPayload| r.id@,
        ),
{
    let mut out: Vec<String> = Vec::new();
    let mut i: usize = 0;
    while i < rows.len()
        invariant
            i <= rows@.len(),
            out@.map_values(|s: String| s@) == live_rows(rows@.take(i as int)),
        decreases rows@.len() - i,
    {
        proof {
            assert(rows@.take(i + 1).drop_last() =~= rows@.take(i as int));
        }
        let ghost before = out@;
        let st = rows[i].status;
        if st == ProjectStatus::Running || st == ProjectStatus::Starting {
            out.push(rows[i].id.clone());
            assert(out@.map_values(|s: String| s@) =~= before.map_values(|s: String| s@).push(rows@[i as int].id@));
        }
        i += 1;
    }
    assert(rows@.take(rows@.len() as int) =~= rows@);
    proof { law_live_ids_are_the_running_and_starting_rows(rows@); }
    out
}

// ---------------------------------------------------------------------------
// The badge
// ---------------------------------------------------------------------------

/// Where the badge and its label go on an icon `width` pixels wide, for a
/// badge `diameter` pixels across, `margin` pixels in from the top-right
/// corner, showing `count`. The label's glyphs are `scale` pixels per dot,
/// one dot apart.
pub struct BadgeLayout {
    pub cx: int,
    pub cy: int,
    pub radius: int,
    pub border: int,
    pub scale: int,
    pub step: int,
    pub text_x0: int,
    pub text_y0: int,
    pub label: Seq<char>,
}

pub open spec fn badge_layout(width: u32, diameter: i32, margin: i32, count: u32) -> BadgeLayout {
    let radius = diameter / 2;
    let border = if diameter / 16 > 1 { diameter / 16 } else { 1 };
    let cx = width - radius - margin;
    let cy = radius + margin;
    let label = badge_text(count);
    let n = label.len() as int;
    let scale = if diameter * 3 / 25 > 1 { diameter * 3 / 25 } else { 1 };
    let glyph_w = 3 * scale;
    let glyph_h = 5 * scale;
    let text_w = n * glyph_w + (if n > 1 { n - 1 } else { 0 }) * scale;
    BadgeLayout {
        cx,
        cy,
        radius,
        border,
        scale,
        step: glyph_w + scale,
        text_x0: cx - text_w / 2,
        text_y0: cy - glyph_h / 2,
        label,
    }
}

/// Whether dot `col` (0 = left) of a glyph row is set.
pub open spec fn glyph_bit(bits: u8, col: int) -> bool {
    if col == 0 {
        bits & 4 != 0
    } else if col == 1 {
        bits & 2 != 0
    } else {
        bits & 1 != 0
    }
}

/// Whether pixel (x, y) lies in the square drawn for dot (`row`, `col`) of
/// glyph `gi` of the label.
pub open spec fn glyph_square(l: BadgeLayout, gi: int, row: int, col: int, x: int, y: int) -> bool {
    let px0 = l.text_x0 + gi * l.step + col * l.scale;
    let py0 = l.text_y0 + row * l.scale;
    &&& glyph_bit(glyph_rows(l.label[gi])@[row], col)
    &&& px0 <= x < px0 + l.scale
    &&& py0 <= y < py0 + l.scale
}

/// Whether the label covers pixel (x, y).
pub open spec fn on_label(l: BadgeLayout, x: int, y: int) -> bool {
    exists|gi: int, row: int, col: int|
        0 <= gi < l.label.len() && 0 <= row < 5 && 0 <= col < 3 && #[trigger] glyph_square(l, gi, row, col, x, y)
}

/// The square of the distance from pixel (x, y) to the badge's center.
pub open spec fn center_dist2(l: BadgeLayout, x: int, y: int) -> int {
    (x - l.cx) * (x - l.cx) + (y - l.cy) * (y - l.cy)
}

/// The color of pixel (x, y), formerly `old`, once the badge is painted:
/// white on the label, red inside the circle, white on its ring, else as
/// it was.
pub open spec fn badge_pixel(l: BadgeLayout, old: Seq<u8>, x: int, y: int) -> Seq<u8> {
    if on_label(l, x, y) {
        seq![255u8, 255u8, 255u8, 255u8]
    } else if center_dist2(l, x, y) <= l.radius * l.radius {
        seq![220u8, 38u8, 38u8, 255u8]
    } else if center_dist2(l, x, y) <= (l.radius + l.border) * (l.radius + l.border) {
        seq![255u8, 255u8, 255u8, 255u8]
    } else {
        old
    }
}

/// Whether the label covers pixel (x, y): the label's glyphs and where the
/// first one starts are given, with `step` and `scale` as in the layout.
fn label_covers(glyphs: &Vec<[u8; 5]>, text_x0: i64, text_y0: i64, step: i64, scale: i64, x: i64, y: i64, Ghost(l): Ghost<BadgeLayout>) -> (r: bool)
    requires
        glyphs@.len() == l.label.len(),
        forall|gi: int| 0 <= gi < glyphs@.len() ==> #[trigger] glyphs@[gi] == glyph_rows(l.label[gi]),
        l.text_x0 == text_x0,
        l.text_y0 == text_y0,
        l.step == step,
        l.scale == scale,
        glyphs@.len() <= 2,
        1 <= scale <= 0x1_0000_0000,
        step == 4 * scale,
        -0x10_0000_0000 <= text_x0 <= 0x10_0000_0000,
        -0x10_0000_0000 <= text_y0 <= 0x10_0000_0000,
    ensures
        r == on_label(l, x as int, y as int),
{
    let ghost xi = x as int;
    let ghost yi = y as int;
    let mut gi: usize = 0;
    let mut gx: i64 = text_x0;
    while gi < glyphs.len()
        invariant
            xi == x as int, yi == y as int,
            glyphs@.len() == l.label.len(),
            forall|g: int| 0 <= g < glyphs@.len() ==> #[trigger] glyphs@[g] == glyph_rows(l.label[g]),
            l.text_x0 == text_x0, l.text_y0 == text_y0, l.step == step, l.scale == scale,
            glyphs@.len() <= 2,
            1 <= scale <= 0x1_0000_0000,
            step == 4 * scale,
            -0x10_0000_0000 <= text_x0 <= 0x10_0000_0000,
            -0x10_0000_0000 <= text_y0 <= 0x10_0000_0000,
            gi <= glyphs@.len(),
            gx == text_x0 + gi * step,
            -0x10_0000_0000 <= gx <= 0x20_0000_0000,
            forall|g: int, row: int, col: int| 0 <= g < gi && 0 <= row < 5 && 0 <= col < 3
                ==> !#[trigger] glyph_square(l, g, row, col, xi, yi),
        decreases glyphs@.len() - gi,
    {
        let bits_rows = glyphs[gi];
        let mut row: usize = 0;
        let mut py: i64 = text_y0;
        while row < 5
            invariant
                xi == x as int, yi == y as int,
                glyphs@.len() == l.label.len(),
                gi < glyphs@.len(),
                bits_rows == glyph_rows(l.label[gi as int]),
                l.text_x0 == text_x0, l.text_y0 == text_y0, l.step == step, l.scale == scale,
                1 <= scale <= 0x1_0000_0000,
                -0x10_0000_0000 <= text_y0 <= 0x10_0000_0000,
                gx == text_x0 + gi * step,
                -0x10_0000_0000 <= gx <= 0x20_0000_0000,
                row <= 5,
                py == text_y0 + row * scale,
                -0x10_0000_0000 <= py <= 0x20_0000_0000,
                forall|r: int, col: int| 0 <= r < row && 0 <= col < 3
                    ==> !#[trigger] glyph_square(l, gi as int, r, col, xi, yi),
            decreases 5 - row,
        {
            let bits = bits_rows[row];
            let mut col: usize = 0;
            let mut px: i64 = gx;
            while col < 3
                invariant
                    xi == x as int, yi == y as int,
                    gi < glyphs@.len(),
                    glyphs@.len() == l.label.len(),
                    bits == glyph_rows(l.label[gi as int])@[row as int],
                    l.text_x0 == text_x0, l.text_y0 == text_y0, l.step == step, l.scale == scale,
                    1 <= scale <= 0x1_0000_0000,
                    gx == text_x0 + gi * step,
                    -0x10_0000_0000 <= gx <= 0x20_0000_0000,
                    row < 5,
                    py == text_y0 + row * scale,
                    -0x10_0000_0000 <= py <= 0x20_0000_0000,
                    col <= 3,
                    px == gx + col * scale,
                    -0x10_0000_0000 <= px <= 0x30_0000_0000,
                    forall|c: int| 0 <= c < col ==> !#[trigger] glyph_square(l, gi as int, row as int, c, xi, yi),
                decreases 3 - col,
            {
                let set = if col == 0 { bits & 4 != 0 } else if col == 1 { bits & 2 != 0 } else { bits & 1 != 0 };
                proof {
                    assert(set == glyph_bit(bits, col as int));
                }
                proof {
                    let px0 = l.text_x0 + (gi as int) * l.step + (col as int) * l.scale;
                    let py0 = l.text_y0 + (row as int) * l.scale;
                    assert(px0 == px);
                    assert(py0 == py);
                    assert(glyph_rows(l.label[gi as int])@[row as int] == bits);
                }
                if set && px <= x && x < px + scale && py <= y && y < py + scale {
                    assert(glyph_square(l, gi as int, row as int, col as int, xi, yi));
                    return true;
                }
                assert(!glyph_square(l, gi as int, row as int, col as int, xi, yi));
                proof {
                    let c = col as int;
                    assert((c + 1) * scale == c * scale + scale) by (nonlinear_arith);
                    assert(c * scale <= 2 * 0x1_0000_0000) by (nonlinear_arith)
                        requires 0 <= c <= 2, 1 <= scale <= 0x1_0000_0000;
                }
                col += 1;
                px = px + scale;
            }
            proof {
                let r = row as int;
                assert((r + 1) * scale == r * scale + scale) by (nonlinear_arith);
                assert(r * scale <= 4 * 0x1_0000_0000) by (nonlinear_arith)
                    requires 0 <= r <= 4, 1 <= scale <= 0x1_0000_0000;
            }
            row += 1;
            py = py + scale;
        }
        proof {
            let g = gi as int;
            assert((g + 1) * step == g * step + step) by (nonlinear_arith);
            assert(g * step <= 4 * 0x1_0000_0000) by (nonlinear_arith)
                requires 0 <= g <= 1, step == 4 * scale, 1 <= scale <= 0x1_0000_0000;
        }
        gi += 1;
        gx = gx + step;
    }
    false
}


/// Where the bytes of pixel (x, y) start in an RGBA buffer `width` pixels
/// wide.
pub open spec fn pixel_index(width: u32, x: int, y: int) -> int {
    (y * width + x) * 4
}

/// The four bytes of pixel (x, y).
pub open spec fn pixel_of(rgba: Seq<u8>, width: u32, x: int, y: int) -> Seq<u8> {
    rgba.subrange(pixel_index(width, x, y), pixel_index(width, x, y) + 4)
}

proof fn lemma_pixel_in_bounds(width: u32, height: u32, x: int, y: int)
    requires
        0 <= x < width,
        0 <= y < height,
    ensures
        0 <= pixel_index(width, x, y),
        pixel_index(width, x, y) + 4 <= width * height * 4,
{
    assert(0 <= y * width) by (nonlinear_arith)
        requires 0 <= y, 0 <= width;
    assert(y * width + x + 1 <= width * height) by (nonlinear_arith)
        requires 0 <= x < width, 0 <= y < height;
}

proof fn lemma_pixels_apart(width: u32, x1: int, y1: int, x2: int, y2: int)
    requires
        0 <= x1 < width,
        0 <= x2 < width,
        0 <= y1,
        0 <= y2,
        x1 != x2 || y1 != y2,
    ensures
        pixel_index(width, x1, y1) + 4 <= pixel_index(width, x2, y2)
            || pixel_index(width, x2, y2) + 4 <= pixel_index(width, x1, y1),
{
    if y1 < y2 {
        assert((y1 + 1) * width <= y2 * width) by (nonlinear_arith)
            requires y1 + 1 <= y2, 0 <= width;
        assert((y1 + 1) * width == y1 * width + width) by (nonlinear_arith);
    } else if y2 < y1 {
        assert((y2 + 1) * width <= y1 * width) by (nonlinear_arith)
            requires y2 + 1 <= y1, 0 <= width;
        assert((y2 + 1) * width == y2 * width + width) by (nonlinear_arith);
    }
}

proof fn lemma_label_len(count: u32)
    ensures
        badge_text(count).len() == 1 || badge_text(count).len() == 2,
        badge_text(count).len() <= 2,
{
    if count > 9 {
        reveal_strlit("9+");
    } else {
        assert(decimal_text(count as nat) == seq![crate::text::digit_char(count as nat)]);
    }
}

/// Paints the running-count badge onto an RGBA icon `width` by `height`
/// pixels: a red disc `diameter` pixels across with a white ring, `margin`
/// pixels in from the top-right corner, with `count` (or `9+`) drawn in
/// white on it. The badge's size is proportional to the icon's and is
/// worked out by the caller.
pub fn paint_badge(rgba: &mut Vec<u8>, width: u32, height: u32, diameter: i32, margin: i32, count: u32)
    requires
        old(rgba)@.len() == width * height * 4,
        width * height * 4 <= u32::MAX,
        0 <= diameter <= width,
        diameter <= height,
        0 <= margin <= width,
    ensures
        final(rgba)@.len() == old(rgba)@.len(),
        forall|x: int, y: int| 0 <= x < width && 0 <= y < height ==> #[trigger] pixel_of(final(rgba)@, width, x, y)
            == badge_pixel(badge_layout(width, diameter, margin, count), pixel_of(old(rgba)@, width, x, y), x, y),
{
    let ghost l = badge_layout(width, diameter, margin, count);
    let ghost before = rgba@;
    let d = diameter as i64;
    let radius: i64 = d / 2;
    let border: i64 = if d / 16 > 1 { d / 16 } else { 1 };
    let cx: i64 = width as i64 - radius - margin as i64;
    let cy: i64 = radius + margin as i64;
    let label = chars_of(badge_label(count).as_str());
    let mut glyphs: Vec<[u8; 5]> = Vec::new();
    let mut k: usize = 0;
    while k < label.len()
        invariant
            k <= label@.len(),
            glyphs@.len() == k,
            forall|g: int| 0 <= g < k ==> #[trigger] glyphs@[g] == glyph_rows(label@[g]),
        decreases label@.len() - k,
    {
        glyphs.push(glyph_for(label[k]));
        k += 1;
    }
    proof { lemma_label_len(count); }
    let n = label.len();
    let scale: i64 = if d * 3 / 25 > 1 { d * 3 / 25 } else { 1 };
    let glyph_w: i64 = 3 * scale;
    let glyph_h: i64 = 5 * scale;
    let text_w: i64 = if n > 1 { 2 * glyph_w + scale } else { glyph_w };
    let text_x0: i64 = cx - text_w / 2;
    let text_y0: i64 = cy - glyph_h / 2;
    let step: i64 = glyph_w + scale;
    proof {
        let ni = n as int;
        let sc = scale as int;
        if ni == 2 {
            assert(ni * (3 * sc) + (ni - 1) * sc == 2 * (3 * sc) + sc) by (nonlinear_arith)
                requires ni == 2;
        } else {
            assert(ni * (3 * sc) + 0 * sc == 3 * sc) by (nonlinear_arith)
                requires ni == 1;
        }
        assert(l.text_x0 == text_x0);
        assert(l.text_y0 == text_y0);
    }
    let r: i128 = radius as i128;
    let rb: i128 = (radius + border) as i128;
    proof {
        assert(r * r <= 0x1_0000_0000_0000_0000) by (nonlinear_arith)
            requires 0 <= r <= 0x1_0000_0000;
        assert(rb * rb <= 0x1_0000_0000_0000_0000) by (nonlinear_arith)
            requires 0 <= rb <= 0x1_0000_0000;
    }
    let r2: i128 = r * r;
    let rb2: i128 = rb * rb;
    let mut y: u32 = 0;
    let mut b: usize = 0;
    while y < height
        invariant
            rgba@.len() == before.len(),
            before.len() == width * height * 4,
            width * height * 4 <= u32::MAX,
            0 <= diameter <= width,
            0 <= margin <= width,
            l == badge_layout(width, diameter, margin, count),
            l.text_x0 == text_x0, l.text_y0 == text_y0, l.step == step, l.scale == scale,
            l.cx == cx, l.cy == cy, l.radius == r, l.radius + l.border == rb,
            r2 == r * r, rb2 == rb * rb,
            glyphs@.len() == l.label.len(),
            forall|g: int| 0 <= g < glyphs@.len() ==> #[trigger] glyphs@[g] == glyph_rows(l.label[g]),
            glyphs@.len() <= 2,
            1 <= scale <= 0x1_0000_0000,
            step == 4 * scale,
            -0x10_0000_0000 <= text_x0 <= 0x10_0000_0000,
            -0x10_0000_0000 <= text_y0 <= 0x10_0000_0000,
            -0x4_0000_0000 <= cx <= 0x4_0000_0000,
            -0x4_0000_0000 <= cy <= 0x4_0000_0000,
            y <= height,
            b == pixel_index(width, 0, y as int),
            forall|px: int, py: int| 0 <= px < width && 0 <= py < height ==> #[trigger] pixel_of(rgba@, width, px, py)
                == if py < y { badge_pixel(l, pixel_of(before, width, px, py), px, py) } else { pixel_of(before, width, px, py) },
        decreases height - y,
    {
        let mut x: u32 = 0;
        while x < width
            invariant
                rgba@.len() == before.len(),
                before.len() == width * height * 4,
                width * height * 4 <= u32::MAX,
                l == badge_layout(width, diameter, margin, count),
                l.text_x0 == text_x0, l.text_y0 == text_y0, l.step == step, l.scale == scale,
                l.cx == cx, l.cy == cy, l.radius == r, l.radius + l.border == rb,
                r2 == r * r, rb2 == rb * rb,
                glyphs@.len() == l.label.len(),
                forall|g: int| 0 <= g < glyphs@.len() ==> #[trigger] glyphs@[g] == glyph_rows(l.label[g]),
                glyphs@.len() <= 2,
                1 <= scale <= 0x1_0000_0000,
                step == 4 * scale,
                -0x10_0000_0000 <= text_x0 <= 0x10_0000_0000,
                -0x10_0000_0000 <= text_y0 <= 0x10_0000_0000,
                -0x4_0000_0000 <= cx <= 0x4_0000_0000,
                -0x4_0000_0000 <= cy <= 0x4_0000_0000,
                y < height,
                x <= width,
                b == pixel_index(width, x as int, y as int),
                forall|px: int, py: int| 0 <= px < width && 0 <= py < height ==> #[trigger] pixel_of(rgba@, width, px, py)
                    == if py < y || (py == y && px < x) {
                        badge_pixel(l, pixel_of(before, width, px, py), px, py)
                    } else {
                        pixel_of(before, width, px, py)
                    },
            decreases width - x,
        {
            proof { lemma_pixel_in_bounds(width, height, x as int, y as int); }
            let ghost cur = rgba@;
            let covered = label_covers(&glyphs, text_x0, text_y0, step, scale, x as i64, y as i64, Ghost(l));
            let dx: i128 = x as i128 - cx as i128;
            let dy: i128 = y as i128 - cy as i128;
            proof {
                assert(dx * dx <= 0x100_0000_0000_0000_0000) by (nonlinear_arith)
                    requires -0x10_0000_0000 <= dx <= 0x10_0000_0000;
                assert(dy * dy <= 0x100_0000_0000_0000_0000) by (nonlinear_arith)
                    requires -0x10_0000_0000 <= dy <= 0x10_0000_0000;
                assert(0 <= dx * dx) by (nonlinear_arith);
                assert(0 <= dy * dy) by (nonlinear_arith);
            }
            let d2: i128 = dx * dx + dy * dy;
            let paint: Option<[u8; 4]> = if covered {
                Some([255, 255, 255, 255])
            } else if d2 <= r2 {
                Some([220, 38, 38, 255])
            } else if d2 <= rb2 {
                Some([255, 255, 255, 255])
            } else {
                None
            };
            match paint {
                Some(c) => {
                    rgba.set(b, c[0]);
                    rgba.set(b + 1, c[1]);
                    rgba.set(b + 2, c[2]);
                    rgba.set(b + 3, c[3]);
                },
                None => {},
            }
            proof {
                let xi = x as int;
                let yi = y as int;
                assert(center_dist2(l, xi, yi) == d2);
                assert forall|px: int, py: int| 0 <= px < width && 0 <= py < height implies #[trigger] pixel_of(rgba@, width, px, py)
                    == if py < y || (py == y && px < x + 1) {
                        badge_pixel(l, pixel_of(before, width, px, py), px, py)
                    } else {
                        pixel_of(before, width, px, py)
                    } by {
                    if px == xi && py == yi {
                        assert(pixel_of(cur, width, px, py) == pixel_of(before, width, px, py));
                        match paint {
                            Some(c) => {
                                assert(pixel_of(rgba@, width, px, py) =~= seq![c[0], c[1], c[2], c[3]]);
                            },
                            None => {
                                assert(pixel_of(rgba@, width, px, py) =~= pixel_of(cur, width, px, py));
                            },
                        }
                    } else {
                        lemma_pixels_apart(width, px, py, xi, yi);
                        lemma_pixel_in_bounds(width, height, px, py);
                        assert(pixel_of(rgba@, width, px, py) =~= pixel_of(cur, width, px, py));
                    }
                }
            }
            x += 1;
            b += 4;
        }
        proof {
            assert((y as int + 1) * width == y as int * width + width) by (nonlinear_arith);
        }
        y += 1;
    }
}

} // verus!

verus! {

/// Painting the badge touches only the square around its center that its
/// ring fits in: every pixel farther than `radius + border` from the center
/// along either axis keeps its color. Badges at least four pixels across
/// have room for their label (a smaller one's label can spill over).
pub proof fn law_badge_stays_in_its_square(
    width: u32,
    diameter: i32,
    margin: i32,
    count: u32,
    old: Seq<u8>,
    x: int,
    y: int,
)
    requires
        diameter >= 4,
    ensures
        ({
            let l = badge_layout(width, diameter, margin, count);
            let reach = l.radius + l.border;
            (x - l.cx > reach || l.cx - x > reach || y - l.cy > reach || l.cy - y > reach)
                ==> badge_pixel(l, old, x, y) == old
        }),
{
    let l = badge_layout(width, diameter, margin, count);
    let reach = l.radius + l.border;
    let d = diameter as int;
    let s = l.scale;
    let n = l.label.len() as int;
    lemma_label_len(count);
    let tw = n * (3 * s) + (if n > 1 { n - 1 } else { 0 }) * s;
    assert(tw == 3 * s || tw == 7 * s) by (nonlinear_arith)
        requires
            n == 1 || n == 2,
            tw == n * (3 * s) + (if n > 1 { n - 1 } else { 0 }) * s;
    assert(l.radius == d / 2 && l.border >= 1);
    assert(2 * reach + 1 >= 7 * s && 2 * reach + 1 >= 5 * s) by (nonlinear_arith)
        requires
            d >= 4,
            reach >= d / 2 + 1,
            s == (if d * 3 / 25 > 1 { d * 3 / 25 } else { 1 }),
    {
        if d * 3 / 25 > 1 {
            assert(25 * s <= 3 * d);
        }
    }
    if x - l.cx > reach || l.cx - x > reach || y - l.cy > reach || l.cy - y > reach {
        if on_label(l, x, y) {
            let (gi, row, col) = choose|gi: int, row: int, col: int|
                0 <= gi < l.label.len() && 0 <= row < 5 && 0 <= col < 3 && #[trigger] glyph_square(l, gi, row, col, x, y);
            let px0 = l.text_x0 + gi * l.step + col * l.scale;
            let py0 = l.text_y0 + row * l.scale;
            assert(l.step == 4 * s);
            assert(0 <= gi * l.step + col * s && gi * l.step + col * s + s <= tw) by (nonlinear_arith)
                requires
                    0 <= gi < n,
                    0 <= col < 3,
                    n == 1 || n == 2,
                    s >= 1,
                    l.step == 4 * s,
                    n == 1 ==> tw == 3 * s,
                    n == 2 ==> tw == 7 * s;
            assert(0 <= row * s && row * s + s <= 5 * s) by (nonlinear_arith)
                requires
                    0 <= row < 5,
                    s >= 1;
            assert(l.text_x0 == l.cx - tw / 2);
            assert(l.text_y0 == l.cy - (5 * s) / 2);
            assert(false);
        }
        assert(center_dist2(l, x, y) > reach * reach) by (nonlinear_arith)
            requires
                reach >= 0,
                x - l.cx > reach || l.cx - x > reach || y - l.cy > reach || l.cy - y > reach,
                center_dist2(l, x, y) == (x - l.cx) * (x - l.cx) + (y - l.cy) * (y - l.cy);
        assert(center_dist2(l, x, y) > l.radius * l.radius) by (nonlinear_arith)
            requires
                center_dist2(l, x, y) > reach * reach,
                reach >= l.radius,
                l.radius >= 0;
    }
}

} // verus!

verus! {

/// A row shows its project alive: running, or still starting.
pub open spec fn shows_alive(r: StatusPayload) -> bool {
    r.status == ProjectStatus::Running || r.status == ProjectStatus::Starting
}

/// The live list is exactly the ids of the rows whose status is `Running`
/// or `Starting`, in order: no stopped or crashed row contributes an id.
pub proof fn law_live_ids_are_the_running_and_starting_rows(rows: Seq<StatusPayload>)
    ensures
        live_rows(rows) == rows.filter(|r: StatusPayload| shows_alive(r)).map_values(|r: StatusPayload| r.id@),
    decreases rows.len(),
{
    reveal_with_fuel(Seq::filter, 1);
    if rows.len() > 0 {
        law_live_ids_are_the_running_and_starting_rows(rows.drop_last());
        let f = rows.drop_last().filter(|r: StatusPayload| shows_alive(r));
        if shows_alive(rows.last()) {
            assert(f.push(rows.last()).map_values(|r: StatusPayload| r.id@)
                =~= f.map_values(|r: StatusPayload| r.id@).push(rows.last().id@));
        }
    }
}

} // verus!
