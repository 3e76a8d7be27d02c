//! Pixels of the 32x32 tray icon: a dark tile, two tank gauges (5-hour on
//! the left, 7-day on the right) and an optional update badge. Pixels are RGBA
//! bytes, row by row; pixel `(x, y)` starts at byte `(32 * y + x) * 4`.

use vstd::prelude::*;

verus! {

pub const ICON_SIZE: u32 = 32;

pub const BAR_WIDTH: u32 = 12;

pub const BAR_TOP: u32 = 3;

pub const BAR_BOTTOM: u32 = 29;

pub const LEFT_BAR_X: u32 = 3;

pub const RIGHT_BAR_X: u32 = 17;

/// Bytes in one icon.
pub const ICON_BYTES: usize = 4096;

pub open spec fn rgba(r: u8, g: u8, b: u8, a: u8) -> Seq<u8> {
    seq![r, g, b, a]
}

pub open spec fn bg() -> Seq<u8> {
    rgba(0x0A, 0x0A, 0x0F, 0xFF)
}

pub open spec fn border() -> Seq<u8> {
    rgba(0x00, 0xFF, 0xCC, 0x40)
}

pub open spec fn empty_bar() -> Seq<u8> {
    rgba(0x15, 0x15, 0x20, 0xFF)
}

pub open spec fn scanline() -> Seq<u8> {
    rgba(0x10, 0x10, 0x18, 0xFF)
}

pub open spec fn bar_border() -> Seq<u8> {
    rgba(0x00, 0xFF, 0xCC, 0x60)
}

pub open spec fn dot_color() -> Seq<u8> {
    rgba(0xFF, 0x33, 0x55, 0xFF)
}

pub open spec fn dot_ring() -> Seq<u8> {
    rgba(0x0A, 0x0A, 0x0F, 0xFF)
}

/// Column of the pixel that byte `i` belongs to.
pub open spec fn px(i: int) -> int {
    (i / 4) % 32
}

/// Row of the pixel that byte `i` belongs to.
pub open spec fn py(i: int) -> int {
    (i / 4) / 32
}

/// Channel (0 red, 1 green, 2 blue, 3 alpha) of byte `i`.
pub open spec fn pch(i: int) -> int {
    i % 4
}

/// The empty icon: a one-pixel border around a dark tile.
pub open spec fn base_icon() -> Seq<u8> {
    Seq::new(
        4096,
        |i: int|
            if px(i) == 0 || px(i) == 31 || py(i) == 0 || py(i) == 31 {
                border()[pch(i)]
            } else {
                bg()[pch(i)]
            },
    )
}

pub open spec fn sat_add30(c: u8) -> u8 {
    if c > 225 {
        255
    } else {
        (c + 30) as u8
    }
}

/// Whether pixel `(x, y)` lies in the gauge whose left column is `bar_x`.
pub open spec fn in_bar(bar_x: int, x: int, y: int) -> bool {
    3 <= y < 29 && bar_x <= x < bar_x + 12
}

/// The row from which a gauge filled `fill_h` rows high is colored.
pub open spec fn fill_line(fill_h: int) -> int {
    if fill_h >= 29 {
        0
    } else {
        29 - fill_h
    }
}

/// One byte of a gauge pixel: its frame, the fill color (brighter in the
/// middle six columns), or the empty part with a scan line every third row.
pub open spec fn bar_byte(bar_x: int, fill_h: int, color: Seq<u8>, x: int, y: int, ch: int) -> u8 {
    if y == 3 || y == 28 || x == bar_x || x == bar_x + 11 {
        bar_border()[ch]
    } else if y >= fill_line(fill_h) {
        if bar_x + 3 <= x < bar_x + 9 && ch < 3 {
            sat_add30(color[ch])
        } else {
            color[ch]
        }
    } else if y % 3 == 0 {
        scanline()[ch]
    } else {
        empty_bar()[ch]
    }
}

/// `icon` with a gauge drawn at column `bar_x`.
pub open spec fn with_bar(icon: Seq<u8>, bar_x: int, fill_h: int, color: Seq<u8>) -> Seq<u8> {
    Seq::new(
        icon.len(),
        |i: int|
            if i < 4096 && in_bar(bar_x, px(i), py(i)) {
                bar_byte(bar_x, fill_h, color, px(i), py(i), pch(i))
            } else {
                icon[i]
            },
    )
}

/// Squared distance of pixel `(x, y)` from the badge's center `(25, 6)`.
pub open spec fn dot_dist2(x: int, y: int) -> int {
    (x - 25) * (x - 25) + (y - 6) * (y - 6)
}

/// `icon` with the update badge: a red dot of radius 4.5 ringed in dark up
/// to radius 5.8. On integer pixel offsets these radii are the squared
/// distances 20 and 33.
pub open spec fn with_dot(icon: Seq<u8>) -> Seq<u8> {
    Seq::new(
        icon.len(),
        |i: int|
            if i < 4096 && dot_dist2(px(i), py(i)) <= 20 {
                dot_color()[pch(i)]
            } else if i < 4096 && dot_dist2(px(i), py(i)) <= 33 {
                dot_ring()[pch(i)]
            } else {
                icon[i]
            },
    )
}

/// Byte `(32 * y + x) * 4 + k` lies in pixel `(x, y)`, channel `k`.
pub proof fn lemma_pixel_index(x: int, y: int, k: int)
    requires
        0 <= x < 32,
        0 <= y < 32,
        0 <= k < 4,
    ensures
        px((32 * y + x) * 4 + k) == x,
        py((32 * y + x) * 4 + k) == y,
        pch((32 * y + x) * 4 + k) == k,
        0 <= (32 * y + x) * 4 + k < 4096,
{
    let i = (32 * y + x) * 4 + k;
    vstd::arithmetic::div_mod::lemma_fundamental_div_mod_converse(i, 4, 32 * y + x, k);
    vstd::arithmetic::div_mod::lemma_fundamental_div_mod_converse(32 * y + x, 32, y, x);
}

fn push_rgba(v: &mut Vec<u8>, c: [u8; 4])
    ensures
        final(v)@ == old(v)@ + c@,
{
    v.push(c[0]);
    v.push(c[1]);
    v.push(c[2]);
    v.push(c[3]);
    assert(final(v)@ =~= old(v)@ + c@);
}

fn set_rgba(v: &mut Vec<u8>, at: usize, c: [u8; 4])
    requires
        at + 4 <= old(v).len(),
    ensures
        final(v)@ == Seq::new(
            old(v)@.len(),
            |i: int|
                if at <= i < at + 4 {
                    c@[i - at]
                } else {
                    old(v)@[i]
                },
        ),
{
    v.set(at, c[0]);
    v.set(at + 1, c[1]);
    v.set(at + 2, c[2]);
    v.set(at + 3, c[3]);
    assert(final(v)@ =~= Seq::new(
        old(v)@.len(),
        |i: int|
            if at <= i < at + 4 {
                c@[i - at]
            } else {
                old(v)@[i]
            },
    ));
}

/// The empty icon.
pub fn icon_base() -> (r: Vec<u8>)
    ensures
        r@ == base_icon(),
{
    let mut v: Vec<u8> = Vec::new();
    let mut y: usize = 0;
    while y < 32
        invariant
            y <= 32,
            v@.len() == 128 * y,
            forall|i: int| 0 <= i < v@.len() ==> v@[i] == #[trigger] base_icon()[i],
        decreases 32 - y,
    {
        let mut x: usize = 0;
        while x < 32
            invariant
                y < 32,
                x <= 32,
                v@.len() == 128 * y + 4 * x,
                forall|i: int| 0 <= i < v@.len() ==> v@[i] == #[trigger] base_icon()[i],
            decreases 32 - x,
        {
            let c: [u8; 4] = if x == 0 || x == 31 || y == 0 || y == 31 {
                [0x00, 0xFF, 0xCC, 0x40]
            } else {
                [0x0A, 0x0A, 0x0F, 0xFF]
            };
            let ghost before = v@;
            push_rgba(&mut v, c);
            proof {
                assert forall|i: int| 0 <= i < v@.len() implies v@[i] == #[trigger] base_icon()[i] by {
                    if i >= before.len() {
                        let k = i - before.len();
                        lemma_pixel_index(x as int, y as int, k);
                        assert(i == (32 * y + x) * 4 + k);
                    }
                }
            }
            x = x + 1;
        }
        y = y + 1;
    }
    assert(v@ =~= base_icon());
    v
}

/// Every byte of the icon lies in one pixel, at `(32 * y + x) * 4 + ch`.
pub proof fn lemma_byte_pixel(i: int)
    requires
        0 <= i < 4096,
    ensures
        0 <= px(i) < 32,
        0 <= py(i) < 32,
        0 <= pch(i) < 4,
        i == (32 * py(i) + px(i)) * 4 + pch(i),
{
    vstd::arithmetic::div_mod::lemma_fundamental_div_mod(i, 4);
    vstd::arithmetic::div_mod::lemma_fundamental_div_mod(i / 4, 32);
}

/// `icon` with the first pixels of a gauge drawn: the rows above `y`, and
/// the columns left of `x` in row `y`.
pub open spec fn bar_partial(
    icon: Seq<u8>,
    bar_x: int,
    fill_h: int,
    color: Seq<u8>,
    y: int,
    x: int,
) -> Seq<u8> {
    Seq::new(
        icon.len(),
        |i: int|
            if i < 4096 && in_bar(bar_x, px(i), py(i)) && (py(i) < y || (py(i) == y && px(i) < x)) {
                bar_byte(bar_x, fill_h, color, px(i), py(i), pch(i))
            } else {
                icon[i]
            },
    )
}

fn bar_pixel(bar_x: u32, fill_h: u32, color: [u8; 4], x: u32, y: u32) -> (c: [u8; 4])
    requires
        bar_x + 12 <= 32,
        in_bar(bar_x as int, x as int, y as int),
    ensures
        forall|k: int| 0 <= k < 4 ==> #[trigger] c@[k] == bar_byte(
            bar_x as int,
            fill_h as int,
            color@,
            x as int,
            y as int,
            k,
        ),
{
    let line = BAR_BOTTOM.saturating_sub(fill_h);
    if y == BAR_TOP || y == BAR_BOTTOM - 1 || x == bar_x || x == bar_x + BAR_WIDTH - 1 {
        [0x00, 0xFF, 0xCC, 0x60]
    } else if y >= line {
        if x >= bar_x + 3 && x < bar_x + BAR_WIDTH - 3 {
            [
                color[0].saturating_add(30),
                color[1].saturating_add(30),
                color[2].saturating_add(30),
                color[3],
            ]
        } else {
            color
        }
    } else if y % 3 == 0 {
        [0x10, 0x10, 0x18, 0xFF]
    } else {
        [0x15, 0x15, 0x20, 0xFF]
    }
}

/// Draws a gauge whose left column is `bar_x`, colored from `fill_h` rows
/// above its bottom edge.
pub fn draw_bar(rgba: &mut Vec<u8>, bar_x: u32, fill_h: u32, color: [u8; 4])
    requires
        old(rgba)@.len() >= 4096,
        bar_x + 12 <= 32,
    ensures
        final(rgba)@ == with_bar(old(rgba)@, bar_x as int, fill_h as int, color@),
        forall|i: int| 4096 <= i < old(rgba)@.len() ==> final(rgba)@[i] == old(rgba)@[i],
{
    let ghost icon = rgba@;
    let mut y: u32 = BAR_TOP;
    assert(rgba@ =~= bar_partial(icon, bar_x as int, fill_h as int, color@, 3, bar_x as int));
    while y < BAR_BOTTOM
        invariant
            bar_x + 12 <= 32,
            3 <= y <= 29,
            icon.len() >= 4096,
                rgba@.len() == icon.len(),
            rgba@ == bar_partial(icon, bar_x as int, fill_h as int, color@, y as int, bar_x as int),
        decreases 29 - y,
    {
        let mut x: u32 = bar_x;
        while x < bar_x + BAR_WIDTH
            invariant
                bar_x + 12 <= 32,
                3 <= y < 29,
                bar_x <= x <= bar_x + 12,
                icon.len() >= 4096,
                rgba@.len() == icon.len(),
                rgba@ == bar_partial(icon, bar_x as int, fill_h as int, color@, y as int, x as int),
            decreases bar_x + 12 - x,
        {
            let c = bar_pixel(bar_x, fill_h, color, x, y);
            let idx = ((y * ICON_SIZE + x) * 4) as usize;
            let ghost before = rgba@;
            set_rgba(rgba, idx, c);
            proof {
                let next = bar_partial(icon, bar_x as int, fill_h as int, color@, y as int, x + 1);
                assert forall|i: int| 0 <= i < icon.len() implies rgba@[i] == next[i] by {
                    if i < 4096 {
                        lemma_byte_pixel(i);
                    }
                    if idx <= i < idx + 4 {
                        lemma_pixel_index(x as int, y as int, i - idx);
                    }
                }
                assert(rgba@ =~= next);
            }
            x = x + 1;
        }
        proof {
            let next = bar_partial(icon, bar_x as int, fill_h as int, color@, y + 1, bar_x as int);
            let cur = bar_partial(icon, bar_x as int, fill_h as int, color@, y as int, x as int);
            assert forall|i: int| 0 <= i < icon.len() implies cur[i] == next[i] by {
                if i < 4096 {
                    lemma_byte_pixel(i);
                }
            }
            assert(cur =~= next);
        }
        y = y + 1;
    }
    proof {
        let cur = bar_partial(icon, bar_x as int, fill_h as int, color@, 29, bar_x as int);
        let goal = with_bar(icon, bar_x as int, fill_h as int, color@);
        assert forall|i: int| 0 <= i < icon.len() implies cur[i] == goal[i] by {
            if i < 4096 {
                lemma_byte_pixel(i);
            }
        }
        assert(cur =~= goal);
    }
}

/// `icon` with the badge drawn over the rows above `y`, and the columns left
/// of `x` in row `y`.
pub open spec fn dot_partial(icon: Seq<u8>, y: int, x: int) -> Seq<u8> {
    Seq::new(
        icon.len(),
        |i: int|
            if i < 4096 && (py(i) < y || (py(i) == y && px(i) < x)) {
                with_dot(icon)[i]
            } else {
                icon[i]
            },
    )
}

/// Draws the update badge in the top-right corner.
pub fn draw_update_dot(rgba: &mut Vec<u8>)
    requires
        old(rgba)@.len() >= 4096,
    ensures
        final(rgba)@ == with_dot(old(rgba)@),
        forall|i: int| 4096 <= i < old(rgba)@.len() ==> final(rgba)@[i] == old(rgba)@[i],
{
    let ghost icon = rgba@;
    let mut y: u32 = 0;
    assert(rgba@ =~= dot_partial(icon, 0, 0));
    while y < ICON_SIZE
        invariant
            y <= 32,
            icon.len() >= 4096,
                rgba@.len() == icon.len(),
            rgba@ == dot_partial(icon, y as int, 0),
        decreases 32 - y,
    {
        let mut x: u32 = 0;
        while x < ICON_SIZE
            invariant
                y < 32,
                x <= 32,
                icon.len() >= 4096,
                rgba@.len() == icon.len(),
                rgba@ == dot_partial(icon, y as int, x as int),
            decreases 32 - x,
        {
            let dx: i32 = x as i32 - 25;
            let dy: i32 = y as i32 - 6;
            assert(0 <= dx * dx <= 625) by (nonlinear_arith)
                requires
                    -25 <= dx <= 25,
            ;
            assert(0 <= dy * dy <= 625) by (nonlinear_arith)
                requires
                    -25 <= dy <= 25,
            ;
            let d2 = dx * dx + dy * dy;
            let idx = ((y * ICON_SIZE + x) * 4) as usize;
            let ghost before = rgba@;
            if d2 <= 20 {
                set_rgba(rgba, idx, [0xFF, 0x33, 0x55, 0xFF]);
            } else if d2 <= 33 {
                set_rgba(rgba, idx, [0x0A, 0x0A, 0x0F, 0xFF]);
            }
            proof {
                let next = dot_partial(icon, y as int, x + 1);
                assert forall|i: int| 0 <= i < icon.len() implies rgba@[i] == next[i] by {
                    if i < 4096 {
                        lemma_byte_pixel(i);
                    }
                    if idx <= i < idx + 4 {
                        lemma_pixel_index(x as int, y as int, i - idx);
                    }
                }
                assert(rgba@ =~= next);
            }
            x = x + 1;
        }
        proof {
            let next = dot_partial(icon, y + 1, 0);
            let cur = dot_partial(icon, y as int, 32);
            assert forall|i: int| 0 <= i < icon.len() implies cur[i] == next[i] by {
                if i < 4096 {
                    lemma_byte_pixel(i);
                }
            }
            assert(cur =~= next);
        }
        y = y + 1;
    }
    proof {
        let cur = dot_partial(icon, 32, 0);
        assert forall|i: int| 0 <= i < icon.len() implies cur[i] == with_dot(icon)[i] by {
            if i < 4096 {
                lemma_byte_pixel(i);
            }
        }
        assert(cur =~= with_dot(icon));
    }
}

/// The icon for the two gauges and the update badge.
pub open spec fn icon_spec(
    fill_5h: int,
    color_5h: Seq<u8>,
    fill_7d: int,
    color_7d: Seq<u8>,
    update_available: bool,
) -> Seq<u8> {
    let gauges = with_bar(with_bar(base_icon(), 3, fill_5h, color_5h), 17, fill_7d, color_7d);
    if update_available {
        with_dot(gauges)
    } else {
        gauges
    }
}

/// Renders the tray icon: the 5-hour gauge on the left and the 7-day gauge
/// on the right, each filled `fill_*` rows high in its color, and the badge
/// when an update is available.
pub fn generate_icon(
    fill_5h: u32,
    color_5h: [u8; 4],
    fill_7d: u32,
    color_7d: [u8; 4],
    update_available: bool,
) -> (r: Vec<u8>)
    ensures
        r@ == icon_spec(fill_5h as int, color_5h@, fill_7d as int, color_7d@, update_available),
{
    let mut rgba = icon_base();
    draw_bar(&mut rgba, LEFT_BAR_X, fill_5h, color_5h);
    draw_bar(&mut rgba, RIGHT_BAR_X, fill_7d, color_7d);
    if update_available {
        draw_update_dot(&mut rgba);
    }
    rgba
}

/// Drawing the badge twice gives the same icon as drawing it once.
pub proof fn lemma_dot_idempotent(icon: Seq<u8>)
    ensures
        with_dot(with_dot(icon)) == with_dot(icon),
{
    assert(with_dot(with_dot(icon)) =~= with_dot(icon));
}

/// Drawing a gauge twice gives the same icon as drawing it once.
pub proof fn lemma_bar_idempotent(icon: Seq<u8>, bar_x: int, fill_h: int, color: Seq<u8>)
    ensures
        with_bar(with_bar(icon, bar_x, fill_h, color), bar_x, fill_h, color) == with_bar(
            icon,
            bar_x,
            fill_h,
            color,
        ),
{
    assert(with_bar(with_bar(icon, bar_x, fill_h, color), bar_x, fill_h, color) =~= with_bar(
        icon,
        bar_x,
        fill_h,
        color,
    ));
}

/// The two gauges do not overlap: drawing them in either order gives the
/// same icon.
pub proof fn lemma_gauges_commute(
    icon: Seq<u8>,
    fill_5h: int,
    color_5h: Seq<u8>,
    fill_7d: int,
    color_7d: Seq<u8>,
)
    ensures
        with_bar(with_bar(icon, 3, fill_5h, color_5h), 17, fill_7d, color_7d) == with_bar(
            with_bar(icon, 17, fill_7d, color_7d),
            3,
            fill_5h,
            color_5h,
        ),
{
    assert(with_bar(with_bar(icon, 3, fill_5h, color_5h), 17, fill_7d, color_7d) =~= with_bar(
        with_bar(icon, 17, fill_7d, color_7d),
        3,
        fill_5h,
        color_5h,
    ));
}

} // verus!
