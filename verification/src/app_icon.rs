//! The window icon: a 32×32 blue folder with three white lines, drawn
//! pixel by pixel.

use vstd::prelude::*;

verus! {

/// Side of the window icon, in pixels.
pub const ICON_SIDE: u32 = 32;

/// Pixel (`x`, `y`) of the window icon as red, green, blue, alpha: the
/// folder's tab (top left) and body with a dark blue border, a lighter blue
/// top and a darker bottom, three white lines on the body; transparent
/// around it.
pub open spec fn icon_color(x: u32, y: u32) -> (u8, u8, u8, u8) {
    let is_tab = y < 6 && x >= 2 && x < 14;
    let is_body = y >= 6 && y < 28 && x >= 2 && x < 30;
    let is_border = (is_tab || is_body) && (x == 2 || x == 29 || y == 6 || y == 27 || (is_tab && y
        == 2));
    if is_tab || is_body {
        if is_border {
            (30, 58, 138, 255)
        } else if y >= 12 && y <= 13 && x >= 6 && x < 26 {
            (255, 255, 255, 230)
        } else if y >= 16 && y <= 17 && x >= 6 && x < 26 {
            (255, 255, 255, 230)
        } else if y >= 20 && y <= 21 && x >= 6 && x < 20 {
            (255, 255, 255, 230)
        } else if y < 12 {
            (59, 130, 246, 255)
        } else {
            (37, 99, 235, 255)
        }
    } else {
        (0, 0, 0, 0)
    }
}

/// Pixel (`x`, `y`) of the window icon (see [`icon_color`]).
pub fn icon_pixel(x: u32, y: u32) -> (r: (u8, u8, u8, u8))
    ensures
        r == icon_color(x, y),
{
    let is_tab = y < 6 && x >= 2 && x < 14;
    let is_body = y >= 6 && y < 28 && x >= 2 && x < 30;
    let is_border = (is_tab || is_body) && (x == 2 || x == 29 || y == 6 || y == 27 || (is_tab && y
        == 2));
    if is_tab || is_body {
        if is_border {
            return (30, 58, 138, 255);
        }
        let shade = if y < 12 {
            (59, 130, 246)
        } else {
            (37, 99, 235)
        };
        if y >= 12 && y <= 13 && x >= 6 && x < 26 {
            return (255, 255, 255, 230);
        }
        if y >= 16 && y <= 17 && x >= 6 && x < 26 {
            return (255, 255, 255, 230);
        }
        if y >= 20 && y <= 21 && x >= 6 && x < 20 {
            return (255, 255, 255, 230);
        }
        return (shade.0, shade.1, shade.2, 255);
    }
    (0, 0, 0, 0)
}

/// Byte `k` (red, green, blue, alpha) of a pixel.
pub open spec fn channel(c: (u8, u8, u8, u8), k: int) -> u8 {
    if k == 0 {
        c.0
    } else if k == 1 {
        c.1
    } else if k == 2 {
        c.2
    } else {
        c.3
    }
}

/// The window icon as RGBA bytes, row by row from the top.
pub fn icon_rgba() -> (r: Vec<u8>)
    ensures
        r@.len() == 32 * 32 * 4,
        forall|x: u32, y: u32, k: int|
            x < 32 && y < 32 && 0 <= k < 4 ==> #[trigger] r@[4 * (32 * y + x) + k] == channel(
                icon_color(x, y),
                k,
            ),
{
    let mut rgba: Vec<u8> = Vec::new();
    let mut y: u32 = 0;
    while y < 32
        invariant
            y <= 32,
            rgba@.len() == 4 * (32 * y + 0),
            forall|x2: u32, y2: u32, k: int|
                x2 < 32 && y2 < y && 0 <= k < 4 ==> #[trigger] rgba@[4 * (32 * y2 + x2) + k]
                    == channel(icon_color(x2, y2), k),
        decreases 32 - y,
    {
        let mut x: u32 = 0;
        assert(rgba@.len() == 4 * (32 * y + x));
        while x < 32
            invariant
                y < 32,
                x <= 32,
                rgba@.len() == 4 * (32 * y + x),
                forall|x2: u32, y2: u32, k: int|
                    ((y2 < y && x2 < 32) || (y2 == y && x2 < x)) && 0 <= k < 4 ==> #[trigger] rgba@[4
                        * (32 * y2 + x2) + k] == channel(icon_color(x2, y2), k),
            decreases 32 - x,
        {
            let (r, g, b, a) = icon_pixel(x, y);
            let ghost before = rgba@;
            rgba.push(r);
            rgba.push(g);
            rgba.push(b);
            rgba.push(a);
            proof {
                assert forall|x2: u32, y2: u32, k: int|
                    ((y2 < y && x2 < 32) || (y2 == y && x2 < x + 1)) && 0 <= k < 4 implies #[trigger] rgba@[4
                        * (32 * y2 + x2) + k] == channel(icon_color(x2, y2), k) by {
                    if y2 < y || x2 < x {
                        assert(4 * (32 * y2 + x2) + k < 4 * (32 * y + x)) by (nonlinear_arith)
                            requires
                                (y2 < y && x2 < 32) || (y2 == y && x2 < x),
                                0 <= k < 4,
                        ;
                        assert(rgba@[4 * (32 * y2 + x2) + k] == before[4 * (32 * y2 + x2) + k]);
                    }
                }
            }
            x = x + 1;
        }
        assert(rgba@.len() == 4 * (32 * (y + 1) + 0));
        y = y + 1;
    }
    rgba
}

} // verus!
