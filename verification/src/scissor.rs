//! Scissor rectangles kept inside the render target.

use vstd::prelude::*;

verus! {

/// Size of a render target, for scissor validation.
#[derive(Clone, Copy)]
pub struct RenderTargetInfo {
    pub width: u32,
    pub height: u32,
}

/// A scissor rectangle in pixels.
#[derive(PartialEq, Eq, Structural, Clone, Copy)]
pub struct ScissorRect {
    pub x: u32,
    pub y: u32,
    pub width: u32,
    pub height: u32,
}

/// `a - b`, or 0 when `b > a`.
pub open spec fn sat_sub(a: u32, b: u32) -> u32 {
    if a >= b {
        (a - b) as u32
    } else {
        0
    }
}

pub open spec fn min_u32(a: u32, b: u32) -> u32 {
    if a <= b {
        a
    } else {
        b
    }
}

pub open spec fn max_u32(a: u32, b: u32) -> u32 {
    if a >= b {
        a
    } else {
        b
    }
}

/// The clamped rectangle: the origin is moved inside the target, the size is
/// cut to what remains from there and is at least one pixel.
pub open spec fn clamped_rect(x: u32, y: u32, width: u32, height: u32, target: RenderTargetInfo) -> ScissorRect {
    let cx = min_u32(x, sat_sub(target.width, 1));
    let cy = min_u32(y, sat_sub(target.height, 1));
    ScissorRect {
        x: cx,
        y: cy,
        width: max_u32(min_u32(width, sat_sub(target.width, cx)), 1),
        height: max_u32(min_u32(height, sat_sub(target.height, cy)), 1),
    }
}

/// Clamps a rectangle already in physical pixels to the render target.
pub fn clamp_scissor_to_target(x: u32, y: u32, width: u32, height: u32, target: RenderTargetInfo) -> (r: (
    u32,
    u32,
    u32,
    u32,
))
    ensures
        r == ({
            let c = clamped_rect(x, y, width, height, target);
            (c.x, c.y, c.width, c.height)
        }),
{
    let cx = if x <= target.width.saturating_sub(1) {
        x
    } else {
        target.width.saturating_sub(1)
    };
    let cy = if y <= target.height.saturating_sub(1) {
        y
    } else {
        target.height.saturating_sub(1)
    };
    let mw = target.width.saturating_sub(cx);
    let mh = target.height.saturating_sub(cy);
    let w0 = if width <= mw {
        width
    } else {
        mw
    };
    let h0 = if height <= mh {
        height
    } else {
        mh
    };
    let w = if w0 >= 1 {
        w0
    } else {
        1
    };
    let h = if h0 >= 1 {
        h0
    } else {
        1
    };
    (cx, cy, w, h)
}

/// The scissor rectangle to set, or `None` for a zero-sized target (where no
/// rectangle is set). A returned rectangle always lies inside the target and
/// covers at least one pixel.
pub fn safe_scissor_rect(x: u32, y: u32, width: u32, height: u32, target: RenderTargetInfo) -> (r: Option<
    ScissorRect,
>)
    ensures
        (target.width == 0 || target.height == 0) ==> r is None,
        (target.width > 0 && target.height > 0) ==> r == Some(clamped_rect(x, y, width, height, target)),
        r matches Some(rect) ==> {
            &&& rect.width >= 1
            &&& rect.height >= 1
            &&& rect.x + rect.width <= target.width
            &&& rect.y + rect.height <= target.height
        },
{
    if target.width == 0 || target.height == 0 {
        return None;
    }
    let (cx, cy, w, h) = clamp_scissor_to_target(x, y, width, height, target);
    Some(ScissorRect { x: cx, y: cy, width: w, height: h })
}

} // verus!
