//! Panel render engine: turns a panel description and a sensor-value
//! snapshot into a composited RGBA frame.
//!
//! The four drawing modes work on exact integer pixel arithmetic: text
//! layout and value formatting, the arc gauge as a pie-slice cut, the
//! directional progress bar as an alpha mask, and the rotating pointer.
//! Gauge values are scaled integers; angles are millidegrees.

use vstd::prelude::*;

use crate::cfg::{FontColor, Panel, Sensor, SensorDirection, SensorMode, TextAlign};
use crate::sensors::SensorValues;
use crate::format_value::{spec_parseable, digits_in_range, parse_decimal, IntegerDigits};
use crate::img::{
    grid, lemma_grid_pixel, lemma_view_ext, div_floor, Image, ImageCache, ImgView, Pixel,
    spec_transparent,
};
use crate::trig::{cos_mdeg, sin_mdeg, spec_cos_mdeg, spec_sin_mdeg};

verus! {

/// Error of one sensor's rendering; a failing sensor never aborts the
/// panel, its error is collected into the render report.
#[derive(Debug, Clone)]
pub enum ImageProcessingError {
    /// A picture was missing or not cached.
    ImageLoadError(String),
    /// An unknown numeric sensor mode.
    InvalidMode(i32),
    /// A direction that the sensor's mode does not accept.
    InvalidDirection(SensorDirection),
    /// An unusable numeric value.
    MathError(String),
    /// An error reported by the surrounding input/output code.
    IoError(String),
}

/// Payload-erased view of a render error, for specifications.
#[derive(PartialEq, Eq, Structural)]
pub enum ErrorKind {
    ImageLoad,
    InvalidMode,
    InvalidDirection,
    Math,
    Io,
}

impl ImageProcessingError {
    /// The kind of the error, with the payload erased.
    pub open spec fn kind(&self) -> ErrorKind {
        match self {
            ImageProcessingError::ImageLoadError(_) => ErrorKind::ImageLoad,
            ImageProcessingError::InvalidMode(_) => ErrorKind::InvalidMode,
            ImageProcessingError::InvalidDirection(_) => ErrorKind::InvalidDirection,
            ImageProcessingError::MathError(_) => ErrorKind::Math,
            ImageProcessingError::IoError(_) => ErrorKind::Io,
        }
    }
}

/// One channel of source-over blending with truncation: the way the
/// progress and compositing paths mix a source over a destination.
pub open spec fn spec_blend_floor(s: int, d: int, a: int) -> int {
    (s * a + d * (255 - a)) / 255
}

/// One channel of source-over blending rounded to nearest: the way the
/// pie-slice path mixes a source over a destination.
pub open spec fn spec_blend_round(s: int, d: int, a: int) -> int {
    (2 * (s * a + d * (255 - a)) + 255) / 510
}

/// Source-over blending of a whole pixel, truncating; every channel
/// including alpha is weighted by the source alpha.
pub open spec fn spec_blend_pixel_floor(src: Pixel, dst: Pixel) -> Pixel {
    let a = src.a as int;
    Pixel {
        r: spec_blend_floor(src.r as int, dst.r as int, a) as u8,
        g: spec_blend_floor(src.g as int, dst.g as int, a) as u8,
        b: spec_blend_floor(src.b as int, dst.b as int, a) as u8,
        a: spec_blend_floor(src.a as int, dst.a as int, a) as u8,
    }
}

/// Source-over blending of a whole pixel, rounded to nearest.
pub open spec fn spec_blend_pixel_round(src: Pixel, dst: Pixel) -> Pixel {
    let a = src.a as int;
    Pixel {
        r: spec_blend_round(src.r as int, dst.r as int, a) as u8,
        g: spec_blend_round(src.g as int, dst.g as int, a) as u8,
        b: spec_blend_round(src.b as int, dst.b as int, a) as u8,
        a: spec_blend_round(src.a as int, dst.a as int, a) as u8,
    }
}

fn blend_floor(s: u8, d: u8, a: u8) -> (r: u8)
    ensures
        r as int == spec_blend_floor(s as int, d as int, a as int),
{
    proof {
        assert(0 <= (s as int) * (a as int) <= 255 * 255 && 0 <= (d as int) * (255 - a as int)
            <= 255 * 255 && (s as int) * (a as int) + (d as int) * (255 - a as int) <= 255 * 255)
            by (nonlinear_arith)
            requires
                0 <= s < 256,
                0 <= d < 256,
                0 <= a < 256,
        ;
    }
    let num = (s as u32) * (a as u32) + (d as u32) * (255 - a as u32);
    (num / 255) as u8
}

fn blend_round(s: u8, d: u8, a: u8) -> (r: u8)
    ensures
        r as int == spec_blend_round(s as int, d as int, a as int),
{
    proof {
        assert(0 <= (s as int) * (a as int) <= 255 * 255 && 0 <= (d as int) * (255 - a as int)
            <= 255 * 255 && (s as int) * (a as int) + (d as int) * (255 - a as int) <= 255 * 255)
            by (nonlinear_arith)
            requires
                0 <= s < 256,
                0 <= d < 256,
                0 <= a < 256,
        ;
    }
    let num = (s as u32) * (a as u32) + (d as u32) * (255 - a as u32);
    ((2 * num + 255) / 510) as u8
}

fn blend_pixel_floor(src: Pixel, dst: Pixel) -> (r: Pixel)
    ensures
        r == spec_blend_pixel_floor(src, dst),
{
    Pixel {
        r: blend_floor(src.r, dst.r, src.a),
        g: blend_floor(src.g, dst.g, src.a),
        b: blend_floor(src.b, dst.b, src.a),
        a: blend_floor(src.a, dst.a, src.a),
    }
}

fn blend_pixel_round(src: Pixel, dst: Pixel) -> (r: Pixel)
    ensures
        r == spec_blend_pixel_round(src, dst),
{
    Pixel {
        r: blend_round(src.r, dst.r, src.a),
        g: blend_round(src.g, dst.g, src.a),
        b: blend_round(src.b, dst.b, src.a),
        a: blend_round(src.a, dst.a, src.a),
    }
}

/// The view after pasting `src` over `dst` at `(x, y)`: pixels covered by
/// the source are blended source-over, the rest are unchanged.
pub open spec fn spec_paste(dst: ImgView, src: ImgView, x: int, y: int) -> ImgView {
    grid(
        dst.width,
        dst.height,
        |u: int, v: int|
            if src.in_bounds(u - x, v - y) {
                spec_blend_pixel_floor(src.pixel(u - x, v - y), dst.pixel(u, v))
            } else {
                dst.pixel(u, v)
            },
    )
}

/// Pastes `source` onto `target` at `(x, y)` with per-pixel source-over
/// alpha blending; parts that fall outside the target are dropped.
pub fn paste_image(target: &mut Image, source: &Image, x: i32, y: i32)
    requires
        old(target).wf(),
        source.wf(),
        old(target)@.width <= 1000000,
        old(target)@.height <= 1000000,
        source@.width <= 1000000,
        source@.height <= 1000000,
        -1000000000 <= x <= 1000000000,
        -1000000000 <= y <= 1000000000,
    ensures
        final(target).wf(),
        final(target)@ == spec_paste(old(target)@, source@, x as int, y as int),
{
    let ghost dst0 = target@;
    let sw = source.width();
    let sh = source.height();
    let tw = target.width();
    let th = target.height();
    let mut sy: u32 = 0;
    while sy < sh
        invariant
            target.wf(),
            source.wf(),
            dst0.wf(),
            target@.width == dst0.width,
            target@.height == dst0.height,
            tw == dst0.width,
            th == dst0.height,
            sw == source@.width,
            sh == source@.height,
            0 <= sy <= sh,
            -1000000000 <= x <= 1000000000,
            -1000000000 <= y <= 1000000000,
            forall|u: int, v: int|
                dst0.in_bounds(u, v) ==> #[trigger] target@.pixel(u, v) == (if source@.in_bounds(u - x, v - y)
                    && v - y < sy {
                    spec_blend_pixel_floor(source@.pixel(u - x, v - y), dst0.pixel(u, v))
                } else {
                    dst0.pixel(u, v)
                }),
        decreases sh - sy,
    {
        let mut sx: u32 = 0;
        while sx < sw
            invariant
                target.wf(),
                source.wf(),
                dst0.wf(),
                target@.width == dst0.width,
                target@.height == dst0.height,
                tw == dst0.width,
                th == dst0.height,
                sw == source@.width,
                sh == source@.height,
                0 <= sy < sh,
                0 <= sx <= sw,
                -1000000000 <= x <= 1000000000,
                -1000000000 <= y <= 1000000000,
                forall|u: int, v: int|
                    dst0.in_bounds(u, v) ==> #[trigger] target@.pixel(u, v) == (if source@.in_bounds(
                        u - x,
                        v - y,
                    ) && (v - y < sy || (v - y == sy && u - x < sx)) {
                        spec_blend_pixel_floor(source@.pixel(u - x, v - y), dst0.pixel(u, v))
                    } else {
                        dst0.pixel(u, v)
                    }),
            decreases sw - sx,
        {
            let tx = (x as i64) + (sx as i64);
            let ty = (y as i64) + (sy as i64);
            if tx >= 0 && ty >= 0 && tx < tw as i64 && ty < th as i64 {
                let p = source.px(sx, sy);
                let q = target.px(tx as u32, ty as u32);
                let b = blend_pixel_floor(p, q);
                target.set_px(tx as u32, ty as u32, b);
            }
            sx += 1;
        }
        sy += 1;
    }
    proof {
        let g = spec_paste(dst0, source@, x as int, y as int);
        assert forall|u: int, v: int| target@.in_bounds(u, v) implies target@.pixel(u, v)
            == g.pixel(u, v) by {
            lemma_grid_pixel(
                dst0.width,
                dst0.height,
                |u: int, v: int|
                    if source@.in_bounds(u - x, v - y) {
                        spec_blend_pixel_floor(source@.pixel(u - x, v - y), dst0.pixel(u, v))
                    } else {
                        dst0.pixel(u, v)
                    },
                u,
                v,
            );
            assert(g.pixel(u, v) == (if source@.in_bounds(u - x, v - y) {
                spec_blend_pixel_floor(source@.pixel(u - x, v - y), dst0.pixel(u, v))
            } else {
                dst0.pixel(u, v)
            }));
            assert(target@.pixel(u, v) == (if source@.in_bounds(u - x, v - y) {
                spec_blend_pixel_floor(source@.pixel(u - x, v - y), dst0.pixel(u, v))
            } else {
                dst0.pixel(u, v)
            }));
        }
        lemma_view_ext(target@, g);
    }
}

/// Whether the progress mask keeps the pixel at `(x, y)`, per direction:
/// the crop tuple is `(crop_x, crop_y, crop_w, crop_h)`.
pub open spec fn spec_mask_keeps(
    x: int,
    y: int,
    crop: (u32, u32, u32, u32),
    direction: SensorDirection,
) -> bool {
    match direction {
        SensorDirection::LeftToRight => x < crop.2,
        SensorDirection::RightToLeft => x >= crop.0,
        SensorDirection::TopToBottom => y < crop.3,
        SensorDirection::BottomToTop => y >= crop.1,
    }
}

/// The view after masking: pixels the crop does not keep become fully
/// transparent, their color channels stay.
pub open spec fn spec_mask(
    img: ImgView,
    crop: (u32, u32, u32, u32),
    direction: SensorDirection,
) -> ImgView {
    grid(
        img.width,
        img.height,
        |u: int, v: int|
            if spec_mask_keeps(u, v, crop, direction) {
                img.pixel(u, v)
            } else {
                Pixel { a: 0u8, ..img.pixel(u, v) }
            },
    )
}

/// Applies the progress crop mask: every pixel outside the kept region has
/// its alpha forced to zero.
pub fn apply_progress_mask(
    image: &mut Image,
    crop_rect: (u32, u32, u32, u32),
    direction: SensorDirection,
)
    requires
        old(image).wf(),
    ensures
        final(image).wf(),
        final(image)@ == spec_mask(old(image)@, crop_rect, direction),
{
    let ghost img0 = image@;
    let w = image.width();
    let h = image.height();
    let mut y: u32 = 0;
    while y < h
        invariant
            image.wf(),
            img0.wf(),
            image@.width == img0.width,
            image@.height == img0.height,
            w == img0.width,
            h == img0.height,
            0 <= y <= h,
            forall|u: int, v: int|
                img0.in_bounds(u, v) ==> #[trigger] image@.pixel(u, v) == (if v < y && !spec_mask_keeps(
                    u,
                    v,
                    crop_rect,
                    direction,
                ) {
                    Pixel { a: 0u8, ..img0.pixel(u, v) }
                } else {
                    img0.pixel(u, v)
                }),
        decreases h - y,
    {
        let mut x: u32 = 0;
        while x < w
            invariant
                image.wf(),
                img0.wf(),
                image@.width == img0.width,
                image@.height == img0.height,
                w == img0.width,
                h == img0.height,
                0 <= y < h,
                0 <= x <= w,
                forall|u: int, v: int|
                    img0.in_bounds(u, v) ==> #[trigger] image@.pixel(u, v) == (if (v < y || (v == y && u < x))
                        && !spec_mask_keeps(u, v, crop_rect, direction) {
                        Pixel { a: 0u8, ..img0.pixel(u, v) }
                    } else {
                        img0.pixel(u, v)
                    }),
            decreases w - x,
        {
            let keep = match direction {
                SensorDirection::LeftToRight => x < crop_rect.2,
                SensorDirection::RightToLeft => x >= crop_rect.0,
                SensorDirection::TopToBottom => y < crop_rect.3,
                SensorDirection::BottomToTop => y >= crop_rect.1,
            };
            if !keep {
                let p = image.px(x, y);
                image.set_px(x, y, Pixel { r: p.r, g: p.g, b: p.b, a: 0 });
            }
            x += 1;
        }
        y += 1;
    }
    proof {
        let g = spec_mask(img0, crop_rect, direction);
        assert forall|u: int, v: int| image@.in_bounds(u, v) implies image@.pixel(u, v) == g.pixel(
            u,
            v,
        ) by {
            lemma_grid_pixel(
                img0.width,
                img0.height,
                |u: int, v: int|
                    if spec_mask_keeps(u, v, crop_rect, direction) {
                        img0.pixel(u, v)
                    } else {
                        Pixel { a: 0u8, ..img0.pixel(u, v) }
                    },
                u,
                v,
            );
            assert(g.pixel(u, v) == (if spec_mask_keeps(u, v, crop_rect, direction) {
                img0.pixel(u, v)
            } else {
                Pixel { a: 0u8, ..img0.pixel(u, v) }
            }));
            assert(image@.pixel(u, v) == (if spec_mask_keeps(u, v, crop_rect, direction) {
                img0.pixel(u, v)
            } else {
                Pixel { a: 0u8, ..img0.pixel(u, v) }
            }));
        }
        lemma_view_ext(image@, g);
    }
}

/// A bounding box that covers every pixel with non-zero alpha, or nothing
/// when the image is fully transparent.
fn get_bounding_box(image: &Image) -> (r: Option<(u32, u32, u32, u32)>)
    requires
        image.wf(),
    ensures
        match r {
            Some(b) => b.0 <= b.2 < image@.width && b.1 <= b.3 < image@.height && forall|
                u: int,
                v: int,
            |
                image@.in_bounds(u, v) && #[trigger] image@.pixel(u, v).a > 0 ==> b.0 <= u <= b.2
                    && b.1 <= v <= b.3,
            None => forall|u: int, v: int|
                image@.in_bounds(u, v) ==> #[trigger] image@.pixel(u, v).a == 0,
        },
{
    let w = image.width();
    let h = image.height();
    let mut min_x: u32 = w;
    let mut min_y: u32 = h;
    let mut max_x: u32 = 0;
    let mut max_y: u32 = 0;
    let mut found = false;
    let mut y: u32 = 0;
    while y < h
        invariant
            image.wf(),
            w == image@.width,
            h == image@.height,
            0 <= y <= h,
            !found ==> forall|u: int, v: int|
                image@.in_bounds(u, v) && v < y ==> #[trigger] image@.pixel(u, v).a == 0,
            found ==> min_x <= max_x < w && min_y <= max_y < h,
            found ==> forall|u: int, v: int|
                image@.in_bounds(u, v) && v < y && #[trigger] image@.pixel(u, v).a > 0 ==> min_x
                    <= u <= max_x && min_y <= v <= max_y,
        decreases h - y,
    {
        let mut x: u32 = 0;
        while x < w
            invariant
                image.wf(),
                w == image@.width,
                h == image@.height,
                0 <= y < h,
                0 <= x <= w,
                !found ==> forall|u: int, v: int|
                    image@.in_bounds(u, v) && (v < y || (v == y && u < x))
                        ==> #[trigger] image@.pixel(u, v).a == 0,
                found ==> min_x <= max_x < w && min_y <= max_y < h,
                found ==> forall|u: int, v: int|
                    image@.in_bounds(u, v) && (v < y || (v == y && u < x))
                        && #[trigger] image@.pixel(u, v).a > 0 ==> min_x <= u <= max_x && min_y <= v
                        <= max_y,
            decreases w - x,
        {
            let p = image.px(x, y);
            if p.a > 0 {
                if !found {
                    found = true;
                    min_x = x;
                    max_x = x;
                    min_y = y;
                    max_y = y;
                } else {
                    if x < min_x {
                        min_x = x;
                    }
                    if x > max_x {
                        max_x = x;
                    }
                    if y < min_y {
                        min_y = y;
                    }
                    if y > max_y {
                        max_y = y;
                    }
                }
            }
            x += 1;
        }
        y += 1;
    }
    if found {
        Some((min_x, min_y, max_x, max_y))
    } else {
        None
    }
}

/// The view after compositing one layer over a background of the same
/// dimensions: wherever the layer has non-zero alpha it is blended
/// source-over, everywhere else the background stays.
pub open spec fn spec_composite(bg: ImgView, layer: ImgView) -> ImgView {
    grid(
        bg.width,
        bg.height,
        |u: int, v: int|
            if layer.pixel(u, v).a > 0 {
                spec_blend_pixel_floor(layer.pixel(u, v), bg.pixel(u, v))
            } else {
                bg.pixel(u, v)
            },
    )
}

/// Composites one layer onto the background, restricted to the bounding
/// box of its opaque pixels as a shortcut; fully transparent layer pixels
/// leave the background unchanged.
pub fn composite_layer(background: &mut Image, layer: &Image)
    requires
        old(background).wf(),
        layer.wf(),
        old(background)@.width == layer@.width,
        old(background)@.height == layer@.height,
    ensures
        final(background).wf(),
        final(background)@ == spec_composite(old(background)@, layer@),
{
    let ghost bg0 = background@;
    let bbox = get_bounding_box(layer);
    match bbox {
        None => {
            proof {
                let g = spec_composite(bg0, layer@);
                assert forall|u: int, v: int| background@.in_bounds(u, v) implies background@.pixel(
                    u,
                    v,
                ) == g.pixel(u, v) by {
                    lemma_grid_pixel(
                        bg0.width,
                        bg0.height,
                        |u: int, v: int|
                            if layer@.pixel(u, v).a > 0 {
                                spec_blend_pixel_floor(layer@.pixel(u, v), bg0.pixel(u, v))
                            } else {
                                bg0.pixel(u, v)
                            },
                        u,
                        v,
                    );
                    assert(layer@.pixel(u, v).a == 0);
                }
                lemma_view_ext(background@, g);
            }
        },
        Some(b) => {
            let (min_x, min_y, max_x, max_y) = b;
            let bw = background.width();
            let bh = background.height();
            let mut y: u32 = min_y;
            while y <= max_y
                invariant
                    background.wf(),
                    layer.wf(),
                    bg0.wf(),
                    background@.width == bg0.width,
                    background@.height == bg0.height,
                    layer@.width == bg0.width,
                    layer@.height == bg0.height,
                    bw == bg0.width,
                    bh == bg0.height,
                    min_x <= max_x < bg0.width,
                    min_y <= y,
                    min_y <= max_y < bg0.height,
                    y <= max_y + 1,
                    forall|u: int, v: int|
                        bg0.in_bounds(u, v) && #[trigger] layer@.pixel(u, v).a > 0 ==> min_x <= u
                            <= max_x && min_y <= v <= max_y,
                    forall|u: int, v: int|
                        bg0.in_bounds(u, v) ==> #[trigger] background@.pixel(u, v) == (if layer@.pixel(
                            u,
                            v,
                        ).a > 0 && v < y {
                            spec_blend_pixel_floor(layer@.pixel(u, v), bg0.pixel(u, v))
                        } else {
                            bg0.pixel(u, v)
                        }),
                decreases max_y + 1 - y,
            {
                let mut x: u32 = min_x;
                while x <= max_x
                    invariant
                        background.wf(),
                        layer.wf(),
                        bg0.wf(),
                        background@.width == bg0.width,
                        background@.height == bg0.height,
                        layer@.width == bg0.width,
                        layer@.height == bg0.height,
                        bw == bg0.width,
                        bh == bg0.height,
                        min_x <= x,
                        x <= max_x + 1,
                        min_x <= max_x < bg0.width,
                        min_y <= y <= max_y < bg0.height,
                        forall|u: int, v: int|
                            bg0.in_bounds(u, v) && #[trigger] layer@.pixel(u, v).a > 0 ==> min_x
                                <= u <= max_x && min_y <= v <= max_y,
                        forall|u: int, v: int|
                            bg0.in_bounds(u, v) ==> #[trigger] background@.pixel(u, v) == (if layer@.pixel(
                                u,
                                v,
                            ).a > 0 && (v < y || (v == y && u < x)) {
                                spec_blend_pixel_floor(layer@.pixel(u, v), bg0.pixel(u, v))
                            } else {
                                bg0.pixel(u, v)
                            }),
                    decreases max_x + 1 - x,
                {
                    let lp = layer.px(x, y);
                    if lp.a > 0 {
                        let q = background.px(x, y);
                        background.set_px(x, y, blend_pixel_floor(lp, q));
                    }
                    x += 1;
                }
                y += 1;
            }
            proof {
                let g = spec_composite(bg0, layer@);
                assert forall|u: int, v: int| background@.in_bounds(u, v) implies background@.pixel(
                    u,
                    v,
                ) == g.pixel(u, v) by {
                    lemma_grid_pixel(
                        bg0.width,
                        bg0.height,
                        |u: int, v: int|
                            if layer@.pixel(u, v).a > 0 {
                                spec_blend_pixel_floor(layer@.pixel(u, v), bg0.pixel(u, v))
                            } else {
                                bg0.pixel(u, v)
                            },
                        u,
                        v,
                    );
                    assert(g.pixel(u, v) == (if layer@.pixel(u, v).a > 0 {
                        spec_blend_pixel_floor(layer@.pixel(u, v), bg0.pixel(u, v))
                    } else {
                        bg0.pixel(u, v)
                    }));
                    assert(background@.pixel(u, v) == (if layer@.pixel(u, v).a > 0 {
                        spec_blend_pixel_floor(layer@.pixel(u, v), bg0.pixel(u, v))
                    } else {
                        bg0.pixel(u, v)
                    }));
                }
                lemma_view_ext(background@, g);
            }
        },
    }
}

/// Whether the doubled centered point `(ddx, ddy)` (twice the offset from
/// the image center) lies within the inscribed circle of a `w` by `h`
/// image: the radius is half the smaller dimension.
pub open spec fn spec_in_circle(ddx: int, ddy: int, w: int, h: int) -> bool {
    ddx * ddx + ddy * ddy <= (if w <= h {
        w
    } else {
        h
    }) * (if w <= h {
        w
    } else {
        h
    })
}

/// Whether the polar angle of the doubled centered point lies in the
/// clockwise sector from `start_mdeg` to `end_mdeg` (angles normalized
/// into one turn, wrapping when the end precedes the start), decided by
/// integer cross products against the fixed-point sector boundary rays.
pub open spec fn spec_in_sector(ddx: int, ddy: int, start_mdeg: int, end_mdeg: int) -> bool {
    let s = start_mdeg % 360000;
    let e = end_mdeg % 360000;
    let sweep = if e >= s {
        e - s
    } else {
        e - s + 360000
    };
    let cs = spec_cos_mdeg(s);
    let sn = spec_sin_mdeg(s);
    let px = cs * ddx + sn * ddy;
    let py = cs * ddy - sn * ddx;
    let csw = spec_cos_mdeg(sweep);
    let ssw = spec_sin_mdeg(sweep);
    if sweep <= 180000 {
        py >= 0 && px * ssw - py * csw >= 0
    } else {
        !(csw * py - ssw * px > 0 && py < 0)
    }
}

/// Whether source pixel `(sx, sy)` belongs to the drawn pie slice: inside
/// the inscribed circle and inside the angular sector.
pub open spec fn spec_sector_covers(
    src: ImgView,
    sx: int,
    sy: int,
    start_mdeg: int,
    end_mdeg: int,
) -> bool {
    let ddx = 2 * sx - src.width;
    let ddy = 2 * sy - src.height;
    spec_in_circle(ddx, ddy, src.width as int, src.height as int) && spec_in_sector(
        ddx,
        ddy,
        start_mdeg,
        end_mdeg,
    )
}

/// The view after drawing a pie slice of `src` into `layer` centered at
/// `(cx, cy)`: covered source pixels are blended rounded source-over.
pub open spec fn spec_draw_pie(
    layer: ImgView,
    src: ImgView,
    cx: int,
    cy: int,
    start_mdeg: int,
    end_mdeg: int,
) -> ImgView {
    grid(
        layer.width,
        layer.height,
        |u: int, v: int|
            {
                let sx = u - cx + src.width / 2;
                let sy = v - cy + src.height / 2;
                if src.in_bounds(sx, sy) && spec_sector_covers(src, sx, sy, start_mdeg, end_mdeg) {
                    spec_blend_pixel_round(src.pixel(sx, sy), layer.pixel(u, v))
                } else {
                    layer.pixel(u, v)
                }
            },
    )
}

fn in_sector(ddx: i64, ddy: i64, start_mdeg: i64, end_mdeg: i64) -> (r: bool)
    requires
        -4000000 <= ddx <= 4000000,
        -4000000 <= ddy <= 4000000,
        -2000000000000 <= start_mdeg <= 2000000000000,
        -2000000000000 <= end_mdeg <= 2000000000000,
    ensures
        r == spec_in_sector(ddx as int, ddy as int, start_mdeg as int, end_mdeg as int),
{
    let s = crate::trig::norm_mdeg(start_mdeg);
    let e = crate::trig::norm_mdeg(end_mdeg);
    let sweep = if e >= s {
        e - s
    } else {
        e - s + 360000
    };
    let cs = cos_mdeg(s);
    let sn = sin_mdeg(s);
    proof {
        assert(-140000000000 <= cs as int * ddx as int <= 140000000000 && -140000000000 <= cs as int
            * ddy as int <= 140000000000 && -140000000000 <= sn as int * ddx as int
            <= 140000000000 && -140000000000 <= sn as int * ddy as int <= 140000000000)
            by (nonlinear_arith)
            requires
                -32768 <= cs <= 32768,
                -32768 <= sn <= 32768,
                -4000000 <= ddx <= 4000000,
                -4000000 <= ddy <= 4000000,
        ;
    }
    let px = cs * ddx + sn * ddy;
    let py = cs * ddy - sn * ddx;
    let csw = cos_mdeg(sweep);
    let ssw = sin_mdeg(sweep);
    proof {
        assert(-9200000000000000 <= px as int * ssw as int <= 9200000000000000 && -9200000000000000
            <= py as int * csw as int <= 9200000000000000 && -9200000000000000 <= csw as int
            * py as int <= 9200000000000000 && -9200000000000000 <= ssw as int * px as int
            <= 9200000000000000) by (nonlinear_arith)
            requires
                -32768 <= csw <= 32768,
                -32768 <= ssw <= 32768,
                -280000000000 <= px <= 280000000000,
                -280000000000 <= py <= 280000000000,
        ;
    }
    if sweep <= 180000 {
        py >= 0 && px * ssw - py * csw >= 0
    } else {
        !(csw * py - ssw * px > 0 && py < 0)
    }
}

/// Draws the pie-slice sector of `source` whose polar angles lie between
/// `start_mdeg` and `end_mdeg` into `layer`, centered at `(center_x,
/// center_y)`, blending covered pixels rounded source-over.  Angles are
/// measured from the 3-o'clock position increasing clockwise.
pub fn draw_pie_slice(
    layer: &mut Image,
    source: &Image,
    center_x: i32,
    center_y: i32,
    start_mdeg: i64,
    end_mdeg: i64,
)
    requires
        old(layer).wf(),
        source.wf(),
        old(layer)@.width <= 1000000,
        old(layer)@.height <= 1000000,
        source@.width <= 1000000,
        source@.height <= 1000000,
        -100000000 <= center_x <= 100000000,
        -100000000 <= center_y <= 100000000,
        -2000000000000 <= start_mdeg <= 2000000000000,
        -2000000000000 <= end_mdeg <= 2000000000000,
    ensures
        final(layer).wf(),
        final(layer)@ == spec_draw_pie(
            old(layer)@,
            source@,
            center_x as int,
            center_y as int,
            start_mdeg as int,
            end_mdeg as int,
        ),
{
    let ghost lay0 = layer@;
    let sw = source.width();
    let sh = source.height();
    let lw = layer.width();
    let lh = layer.height();
    let mut sy: u32 = 0;
    while sy < sh
        invariant
            layer.wf(),
            source.wf(),
            lay0.wf(),
            layer@.width == lay0.width,
            layer@.height == lay0.height,
            lw == lay0.width,
            lh == lay0.height,
            sw == source@.width,
            sh == source@.height,
            lw <= 1000000,
            lh <= 1000000,
            sw <= 1000000,
            sh <= 1000000,
            0 <= sy <= sh,
            -100000000 <= center_x <= 100000000,
            -100000000 <= center_y <= 100000000,
            -2000000000000 <= start_mdeg <= 2000000000000,
            -2000000000000 <= end_mdeg <= 2000000000000,
            forall|u: int, v: int|
                lay0.in_bounds(u, v) ==> #[trigger] layer@.pixel(u, v) == ({
                    let px = u - center_x + source@.width / 2;
                    let py = v - center_y + source@.height / 2;
                    if source@.in_bounds(px, py) && py < sy && spec_sector_covers(
                        source@,
                        px,
                        py,
                        start_mdeg as int,
                        end_mdeg as int,
                    ) {
                        spec_blend_pixel_round(source@.pixel(px, py), lay0.pixel(u, v))
                    } else {
                        lay0.pixel(u, v)
                    }
                }),
        decreases sh - sy,
    {
        let mut sx: u32 = 0;
        while sx < sw
            invariant
                layer.wf(),
                source.wf(),
                lay0.wf(),
                layer@.width == lay0.width,
                layer@.height == lay0.height,
                lw == lay0.width,
                lh == lay0.height,
                sw == source@.width,
                sh == source@.height,
                lw <= 1000000,
                lh <= 1000000,
                sw <= 1000000,
                sh <= 1000000,
                0 <= sy < sh,
                0 <= sx <= sw,
                -100000000 <= center_x <= 100000000,
                -100000000 <= center_y <= 100000000,
                -2000000000000 <= start_mdeg <= 2000000000000,
                -2000000000000 <= end_mdeg <= 2000000000000,
                forall|u: int, v: int|
                    lay0.in_bounds(u, v) ==> #[trigger] layer@.pixel(u, v) == ({
                        let px = u - center_x + source@.width / 2;
                        let py = v - center_y + source@.height / 2;
                        if source@.in_bounds(px, py) && (py < sy || (py == sy && px < sx))
                            && spec_sector_covers(
                            source@,
                            px,
                            py,
                            start_mdeg as int,
                            end_mdeg as int,
                        ) {
                            spec_blend_pixel_round(source@.pixel(px, py), lay0.pixel(u, v))
                        } else {
                            lay0.pixel(u, v)
                        }
                    }),
            decreases sw - sx,
        {
            let ddx = 2 * (sx as i64) - sw as i64;
            let ddy = 2 * (sy as i64) - sh as i64;
            proof {
                assert(0 <= (sw as int) * (sw as int) <= 1000000000000 && 0 <= (sh as int) * (
                sh as int) <= 1000000000000) by (nonlinear_arith)
                    requires
                        0 <= sw <= 1000000,
                        0 <= sh <= 1000000,
                ;
                assert(0 <= ddx as int * ddx as int <= 16000000000000 && 0 <= ddy as int
                    * ddy as int <= 16000000000000) by (nonlinear_arith)
                    requires
                        -4000000 <= ddx <= 4000000,
                        -4000000 <= ddy <= 4000000,
                ;
            }
            let radius2 = {
                let m = if sw <= sh {
                    sw as i64
                } else {
                    sh as i64
                };
                m * m
            };
            let covered = ddx * ddx + ddy * ddy <= radius2 && in_sector(
                ddx,
                ddy,
                start_mdeg,
                end_mdeg,
            );
            proof {
                assert(covered == spec_sector_covers(
                    source@,
                    sx as int,
                    sy as int,
                    start_mdeg as int,
                    end_mdeg as int,
                ));
            }
            if covered {
                let tx = (center_x as i64) + (sx as i64) - ((sw / 2) as i64);
                let ty = (center_y as i64) + (sy as i64) - ((sh / 2) as i64);
                if tx >= 0 && ty >= 0 && tx < lw as i64 && ty < lh as i64 {
                    let p = source.px(sx, sy);
                    let q = layer.px(tx as u32, ty as u32);
                    layer.set_px(tx as u32, ty as u32, blend_pixel_round(p, q));
                    proof {
                        assert(tx as int - center_x + source@.width / 2 == sx as int);
                        assert(ty as int - center_y + source@.height / 2 == sy as int);
                    }
                }
            }
            proof {
                assert forall|u: int, v: int| lay0.in_bounds(u, v) implies #[trigger] layer@.pixel(
                    u,
                    v,
                ) == ({
                    let px = u - center_x + source@.width / 2;
                    let py = v - center_y + source@.height / 2;
                    if source@.in_bounds(px, py) && (py < sy || (py == sy && px < sx + 1))
                        && spec_sector_covers(
                        source@,
                        px,
                        py,
                        start_mdeg as int,
                        end_mdeg as int,
                    ) {
                        spec_blend_pixel_round(source@.pixel(px, py), lay0.pixel(u, v))
                    } else {
                        lay0.pixel(u, v)
                    }
                }) by {
                    let px = u - center_x + source@.width / 2;
                    let py = v - center_y + source@.height / 2;
                    if px == sx && py == sy {
                    }
                }
            }
            sx += 1;
        }
        sy += 1;
    }
    proof {
        let g = spec_draw_pie(
            lay0,
            source@,
            center_x as int,
            center_y as int,
            start_mdeg as int,
            end_mdeg as int,
        );
        assert forall|u: int, v: int| layer@.in_bounds(u, v) implies layer@.pixel(u, v) == g.pixel(
            u,
            v,
        ) by {
            lemma_grid_pixel(
                lay0.width,
                lay0.height,
                |u: int, v: int|
                    {
                        let sx = u - center_x + source@.width / 2;
                        let sy = v - center_y + source@.height / 2;
                        if source@.in_bounds(sx, sy) && spec_sector_covers(
                            source@,
                            sx,
                            sy,
                            start_mdeg as int,
                            end_mdeg as int,
                        ) {
                            spec_blend_pixel_round(source@.pixel(sx, sy), lay0.pixel(u, v))
                        } else {
                            lay0.pixel(u, v)
                        }
                    },
                u,
                v,
            );
        }
        lemma_view_ext(layer@, g);
    }
}

/// Scale of the progress ratio: this value stands for 100%.
pub const PROGRESS_SCALE: i64 = 1000000;

/// The clamped progress ratio of a value within a gauge range, scaled by
/// `PROGRESS_SCALE`: 0 at or below the minimum, full scale at or above the
/// maximum, linear in between.
pub open spec fn spec_progress(v: int, min: int, max: int) -> int {
    if v <= min {
        0
    } else if v >= max {
        1000000
    } else {
        (v - min) * 1000000 / (max - min)
    }
}

/// The progress ratio never leaves `[0, PROGRESS_SCALE]`.
pub proof fn lemma_progress_bounds(v: int, min: int, max: int)
    requires
        min < max,
    ensures
        0 <= spec_progress(v, min, max) <= 1000000,
{
    if v <= min {
    } else if v >= max {
    } else {
        let num = (v - min) * 1000000;
        let den = max - min;
        assert(0 <= num <= 1000000 * den) by (nonlinear_arith)
            requires
                min < v < max,
                num == (v - min) * 1000000,
                den == max - min,
        ;
        assert(0 <= num / den <= 1000000) by (nonlinear_arith)
            requires
                0 <= num <= 1000000 * den,
                den > 0,
        ;
    }
}

/// Progress is monotonic in the value: a larger reading never yields a
/// smaller ratio.
pub proof fn lemma_progress_monotonic(v1: int, v2: int, min: int, max: int)
    requires
        min < max,
        v1 <= v2,
    ensures
        spec_progress(v1, min, max) <= spec_progress(v2, min, max),
{
    lemma_progress_bounds(v1, min, max);
    lemma_progress_bounds(v2, min, max);
    if min < v1 && v2 < max {
        let n1 = (v1 - min) * 1000000;
        let n2 = (v2 - min) * 1000000;
        assert(n1 <= n2) by (nonlinear_arith)
            requires
                v1 <= v2,
                n1 == (v1 - min) * 1000000,
                n2 == (v2 - min) * 1000000,
        ;
        assert(n1 / (max - min) <= n2 / (max - min)) by (nonlinear_arith)
            requires
                n1 <= n2,
                max - min > 0,
        ;
    }
}

/// The clamped progress ratio, scaled by `PROGRESS_SCALE`.
pub fn progress_scaled(v: i64, min: i64, max: i64) -> (r: i64)
    requires
        min < max,
        -2000000000000000000 <= v <= 2000000000000000000,
        -1000000000000 <= min <= 1000000000000,
        -1000000000000 <= max <= 1000000000000,
    ensures
        r == spec_progress(v as int, min as int, max as int),
        0 <= r <= 1000000,
{
    proof {
        lemma_progress_bounds(v as int, min as int, max as int);
    }
    if v <= min {
        0
    } else if v >= max {
        PROGRESS_SCALE
    } else {
        let num = (v - min) * PROGRESS_SCALE;
        num / (max - min)
    }
}

/// The value of a big-endian digit sequence.
pub open spec fn digits_val(ds: Seq<u8>) -> int
    decreases ds.len(),
{
    if ds.len() == 0 {
        0
    } else {
        digits_val(ds.drop_last()) * 10 + ds.last()
    }
}

/// The milli-unit contribution of the decimal digits: the first three
/// decimal places, rounded half away from zero on the fourth.
pub open spec fn spec_milli_frac(fr: Seq<u8>) -> int {
    let f3 = if fr.len() >= 3 {
        fr.take(3)
    } else {
        fr + crate::format_value::zero_digits(3 - fr.len())
    };
    digits_val(f3) + if fr.len() > 3 && fr[3] >= 5 {
        1int
    } else {
        0int
    }
}

/// The gauge reading of a decimal value string, in milli-units: the value
/// times 1000, with the decimal part rounded at the third place; a
/// magnitude of more than fifteen integer digits saturates.
pub open spec fn spec_parse_milli(s: Seq<char>) -> Option<int> {
    if !spec_parseable(s) {
        None
    } else {
        let ints = crate::format_value::spec_int_digits(s);
        let mag = if digits_val(ints) > 1000000000000000 {
            1000000000000000000int
        } else {
            digits_val(ints) * 1000 + spec_milli_frac(crate::format_value::spec_frac_digits(s))
        };
        Some(
            if crate::format_value::spec_neg(s) {
                -mag
            } else {
                mag
            },
        )
    }
}

proof fn lemma_digits_val_bounds(ds: Seq<u8>)
    requires
        digits_in_range(ds),
    ensures
        digits_val(ds) >= 0,
        ds.len() > 0 ==> digits_val(ds) >= digits_val(ds.drop_last()),
    decreases ds.len(),
{
    if ds.len() == 0 {
    } else {
        assert(digits_in_range(ds.drop_last())) by {
            assert(forall|i: int| 0 <= i < ds.len() - 1 ==> ds.drop_last()[i] == ds[i]);
        }
        lemma_digits_val_bounds(ds.drop_last());
        assert(digits_val(ds) == digits_val(ds.drop_last()) * 10 + ds.last());
        assert(digits_val(ds.drop_last()) * 10 >= digits_val(ds.drop_last())) by (nonlinear_arith)
            requires
                digits_val(ds.drop_last()) >= 0,
        ;
    }
}

/// Reads a decimal value string as a gauge reading in milli-units.
pub fn parse_scaled_milli(value: &str) -> (r: Option<i64>)
    ensures
        match r {
            Some(m) => spec_parse_milli(value@) == Some(m as int) && -2000000000000000000 <= m
                <= 2000000000000000000,
            None => spec_parse_milli(value@) is None,
        },
{
    match parse_decimal(value) {
        None => None,
        Some(p) => {
            let ghost ints = p.int_digits@;
            let n = p.int_digits.len();
            let mut acc: i64 = 0;
            let mut sat = false;
            let mut i: usize = 0;
            while i < n
                invariant
                    0 <= i <= n,
                    n == ints.len(),
                    p.int_digits@ == ints,
                    digits_in_range(ints),
                    !sat ==> acc == digits_val(ints.take(i as int)) && 0 <= acc
                        <= 1000000000000000,
                    sat ==> digits_val(ints.take(i as int)) > 1000000000000000,
                decreases n - i,
            {
                let d = p.int_digits[i];
                proof {
                    assert(ints.take(i + 1).drop_last() =~= ints.take(i as int));
                    assert(ints.take(i + 1).last() == d);
                    assert(digits_in_range(ints.take(i + 1))) by {
                        assert(forall|k: int|
                            0 <= k < i + 1 ==> ints.take(i + 1)[k] == ints[k]);
                    }
                    lemma_digits_val_bounds(ints.take(i + 1));
                }
                if sat {
                    proof {
                        assert(digits_val(ints.take(i + 1)) >= digits_val(ints.take(i as int)) * 10)
                            by (nonlinear_arith)
                            requires
                                digits_val(ints.take(i + 1)) == digits_val(ints.take(i as int)) * 10
                                    + ints.take(i + 1).last(),
                                ints.take(i + 1).last() >= 0,
                        ;
                        assert(digits_val(ints.take(i as int)) * 10 > 1000000000000000)
                            by (nonlinear_arith)
                            requires
                                digits_val(ints.take(i as int)) > 1000000000000000,
                        ;
                    }
                } else {
                    let next = acc * 10 + (d as i64);
                    if next > 1000000000000000 {
                        sat = true;
                    } else {
                        acc = next;
                    }
                }
                i += 1;
            }
            proof {
                assert(ints.take(n as int) =~= ints);
            }
            let mag: i64 = if sat {
                1000000000000000000
            } else {
                // milli fraction of the first three decimal digits, with
                // the fourth rounding half away from zero
                let fr = &p.frac_digits;
                let ghost frs = p.frac_digits@;
                let f0: i64 = if fr.len() > 0 {
                    fr[0] as i64
                } else {
                    0
                };
                let f1: i64 = if fr.len() > 1 {
                    fr[1] as i64
                } else {
                    0
                };
                let f2: i64 = if fr.len() > 2 {
                    fr[2] as i64
                } else {
                    0
                };
                let round_up: i64 = if fr.len() > 3 && fr[3] >= 5 {
                    1
                } else {
                    0
                };
                let frac = f0 * 100 + f1 * 10 + f2 + round_up;
                proof {
                    let f3 = if frs.len() >= 3 {
                        frs.take(3)
                    } else {
                        frs + crate::format_value::zero_digits(3 - frs.len())
                    };
                    assert(f3.len() == 3);
                    assert(f3[0] == f0 && f3[1] == f1 && f3[2] == f2);
                    assert(f3.last() == f3[2]);
                    assert(digits_val(f3) == digits_val(f3.drop_last()) * 10 + f3[2]);
                    assert(f3.drop_last().len() == 2);
                    assert(f3.drop_last().last() == f3[1]);
                    assert(digits_val(f3.drop_last()) == digits_val(f3.drop_last().drop_last()) * 10
                        + f3[1]);
                    assert(f3.drop_last().drop_last().len() == 1);
                    assert(f3.drop_last().drop_last().last() == f3[0]);
                    assert(digits_val(f3.drop_last().drop_last()) == digits_val(
                        f3.drop_last().drop_last().drop_last(),
                    ) * 10 + f3[0]);
                    assert(f3.drop_last().drop_last().drop_last().len() == 0);
                    assert(digits_val(f3.drop_last().drop_last().drop_last()) == 0);
                    assert(digits_val(f3) == (f3[0] * 10 + f3[1]) * 10 + f3[2]);
                    assert(frac == spec_milli_frac(frs));
                }
                acc * 1000 + frac
            };
            if p.neg {
                Some(-mag)
            } else {
                Some(mag)
            }
        },
    }
}

/// The start and end angles of the arc gauge, in millidegrees: clockwise
/// sweeps start at the configured start angle, counter-clockwise sweeps
/// cover the complement; both are shifted a quarter turn so 0 degrees in
/// the configuration points upward.
pub open spec fn spec_fan_angles(
    min_angle: int,
    max_angle: int,
    progress: int,
    direction: SensorDirection,
) -> (int, int) {
    let sweep = (max_angle - min_angle) * 1000 * progress / 1000000;
    if direction == SensorDirection::LeftToRight {
        (min_angle * 1000 - 90000, min_angle * 1000 + sweep - 90000)
    } else {
        (360000 - min_angle * 1000 - sweep - 90000, 360000 - min_angle * 1000 - 90000)
    }
}

/// The arc gauge's start and end angles in millidegrees.
pub fn fan_angles(min_angle: i32, max_angle: i32, progress: i64, direction: SensorDirection) -> (r:
    (i64, i64))
    requires
        -1000000 <= min_angle <= 1000000,
        -1000000 <= max_angle <= 1000000,
        0 <= progress <= 1000000,
    ensures
        r.0 == spec_fan_angles(min_angle as int, max_angle as int, progress as int, direction).0,
        r.1 == spec_fan_angles(min_angle as int, max_angle as int, progress as int, direction).1,
        -2000000000000 <= r.0 <= 2000000000000,
        -2000000000000 <= r.1 <= 2000000000000,
{
    let span = (max_angle as i64 - min_angle as i64) * 1000;
    proof {
        assert(-2000000000 * 1000000 <= span as int * progress as int <= 2000000000 * 1000000)
            by (nonlinear_arith)
            requires
                -2000000000 <= span <= 2000000000,
                0 <= progress <= 1000000,
        ;
    }
    let sweep = div_floor(span * progress, 1000000);
    proof {
        vstd::arithmetic::div_mod::lemma_fundamental_div_mod(span as int * progress as int, 1000000);
        assert(-2000000001 <= sweep <= 2000000001);
    }
    if matches!(direction, SensorDirection::LeftToRight) {
        (
            (min_angle as i64) * 1000 - 90000,
            (min_angle as i64) * 1000 + sweep - 90000,
        )
    } else {
        (
            360000 - (min_angle as i64) * 1000 - sweep - 90000,
            360000 - (min_angle as i64) * 1000 - 90000,
        )
    }
}

/// The pointer's rotation angle in millidegrees: linear over the angle
/// range by progress, with both angles negated for the counter-clockwise
/// direction.
pub open spec fn spec_pointer_angle(
    min_angle: int,
    max_angle: int,
    progress: int,
    direction: SensorDirection,
) -> int {
    let mn = if direction == SensorDirection::RightToLeft {
        -min_angle
    } else {
        min_angle
    };
    let mx = if direction == SensorDirection::RightToLeft {
        -max_angle
    } else {
        max_angle
    };
    mn * 1000 + (mx - mn) * 1000 * progress / 1000000
}

/// The pointer's rotation angle in millidegrees.
pub fn pointer_angle_mdeg(
    min_angle: i32,
    max_angle: i32,
    progress: i64,
    direction: SensorDirection,
) -> (r: i64)
    requires
        -1000000 <= min_angle <= 1000000,
        -1000000 <= max_angle <= 1000000,
        0 <= progress <= 1000000,
    ensures
        r == spec_pointer_angle(min_angle as int, max_angle as int, progress as int, direction),
        -4000000000 <= r <= 4000000000,
{
    let mn: i64 = if matches!(direction, SensorDirection::RightToLeft) {
        -(min_angle as i64)
    } else {
        min_angle as i64
    };
    let mx: i64 = if matches!(direction, SensorDirection::RightToLeft) {
        -(max_angle as i64)
    } else {
        max_angle as i64
    };
    let span = (mx - mn) * 1000;
    proof {
        assert(-2000000000 * 1000000 <= span as int * progress as int <= 2000000000 * 1000000)
            by (nonlinear_arith)
            requires
                -2000000000 <= span <= 2000000000,
                0 <= progress <= 1000000,
        ;
    }
    let sweep = div_floor(span * progress, 1000000);
    proof {
        vstd::arithmetic::div_mod::lemma_fundamental_div_mod(span as int * progress as int, 1000000);
        assert(-2000000001 <= sweep <= 2000000001);
    }
    mn * 1000 + sweep
}

/// Millidegrees rounded to whole degrees, half away from zero.
pub open spec fn spec_round_mdeg(a: int) -> int {
    if a >= 0 {
        (a + 500) / 1000
    } else {
        -((-a + 500) / 1000)
    }
}

/// Rounds millidegrees to whole degrees, half away from zero.
pub fn round_mdeg_to_deg(a: i64) -> (r: i64)
    requires
        -4000000000 <= a <= 4000000000,
    ensures
        r == spec_round_mdeg(a as int),
{
    if a >= 0 {
        (a + 500) / 1000
    } else {
        -((-a + 500) / 1000)
    }
}

/// Division truncated toward zero, as the pivot projection uses it.
pub open spec fn spec_div_trunc(a: int, b: int) -> int {
    if a >= 0 {
        a / b
    } else {
        -((-a) / b)
    }
}

/// The pivot offset of the pointer: the configured pivot vector rotated by
/// the pointer angle, in whole pixels truncated toward zero.
pub open spec fn spec_pointer_offset(xz_x: int, xz_y: int, angle_mdeg: int) -> (int, int) {
    let c = spec_cos_mdeg(angle_mdeg);
    let s = spec_sin_mdeg(angle_mdeg);
    (spec_div_trunc(xz_x * c - xz_y * s, 32768), spec_div_trunc(xz_x * s + xz_y * c, 32768))
}

/// The pivot offset of the pointer after rotation by the given angle.
pub fn pointer_offset(xz_x: i32, xz_y: i32, angle_mdeg: i64) -> (r: (i64, i64))
    requires
        -1000000 <= xz_x <= 1000000,
        -1000000 <= xz_y <= 1000000,
        -2000000000000 <= angle_mdeg <= 2000000000000,
    ensures
        r.0 == spec_pointer_offset(xz_x as int, xz_y as int, angle_mdeg as int).0,
        r.1 == spec_pointer_offset(xz_x as int, xz_y as int, angle_mdeg as int).1,
        -100000000 <= r.0 <= 100000000,
        -100000000 <= r.1 <= 100000000,
{
    let c = cos_mdeg(angle_mdeg);
    let s = sin_mdeg(angle_mdeg);
    proof {
        assert(-32768000000 <= xz_x as int * c as int <= 32768000000 && -32768000000 <= xz_y as int
            * s as int <= 32768000000 && -32768000000 <= xz_x as int * s as int <= 32768000000
            && -32768000000 <= xz_y as int * c as int <= 32768000000) by (nonlinear_arith)
            requires
                -32768 <= c <= 32768,
                -32768 <= s <= 32768,
                -1000000 <= xz_x <= 1000000,
                -1000000 <= xz_y <= 1000000,
        ;
    }
    let tx = (xz_x as i64) * c - (xz_y as i64) * s;
    let ty = (xz_x as i64) * s + (xz_y as i64) * c;
    let ox = if tx >= 0 {
        tx / 32768
    } else {
        -((-tx) / 32768)
    };
    let oy = if ty >= 0 {
        ty / 32768
    } else {
        -((-ty) / 32768)
    };
    (ox, oy)
}

/// The horizontal draw origin of a text run: aligned left, centered, or
/// right within the sensor's box.
pub open spec fn spec_text_origin_x(align: TextAlign, x: int, width: int, text_w: int) -> int {
    match align {
        TextAlign::Left => x,
        TextAlign::Center => x + width / 2 - text_w / 2,
        TextAlign::Right => x + width - text_w,
    }
}

/// The vertical draw origin of a text run: vertically centered with the
/// empirical compensation for the font's internal padding.
pub open spec fn spec_text_origin_y(y: int, height: int, text_h: int) -> int {
    y + height / 2 - (text_h * 13333) / 20000
}

/// The draw origin of a measured text run within a sensor's box.
pub fn text_origin(align: TextAlign, x: i32, width: i32, y: i32, height: i32, text_w: u32, text_h:
    u32) -> (r: (i32, i32))
    requires
        -10000000 <= x <= 10000000,
        0 <= width <= 10000000,
        -10000000 <= y <= 10000000,
        0 <= height <= 10000000,
        text_w <= 10000000,
        text_h <= 10000000,
    ensures
        r.0 == spec_text_origin_x(align, x as int, width as int, text_w as int),
        r.1 == spec_text_origin_y(y as int, height as int, text_h as int),
{
    let ox: i64 = match align {
        TextAlign::Left => x as i64,
        TextAlign::Center => (x as i64) + (width as i64) / 2 - (text_w as i64) / 2,
        TextAlign::Right => (x as i64) + (width as i64) - (text_w as i64),
    };
    let oy: i64 = (y as i64) + (height as i64) / 2 - ((text_h as i64) * 13333) / 20000;
    proof {
        assert(0 <= (text_h as int) * 13333 <= 10000000 * 13333) by (nonlinear_arith)
            requires
                0 <= text_h <= 10000000,
        ;
    }
    (ox as i32, oy as i32)
}

/// One text run to rasterize: the formatted value with the sensor's font
/// and layout parameters.  Glyph rasterization happens outside the core;
/// `text_origin` places the measured run.
#[derive(Debug, Clone)]
pub struct TextSpec {
    /// The formatted text, unit included.
    pub text: String,
    /// Font family name, if the sensor configures one.
    pub font_family: Option<String>,
    /// Font size in points.
    pub font_size: i32,
    /// Text color.
    pub color: FontColor,
    /// Horizontal alignment within the sensor box.
    pub align: TextAlign,
    pub x: i32,
    pub y: i32,
    pub width: i32,
    pub height: i32,
}

/// Mathematical contents of a text run.
pub struct TextSpecView {
    pub text: Seq<char>,
    pub font_family: Option<Seq<char>>,
    pub font_size: int,
    pub color: FontColor,
    pub align: TextAlign,
    pub x: int,
    pub y: int,
    pub width: int,
    pub height: int,
}

impl View for TextSpec {
    type V = TextSpecView;

    open spec fn view(&self) -> TextSpecView {
        TextSpecView {
            text: self.text@,
            font_family: match self.font_family {
                Some(f) => Some(f@),
                None => None,
            },
            font_size: self.font_size as int,
            color: self.color,
            align: self.align,
            x: self.x as int,
            y: self.y as int,
            width: self.width as int,
            height: self.height as int,
        }
    }
}

/// The gauge minimum of a sensor, in milli-units; 0 when absent.
pub open spec fn spec_gauge_min(s: Sensor) -> int {
    match s.min_value {
        Some(v) => v as int,
        None => 0,
    }
}

/// The gauge maximum of a sensor, in milli-units; 100000 (the value 100)
/// when absent.
pub open spec fn spec_gauge_max(s: Sensor) -> int {
    match s.max_value {
        Some(v) => v as int,
        None => 100000,
    }
}

/// The start angle of an angular sensor, in degrees; 0 when absent.
pub open spec fn spec_min_angle(s: Sensor) -> int {
    match s.min_angle {
        Some(v) => v as int,
        None => 0,
    }
}

/// The end angle of an arc sensor, in degrees; 180 when absent.
pub open spec fn spec_fan_max_angle(s: Sensor) -> int {
    match s.max_angle {
        Some(v) => v as int,
        None => 180,
    }
}

/// The end angle of a pointer sensor, in degrees; 360 when absent.
pub open spec fn spec_pointer_max_angle(s: Sensor) -> int {
    match s.max_angle {
        Some(v) => v as int,
        None => 360,
    }
}

/// The decimal-digit count of a text sensor: absent and negative counts
/// mean whole numbers.
pub open spec fn spec_decimals(s: Sensor) -> int {
    match s.decimal_digits {
        Some(d) => if d >= 0 {
            d as int
        } else {
            0
        },
        None => 0,
    }
}

/// The requested cache size for a pointer picture: both dimensions must be
/// configured and usable.
pub open spec fn spec_pointer_size(s: Sensor) -> Option<(u32, u32)> {
    match (s.width, s.height) {
        (Some(w), Some(h)) => if w >= 0 && h >= 0 {
            Some((w as u32, h as u32))
        } else {
            None
        },
        _ => None,
    }
}

/// The text run of a text sensor for a formatted value: the value is
/// formatted with the sensor's digit policy and the unit appended, the
/// layout parameters are the sensor's with their documented defaults.
pub open spec fn spec_text_spec(s: Sensor, value: Seq<char>, unit: Seq<char>) -> TextSpecView {
    TextSpecView {
        text: crate::format_value::spec_format_value(
            value,
            <IntegerDigits as vstd::std_specs::convert::FromSpec<Option<i32>>>::from_spec(
                s.integer_digits,
            ),
            spec_decimals(s),
            unit,
        ),
        font_family: match s.font_family {
            Some(f) => Some(f@),
            None => None,
        },
        font_size: match s.font_size {
            Some(z) => z as int,
            None => 14,
        },
        color: match s.font_color {
            Some(c) => c,
            None => FontColor { r: 255, g: 255, b: 255 },
        },
        align: match s.text_align {
            Some(a) => a,
            None => TextAlign::Left,
        },
        x: s.x as int,
        y: s.y as int,
        width: match s.width {
            Some(w) => w as int,
            None => 0,
        },
        height: match s.height {
            Some(h) => h as int,
            None => 0,
        },
    }
}

/// Builds the text run of a text sensor.
pub fn text_spec(s: &Sensor, value: &str, unit: &str) -> (r: TextSpec)
    ensures
        r@ == spec_text_spec(*s, value@, unit@),
{
    let digits = IntegerDigits::from(s.integer_digits);
    let decimals: usize = match s.decimal_digits {
        Some(d) => if d >= 0 {
            d as usize
        } else {
            0
        },
        None => 0,
    };
    let text = crate::format_value::format_value(value, digits, decimals, unit);
    TextSpec {
        text,
        font_family: match &s.font_family {
            Some(f) => Some(f.clone()),
            None => None,
        },
        font_size: match s.font_size {
            Some(z) => z,
            None => 14,
        },
        color: match s.font_color {
            Some(c) => c,
            None => FontColor { r: 255, g: 255, b: 255 },
        },
        align: match s.text_align {
            Some(a) => a,
            None => TextAlign::Left,
        },
        x: s.x,
        y: s.y,
        width: match s.width {
            Some(w) => w,
            None => 0,
        },
        height: match s.height {
            Some(h) => h,
            None => 0,
        },
    }
}

/// A fully transparent view.
pub open spec fn blank(w: nat, h: nat) -> ImgView {
    grid(w, h, |x: int, y: int| spec_transparent())
}

fn blank_layer(w: u32, h: u32) -> (r: Image)
    requires
        w <= 65535,
        h <= 65535,
    ensures
        r.wf(),
        r@ == blank(w as nat, h as nat),
{
    proof {
        assert(w as int * h as int <= 65535 * 65535) by (nonlinear_arith)
            requires
                0 <= w <= 65535,
                0 <= h <= 65535,
        ;
    }
    let r = Image::new(w, h);
    proof {
        let g = blank(w as nat, h as nat);
        assert forall|x: int, y: int| r@.in_bounds(x, y) implies r@.pixel(x, y) == g.pixel(
            x,
            y,
        ) by {
            lemma_grid_pixel(w as nat, h as nat, |x: int, y: int| spec_transparent(), x, y);
        }
        lemma_view_ext(r@, g);
    }
    r
}

/// The view of an optional layer: its image, or a fully transparent one.
pub open spec fn layer_view(l: Option<Image>, w: nat, h: nat) -> ImgView {
    match l {
        Some(img) => img@,
        None => blank(w, h),
    }
}

/// Geometry and range bounds every rendered sensor must satisfy; the
/// configuration loader clamps its values into these machine limits.
pub open spec fn spec_sensor_ok(s: Sensor) -> bool {
    &&& -100000000 <= s.x <= 100000000
    &&& -100000000 <= s.y <= 100000000
    &&& -1000000000000 <= spec_gauge_min(s) <= 1000000000000
    &&& -1000000000000 <= spec_gauge_max(s) <= 1000000000000
    &&& (s.mode != SensorMode::Text ==> spec_gauge_min(s) < spec_gauge_max(s))
    &&& -1000000 <= spec_min_angle(s) <= 1000000
    &&& -1000000 <= spec_fan_max_angle(s) <= 1000000
    &&& -1000000 <= spec_pointer_max_angle(s) <= 1000000
    &&& (match s.xz_x {
        Some(v) => -1000000 <= v <= 1000000,
        None => true,
    })
    &&& (match s.xz_y {
        Some(v) => -1000000 <= v <= 1000000,
        None => true,
    })
}

/// The sensor panel renderer: owns the three compositing layers of one
/// render pass for a fixed display size.
pub struct PanelRenderer {
    width: u32,
    height: u32,
    fan_layer: Option<Image>,
    progress_layer: Option<Image>,
    pointer_layer: Option<Image>,
}

impl PanelRenderer {
    pub closed spec fn spec_width(&self) -> u32 {
        self.width
    }

    pub closed spec fn spec_height(&self) -> u32 {
        self.height
    }

    pub closed spec fn spec_fan_layer(&self) -> Option<Image> {
        self.fan_layer
    }

    pub closed spec fn spec_progress_layer(&self) -> Option<Image> {
        self.progress_layer
    }

    pub closed spec fn spec_pointer_layer(&self) -> Option<Image> {
        self.pointer_layer
    }

    /// The view of one mode's compositing layer.
    pub open spec fn spec_fan(&self) -> ImgView {
        layer_view(self.spec_fan_layer(), self.spec_width() as nat, self.spec_height() as nat)
    }

    pub open spec fn spec_progress(&self) -> ImgView {
        layer_view(self.spec_progress_layer(), self.spec_width() as nat, self.spec_height() as nat)
    }

    pub open spec fn spec_pointer(&self) -> ImgView {
        layer_view(self.spec_pointer_layer(), self.spec_width() as nat, self.spec_height() as nat)
    }

    pub open spec fn wf(&self) -> bool {
        &&& self.spec_width() <= 65535
        &&& self.spec_height() <= 65535
        &&& (match self.spec_fan_layer() {
            Some(l) => l.wf() && l@.width == self.spec_width() && l@.height == self.spec_height(),
            None => true,
        })
        &&& (match self.spec_progress_layer() {
            Some(l) => l.wf() && l@.width == self.spec_width() && l@.height == self.spec_height(),
            None => true,
        })
        &&& (match self.spec_pointer_layer() {
            Some(l) => l.wf() && l@.width == self.spec_width() && l@.height == self.spec_height(),
            None => true,
        })
    }

    /// A renderer for the given display size with empty layers.
    pub fn new(size: (u32, u32)) -> (r: PanelRenderer)
        requires
            size.0 <= 65535,
            size.1 <= 65535,
        ensures
            r.wf(),
            r.spec_width() == size.0,
            r.spec_height() == size.1,
            r.spec_fan_layer() is None,
            r.spec_progress_layer() is None,
            r.spec_pointer_layer() is None,
    {
        PanelRenderer {
            width: size.0,
            height: size.1,
            fan_layer: None,
            progress_layer: None,
            pointer_layer: None,
        }
    }

    /// Drops the three compositing layers.
    pub fn clear_layers(&mut self)
        ensures
            final(self).wf() == (old(self).spec_width() <= 65535 && old(self).spec_height()
                <= 65535),
            final(self).spec_width() == old(self).spec_width(),
            final(self).spec_height() == old(self).spec_height(),
            final(self).spec_fan_layer() is None,
            final(self).spec_progress_layer() is None,
            final(self).spec_pointer_layer() is None,
    {
        self.fan_layer = None;
        self.progress_layer = None;
        self.pointer_layer = None;
    }

    /// Renders an arc gauge sensor: the pie slice of its picture between
    /// the angles that the clamped value selects is blended into the fan
    /// layer.  Values at or below the gauge minimum draw nothing.
    pub fn render_fan(
        &mut self,
        sensor: &Sensor,
        value: &str,
        direction: SensorDirection,
        assets: &ImageCache,
    ) -> (r: Result<(), ImageProcessingError>)
        requires
            old(self).wf(),
            assets.wf(),
            spec_sensor_ok(*sensor),
            spec_gauge_min(*sensor) < spec_gauge_max(*sensor),
        ensures
            final(self).wf(),
            final(self).spec_width() == old(self).spec_width(),
            final(self).spec_height() == old(self).spec_height(),
            final(self).spec_progress_layer() == old(self).spec_progress_layer(),
            final(self).spec_pointer_layer() == old(self).spec_pointer_layer(),
            ({
                let w = old(self).spec_width() as nat;
                let h = old(self).spec_height() as nat;
                if !(direction == SensorDirection::LeftToRight || direction
                    == SensorDirection::RightToLeft) {
                    &&& r matches Err(e) && e.kind() == ErrorKind::InvalidDirection
                    &&& final(self).spec_fan() == old(self).spec_fan()
                } else if sensor.pic is None {
                    &&& r matches Err(e) && e.kind() == ErrorKind::ImageLoad
                    &&& final(self).spec_fan() == old(self).spec_fan()
                } else if assets.spec_get(sensor.pic->0@, None) is None {
                    &&& r matches Err(e) && e.kind() == ErrorKind::ImageLoad
                    &&& final(self).spec_fan() == old(self).spec_fan()
                } else if spec_parse_milli(value@) is None {
                    &&& r matches Err(e) && e.kind() == ErrorKind::Math
                    &&& final(self).spec_fan() == old(self).spec_fan()
                } else if spec_parse_milli(value@)->0 <= spec_gauge_min(*sensor) {
                    &&& r is Ok
                    &&& final(self).spec_fan() == old(self).spec_fan()
                } else {
                    let v = spec_parse_milli(value@)->0;
                    let prog = spec_progress(v, spec_gauge_min(*sensor), spec_gauge_max(*sensor));
                    let angles = spec_fan_angles(
                        spec_min_angle(*sensor),
                        spec_fan_max_angle(*sensor),
                        prog,
                        direction,
                    );
                    &&& r is Ok
                    &&& final(self).spec_fan() == spec_draw_pie(
                        old(self).spec_fan(),
                        assets.spec_get(sensor.pic->0@, None)->0@,
                        sensor.x as int,
                        sensor.y as int,
                        angles.0,
                        angles.1,
                    )
                }
            }),
    {
        if !(matches!(direction, SensorDirection::LeftToRight) || matches!(
            direction,
            SensorDirection::RightToLeft,
        )) {
            return Err(ImageProcessingError::InvalidDirection(direction));
        }
        let pic = match &sensor.pic {
            Some(p) => p,
            None => {
                return Err(ImageProcessingError::ImageLoadError("No picture specified".to_owned()));
            },
        };
        let target_image = match assets.get(pic.as_str(), None) {
            Some(img) => img,
            None => {
                let mut msg: String = "Failed to load: ".to_owned();
                msg.append(pic.as_str());
                return Err(ImageProcessingError::ImageLoadError(msg));
            },
        };
        let min_value = match sensor.min_value {
            Some(v) => v,
            None => 0,
        };
        let max_value = match sensor.max_value {
            Some(v) => v,
            None => 100000,
        };
        let min_angle = match sensor.min_angle {
            Some(v) => v,
            None => 0,
        };
        let max_angle = match sensor.max_angle {
            Some(v) => v,
            None => 180,
        };
        let current = match parse_scaled_milli(value) {
            Some(v) => v,
            None => {
                return Err(ImageProcessingError::MathError("Invalid value".to_owned()));
            },
        };
        if current <= min_value {
            return Ok(());
        }
        let progress = progress_scaled(current, min_value, max_value);
        let (start_mdeg, end_mdeg) = fan_angles(min_angle, max_angle, progress, direction);
        if self.fan_layer.is_none() {
            self.fan_layer = Some(blank_layer(self.width, self.height));
            proof {
                assert(self.spec_fan() == old(self).spec_fan());
            }
        }
        let ghost pre_fan = self.spec_fan();
        match &mut self.fan_layer {
            Some(layer) => {
                draw_pie_slice(layer, &target_image, sensor.x, sensor.y, start_mdeg, end_mdeg);
            },
            None => {
                proof {
                    assert(false);
                }
            },
        }
        proof {
            assert(final(self).spec_fan() == spec_draw_pie(
                pre_fan,
                target_image@,
                sensor.x as int,
                sensor.y as int,
                start_mdeg as int,
                end_mdeg as int,
            ));
        }
        Ok(())
    }

    /// The crop length of the progress bar along one axis: the dimension
    /// scaled by the ratio, rounded to nearest.
    pub open spec fn spec_crop_len(dim: int, progress: int) -> int {
        (2 * dim * progress + 1000000) / 2000000
    }

    /// The crop rectangle of the progress bar, per direction.
    pub open spec fn spec_crop_rect(
        w: int,
        h: int,
        progress: int,
        direction: SensorDirection,
    ) -> (u32, u32, u32, u32) {
        match direction {
            SensorDirection::LeftToRight => (
                0u32,
                0u32,
                Self::spec_crop_len(w, progress) as u32,
                h as u32,
            ),
            SensorDirection::RightToLeft => (
                (w - Self::spec_crop_len(w, progress)) as u32,
                0u32,
                w as u32,
                h as u32,
            ),
            SensorDirection::TopToBottom => (
                0u32,
                0u32,
                w as u32,
                Self::spec_crop_len(h, progress) as u32,
            ),
            SensorDirection::BottomToTop => (
                0u32,
                (h - Self::spec_crop_len(h, progress)) as u32,
                w as u32,
                h as u32,
            ),
        }
    }

    /// Renders a directional progress bar: the picture is masked to the
    /// fraction the clamped value selects along the direction's axis and
    /// pasted into the progress layer.
    pub fn render_progress(
        &mut self,
        sensor: &Sensor,
        value: &str,
        direction: SensorDirection,
        assets: &ImageCache,
    ) -> (r: Result<(), ImageProcessingError>)
        requires
            old(self).wf(),
            assets.wf(),
            spec_sensor_ok(*sensor),
            spec_gauge_min(*sensor) < spec_gauge_max(*sensor),
        ensures
            final(self).wf(),
            final(self).spec_width() == old(self).spec_width(),
            final(self).spec_height() == old(self).spec_height(),
            final(self).spec_fan_layer() == old(self).spec_fan_layer(),
            final(self).spec_pointer_layer() == old(self).spec_pointer_layer(),
            ({
                if sensor.pic is None {
                    &&& r matches Err(e) && e.kind() == ErrorKind::ImageLoad
                    &&& final(self).spec_progress() == old(self).spec_progress()
                } else if assets.spec_get(sensor.pic->0@, None) is None {
                    &&& r matches Err(e) && e.kind() == ErrorKind::ImageLoad
                    &&& final(self).spec_progress() == old(self).spec_progress()
                } else if spec_parse_milli(value@) is None {
                    &&& r matches Err(e) && e.kind() == ErrorKind::Math
                    &&& final(self).spec_progress() == old(self).spec_progress()
                } else {
                    let img = assets.spec_get(sensor.pic->0@, None)->0;
                    let v = spec_parse_milli(value@)->0;
                    let prog = spec_progress(v, spec_gauge_min(*sensor), spec_gauge_max(*sensor));
                    let crop = Self::spec_crop_rect(
                        img@.width as int,
                        img@.height as int,
                        prog,
                        direction,
                    );
                    &&& r is Ok
                    &&& final(self).spec_progress() == spec_paste(
                        old(self).spec_progress(),
                        spec_mask(img@, crop, direction),
                        sensor.x as int,
                        sensor.y as int,
                    )
                }
            }),
    {
        let pic = match &sensor.pic {
            Some(p) => p,
            None => {
                return Err(ImageProcessingError::ImageLoadError("No picture specified".to_owned()));
            },
        };
        let mut processed_img = match assets.get(pic.as_str(), None) {
            Some(img) => img,
            None => {
                let mut msg: String = "Failed to load: ".to_owned();
                msg.append(pic.as_str());
                return Err(ImageProcessingError::ImageLoadError(msg));
            },
        };
        let min_value = match sensor.min_value {
            Some(v) => v,
            None => 0,
        };
        let max_value = match sensor.max_value {
            Some(v) => v,
            None => 100000,
        };
        let current = match parse_scaled_milli(value) {
            Some(v) => v,
            None => {
                return Err(ImageProcessingError::MathError("Invalid value".to_owned()));
            },
        };
        let progress = progress_scaled(current, min_value, max_value);
        let img_w = processed_img.width();
        let img_h = processed_img.height();
        let crop_rect = match direction {
            SensorDirection::LeftToRight => {
                let cw = crop_len(img_w, progress);
                (0u32, 0u32, cw, img_h)
            },
            SensorDirection::RightToLeft => {
                let cw = crop_len(img_w, progress);
                (img_w - cw, 0u32, img_w, img_h)
            },
            SensorDirection::TopToBottom => {
                let ch = crop_len(img_h, progress);
                (0u32, 0u32, img_w, ch)
            },
            SensorDirection::BottomToTop => {
                let ch = crop_len(img_h, progress);
                (0u32, img_h - ch, img_w, img_h)
            },
        };
        apply_progress_mask(&mut processed_img, crop_rect, direction);
        if self.progress_layer.is_none() {
            self.progress_layer = Some(blank_layer(self.width, self.height));
            proof {
                assert(self.spec_progress() == old(self).spec_progress());
            }
        }
        let ghost pre = self.spec_progress();
        match &mut self.progress_layer {
            Some(layer) => {
                paste_image(layer, &processed_img, sensor.x, sensor.y);
            },
            None => {
                proof {
                    assert(false);
                }
            },
        }
        Ok(())
    }

    /// Renders a rotating pointer: the picture is rotated by the angle the
    /// clamped value selects, shifted by the rotated pivot offset, and
    /// pasted into the pointer layer centered on the sensor position.
    #[verifier::rlimit(100)]
    pub fn render_pointer(
        &mut self,
        sensor: &Sensor,
        value: &str,
        direction: SensorDirection,
        assets: &ImageCache,
    ) -> (r: Result<(), ImageProcessingError>)
        requires
            old(self).wf(),
            assets.wf(),
            spec_sensor_ok(*sensor),
            spec_gauge_min(*sensor) < spec_gauge_max(*sensor),
        ensures
            final(self).wf(),
            final(self).spec_width() == old(self).spec_width(),
            final(self).spec_height() == old(self).spec_height(),
            final(self).spec_fan_layer() == old(self).spec_fan_layer(),
            final(self).spec_progress_layer() == old(self).spec_progress_layer(),
            ({
                if !(direction == SensorDirection::LeftToRight || direction
                    == SensorDirection::RightToLeft) {
                    &&& r matches Err(e) && e.kind() == ErrorKind::InvalidDirection
                    &&& final(self).spec_pointer() == old(self).spec_pointer()
                } else if sensor.pic is None {
                    &&& r matches Err(e) && e.kind() == ErrorKind::ImageLoad
                    &&& final(self).spec_pointer() == old(self).spec_pointer()
                } else if assets.spec_get(sensor.pic->0@, spec_pointer_size(*sensor)) is None {
                    &&& r matches Err(e) && e.kind() == ErrorKind::ImageLoad
                    &&& final(self).spec_pointer() == old(self).spec_pointer()
                } else if spec_parse_milli(value@) is None {
                    &&& r matches Err(e) && e.kind() == ErrorKind::Math
                    &&& final(self).spec_pointer() == old(self).spec_pointer()
                } else {
                    let img = assets.spec_get(sensor.pic->0@, spec_pointer_size(*sensor))->0;
                    let v = spec_parse_milli(value@)->0;
                    let prog = spec_progress(v, spec_gauge_min(*sensor), spec_gauge_max(*sensor));
                    let angle = spec_pointer_angle(
                        spec_min_angle(*sensor),
                        spec_pointer_max_angle(*sensor),
                        prog,
                        direction,
                    );
                    let rot = crate::img::spec_rotate_image(img@, -spec_round_mdeg(angle));
                    let off = spec_pointer_offset(
                        match sensor.xz_x {
                            Some(v) => v as int,
                            None => 0,
                        },
                        match sensor.xz_y {
                            Some(v) => v as int,
                            None => 0,
                        },
                        angle,
                    );
                    &&& r is Ok
                    &&& final(self).spec_pointer() == spec_paste(
                        old(self).spec_pointer(),
                        rot,
                        sensor.x + off.0 - rot.width / 2,
                        sensor.y + off.1 - rot.height / 2,
                    )
                }
            }),
    {
        if !(matches!(direction, SensorDirection::LeftToRight) || matches!(
            direction,
            SensorDirection::RightToLeft,
        )) {
            return Err(ImageProcessingError::InvalidDirection(direction));
        }
        let pic = match &sensor.pic {
            Some(p) => p,
            None => {
                return Err(ImageProcessingError::ImageLoadError("No picture specified".to_owned()));
            },
        };
        let size: Option<(u32, u32)> = match (sensor.width, sensor.height) {
            (Some(w), Some(h)) => if w >= 0 && h >= 0 {
                Some((w as u32, h as u32))
            } else {
                None
            },
            _ => None,
        };
        proof {
            assert(size == spec_pointer_size(*sensor));
        }
        let pic_img = match assets.get(pic.as_str(), size) {
            Some(img) => img,
            None => {
                let mut msg: String = "Failed to load: ".to_owned();
                msg.append(pic.as_str());
                return Err(ImageProcessingError::ImageLoadError(msg));
            },
        };
        let min_value = match sensor.min_value {
            Some(v) => v,
            None => 0,
        };
        let max_value = match sensor.max_value {
            Some(v) => v,
            None => 100000,
        };
        let min_angle = match sensor.min_angle {
            Some(v) => v,
            None => 0,
        };
        let max_angle = match sensor.max_angle {
            Some(v) => v,
            None => 360,
        };
        let xz_x = match sensor.xz_x {
            Some(v) => v,
            None => 0,
        };
        let xz_y = match sensor.xz_y {
            Some(v) => v,
            None => 0,
        };
        let current = match parse_scaled_milli(value) {
            Some(v) => v,
            None => {
                return Err(ImageProcessingError::MathError("Invalid value".to_owned()));
            },
        };
        let progress = progress_scaled(current, min_value, max_value);
        let angle = pointer_angle_mdeg(min_angle, max_angle, progress, direction);
        let (offset_x, offset_y) = pointer_offset(xz_x, xz_y, angle);
        let deg = round_mdeg_to_deg(angle);
        let rotated = crate::img::rotate_image(&pic_img, (-deg) as i32);
        let rw = rotated.width();
        let rh = rotated.height();
        proof {
            assert(rotated@ == crate::img::spec_rotate_image(
                pic_img@,
                -spec_round_mdeg(angle as int),
            ));
            assert(rotated@.wf());
            assert(rw * rh == rotated@.pixels.len());
        }
        let final_x = (sensor.x as i64) + offset_x - ((rw / 2) as i64);
        let final_y = (sensor.y as i64) + offset_y - ((rh / 2) as i64);
        if self.pointer_layer.is_none() {
            self.pointer_layer = Some(blank_layer(self.width, self.height));
            proof {
                assert(self.spec_pointer() == old(self).spec_pointer());
            }
        }
        let ghost pre = self.spec_pointer();
        match &mut self.pointer_layer {
            Some(layer) => {
                paste_image(layer, &rotated, final_x as i32, final_y as i32);
            },
            None => {
                proof {
                    assert(false);
                }
            },
        }
        Ok(())
    }
}

/// Compositing a fully transparent layer changes nothing.
proof fn lemma_composite_blank(bg: ImgView)
    requires
        bg.wf(),
    ensures
        spec_composite(bg, blank(bg.width, bg.height)) == bg,
{
    let lay = blank(bg.width, bg.height);
    let g = spec_composite(bg, lay);
    assert(g.wf());
    assert forall|u: int, v: int| g.in_bounds(u, v) implies g.pixel(u, v) == bg.pixel(u, v) by {
        lemma_grid_pixel(bg.width, bg.height, |x: int, y: int| spec_transparent(), u, v);
        assert(lay.pixel(u, v) == spec_transparent());
        lemma_grid_pixel(
            bg.width,
            bg.height,
            |x: int, y: int|
                if lay.pixel(x, y).a > 0 {
                    spec_blend_pixel_floor(lay.pixel(x, y), bg.pixel(x, y))
                } else {
                    bg.pixel(x, y)
                },
            u,
            v,
        );
    }
    lemma_view_ext(g, bg);
}

impl PanelRenderer {
    /// Composites the three layers onto the background in the fixed order
    /// fan, progress, pointer, each blended source-over; an absent layer
    /// changes nothing.
    pub fn composite_layers(&self, background: &mut Image)
        requires
            self.wf(),
            old(background).wf(),
            old(background)@.width == self.spec_width(),
            old(background)@.height == self.spec_height(),
        ensures
            final(background).wf(),
            final(background)@ == spec_composite(
                spec_composite(
                    spec_composite(old(background)@, self.spec_fan()),
                    self.spec_progress(),
                ),
                self.spec_pointer(),
            ),
    {
        match &self.fan_layer {
            Some(layer) => {
                composite_layer(background, layer);
            },
            None => {
                proof {
                    lemma_composite_blank(background@);
                }
            },
        }
        match &self.progress_layer {
            Some(layer) => {
                composite_layer(background, layer);
            },
            None => {
                proof {
                    lemma_composite_blank(background@);
                }
            },
        }
        match &self.pointer_layer {
            Some(layer) => {
                composite_layer(background, layer);
            },
            None => {
                proof {
                    lemma_composite_blank(background@);
                }
            },
        }
    }
}

/// One failed sensor of a render pass: which sensor, and why.
#[derive(Debug, Clone)]
pub struct SensorError {
    /// Position of the sensor in the panel's sensor list.
    pub index: usize,
    /// What went wrong with it.
    pub error: ImageProcessingError,
}

/// Mathematical state of one render pass: the three layer views, the text
/// runs collected so far, and the per-sensor errors with their kinds.
pub struct RenderPassView {
    pub fan: ImgView,
    pub progress: ImgView,
    pub pointer: ImgView,
    pub texts: Seq<TextSpecView>,
    pub errors: Seq<(int, ErrorKind)>,
}

/// The value a sensor shows: the snapshot entry under its label, or the
/// synthetic date/time value for the date/time labels.
pub open spec fn spec_sensor_value(
    values: SensorValues,
    label: Seq<char>,
    now: crate::sensors::DateTime,
) -> Option<Seq<char>> {
    match values.spec_get(label) {
        Some(v) => Some(v),
        None => crate::sensors::spec_date_time_value(label, now),
    }
}

/// The unit a sensor prints: the snapshot's unit override under
/// `label#unit`, else the configured unit, else nothing.
pub open spec fn spec_sensor_unit(values: SensorValues, s: Sensor) -> Seq<char> {
    match values.spec_get(s.label@ + "#unit"@) {
        Some(u) => u,
        None => match s.unit {
            Some(u) => u@,
            None => Seq::empty(),
        },
    }
}

/// The direction a sensor draws in; left-to-right when unset.
pub open spec fn spec_sensor_direction(s: Sensor) -> SensorDirection {
    match s.direction {
        Some(d) => d,
        None => SensorDirection::LeftToRight,
    }
}

/// The render-pass step of an arc gauge sensor.
pub open spec fn spec_process_fan(
    st: RenderPassView,
    s: Sensor,
    idx: int,
    value: Seq<char>,
    direction: SensorDirection,
    assets: ImageCache,
) -> RenderPassView {
    if !(direction == SensorDirection::LeftToRight || direction == SensorDirection::RightToLeft) {
        RenderPassView { errors: st.errors.push((idx, ErrorKind::InvalidDirection)), ..st }
    } else if s.pic is None {
        RenderPassView { errors: st.errors.push((idx, ErrorKind::ImageLoad)), ..st }
    } else if assets.spec_get(s.pic->0@, None) is None {
        RenderPassView { errors: st.errors.push((idx, ErrorKind::ImageLoad)), ..st }
    } else if spec_parse_milli(value) is None {
        RenderPassView { errors: st.errors.push((idx, ErrorKind::Math)), ..st }
    } else if spec_parse_milli(value)->0 <= spec_gauge_min(s) {
        st
    } else {
        let img = assets.spec_get(s.pic->0@, None)->0;
        let v = spec_parse_milli(value)->0;
        let prog = spec_progress(v, spec_gauge_min(s), spec_gauge_max(s));
        let angles = spec_fan_angles(spec_min_angle(s), spec_fan_max_angle(s), prog, direction);
        RenderPassView {
            fan: spec_draw_pie(st.fan, img@, s.x as int, s.y as int, angles.0, angles.1),
            ..st
        }
    }
}

/// The render-pass step of a progress bar sensor.
pub open spec fn spec_process_progress(
    st: RenderPassView,
    s: Sensor,
    idx: int,
    value: Seq<char>,
    direction: SensorDirection,
    assets: ImageCache,
) -> RenderPassView {
    if s.pic is None {
        RenderPassView { errors: st.errors.push((idx, ErrorKind::ImageLoad)), ..st }
    } else if assets.spec_get(s.pic->0@, None) is None {
        RenderPassView { errors: st.errors.push((idx, ErrorKind::ImageLoad)), ..st }
    } else if spec_parse_milli(value) is None {
        RenderPassView { errors: st.errors.push((idx, ErrorKind::Math)), ..st }
    } else {
        let img = assets.spec_get(s.pic->0@, None)->0;
        let v = spec_parse_milli(value)->0;
        let prog = spec_progress(v, spec_gauge_min(s), spec_gauge_max(s));
        let crop = PanelRenderer::spec_crop_rect(
            img@.width as int,
            img@.height as int,
            prog,
            direction,
        );
        RenderPassView {
            progress: spec_paste(
                st.progress,
                spec_mask(img@, crop, direction),
                s.x as int,
                s.y as int,
            ),
            ..st
        }
    }
}

/// The render-pass step of a pointer sensor.
pub open spec fn spec_process_pointer(
    st: RenderPassView,
    s: Sensor,
    idx: int,
    value: Seq<char>,
    direction: SensorDirection,
    assets: ImageCache,
) -> RenderPassView {
    if !(direction == SensorDirection::LeftToRight || direction == SensorDirection::RightToLeft) {
        RenderPassView { errors: st.errors.push((idx, ErrorKind::InvalidDirection)), ..st }
    } else if s.pic is None {
        RenderPassView { errors: st.errors.push((idx, ErrorKind::ImageLoad)), ..st }
    } else if assets.spec_get(s.pic->0@, spec_pointer_size(s)) is None {
        RenderPassView { errors: st.errors.push((idx, ErrorKind::ImageLoad)), ..st }
    } else if spec_parse_milli(value) is None {
        RenderPassView { errors: st.errors.push((idx, ErrorKind::Math)), ..st }
    } else {
        let img = assets.spec_get(s.pic->0@, spec_pointer_size(s))->0;
        let v = spec_parse_milli(value)->0;
        let prog = spec_progress(v, spec_gauge_min(s), spec_gauge_max(s));
        let angle = spec_pointer_angle(
            spec_min_angle(s),
            spec_pointer_max_angle(s),
            prog,
            direction,
        );
        let rot = crate::img::spec_rotate_image(img@, -spec_round_mdeg(angle));
        let off = spec_pointer_offset(
            match s.xz_x {
                Some(v) => v as int,
                None => 0,
            },
            match s.xz_y {
                Some(v) => v as int,
                None => 0,
            },
            angle,
        );
        RenderPassView {
            pointer: spec_paste(
                st.pointer,
                rot,
                s.x + off.0 - rot.width / 2,
                s.y + off.1 - rot.height / 2,
            ),
            ..st
        }
    }
}

/// The render-pass step of one sensor: a missing value (and no date/time
/// label) draws nothing, a text sensor collects a text run, the other
/// modes draw into their layer or record an error.
pub open spec fn spec_process_sensor(
    st: RenderPassView,
    s: Sensor,
    idx: int,
    values: SensorValues,
    assets: ImageCache,
    now: crate::sensors::DateTime,
) -> RenderPassView {
    match spec_sensor_value(values, s.label@, now) {
        None => st,
        Some(value) => {
            let unit = spec_sensor_unit(values, s);
            let direction = spec_sensor_direction(s);
            match s.mode {
                SensorMode::Text => RenderPassView {
                    texts: st.texts.push(spec_text_spec(s, value, unit)),
                    ..st
                },
                SensorMode::Fan => spec_process_fan(st, s, idx, value, direction, assets),
                SensorMode::Progress => spec_process_progress(
                    st,
                    s,
                    idx,
                    value,
                    direction,
                    assets,
                ),
                SensorMode::Pointer => spec_process_pointer(st, s, idx, value, direction, assets),
            }
        },
    }
}

/// The render pass over the first `n` sensors, in order.
pub open spec fn spec_render_pass(
    st: RenderPassView,
    sensors: Seq<Sensor>,
    n: int,
    values: SensorValues,
    assets: ImageCache,
    now: crate::sensors::DateTime,
) -> RenderPassView
    decreases n,
{
    if n <= 0 {
        st
    } else {
        spec_process_sensor(
            spec_render_pass(st, sensors, n - 1, values, assets, now),
            sensors[n - 1],
            n - 1,
            values,
            assets,
            now,
        )
    }
}

impl PanelRenderer {
    /// Renders all panel sensors from the snapshot: text sensors become
    /// text runs for the caller to rasterize, the other modes draw into
    /// this renderer's layers, and per-sensor failures are collected
    /// without aborting the pass.  The layers start empty; the caller
    /// composites them after drawing the text runs.
    #[verifier::rlimit(100)]
    pub fn render_all_sensors(
        &mut self,
        panel: &Panel,
        values: &SensorValues,
        assets: &ImageCache,
        now: &crate::sensors::DateTime,
    ) -> (r: (Vec<TextSpec>, Vec<SensorError>))
        requires
            old(self).wf(),
            assets.wf(),
            now.wf(),
            forall|i: int|
                0 <= i < panel.sensor@.len() ==> spec_sensor_ok(#[trigger] panel.sensor@[i]),
            forall|i: int|
                0 <= i < panel.sensor@.len() ==> (#[trigger] panel.sensor@[i]).mode
                    == SensorMode::Text || spec_gauge_min(panel.sensor@[i]) < spec_gauge_max(
                    panel.sensor@[i],
                ),
        ensures
            final(self).wf(),
            final(self).spec_width() == old(self).spec_width(),
            final(self).spec_height() == old(self).spec_height(),
            ({
                let w = old(self).spec_width() as nat;
                let h = old(self).spec_height() as nat;
                let st0 = RenderPassView {
                    fan: blank(w, h),
                    progress: blank(w, h),
                    pointer: blank(w, h),
                    texts: Seq::empty(),
                    errors: Seq::empty(),
                };
                let stn = spec_render_pass(
                    st0,
                    panel.sensor@,
                    panel.sensor@.len() as int,
                    *values,
                    *assets,
                    *now,
                );
                &&& final(self).spec_fan() == stn.fan
                &&& final(self).spec_progress() == stn.progress
                &&& final(self).spec_pointer() == stn.pointer
                &&& r.0@.len() == stn.texts.len()
                &&& (forall|k: int| 0 <= k < stn.texts.len() ==> (#[trigger] r.0@[k])@ == stn.texts[k])
                &&& r.1@.len() == stn.errors.len()
                &&& (forall|k: int|
                    0 <= k < stn.errors.len() ==> ((#[trigger] r.1@[k]).index as int,
                    r.1@[k].error.kind()) == stn.errors[k])
            }),
    {
        self.clear_layers();
        let ghost w = self.spec_width() as nat;
        let ghost h = self.spec_height() as nat;
        let ghost st0 = RenderPassView {
            fan: blank(w, h),
            progress: blank(w, h),
            pointer: blank(w, h),
            texts: Seq::<TextSpecView>::empty(),
            errors: Seq::<(int, ErrorKind)>::empty(),
        };
        let mut texts: Vec<TextSpec> = Vec::new();
        let mut errors: Vec<SensorError> = Vec::new();
        let n = panel.sensor.len();
        let mut i: usize = 0;
        while i < n
            invariant
                self.wf(),
                assets.wf(),
                now.wf(),
                self.spec_width() == old(self).spec_width(),
                self.spec_height() == old(self).spec_height(),
                w == self.spec_width() as nat,
                h == self.spec_height() as nat,
                st0 == (RenderPassView {
                    fan: blank(w, h),
                    progress: blank(w, h),
                    pointer: blank(w, h),
                    texts: Seq::<TextSpecView>::empty(),
                    errors: Seq::<(int, ErrorKind)>::empty(),
                }),
                n == panel.sensor@.len(),
                0 <= i <= n,
                forall|k: int|
                    0 <= k < panel.sensor@.len() ==> spec_sensor_ok(#[trigger] panel.sensor@[k]),
                forall|k: int|
                    0 <= k < panel.sensor@.len() ==> (#[trigger] panel.sensor@[k]).mode
                        == SensorMode::Text || spec_gauge_min(panel.sensor@[k]) < spec_gauge_max(
                        panel.sensor@[k],
                    ),
                ({
                    let st = spec_render_pass(
                        st0,
                        panel.sensor@,
                        i as int,
                        *values,
                        *assets,
                        *now,
                    );
                    &&& self.spec_fan() == st.fan
                    &&& self.spec_progress() == st.progress
                    &&& self.spec_pointer() == st.pointer
                    &&& texts@.len() == st.texts.len()
                    &&& (forall|k: int|
                        0 <= k < st.texts.len() ==> (#[trigger] texts@[k])@ == st.texts[k])
                    &&& errors@.len() == st.errors.len()
                    &&& (forall|k: int|
                        0 <= k < st.errors.len() ==> ((#[trigger] errors@[k]).index as int,
                        errors@[k].error.kind()) == st.errors[k])
                }),
            decreases n - i,
        {
            let ghost stp = spec_render_pass(st0, panel.sensor@, i as int, *values, *assets, *now);
            let sensor = &panel.sensor[i];
            let value_opt: Option<String> = match values.get(sensor.label.as_str()) {
                Some(v) => Some(v),
                None => crate::sensors::get_date_time_value(sensor.label.as_str(), now),
            };
            proof {
                match &value_opt {
                    Some(v) => {
                        assert(spec_sensor_value(*values, sensor.label@, *now) == Some(v@));
                    },
                    None => {
                        assert(spec_sensor_value(*values, sensor.label@, *now) is None);
                    },
                }
            }
            match value_opt {
                None => {
                    proof {
                        assert(spec_render_pass(
                            st0,
                            panel.sensor@,
                            i + 1,
                            *values,
                            *assets,
                            *now,
                        ) == stp);
                    }
                },
                Some(value) => {
                    let mut unit_key = sensor.label.clone();
                    unit_key.append("#unit");
                    let unit: String = match values.get(unit_key.as_str()) {
                        Some(u) => u,
                        None => match &sensor.unit {
                            Some(u) => u.clone(),
                            None => String::new(),
                        },
                    };
                    proof {
                        assert(unit@ == spec_sensor_unit(*values, *sensor));
                    }
                    let direction = match sensor.direction {
                        Some(d) => d,
                        None => SensorDirection::LeftToRight,
                    };
                    let ghost spost = spec_process_sensor(
                        stp,
                        *sensor,
                        i as int,
                        *values,
                        *assets,
                        *now,
                    );
                    match sensor.mode {
                        SensorMode::Text => {
                            let ghost texts0 = texts@;
                            texts.push(text_spec(sensor, value.as_str(), unit.as_str()));
                            proof {
                                assert(texts@ == texts0.push(texts@.last()));
                                assert(texts@.last()@ == spec_text_spec(*sensor, value@, unit@));
                                assert forall|k: int| 0 <= k < spost.texts.len() implies (
                                #[trigger] texts@[k])@ == spost.texts[k] by {
                                    if k < texts0.len() {
                                        assert(texts@[k] == texts0[k]);
                                        assert(stp.texts[k] == spost.texts[k]);
                                    }
                                }
                            }
                        },
                        SensorMode::Fan => {
                            match self.render_fan(sensor, value.as_str(), direction, assets) {
                                Ok(_) => {
                                    proof {
                                        assert(spost.errors == stp.errors);
                                    }
                                },
                                Err(e) => {
                                    let ghost errs0 = errors@;
                                    errors.push(SensorError { index: i, error: e });
                                    proof {
                                        assert(spost.errors == stp.errors.push(
                                            (i as int, e.kind()),
                                        ));
                                        assert forall|k: int|
                                            0 <= k < spost.errors.len() implies ((
                                        #[trigger] errors@[k]).index as int, errors@[k].error.kind())
                                            == spost.errors[k] by {
                                            if k < errs0.len() {
                                                assert(errors@[k] == errs0[k]);
                                            } else {
                                                assert(errors@[k] == SensorError {
                                                    index: i,
                                                    error: e,
                                                });
                                            }
                                        }
                                    }
                                },
                            }
                        },
                        SensorMode::Progress => {
                            match self.render_progress(sensor, value.as_str(), direction, assets) {
                                Ok(_) => {
                                    proof {
                                        assert(spost.errors == stp.errors);
                                    }
                                },
                                Err(e) => {
                                    let ghost errs0 = errors@;
                                    errors.push(SensorError { index: i, error: e });
                                    proof {
                                        assert(spost.errors == stp.errors.push(
                                            (i as int, e.kind()),
                                        ));
                                        assert forall|k: int|
                                            0 <= k < spost.errors.len() implies ((
                                        #[trigger] errors@[k]).index as int, errors@[k].error.kind())
                                            == spost.errors[k] by {
                                            if k < errs0.len() {
                                                assert(errors@[k] == errs0[k]);
                                            } else {
                                                assert(errors@[k] == SensorError {
                                                    index: i,
                                                    error: e,
                                                });
                                            }
                                        }
                                    }
                                },
                            }
                        },
                        SensorMode::Pointer => {
                            match self.render_pointer(sensor, value.as_str(), direction, assets) {
                                Ok(_) => {
                                    proof {
                                        assert(spost.errors == stp.errors);
                                    }
                                },
                                Err(e) => {
                                    let ghost errs0 = errors@;
                                    errors.push(SensorError { index: i, error: e });
                                    proof {
                                        assert(spost.errors == stp.errors.push(
                                            (i as int, e.kind()),
                                        ));
                                        assert forall|k: int|
                                            0 <= k < spost.errors.len() implies ((
                                        #[trigger] errors@[k]).index as int, errors@[k].error.kind())
                                            == spost.errors[k] by {
                                            if k < errs0.len() {
                                                assert(errors@[k] == errs0[k]);
                                            } else {
                                                assert(errors@[k] == SensorError {
                                                    index: i,
                                                    error: e,
                                                });
                                            }
                                        }
                                    }
                                },
                            }
                        },
                    }
                    proof {
                        assert(spec_render_pass(
                            st0,
                            panel.sensor@,
                            i + 1,
                            *values,
                            *assets,
                            *now,
                        ) == spost);
                    }
                },
            }
            i += 1;
        }
        proof {
            assert(i as int == panel.sensor@.len());
        }
        (texts, errors)
    }
}

/// The crop length along one axis: the dimension scaled by the progress
/// ratio, rounded to nearest.
fn crop_len(dim: u32, progress: i64) -> (r: u32)
    requires
        dim <= 1000000,
        0 <= progress <= 1000000,
    ensures
        r == PanelRenderer::spec_crop_len(dim as int, progress as int),
        r <= dim,
{
    proof {
        assert(0 <= 2 * (dim as int) * (progress as int) <= 2 * 1000000 * 1000000)
            by (nonlinear_arith)
            requires
                0 <= dim <= 1000000,
                0 <= progress <= 1000000,
        ;
    }
    let num = 2 * (dim as i64) * progress + 1000000;
    let r = num / 2000000;
    proof {
        assert(2 * (dim as int) * (progress as int) + 1000000 <= 2000000 * (dim as int) + 1000000)
            by (nonlinear_arith)
            requires
                0 <= dim,
                0 <= progress <= 1000000,
        ;
        assert(num as int / 2000000 <= dim as int) by (nonlinear_arith)
            requires
                0 <= num <= 2000000 * (dim as int) + 1000000,
        ;
    }
    r as u32
}

} // verus!
