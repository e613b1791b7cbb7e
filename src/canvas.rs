//! RGBA canvases and the ways two of them combine.
//!
//! A canvas holds premultiplied RGBA bytes, row by row. Blending is done by
//! tiny-skia; this module decides sizes and placement.
use vstd::prelude::*;
use tiny_skia::{BlendMode, IntRect, IntSize, Paint, Pixmap, PixmapPaint, PixmapRef, Transform};
use crate::color::Rgba8;
use crate::tree::Op;

verus! {

/// A rectangle of RGBA pixels.
pub struct Canvas {
    pub width: u32,
    pub height: u32,
    pub data: Vec<u8>,
}

/// What a canvas holds, as a mathematical value.
pub struct CanvasView {
    pub width: u32,
    pub height: u32,
    pub pixels: Seq<u8>,
}

impl View for Canvas {
    type V = CanvasView;

    open spec fn view(&self) -> CanvasView {
        CanvasView { width: self.width, height: self.height, pixels: self.data@ }
    }
}

/// Whether a canvas of this size can exist: neither side empty, and every byte
/// addressable with a row stride that fits an `i32`.
pub open spec fn fits(w: int, h: int) -> bool {
    &&& 1 <= w
    &&& 1 <= h
    &&& 4 * w <= 0x7fff_ffff
    &&& h <= 0x7fff_ffff
    &&& 4 * w * h <= usize::MAX
}

impl CanvasView {
    pub open spec fn wf(self) -> bool {
        fits(self.width as int, self.height as int) && self.pixels.len() == 4 * self.width * self.height
    }
}

/// The pixel rules that a layer can be drawn with.
#[derive(Clone, Copy, Debug, PartialEq, Eq, Structural)]
pub enum Blend {
    SourceOver,
    DestinationOut,
    SourceIn,
    Xor,
}

/// Why a canvas could not be made.
#[derive(Clone, Copy, Debug, PartialEq, Eq, Structural)]
pub enum RenderError {
    /// No glyph was given for this character.
    GlyphNotFound(char),
    /// The canvas would have an empty side, or be too large to address.
    BadCanvasSize,
}

/// The pixels of `dst` after `src` is drawn onto it at column `x`, row 0.
pub uninterp spec fn drawn(
    dst: Seq<u8>,
    width: u32,
    height: u32,
    x: u32,
    src: Seq<u8>,
    src_width: u32,
    src_height: u32,
    mode: Blend,
) -> Seq<u8>;

/// The pixels after the whole canvas is filled with `color` under the source-in rule.
pub uninterp spec fn tinted(pixels: Seq<u8>, width: u32, height: u32, color: Rgba8) -> Seq<u8>;

/// Relies on tiny_skia::Pixmap::draw_pixmap: draws `src` onto `dst` at (x, 0) with
/// the given blend mode, keeping the destination's size.
#[verifier::external_body]
pub(crate) fn draw_at(dst: Canvas, x: u32, src: &Canvas, mode: Blend) -> (r: Canvas)
    requires
        dst@.wf(),
        src@.wf(),
        x + src.width <= 0x7fff_ffff,
    ensures
        r.width == dst.width,
        r.height == dst.height,
        r.data@ == drawn(dst.data@, dst.width, dst.height, x, src.data@, src.width, src.height, mode),
        r.data@.len() == dst.data@.len(),
{
    let blend_mode = match mode {
        Blend::SourceOver => BlendMode::SourceOver,
        Blend::DestinationOut => BlendMode::DestinationOut,
        Blend::SourceIn => BlendMode::SourceIn,
        Blend::Xor => BlendMode::Xor,
    };
    let size = IntSize::from_wh(dst.width, dst.height).unwrap();
    let mut pixmap = Pixmap::from_vec(dst.data, size).unwrap();
    let image = PixmapRef::from_bytes(&src.data, src.width, src.height).unwrap();
    let paint = PixmapPaint { blend_mode, ..PixmapPaint::default() };
    pixmap.draw_pixmap(x as i32, 0, image, &paint, Transform::identity(), None);
    Canvas { width: dst.width, height: dst.height, data: pixmap.take() }
}

/// Relies on tiny_skia::Pixmap::fill_rect: fills the whole canvas with one colour
/// under the source-in rule, keeping its size.
#[verifier::external_body]
pub(crate) fn tint(c: Canvas, color: Rgba8) -> (r: Canvas)
    requires
        c@.wf(),
    ensures
        r.width == c.width,
        r.height == c.height,
        r.data@ == tinted(c.data@, c.width, c.height, color),
        r.data@.len() == c.data@.len(),
{
    let size = IntSize::from_wh(c.width, c.height).unwrap();
    let mut pixmap = Pixmap::from_vec(c.data, size).unwrap();
    let mut paint = Paint::default();
    paint.set_color_rgba8(color.red, color.green, color.blue, color.alpha);
    paint.blend_mode = BlendMode::SourceIn;
    let rect = IntRect::from_xywh(0, 0, c.width, c.height).unwrap().to_rect();
    pixmap.fill_rect(rect, &paint, Transform::identity(), None);
    Canvas { width: c.width, height: c.height, data: pixmap.take() }
}

/// A fully transparent canvas of the given size.
pub open spec fn blank(w: u32, h: u32) -> Seq<u8> {
    Seq::new((4 * w * h) as nat, |i: int| 0u8)
}

pub open spec fn max(a: u32, b: u32) -> u32 {
    if a >= b { a } else { b }
}

/// `lhs` drawn at the origin of a blank `w` x `h` canvas, then `rhs` at column `x`
/// with `mode`.
///
/// Under source-in, `rhs` is first placed on a blank canvas of the full size, and
/// that whole canvas is drawn: so `lhs` is cleared wherever `rhs` does not cover,
/// also outside `rhs`'s own rectangle.
pub open spec fn layered(lhs: CanvasView, rhs: CanvasView, w: u32, h: u32, x: u32, mode: Blend) -> CanvasView {
    let base = drawn(blank(w, h), w, h, 0, lhs.pixels, lhs.width, lhs.height, Blend::SourceOver);
    if mode == Blend::SourceIn {
        let mask = drawn(blank(w, h), w, h, x, rhs.pixels, rhs.width, rhs.height, Blend::SourceOver);
        CanvasView { width: w, height: h, pixels: drawn(base, w, h, 0, mask, w, h, Blend::SourceIn) }
    } else {
        CanvasView { width: w, height: h, pixels: drawn(base, w, h, x, rhs.pixels, rhs.width, rhs.height, mode) }
    }
}

/// The blend mode by which an operator draws its right operand.
pub open spec fn mode_of(op: Op) -> Blend {
    match op {
        Op::Add => Blend::SourceOver,
        Op::Or => Blend::SourceOver,
        Op::Sub => Blend::DestinationOut,
        Op::And => Blend::SourceIn,
        Op::Xor => Blend::Xor,
        Op::Concat => Blend::SourceOver,
    }
}

/// Width of the canvas that an operator makes of its operands.
pub open spec fn combined_width(lhs: CanvasView, rhs: CanvasView, op: Op) -> int {
    if op == Op::Concat {
        lhs.width + rhs.width
    } else {
        max(lhs.width, rhs.width) as int
    }
}

/// Height of the canvas that an operator makes of its operands.
pub open spec fn combined_height(lhs: CanvasView, rhs: CanvasView) -> int {
    max(lhs.height, rhs.height) as int
}

/// What an operator makes of two canvases, where that size can exist.
pub open spec fn combined(lhs: CanvasView, rhs: CanvasView, op: Op) -> Result<CanvasView, RenderError> {
    let w = combined_width(lhs, rhs, op);
    let h = combined_height(lhs, rhs);
    if !fits(w, h) {
        Err(RenderError::BadCanvasSize)
    } else if op == Op::Concat {
        Ok(layered(lhs, rhs, w as u32, h as u32, lhs.width, Blend::SourceOver))
    } else {
        Ok(layered(lhs, rhs, w as u32, h as u32, 0, mode_of(op)))
    }
}

pub open spec fn lift_canvas(r: Result<Canvas, RenderError>) -> Result<CanvasView, RenderError> {
    match r {
        Ok(c) => Ok(c@),
        Err(e) => Err(e),
    }
}

/// Whether a canvas of `w` x `h` can exist.
pub fn size_fits(w: u64, h: u64) -> (r: bool)
    ensures
        r == fits(w as int, h as int),
{
    if w < 1 || h < 1 || w > 0x1fff_ffff || h > 0x7fff_ffff {
        return false;
    }
    assert(4 * w * h <= 0x7fff_ffff * 0x7fff_ffff) by (nonlinear_arith)
        requires
            4 * w <= 0x7fff_ffff,
            h <= 0x7fff_ffff,
    ;
    4 * w * h <= usize::MAX as u64
}

/// A fully transparent canvas.
pub fn blank_canvas(w: u32, h: u32) -> (r: Canvas)
    requires
        fits(w as int, h as int),
    ensures
        r@ == (CanvasView { width: w, height: h, pixels: blank(w, h) }),
{
    assert(4 * w * h == 4 * (w * h)) by (nonlinear_arith);
    let n: usize = 4 * (w as usize) * (h as usize);
    let mut data: Vec<u8> = Vec::with_capacity(n);
    while data.len() < n
        invariant
            data@.len() <= n,
            forall|i: int| 0 <= i < data@.len() ==> data@[i] == 0u8,
        decreases n - data@.len(),
    {
        data.push(0);
    }
    assert(data@ =~= blank(w, h));
    Canvas { width: w, height: h, data }
}

fn layer(lhs: Canvas, rhs: Canvas, w: u32, h: u32, x: u32, mode: Blend) -> (r: Canvas)
    requires
        lhs@.wf(),
        rhs@.wf(),
        fits(w as int, h as int),
        x + rhs.width <= w,
    ensures
        r@ == layered(lhs@, rhs@, w, h, x, mode),
        r@.wf(),
{
    let base = blank_canvas(w, h);
    assert(4 * w * h == 4 * (w * h)) by (nonlinear_arith);
    let base = draw_at(base, 0, &lhs, Blend::SourceOver);
    if mode == Blend::SourceIn {
        let mask = blank_canvas(w, h);
        let mask = draw_at(mask, x, &rhs, Blend::SourceOver);
        draw_at(base, 0, &mask, Blend::SourceIn)
    } else {
        draw_at(base, x, &rhs, mode)
    }
}

/// Draws `lhs`, then `rhs` over it with `mode`, both at the origin of a canvas as
/// wide and as tall as the larger of the two.
pub fn composite(lhs: Canvas, rhs: Canvas, mode: Blend) -> (r: Result<Canvas, RenderError>)
    requires
        lhs@.wf(),
        rhs@.wf(),
    ensures
        match r {
            Ok(c) => {
                &&& c.width == max(lhs.width, rhs.width)
                &&& c.height == max(lhs.height, rhs.height)
                &&& c@ == layered(lhs@, rhs@, c.width, c.height, 0, mode)
                &&& c@.wf()
            },
            Err(e) => e == RenderError::BadCanvasSize && !fits(
                max(lhs.width, rhs.width) as int,
                max(lhs.height, rhs.height) as int,
            ),
        },
{
    let w = if lhs.width >= rhs.width { lhs.width } else { rhs.width };
    let h = if lhs.height >= rhs.height { lhs.height } else { rhs.height };
    if !size_fits(w as u64, h as u64) {
        return Err(RenderError::BadCanvasSize);
    }
    Ok(layer(lhs, rhs, w, h, 0, mode))
}

/// Places `lhs` and `rhs` side by side, `rhs` starting where `lhs` ends.
pub fn concat(lhs: Canvas, rhs: Canvas) -> (r: Result<Canvas, RenderError>)
    requires
        lhs@.wf(),
        rhs@.wf(),
    ensures
        match r {
            Ok(c) => {
                &&& c.width == lhs.width + rhs.width
                &&& c.height == max(lhs.height, rhs.height)
                &&& c@ == layered(lhs@, rhs@, c.width, c.height, lhs.width, Blend::SourceOver)
                &&& c@.wf()
            },
            Err(e) => e == RenderError::BadCanvasSize && !fits(
                lhs.width + rhs.width,
                max(lhs.height, rhs.height) as int,
            ),
        },
{
    let w = lhs.width as u64 + rhs.width as u64;
    let h = if lhs.height >= rhs.height { lhs.height } else { rhs.height };
    if !size_fits(w, h as u64) {
        return Err(RenderError::BadCanvasSize);
    }
    let x = lhs.width;
    Ok(layer(lhs, rhs, w as u32, h, x, Blend::SourceOver))
}

/// Combines two canvases as the operator says.
pub fn combine(lhs: Canvas, rhs: Canvas, op: Op) -> (r: Result<Canvas, RenderError>)
    requires
        lhs@.wf(),
        rhs@.wf(),
    ensures
        lift_canvas(r) == combined(lhs@, rhs@, op),
        r matches Ok(c) ==> c@.wf() && c.width == combined_width(lhs@, rhs@, op) && c.height
            == combined_height(lhs@, rhs@),
{
    match op {
        Op::Concat => concat(lhs, rhs),
        Op::Add => composite(lhs, rhs, Blend::SourceOver),
        Op::Or => composite(lhs, rhs, Blend::SourceOver),
        Op::Sub => composite(lhs, rhs, Blend::DestinationOut),
        Op::And => composite(lhs, rhs, Blend::SourceIn),
        Op::Xor => composite(lhs, rhs, Blend::Xor),
    }
}

/// Every operator but `||` makes a canvas as wide and as tall as the larger operand;
/// `||` makes one as wide as both together and as tall as the taller.
pub proof fn lemma_combined_size(lhs: CanvasView, rhs: CanvasView, op: Op)
    requires
        lhs.wf(),
        rhs.wf(),
    ensures
        combined(lhs, rhs, op) matches Ok(c) ==> {
            &&& op == Op::Concat ==> c.width == lhs.width + rhs.width
            &&& op != Op::Concat ==> c.width == max(lhs.width, rhs.width)
            &&& c.height == max(lhs.height, rhs.height)
        },
{
}

/// `+` and `|` draw the same pixels.
pub proof fn lemma_add_or_same(lhs: CanvasView, rhs: CanvasView)
    ensures
        combined(lhs, rhs, Op::Add) == combined(lhs, rhs, Op::Or),
{
}

} // verus!
