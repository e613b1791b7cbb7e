//! Turning a parse tree into a canvas: one tinted glyph per leaf, combined
//! bottom-up by the operators.
use vstd::prelude::*;
use crate::canvas::{
    blank, blank_canvas, combine, combined, drawn, fits, lift_canvas, size_fits, tinted, Blend,
    Canvas, CanvasView, RenderError,
};
use crate::color::{after, taken, ColorStrategy, Color, Rgba8};
use crate::parser::{lemma_leaves_in_reading_order, letters_in, program_of};
use crate::tree::{leaves, Node, Op};

verus! {

/// A rasterised character: a coverage bitmap with three bytes per pixel, and the
/// horizontal advance of the character.
pub struct Glyph {
    pub character: char,
    pub width: u32,
    pub height: u32,
    pub advance: u32,
    pub coverage: Vec<u8>,
}

impl Glyph {
    pub open spec fn wf(&self) -> bool {
        self.coverage@.len() == 3 * self.width * self.height
    }
}

pub open spec fn min3(a: u8, b: u8, c: u8) -> u8 {
    if a <= b && a <= c {
        a
    } else if b <= c {
        b
    } else {
        c
    }
}

/// RGBA pixels from three-channel coverage: the channels kept, and the smallest
/// of them as alpha.
pub open spec fn rgba_of_coverage(c: Seq<u8>) -> Seq<u8> {
    Seq::new(
        (c.len() / 3 * 4) as nat,
        |i: int|
            if i % 4 < 3 {
                c[3 * (i / 4) + i % 4]
            } else {
                min3(c[3 * (i / 4)], c[3 * (i / 4) + 1], c[3 * (i / 4) + 2])
            },
    )
}

/// Expands three-channel coverage into RGBA pixels.
pub fn coverage_to_rgba(coverage: &Vec<u8>) -> (r: Vec<u8>)
    requires
        coverage@.len() % 3 == 0,
        coverage@.len() / 3 * 4 <= usize::MAX,
    ensures
        r@ == rgba_of_coverage(coverage@),
{
    let n = coverage.len() / 3;
    let mut out: Vec<u8> = Vec::with_capacity(n * 4);
    let mut p: usize = 0;
    while p < n
        invariant
            n == coverage@.len() / 3,
            n * 4 <= usize::MAX,
            p <= n,
            out@.len() == 4 * p,
            forall|i: int| 0 <= i < 4 * p ==> out@[i] == rgba_of_coverage(coverage@)[i],
        decreases n - p,
    {
        let a = coverage[3 * p];
        let b = coverage[3 * p + 1];
        let c = coverage[3 * p + 2];
        let m = if a <= b && a <= c {
            a
        } else if b <= c {
            b
        } else {
            c
        };
        out.push(a);
        out.push(b);
        out.push(c);
        out.push(m);
        assert forall|i: int| 4 * p <= i < 4 * (p + 1) implies out@[i] == rgba_of_coverage(
            coverage@,
        )[i] by {
            assert(i / 4 == p);
        }
        p = p + 1;
    }
    assert(out@ =~= rgba_of_coverage(coverage@));
    out
}

/// The canvas of one glyph: `advance` x `font_size`, the glyph's pixels at the
/// origin, then tinted with `color` wherever they cover.
pub open spec fn glyph_canvas(g: Glyph, font_size: u32, color: Rgba8) -> Result<CanvasView, RenderError> {
    let w = g.advance;
    let h = font_size;
    if !fits(w as int, h as int) {
        Err(RenderError::BadCanvasSize)
    } else if g.width == 0 || g.height == 0 {
        Ok(CanvasView { width: w, height: h, pixels: tinted(blank(w, h), w, h, color) })
    } else if !fits(g.width as int, g.height as int) {
        Err(RenderError::BadCanvasSize)
    } else {
        let shape = drawn(blank(w, h), w, h, 0, rgba_of_coverage(g.coverage@), g.width, g.height, Blend::SourceOver);
        Ok(CanvasView { width: w, height: h, pixels: tinted(shape, w, h, color) })
    }
}

/// Draws one glyph in one colour.
pub fn render_char(glyph: &Glyph, font_size: u32, color: Rgba8) -> (r: Result<Canvas, RenderError>)
    requires
        glyph.wf(),
    ensures
        lift_canvas(r) == glyph_canvas(*glyph, font_size, color),
        r matches Ok(c) ==> c@.wf(),
{
    if !size_fits(glyph.advance as u64, font_size as u64) {
        return Err(RenderError::BadCanvasSize);
    }
    let canvas = blank_canvas(glyph.advance, font_size);
    let canvas = if glyph.width == 0 || glyph.height == 0 {
        canvas
    } else {
        if !size_fits(glyph.width as u64, glyph.height as u64) {
            return Err(RenderError::BadCanvasSize);
        }
        proof {
            assert(3 * glyph.width * glyph.height == 3 * (glyph.width * glyph.height)) by (nonlinear_arith);
            assert(4 * glyph.width * glyph.height == 4 * (glyph.width * glyph.height)) by (nonlinear_arith);
        }
        let pixels = coverage_to_rgba(&glyph.coverage);
        let bitmap = Canvas { width: glyph.width, height: glyph.height, data: pixels };
        crate::canvas::draw_at(canvas, 0, &bitmap, Blend::SourceOver)
    };
    Ok(crate::canvas::tint(canvas, color))
}

/// Index of the first glyph for character `c`.
pub open spec fn glyph_index(glyphs: Seq<Glyph>, c: char) -> Option<int>
    decreases glyphs.len(),
{
    if glyphs.len() == 0 {
        None
    } else {
        match glyph_index(glyphs.drop_last(), c) {
            Some(i) => Some(i),
            None => if glyphs.last().character == c {
                Some(glyphs.len() - 1)
            } else {
                None
            },
        }
    }
}

fn find_glyph(glyphs: &Vec<Glyph>, c: char) -> (r: Option<usize>)
    ensures
        match r {
            Some(i) => glyph_index(glyphs@, c) == Some(i as int) && i < glyphs@.len(),
            None => glyph_index(glyphs@, c) is None,
        },
{
    let mut i: usize = 0;
    while i < glyphs.len()
        invariant
            i <= glyphs@.len(),
            glyph_index(glyphs@.take(i as int), c) is None,
        decreases glyphs@.len() - i,
    {
        assert(glyphs@.take(i as int + 1).drop_last() =~= glyphs@.take(i as int));
        if glyphs[i].character == c {
            proof { lemma_glyph_index_prefix(glyphs@, c, i as int + 1); }
            return Some(i);
        }
        i = i + 1;
    }
    assert(glyphs@.take(glyphs@.len() as int) =~= glyphs@);
    None
}

proof fn lemma_glyph_index_prefix(glyphs: Seq<Glyph>, c: char, n: int)
    requires
        0 < n <= glyphs.len(),
        glyph_index(glyphs.take(n), c) is Some,
    ensures
        glyph_index(glyphs, c) == glyph_index(glyphs.take(n), c),
    decreases glyphs.len(),
{
    if n < glyphs.len() {
        assert(glyphs.drop_last().take(n) =~= glyphs.take(n));
        lemma_glyph_index_prefix(glyphs.drop_last(), c, n);
    } else {
        assert(glyphs.take(n) =~= glyphs);
    }
}

/// The canvas of a tree: leaf `i`, left to right, is drawn with `tints[i]`.
pub open spec fn rendered(t: Node, glyphs: Seq<Glyph>, font_size: u32, tints: Seq<Rgba8>) -> Result<CanvasView, RenderError>
    decreases t,
{
    match t {
        Node::Leaf(c) => match glyph_index(glyphs, c) {
            Some(i) => glyph_canvas(glyphs[i], font_size, tints[0]),
            None => Err(RenderError::GlyphNotFound(c)),
        },
        Node::Binary(op, l, r) => {
            let n = leaves(*l).len() as int;
            match rendered(*l, glyphs, font_size, tints.take(n)) {
                Ok(a) => match rendered(*r, glyphs, font_size, tints.skip(n)) {
                    Ok(b) => combined(a, b, op),
                    Err(e) => Err(e),
                },
                Err(e) => Err(e),
            }
        },
    }
}

fn count_leaves(t: &Node, bound: usize) -> (r: usize)
    requires
        leaves(*t).len() <= bound,
    ensures
        r == leaves(*t).len(),
    decreases t,
{
    match t {
        Node::Leaf(_) => 1,
        Node::Binary(_, l, r) => count_leaves(l, bound) + count_leaves(r, bound),
    }
}

proof fn lemma_leaves_nonempty(t: Node)
    ensures
        leaves(t).len() >= 1,
    decreases t,
{
    if let Node::Binary(_, l, r) = t {
        lemma_leaves_nonempty(*l);
    }
}

fn render_from(t: &Node, glyphs: &Vec<Glyph>, font_size: u32, tints: &Vec<Rgba8>, start: usize) -> (r: Result<Canvas, RenderError>)
    requires
        start + leaves(*t).len() <= tints@.len(),
        forall|i: int| 0 <= i < glyphs@.len() ==> glyphs@[i].wf(),
    ensures
        lift_canvas(r) == rendered(*t, glyphs@, font_size, tints@.subrange(start as int, start + leaves(*t).len())),
        r matches Ok(c) ==> c@.wf(),
    decreases t,
{
    let ghost part = tints@.subrange(start as int, start + leaves(*t).len());
    match t {
        Node::Leaf(c) => {
            match find_glyph(glyphs, *c) {
                Some(i) => {
                    assert(part[0] == tints@[start as int]);
                    render_char(&glyphs[i], font_size, tints[start])
                },
                None => Err(RenderError::GlyphNotFound(*c)),
            }
        },
        Node::Binary(op, l, rt) => {
            let n = count_leaves(l, tints.len());
            assert(part.take(n as int) =~= tints@.subrange(start as int, start + n));
            assert(part.skip(n as int) =~= tints@.subrange(start + n, start + n + leaves(**rt).len()));
            match render_from(l, glyphs, font_size, tints, start) {
                Ok(a) => match render_from(rt, glyphs, font_size, tints, start + n) {
                    Ok(b) => combine(a, b, *op),
                    Err(e) => Err(e),
                },
                Err(e) => Err(e),
            }
        },
    }
}

/// Draws a tree: leaf `i`, left to right, is the glyph for its character in
/// `tints[i]`, and each operator combines the canvases of its operands.
pub fn render(t: &Node, glyphs: &Vec<Glyph>, font_size: u32, tints: &Vec<Rgba8>) -> (r: Result<Canvas, RenderError>)
    requires
        leaves(*t).len() <= tints@.len(),
        forall|i: int| 0 <= i < glyphs@.len() ==> glyphs@[i].wf(),
    ensures
        lift_canvas(r) == rendered(*t, glyphs@, font_size, tints@.take(leaves(*t).len() as int)),
        r matches Ok(c) ==> c@.wf(),
{
    assert(tints@.subrange(0, leaves(*t).len() as int) =~= tints@.take(leaves(*t).len() as int));
    render_from(t, glyphs, font_size, tints, 0)
}

/// Width of a tree's canvas from the advances of its glyphs: `||` adds widths,
/// every other operator takes the larger.
pub open spec fn tree_width(t: Node, glyphs: Seq<Glyph>) -> int
    decreases t,
{
    match t {
        Node::Leaf(c) => match glyph_index(glyphs, c) {
            Some(i) => glyphs[i].advance as int,
            None => 0,
        },
        Node::Binary(op, l, r) => if op == Op::Concat {
            tree_width(*l, glyphs) + tree_width(*r, glyphs)
        } else {
            let a = tree_width(*l, glyphs);
            let b = tree_width(*r, glyphs);
            if a >= b { a } else { b }
        },
    }
}

/// A rendered tree is `tree_width` wide and one font size tall.
pub proof fn lemma_rendered_size(t: Node, glyphs: Seq<Glyph>, font_size: u32, tints: Seq<Rgba8>)
    ensures
        rendered(t, glyphs, font_size, tints) matches Ok(c) ==> c.width == tree_width(t, glyphs)
            && c.height == font_size,
    decreases t,
{
    if let Node::Binary(op, l, r) = t {
        let n = leaves(*l).len() as int;
        lemma_rendered_size(*l, glyphs, font_size, tints.take(n));
        lemma_rendered_size(*r, glyphs, font_size, tints.skip(n));
    }
}

/// The canvas of one leaf: the glyph for `c` in `tint`.
pub open spec fn leaf_canvas(glyphs: Seq<Glyph>, c: char, font_size: u32, tint: Rgba8) -> Result<CanvasView, RenderError> {
    match glyph_index(glyphs, c) {
        Some(i) => glyph_canvas(glyphs[i], font_size, tint),
        None => Err(RenderError::GlyphNotFound(c)),
    }
}

/// A tree's canvas put together from given leaf canvases, the `k`-th leaf from
/// `parts[k]`.
pub open spec fn assembled(t: Node, parts: Seq<Result<CanvasView, RenderError>>) -> Result<CanvasView, RenderError>
    decreases t,
{
    match t {
        Node::Leaf(_) => parts[0],
        Node::Binary(op, l, r) => {
            let n = leaves(*l).len() as int;
            match assembled(*l, parts.take(n)) {
                Ok(a) => match assembled(*r, parts.skip(n)) {
                    Ok(b) => combined(a, b, op),
                    Err(e) => Err(e),
                },
                Err(e) => Err(e),
            }
        },
    }
}

proof fn lemma_rendered_assembled(t: Node, glyphs: Seq<Glyph>, font_size: u32, tints: Seq<Rgba8>)
    requires
        tints.len() == leaves(t).len(),
    ensures
        rendered(t, glyphs, font_size, tints) == assembled(
            t,
            Seq::new(leaves(t).len(), |k: int| leaf_canvas(glyphs, leaves(t)[k], font_size, tints[k])),
        ),
    decreases t,
{
    let parts = Seq::new(leaves(t).len(), |k: int| leaf_canvas(glyphs, leaves(t)[k], font_size, tints[k]));
    if let Node::Binary(op, l, r) = t {
        let n = leaves(*l).len() as int;
        let tl = tints.take(n);
        let tr = tints.skip(n);
        lemma_rendered_assembled(*l, glyphs, font_size, tl);
        lemma_rendered_assembled(*r, glyphs, font_size, tr);
        assert(parts.take(n) =~= Seq::new(leaves(*l).len(), |k: int| leaf_canvas(glyphs, leaves(*l)[k], font_size, tl[k])));
        assert(parts.skip(n) =~= Seq::new(leaves(*r).len(), |k: int| leaf_canvas(glyphs, leaves(*r)[k], font_size, tr[k])));
    }
}

/// Colours follow reading order: the canvas of a parsed program is put together
/// from one glyph canvas per letter or digit of the text, the `k`-th of them, in
/// the order the text is read, drawn with `tints[k]`, whatever the operators
/// and parentheses around it.
pub proof fn lemma_tints_in_reading_order(b: Seq<u8>, glyphs: Seq<Glyph>, font_size: u32, tints: Seq<Rgba8>)
    requires
        program_of(b) is Ok,
        tints.len() == letters_in(b, 0, b.len() as int).len(),
    ensures
        rendered(program_of(b)->Ok_0, glyphs, font_size, tints) == assembled(
            program_of(b)->Ok_0,
            Seq::new(
                tints.len(),
                |k: int| leaf_canvas(glyphs, letters_in(b, 0, b.len() as int)[k], font_size, tints[k]),
            ),
        ),
{
    lemma_leaves_in_reading_order(b);
    let t = program_of(b)->Ok_0;
    lemma_rendered_assembled(t, glyphs, font_size, tints);
    assert(Seq::new(leaves(t).len(), |k: int| leaf_canvas(glyphs, leaves(t)[k], font_size, tints[k]))
        =~= Seq::new(tints.len(), |k: int| leaf_canvas(glyphs, letters_in(b, 0, b.len() as int)[k], font_size, tints[k])));
}

/// The tree with every `|` written as `+`.
pub open spec fn or_as_add(t: Node) -> Node
    decreases t,
{
    match t {
        Node::Leaf(c) => Node::Leaf(c),
        Node::Binary(op, l, r) => Node::Binary(
            if op == Op::Or { Op::Add } else { op },
            Box::new(or_as_add(*l)),
            Box::new(or_as_add(*r)),
        ),
    }
}

proof fn lemma_or_as_add_leaves(t: Node)
    ensures
        leaves(or_as_add(t)) == leaves(t),
    decreases t,
{
    if let Node::Binary(_, l, r) = t {
        lemma_or_as_add_leaves(*l);
        lemma_or_as_add_leaves(*r);
    }
}

/// `|` and `+` draw the same picture: writing any `|` of a tree as `+` changes
/// neither the size nor a single pixel of its canvas, nor whether it can be drawn.
pub proof fn lemma_or_draws_as_add(t: Node, glyphs: Seq<Glyph>, font_size: u32, tints: Seq<Rgba8>)
    ensures
        rendered(or_as_add(t), glyphs, font_size, tints) == rendered(t, glyphs, font_size, tints),
    decreases t,
{
    if let Node::Binary(op, l, r) = t {
        let n = leaves(*l).len() as int;
        lemma_or_as_add_leaves(*l);
        lemma_or_draws_as_add(*l, glyphs, font_size, tints.take(n));
        lemma_or_draws_as_add(*r, glyphs, font_size, tints.skip(n));
    }
}

/// Takes one colour from the sequence for each leaf of the tree, in reading order.
pub fn leaf_colors(t: &Node, strategy: &mut ColorStrategy) -> (r: Vec<Color>)
    requires
        leaves(*t).len() <= usize::MAX,
    ensures
        r@ == taken(*old(strategy), leaves(*t).len()),
        *final(strategy) == after(*old(strategy), leaves(*t).len()),
{
    let n = count_leaves(t, usize::MAX);
    let mut out: Vec<Color> = Vec::new();
    let mut i: usize = 0;
    while i < n
        invariant
            i <= n,
            out@ == taken(*old(strategy), i as nat),
            *strategy == after(*old(strategy), i as nat),
        decreases n - i,
    {
        let c = strategy.next();
        out.push(c);
        i = i + 1;
    }
    out
}

} // verus!
