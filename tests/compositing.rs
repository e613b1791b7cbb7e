use arithmetic_of_letters::canvas;
use arithmetic_of_letters::canvas::{combine, composite, size_fits, Blend, Canvas, RenderError};
use arithmetic_of_letters::color::Rgba8;
use arithmetic_of_letters::parser::parse_program;
use arithmetic_of_letters::render::{coverage_to_rgba, render, render_char, Glyph};
use arithmetic_of_letters::tree::Op;

const RED: [u8; 4] = [255, 0, 0, 255];
const BLUE: [u8; 4] = [0, 0, 255, 255];
const CLEAR: [u8; 4] = [0, 0, 0, 0];

fn canvas(width: u32, height: u32, pixels: &[[u8; 4]]) -> Canvas {
    Canvas { width, height, data: pixels.iter().flatten().copied().collect() }
}

fn pixel(c: &Canvas, x: u32, y: u32) -> [u8; 4] {
    let i = ((y * c.width + x) * 4) as usize;
    [c.data[i], c.data[i + 1], c.data[i + 2], c.data[i + 3]]
}

#[test]
fn composite_takes_the_larger_sides() {
    let a = canvas(3, 1, &[RED, RED, RED]);
    let b = canvas(1, 2, &[BLUE, BLUE]);
    for op in [Op::Add, Op::Sub, Op::And, Op::Or, Op::Xor] {
        let c = combine(canvas(3, 1, &[RED, RED, RED]), canvas(1, 2, &[BLUE, BLUE]), op).unwrap();
        assert_eq!((c.width, c.height), (3, 2));
        assert_eq!(c.data.len(), 24);
    }
    let c = combine(a, b, Op::Concat).unwrap();
    assert_eq!((c.width, c.height), (4, 2));
}

#[test]
fn source_over_draws_rhs_on_top() {
    let c = composite(canvas(2, 1, &[RED, RED]), canvas(1, 2, &[BLUE, BLUE]), Blend::SourceOver).unwrap();
    assert_eq!(pixel(&c, 0, 0), BLUE);
    assert_eq!(pixel(&c, 1, 0), RED);
    assert_eq!(pixel(&c, 0, 1), BLUE);
    assert_eq!(pixel(&c, 1, 1), CLEAR);
}

#[test]
fn sub_erases_where_rhs_is_opaque() {
    let c = combine(canvas(2, 1, &[RED, RED]), canvas(1, 1, &[BLUE]), Op::Sub).unwrap();
    assert_eq!(pixel(&c, 0, 0), CLEAR);
    assert_eq!(pixel(&c, 1, 0), RED);
}

#[test]
fn and_keeps_only_the_common_region() {
    let c = combine(canvas(2, 1, &[RED, RED]), canvas(2, 1, &[BLUE, CLEAR]), Op::And).unwrap();
    assert_eq!(pixel(&c, 0, 0), BLUE);
    assert_eq!(pixel(&c, 1, 0), CLEAR);
}

#[test]
fn and_clears_lhs_outside_a_smaller_rhs() {
    let c = combine(canvas(3, 2, &[RED; 6]), canvas(1, 1, &[BLUE]), Op::And).unwrap();
    assert_eq!((c.width, c.height), (3, 2));
    assert_eq!(pixel(&c, 0, 0), BLUE);
    for (x, y) in [(1, 0), (2, 0), (0, 1), (1, 1), (2, 1)] {
        assert_eq!(pixel(&c, x, y), CLEAR);
    }
    let c = combine(canvas(1, 1, &[RED]), canvas(2, 1, &[BLUE, BLUE]), Op::And).unwrap();
    assert_eq!(pixel(&c, 0, 0), BLUE);
    assert_eq!(pixel(&c, 1, 0), CLEAR);
}

#[test]
fn xor_with_itself_is_clear() {
    let pixels = [RED, CLEAR, BLUE, RED];
    let c = combine(canvas(2, 2, &pixels), canvas(2, 2, &pixels), Op::Xor).unwrap();
    assert!(c.data.iter().all(|b| *b == 0));
}

#[test]
fn xor_keeps_what_one_side_covers() {
    let c = combine(canvas(2, 1, &[RED, CLEAR]), canvas(2, 1, &[BLUE, BLUE]), Op::Xor).unwrap();
    assert_eq!(pixel(&c, 0, 0), CLEAR);
    assert_eq!(pixel(&c, 1, 0), BLUE);
}

#[test]
fn add_and_or_agree() {
    let l = [RED, CLEAR, [0, 128, 0, 128], BLUE];
    let r = [[0, 0, 100, 100], BLUE, CLEAR, [40, 40, 40, 40]];
    let a = combine(canvas(2, 2, &l), canvas(2, 2, &r), Op::Add).unwrap();
    let o = combine(canvas(2, 2, &l), canvas(2, 2, &r), Op::Or).unwrap();
    assert_eq!(a.data, o.data);
}

#[test]
fn concat_places_side_by_side() {
    let c = canvas::concat(canvas(1, 1, &[RED]), canvas(1, 2, &[BLUE, BLUE])).unwrap();
    assert_eq!((c.width, c.height), (2, 2));
    assert_eq!(pixel(&c, 0, 0), RED);
    assert_eq!(pixel(&c, 1, 0), BLUE);
    assert_eq!(pixel(&c, 0, 1), CLEAR);
    assert_eq!(pixel(&c, 1, 1), BLUE);
}

#[test]
fn canvas_size_limits() {
    assert!(size_fits(1, 1));
    assert!(size_fits(0x1fff_ffff, 1));
    assert!(!size_fits(0x2000_0000, 1));
    assert!(!size_fits(0, 5));
    assert!(!size_fits(5, 0));
    assert!(!size_fits(1, 0x8000_0000));
}

#[test]
fn coverage_alpha_is_the_smallest_channel() {
    assert_eq!(coverage_to_rgba(&vec![10, 200, 30, 255, 255, 255]), vec![10, 200, 30, 10, 255, 255, 255, 255]);
    assert_eq!(coverage_to_rgba(&vec![]), Vec::<u8>::new());
}

fn glyph(character: char, advance: u32) -> Glyph {
    Glyph { character, width: 1, height: 1, advance, coverage: vec![255, 255, 255] }
}

#[test]
fn glyph_is_tinted_where_it_covers() {
    let red = Rgba8 { red: 255, green: 0, blue: 0, alpha: 255 };
    let c = render_char(&glyph('A', 2), 2, red).unwrap();
    assert_eq!((c.width, c.height), (2, 2));
    assert_eq!(pixel(&c, 0, 0), RED);
    assert_eq!(pixel(&c, 1, 0), CLEAR);
    assert_eq!(pixel(&c, 0, 1), CLEAR);
    let empty = Glyph { character: ' ', width: 0, height: 0, advance: 3, coverage: vec![] };
    let c = render_char(&empty, 2, red).unwrap();
    assert!(c.data.iter().all(|b| *b == 0));
    let zero = Glyph { character: 'x', width: 0, height: 0, advance: 0, coverage: vec![] };
    assert_eq!(render_char(&zero, 2, red).err(), Some(RenderError::BadCanvasSize));
}

#[test]
fn rendered_width_follows_the_operators() {
    let glyphs = vec![glyph('A', 3), glyph('B', 5)];
    let tints = vec![Rgba8 { red: 0, green: 0, blue: 255, alpha: 255 }; 2];
    let t = parse_program("A + B").unwrap();
    let c = render(&t, &glyphs, 4, &tints).unwrap();
    assert_eq!((c.width, c.height), (5, 4));
    let t = parse_program("A || B").unwrap();
    let c = render(&t, &glyphs, 4, &tints).unwrap();
    assert_eq!((c.width, c.height), (8, 4));
    let t = parse_program("A || Z").unwrap();
    assert_eq!(render(&t, &glyphs, 4, &tints).err(), Some(RenderError::GlyphNotFound('Z')));
}

#[test]
fn leaves_take_tints_in_reading_order() {
    let glyphs = vec![glyph('A', 1), glyph('B', 1)];
    let tints = vec![
        Rgba8 { red: 255, green: 0, blue: 0, alpha: 255 },
        Rgba8 { red: 0, green: 0, blue: 255, alpha: 255 },
    ];
    let t = parse_program("A || B").unwrap();
    let c = render(&t, &glyphs, 1, &tints).unwrap();
    assert_eq!(pixel(&c, 0, 0), RED);
    assert_eq!(pixel(&c, 1, 0), BLUE);
}

#[test]
fn or_and_add_draw_the_same_tree() {
    let glyphs = vec![
        Glyph { character: 'A', width: 2, height: 1, advance: 2, coverage: vec![255, 255, 255, 0, 0, 0] },
        Glyph { character: 'B', width: 1, height: 2, advance: 3, coverage: vec![255, 255, 255, 90, 120, 200] },
        glyph('C', 1),
    ];
    let tints = vec![
        Rgba8 { red: 200, green: 10, blue: 0, alpha: 255 },
        Rgba8 { red: 0, green: 100, blue: 250, alpha: 255 },
        Rgba8 { red: 30, green: 200, blue: 30, alpha: 255 },
        Rgba8 { red: 90, green: 90, blue: 90, alpha: 255 },
    ];
    let plus = render(&parse_program("(A + B) ^ C + A").unwrap(), &glyphs, 3, &tints).unwrap();
    let or = render(&parse_program("(A | B) ^ C | A").unwrap(), &glyphs, 3, &tints).unwrap();
    assert_eq!((plus.width, plus.height), (or.width, or.height));
    assert_eq!(plus.data, or.data);
}
