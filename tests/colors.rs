use arithmetic_of_letters::color::{
    Color, ColorStrategy, DefaultColorStrategy, HslColor, HslWheelStrategy, LchColor,
    LchWheelStrategy, Rgba8, UniformColorStrategy,
};
use arithmetic_of_letters::parser::parse_program;
use arithmetic_of_letters::render::leaf_colors;

#[test]
fn default_sequence_turns_seventy_degrees() {
    let mut s = DefaultColorStrategy::new();
    for n in 1..=20u32 {
        let c = s.next();
        assert_eq!(c.hue as u32, (70 * n) % 360);
        assert_eq!(c.saturation, 100);
        assert_eq!(c.lightness, 60);
    }
}

#[test]
fn fresh_sequences_repeat() {
    let mut a = ColorStrategy::Default(DefaultColorStrategy::default());
    let mut b = ColorStrategy::Default(DefaultColorStrategy::new());
    for _ in 0..10 {
        assert_eq!(a.next(), b.next());
    }
}

#[test]
fn wheels_turn_before_yielding() {
    let mut h = HslWheelStrategy::new(HslColor { hue: 350, saturation: 50, lightness: 40 }, 20);
    assert_eq!(h.next(), HslColor { hue: 10, saturation: 50, lightness: 40 });
    let mut l = LchWheelStrategy::new(LchColor { lightness: 70, chroma: 40, hue: 100 }, 300);
    assert_eq!(l.next().hue, 40);
    assert_eq!(l.next().hue, 340);
}

#[test]
fn uniform_sequence_repeats_its_colour() {
    let red = Rgba8 { red: 255, green: 0, blue: 0, alpha: 255 };
    let mut u = UniformColorStrategy(red);
    assert_eq!(u.next(), red);
    assert_eq!(u.next(), red);
    let mut s = ColorStrategy::Uniform(UniformColorStrategy(red));
    assert_eq!(s.next(), Color::Srgba(red));
}

#[test]
fn one_colour_per_leaf() {
    let t = parse_program("A + (B || C)").unwrap();
    let mut s = ColorStrategy::Default(DefaultColorStrategy::new());
    let colors = leaf_colors(&t, &mut s);
    let hues: Vec<u16> = colors
        .iter()
        .map(|c| match c {
            Color::Hsl(h) => h.hue,
            _ => panic!("expected an HSL colour"),
        })
        .collect();
    assert_eq!(hues, vec![70, 140, 210]);
    assert_eq!(s.next(), Color::Hsl(HslColor { hue: 280, saturation: 100, lightness: 60 }));
}
