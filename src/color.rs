//! Colour sequences: the tints that successive glyphs receive.
//!
//! Hues are whole degrees; saturation, lightness and chroma are whole numbers on
//! the usual 0..=100 scales. Turning such a colour into RGB is left to the caller.
use vstd::prelude::*;

verus! {

/// An 8-bit RGBA colour.
#[derive(Clone, Copy, Debug, PartialEq, Eq, Structural)]
pub struct Rgba8 {
    pub red: u8,
    pub green: u8,
    pub blue: u8,
    pub alpha: u8,
}

/// A colour in the HSL space.
#[derive(Clone, Copy, Debug, PartialEq, Eq, Structural)]
pub struct HslColor {
    pub hue: u16,
    pub saturation: u8,
    pub lightness: u8,
}

/// A colour in the LCh space.
#[derive(Clone, Copy, Debug, PartialEq, Eq, Structural)]
pub struct LchColor {
    pub lightness: u8,
    pub chroma: u8,
    pub hue: u16,
}

/// A colour as a sequence yields it.
#[derive(Clone, Copy, Debug, PartialEq, Eq, Structural)]
pub enum Color {
    Hsl(HslColor),
    Lch(LchColor),
    Srgba(Rgba8),
}

/// Turns the hue of an HSL colour by a fixed step before each colour it yields.
#[derive(Clone, Copy, Debug, PartialEq, Eq, Structural)]
pub struct HslWheelStrategy {
    pub color: HslColor,
    pub step: u16,
}

/// Turns the hue of an LCh colour by a fixed step before each colour it yields.
#[derive(Clone, Copy, Debug, PartialEq, Eq, Structural)]
pub struct LchWheelStrategy {
    pub color: LchColor,
    pub step: u16,
}

/// Yields one colour forever.
#[derive(Clone, Copy, Debug, PartialEq, Eq, Structural)]
pub struct UniformColorStrategy(pub Rgba8);

/// The HSL wheel from hue 0, full saturation, 60% lightness, turning 70 degrees a step.
#[derive(Clone, Copy, Debug, PartialEq, Eq, Structural)]
pub struct DefaultColorStrategy(pub HslWheelStrategy);

/// Any of the colour sequences.
#[derive(Clone, Copy, Debug, PartialEq, Eq, Structural)]
pub enum ColorStrategy {
    Default(DefaultColorStrategy),
    Hsl(HslWheelStrategy),
    Lch(LchWheelStrategy),
    Uniform(UniformColorStrategy),
}

pub open spec fn turn(hue: u16, step: u16) -> u16 {
    ((hue as int + step as int) % 360) as u16
}

fn turn_exec(hue: u16, step: u16) -> (r: u16)
    ensures
        r == turn(hue, step),
{
    ((hue as u32 + step as u32) % 360) as u16
}

pub open spec fn hsl_advanced(s: HslWheelStrategy) -> HslWheelStrategy {
    HslWheelStrategy { color: HslColor { hue: turn(s.color.hue, s.step), ..s.color }, ..s }
}

pub open spec fn lch_advanced(s: LchWheelStrategy) -> LchWheelStrategy {
    LchWheelStrategy { color: LchColor { hue: turn(s.color.hue, s.step), ..s.color }, ..s }
}

/// One step of a sequence: its next state and the colour it yields.
pub open spec fn advance(s: ColorStrategy) -> (ColorStrategy, Color) {
    match s {
        ColorStrategy::Default(d) => (
            ColorStrategy::Default(DefaultColorStrategy(hsl_advanced(d.0))),
            Color::Hsl(hsl_advanced(d.0).color),
        ),
        ColorStrategy::Hsl(h) => (ColorStrategy::Hsl(hsl_advanced(h)), Color::Hsl(hsl_advanced(h).color)),
        ColorStrategy::Lch(l) => (ColorStrategy::Lch(lch_advanced(l)), Color::Lch(lch_advanced(l).color)),
        ColorStrategy::Uniform(u) => (s, Color::Srgba(u.0)),
    }
}

/// The state of a sequence after `n` colours were taken.
pub open spec fn after(s: ColorStrategy, n: nat) -> ColorStrategy
    decreases n,
{
    if n == 0 {
        s
    } else {
        advance(after(s, (n - 1) as nat)).0
    }
}

/// The first `n` colours a sequence yields.
pub open spec fn taken(s: ColorStrategy, n: nat) -> Seq<Color>
    decreases n,
{
    if n == 0 {
        seq![]
    } else {
        taken(s, (n - 1) as nat).push(advance(after(s, (n - 1) as nat)).1)
    }
}

pub open spec fn default_strategy() -> DefaultColorStrategy {
    DefaultColorStrategy(
        HslWheelStrategy { color: HslColor { hue: 0, saturation: 100, lightness: 60 }, step: 70 },
    )
}

impl HslWheelStrategy {
    pub fn new(start: HslColor, step: u16) -> (r: Self)
        ensures
            r == (HslWheelStrategy { color: start, step }),
    {
        HslWheelStrategy { color: start, step }
    }

    /// Turns the hue, then yields the colour.
    pub fn next(&mut self) -> (r: HslColor)
        ensures
            *final(self) == hsl_advanced(*old(self)),
            r == final(self).color,
    {
        self.color.hue = turn_exec(self.color.hue, self.step);
        self.color
    }
}

impl LchWheelStrategy {
    pub fn new(start: LchColor, step: u16) -> (r: Self)
        ensures
            r == (LchWheelStrategy { color: start, step }),
    {
        LchWheelStrategy { color: start, step }
    }

    /// Turns the hue, then yields the colour.
    pub fn next(&mut self) -> (r: LchColor)
        ensures
            *final(self) == lch_advanced(*old(self)),
            r == final(self).color,
    {
        self.color.hue = turn_exec(self.color.hue, self.step);
        self.color
    }
}

impl UniformColorStrategy {
    /// Yields the fixed colour; the state does not change.
    pub fn next(&mut self) -> (r: Rgba8)
        ensures
            *final(self) == *old(self),
            r == old(self).0,
    {
        self.0
    }
}

impl DefaultColorStrategy {
    pub fn new() -> (r: Self)
        ensures
            r == default_strategy(),
    {
        DefaultColorStrategy(
            HslWheelStrategy::new(HslColor { hue: 0, saturation: 100, lightness: 60 }, 70),
        )
    }

    pub fn next(&mut self) -> (r: HslColor)
        ensures
            final(self).0 == hsl_advanced(old(self).0),
            r == final(self).0.color,
    {
        self.0.next()
    }
}

impl Default for DefaultColorStrategy {
    fn default() -> (r: Self)
        ensures
            r == default_strategy(),
    {
        Self::new()
    }
}

impl ColorStrategy {
    /// Advances the sequence and yields its next colour.
    pub fn next(&mut self) -> (r: Color)
        ensures
            (*final(self), r) == advance(*old(self)),
    {
        match self {
            ColorStrategy::Default(d) => Color::Hsl(d.next()),
            ColorStrategy::Hsl(h) => Color::Hsl(h.next()),
            ColorStrategy::Lch(l) => Color::Lch(l.next()),
            ColorStrategy::Uniform(u) => Color::Srgba(u.next()),
        }
    }
}

proof fn lemma_hsl_hue_after(s: HslWheelStrategy, n: nat)
    requires
        n >= 1,
    ensures
        after(ColorStrategy::Hsl(s), n) matches ColorStrategy::Hsl(h) && h.step == s.step && h.color.hue
            == (s.color.hue + n * s.step) % 360,
    decreases n,
{
    let m = (n - 1) as nat;
    if m == 0 {
        assert(n * s.step == s.step) by (nonlinear_arith)
            requires
                n == 1,
        ;
    } else {
        lemma_hsl_hue_after(s, m);
        let h = after(ColorStrategy::Hsl(s), m)->Hsl_0;
        vstd::arithmetic::div_mod::lemma_add_mod_noop_right(
            s.step as int,
            s.color.hue + m * s.step,
            360,
        );
        assert(s.color.hue + m * s.step + s.step == s.color.hue + n * s.step) by (nonlinear_arith)
            requires
                n == m + 1,
        ;
    }
}

/// A wheel's `n`-th colour (counting from 1) has the start hue turned by `n` steps.
pub proof fn lemma_wheel_nth_hue(s: HslWheelStrategy, n: nat)
    requires
        n >= 1,
    ensures
        taken(ColorStrategy::Hsl(s), n).len() == n,
        taken(ColorStrategy::Hsl(s), n)[n - 1] matches Color::Hsl(c) && c.hue == (s.color.hue + n
            * s.step) % 360,
{
    lemma_hsl_hue_after(s, n);
    lemma_taken_len(ColorStrategy::Hsl(s), n);
}

proof fn lemma_taken_len(s: ColorStrategy, n: nat)
    ensures
        taken(s, n).len() == n,
    decreases n,
{
    if n > 0 {
        lemma_taken_len(s, (n - 1) as nat);
    }
}

/// A fresh default sequence yields as its `n`-th colour (counting from 1) the hue
/// `70 n mod 360`.
pub proof fn lemma_default_nth_hue(n: nat)
    requires
        n >= 1,
    ensures
        taken(ColorStrategy::Default(default_strategy()), n).len() == n,
        taken(ColorStrategy::Default(default_strategy()), n)[n - 1] matches Color::Hsl(c) && c.hue
            == (70 * n) % 360,
{
    let d = ColorStrategy::Default(default_strategy());
    let h = ColorStrategy::Hsl(default_strategy().0);
    assert forall|k: nat| #[trigger] after(d, k) == ColorStrategy::Default(DefaultColorStrategy(after(h, k)->Hsl_0)) && after(h, k) is Hsl by {
        lemma_after_default(k);
    }
    assert(after(d, (n - 1) as nat) == ColorStrategy::Default(DefaultColorStrategy(after(h, (n - 1) as nat)->Hsl_0)));
    lemma_wheel_nth_hue(default_strategy().0, n);
    lemma_taken_len(d, n);
}

proof fn lemma_after_default(k: nat)
    ensures
        after(ColorStrategy::Default(default_strategy()), k) == ColorStrategy::Default(
            DefaultColorStrategy(after(ColorStrategy::Hsl(default_strategy().0), k)->Hsl_0),
        ),
        after(ColorStrategy::Hsl(default_strategy().0), k) is Hsl,
    decreases k,
{
    if k > 0 {
        lemma_after_default((k - 1) as nat);
    }
}

} // verus!
