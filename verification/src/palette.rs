//! Terminal colors and pixel order.

use std::collections::HashMap;
use vstd::prelude::*;

verus! {

broadcast use vstd::std_specs::hash::group_hash_axioms;

/// A color as `0xAARRGGBB`.
#[derive(Clone, Copy, Debug, PartialEq, Eq, Structural)]
pub struct Color(pub u32);

/// The opaque color with the red, green and blue of the low 24 bits of `rgb`:
/// alpha is fixed to `0xff`.
pub fn c(rgb: u32) -> (color: Color)
    ensures
        color.0 == 0xff000000u32 | rgb,
{
    Color(0xff000000 | rgb)
}

/// The index of the terminal's foreground color.
pub const FOREGROUND: usize = 0x100;

/// The index of the terminal's background color.
pub const BACKGROUND: usize = 0x101;

/// The colors of a terminal.
#[derive(Clone, Copy, Debug, PartialEq, Eq, Structural)]
pub struct Palette {
    pub bg: Color,
    pub fg: Color,
    pub black: Color,
    pub red: Color,
    pub green: Color,
    pub yellow: Color,
    pub blue: Color,
    pub magenta: Color,
    pub cyan: Color,
    pub white: Color,
}

/// The eight colors of a palette in the order of the standard color indices.
pub open spec fn ansi_colors(p: Palette) -> Seq<Color> {
    seq![p.black, p.red, p.green, p.yellow, p.blue, p.magenta, p.cyan, p.white]
}

/// The standard terminal color map of a palette: indices 0 to 7 are the eight
/// colors, 8 to 15 the same eight again for their bright variants, and the
/// two special indices are the foreground and the background.
pub open spec fn ansi_map(p: Palette) -> Map<usize, Color> {
    Map::new(
        |index: usize| index < 16 || index == FOREGROUND || index == BACKGROUND,
        |index: usize|
            if index < 8 {
                ansi_colors(p)[index as int]
            } else if index < 16 {
                ansi_colors(p)[index - 8]
            } else if index == FOREGROUND {
                p.fg
            } else {
                p.bg
            },
    )
}

impl Palette {
    /// Convert a palette into a standard terminal color map.
    pub fn to_ansi(&self) -> (map: HashMap<usize, Color>)
        ensures
            map@ == ansi_map(*self),
    {
        let mut map: HashMap<usize, Color> = HashMap::new();
        map.insert(0x0, self.black);
        map.insert(0x1, self.red);
        map.insert(0x2, self.green);
        map.insert(0x3, self.yellow);
        map.insert(0x4, self.blue);
        map.insert(0x5, self.magenta);
        map.insert(0x6, self.cyan);
        map.insert(0x7, self.white);
        map.insert(0x8, self.black);
        map.insert(0x9, self.red);
        map.insert(0xA, self.green);
        map.insert(0xB, self.yellow);
        map.insert(0xC, self.blue);
        map.insert(0xD, self.magenta);
        map.insert(0xE, self.cyan);
        map.insert(0xF, self.white);
        map.insert(FOREGROUND, self.fg);
        map.insert(BACKGROUND, self.bg);
        assert(map@ =~= ansi_map(*self));
        map
    }

    /// The palette with the given colors as `0xRRGGBB`, each made opaque.
    fn from_rgb(
        bg: u32,
        fg: u32,
        black: u32,
        red: u32,
        green: u32,
        yellow: u32,
        blue: u32,
        magenta: u32,
        cyan: u32,
        white: u32,
    ) -> (p: Palette)
        ensures
            p == rgb_palette(bg, fg, black, red, green, yellow, blue, magenta, cyan, white),
    {
        Palette {
            bg: c(bg),
            fg: c(fg),
            black: c(black),
            red: c(red),
            green: c(green),
            yellow: c(yellow),
            blue: c(blue),
            magenta: c(magenta),
            cyan: c(cyan),
            white: c(white),
        }
    }

    /// The Rose Pine palette.
    pub fn rose_pine() -> (p: Palette)
        ensures
            p == rgb_palette(
                0x191724,
                0xe0def4,
                0x26233a,
                0xeb6f92,
                0x31748f,
                0xf6c177,
                0x9ccfd8,
                0xc4a7e7,
                0xebbcba,
                0xe0def4,
            ),
    {
        Palette::from_rgb(
            0x191724,
            0xe0def4,
            0x26233a,
            0xeb6f92,
            0x31748f,
            0xf6c177,
            0x9ccfd8,
            0xc4a7e7,
            0xebbcba,
            0xe0def4,
        )
    }

    /// The Gruvbox Material palette.
    pub fn gruvbox_material() -> (p: Palette)
        ensures
            p == rgb_palette(
                0x1d2021,
                0xd4be98,
                0x504945,
                0xea6962,
                0xa9b665,
                0xd8a657,
                0x7daea3,
                0xd3869b,
                0x89b482,
                0xddc7a1,
            ),
    {
        Palette::from_rgb(
            0x1d2021,
            0xd4be98,
            0x504945,
            0xea6962,
            0xa9b665,
            0xd8a657,
            0x7daea3,
            0xd3869b,
            0x89b482,
            0xddc7a1,
        )
    }

    /// The Pretty in Pink palette.
    pub fn pretty_in_pink() -> (p: Palette)
        ensures
            p == rgb_palette(
                0x1e1a1d,
                0xffccec,
                0x1e1e1e,
                0xf6084c,
                0x67ff6d,
                0xffc44e,
                0x2593be,
                0xd68bff,
                0x00fafa,
                0xe0def4,
            ),
    {
        Palette::from_rgb(
            0x1e1a1d,
            0xffccec,
            0x1e1e1e,
            0xf6084c,
            0x67ff6d,
            0xffc44e,
            0x2593be,
            0xd68bff,
            0x00fafa,
            0xe0def4,
        )
    }

    /// The Solarized Dark palette.
    pub fn solarized_dark() -> (p: Palette)
        ensures
            p == rgb_palette(
                0x002b36,
                0x839496,
                0x073642,
                0xdc322f,
                0x859900,
                0xb58900,
                0x268bd2,
                0xd33682,
                0x2aa198,
                0xeee8d5,
            ),
    {
        Palette::from_rgb(
            0x002b36,
            0x839496,
            0x073642,
            0xdc322f,
            0x859900,
            0xb58900,
            0x268bd2,
            0xd33682,
            0x2aa198,
            0xeee8d5,
        )
    }
}

/// The palette with the given colors as `0xRRGGBB`, each made opaque.
pub open spec fn rgb_palette(
    bg: u32,
    fg: u32,
    black: u32,
    red: u32,
    green: u32,
    yellow: u32,
    blue: u32,
    magenta: u32,
    cyan: u32,
    white: u32,
) -> Palette {
    Palette {
        bg: Color(0xff000000u32 | bg),
        fg: Color(0xff000000u32 | fg),
        black: Color(0xff000000u32 | black),
        red: Color(0xff000000u32 | red),
        green: Color(0xff000000u32 | green),
        yellow: Color(0xff000000u32 | yellow),
        blue: Color(0xff000000u32 | blue),
        magenta: Color(0xff000000u32 | magenta),
        cyan: Color(0xff000000u32 | cyan),
        white: Color(0xff000000u32 | white),
    }
}

/// Pixels in red, green, blue, alpha order for pixels given in blue, green,
/// red, alpha order, four bytes each; bytes after the last whole pixel are
/// left out.
pub open spec fn swizzled(data: Seq<u8>) -> Seq<u8> {
    Seq::new(
        ((data.len() / 4) * 4) as nat,
        |i: int|
            if i % 4 == 0 {
                data[i + 2]
            } else if i % 4 == 2 {
                data[i - 2]
            } else {
                data[i]
            },
    )
}

/// Reorders pixels from blue, green, red, alpha to red, green, blue, alpha.
pub fn bgra_to_rgba(data: &[u8]) -> (out: Vec<u8>)
    ensures
        out@ == swizzled(data@),
{
    let mut out: Vec<u8> = Vec::new();
    let pixels = data.len() / 4;
    let mut p: usize = 0;
    while p < pixels
        invariant
            p <= pixels,
            pixels == data@.len() / 4,
            data@.len() <= usize::MAX,
            out@.len() == p * 4,
            forall|i: int| 0 <= i < out@.len() ==> out@[i] == swizzled(data@)[i],
        decreases pixels - p,
    {
        assert(p * 4 + 3 < data@.len()) by (nonlinear_arith)
            requires
                p < pixels,
                pixels == data@.len() / 4,
        ;
        let at = p * 4;
        out.push(data[at + 2]);
        out.push(data[at + 1]);
        out.push(data[at]);
        out.push(data[at + 3]);
        p = p + 1;
    }
    assert(out@ =~= swizzled(data@));
    out
}

} // verus!
