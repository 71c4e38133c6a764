use hearth::palette::{bgra_to_rgba, c, Color, Palette, BACKGROUND, FOREGROUND};

#[test]
fn color_shorthand_fixes_alpha() {
    assert_eq!(c(0x191724), Color(0xff191724));
    assert_eq!(c(0), Color(0xff000000));
    assert_eq!(c(0x12ffffff), Color(0xffffffff));
}

#[test]
fn palette_to_ansi_has_eighteen_entries() {
    let palette = Palette::rose_pine();
    let map = palette.to_ansi();
    assert_eq!(map.len(), 18);
    let colors = [
        palette.black,
        palette.red,
        palette.green,
        palette.yellow,
        palette.blue,
        palette.magenta,
        palette.cyan,
        palette.white,
    ];
    for (index, color) in colors.iter().enumerate() {
        assert_eq!(map[&index], *color);
        assert_eq!(map[&(index + 8)], *color);
    }
    assert_eq!(map[&FOREGROUND], palette.fg);
    assert_eq!(map[&BACKGROUND], palette.bg);
    assert_eq!(map[&0x100], Color(0xffe0def4));
    assert_eq!(map[&0x101], Color(0xff191724));
    assert_eq!(map[&0x1], Color(0xffeb6f92));
    assert!(!map.contains_key(&16));
}

#[test]
fn palettes_hold_their_colors() {
    assert_eq!(Palette::gruvbox_material().bg, Color(0xff1d2021));
    assert_eq!(Palette::gruvbox_material().white, Color(0xffddc7a1));
    assert_eq!(Palette::pretty_in_pink().cyan, Color(0xff00fafa));
    assert_eq!(Palette::pretty_in_pink().red, Color(0xfff6084c));
    assert_eq!(Palette::solarized_dark().fg, Color(0xff839496));
    assert_eq!(Palette::solarized_dark().blue, Color(0xff268bd2));
    assert_eq!(Palette::rose_pine().magenta, Color(0xffc4a7e7));
}

#[test]
fn pixels_change_order() {
    assert_eq!(bgra_to_rgba(&[1, 2, 3, 4]), vec![3, 2, 1, 4]);
    assert_eq!(bgra_to_rgba(&[1, 2, 3, 4, 5, 6, 7, 8]), vec![3, 2, 1, 4, 7, 6, 5, 8]);
    assert_eq!(bgra_to_rgba(&[1, 2, 3, 4, 5, 6, 7]), vec![3, 2, 1, 4]);
    assert_eq!(bgra_to_rgba(&[1, 2, 3]), Vec::<u8>::new());
    assert_eq!(bgra_to_rgba(&[]), Vec::<u8>::new());
}
