use vessels::graphics::{Align, Font, Origin, Weight, Wrap};
use vessels::graphics_2d::{Color, Image, Texture2D, ToHexColor};

#[test]
fn color_builders() {
    let black = Color::black();
    assert_eq!(black, Color { r: 0, g: 0, b: 0, a: 255 });
    let white = Color::white();
    assert_eq!(white, Color { r: 255, g: 255, b: 255, a: 255 });
    let faded = white.with_alpha(128);
    assert_eq!(faded, Color { r: 255, g: 255, b: 255, a: 128 });
    assert_eq!(Color::default(), Color { r: 0, g: 0, b: 0, a: 0 });
}

#[test]
fn hex_color_strings() {
    assert_eq!(Color::black().to_hex_color(), String::from("#000ff"));
    assert_eq!(Color::white().to_hex_color(), String::from("#ffffffff"));
    let c = Color { r: 0, g: 255, b: 7, a: 16 };
    assert_eq!(c.to_hex_color(), String::from("#0ff710"));
}

#[test]
fn text_style_defaults() {
    assert_eq!(Font::default(), Font::SystemFont);
    assert_eq!(Weight::default(), Weight::Normal);
    assert!(matches!(Wrap::Off, Wrap::Off));
    assert!(matches!(Align::Start, Align::Start));
    assert!(matches!(Origin::Baseline, Origin::Baseline));
}

#[test]
fn images_carry_their_pixels() {
    let img = Image {
        pixels: vec![Color::black(), Color::white()],
        format: Texture2D { width: 2, height: 1 },
    };
    assert_eq!(img.pixels.len(), 2);
    assert_eq!(img.format.width, 2);
    assert_eq!(img.format.height, 1);
}
