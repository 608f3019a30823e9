use more_interesting::avatar::{
    generate_outline, generate_shape, get_color_distance_squared, get_complementary_color,
    identicon_png, is_point_in_path, referrer_allows, render, to_png, BitImage, Image, Rgb,
};
use more_interesting::base32::Base32;

fn square() -> Vec<(i32, i32)> {
    vec![(0, 0), (12, 0), (12, 12), (0, 12)]
}

#[test]
fn bit_image_set_then_get() {
    let mut img = BitImage { top: 0, bottom: 0 };
    img.set(3, 2, true);
    img.set(14, 14, true);
    img.set(2, 8, true);
    assert!(img.get(3, 2));
    assert!(img.get(14, 14));
    assert!(img.get(2, 8));
    assert!(!img.get(4, 2));
    assert!(!img.get(0, 0));
    img.set(3, 2, false);
    assert!(!img.get(3, 2));
    assert!(img.get(14, 14));
    assert_eq!(img.top, 1u128 << 122);
    assert_eq!(img.bottom, 1u128 << (224 - 127));
}

#[test]
fn point_in_square() {
    let sq = square();
    assert!(is_point_in_path(0, 0, &sq));
    assert!(is_point_in_path(11, 11, &sq));
    assert!(!is_point_in_path(12, 0, &sq));
    assert!(!is_point_in_path(0, 12, &sq));
    assert!(!is_point_in_path(14, 14, &sq));
}

#[test]
fn point_in_triangle() {
    // corners 0, 4, 20 of the grid: (0,0), (12,0), (0,12)
    let tri = vec![(0, 0), (12, 0), (0, 12)];
    assert!(is_point_in_path(0, 0, &tri));
    assert!(is_point_in_path(5, 5, &tri));
    assert!(!is_point_in_path(7, 7, &tri));
    assert!(!is_point_in_path(11, 11, &tri));
}

#[test]
fn square_shape_and_outline() {
    let sq = square();
    let shape = generate_shape(&sq);
    let mut count = 0;
    for y in 0..15u32 {
        for x in 0..15u32 {
            let inside = x < 12 && y < 12;
            assert_eq!(shape.get(x, y), inside);
            if shape.get(x, y) {
                count += 1;
            }
        }
    }
    assert_eq!(count, 144);
    let outline = generate_outline(&sq);
    assert!(!outline.get(0, 0));
    assert!(outline.get(11, 5));
    assert!(outline.get(12, 5));
    assert!(outline.get(5, 11));
    assert!(outline.get(5, 12));
    assert!(!outline.get(5, 5));
}

#[test]
fn colors() {
    let c = Rgb { r: 10, g: 200, b: 255 };
    assert_eq!(get_complementary_color(c), Rgb { r: 245, g: 55, b: 0 });
    let white = Rgb { r: 255, g: 255, b: 255 };
    assert_eq!(get_color_distance_squared(Rgb { r: 248, g: 248, b: 248 }, white), 147);
    assert_eq!(get_color_distance_squared(Rgb { r: 0, g: 0, b: 0 }, white), 3 * 255 * 255);
}

#[test]
fn render_code_zero() {
    let img: Image = render(0);
    assert_eq!(img.width, 53);
    assert_eq!(img.height, 53);
    assert_eq!(img.pixels.len(), 53 * 53);
    let at = |x: usize, y: usize| img.pixels[y * 53 + x];
    let black = Rgb { r: 0, g: 0, b: 0 };
    let white = Rgb { r: 255, g: 255, b: 255 };
    assert_eq!(at(0, 0), white);
    assert_eq!(at(19, 19), black);
    assert_eq!(at(30, 30), black);
    assert_eq!(at(31, 19), white);
    assert_eq!(at(2, 2), black);
    assert_eq!(at(52, 52), white);
}

#[test]
fn render_light_color_gets_outline() {
    // red, green and blue all 31: a fill of (248, 248, 248), close to white
    let code: u32 = (31 << 27) | (31 << 21) | (31 << 16);
    let img = render(code);
    let fill = Rgb { r: 248, g: 248, b: 248 };
    let stroke = Rgb { r: 7, g: 7, b: 7 };
    assert_eq!(img.pixels[24 * 53 + 30], stroke);
    assert_eq!(img.pixels[24 * 53 + 24], fill);
    assert_eq!(img.pixels[19 * 53 + 19], fill);
}

#[test]
fn png_of_avatar() {
    let img = render(0x1234_5678);
    let png = to_png(&img);
    assert_eq!(&png[..8], &[137u8, 80, 78, 71, 13, 10, 26, 10]);
    assert!(png.len() > 8);
}

#[test]
fn identicons_are_served_to_the_site_only() {
    let site = "https://example.com/";
    assert!(referrer_allows("https://example.com/p/1", site));
    assert!(referrer_allows("not a url", site));
    assert!(!referrer_allows("https://evil.test/", site));
    assert!(!referrer_allows("data:text/plain,x", site));
    assert!(!referrer_allows("http://127.0.0.1/", "http://localhost/"));
    assert!(referrer_allows("http://[::1]/x", "http://[::1]/"));
    let id = Base32::from_u64(12345);
    let png = identicon_png(id, "https://example.com/", site).unwrap();
    assert_eq!(png, to_png(&render(12345)));
    assert_eq!(&png[1..4], b"PNG");
    assert_eq!(identicon_png(id, "https://evil.test/", site), None);
    assert!(identicon_png(id, "", site).is_some());
}
