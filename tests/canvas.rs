use raytracer::canvas::Canvas;
use raytracer::ppm::Rgb8;

type Color = (f64, f64, f64);

const BLACK: Color = (0., 0., 0.);
const RED: Color = (1., 0., 0.);

fn rgb8(red: u8, green: u8, blue: u8) -> Rgb8 {
    Rgb8 { red, green, blue }
}

#[test]
fn test_canvas_initialized_black() {
    let c: Canvas<Color> = Canvas::new(10, 20, BLACK);
    assert_eq!(c.width(), 10);
    assert_eq!(c.height(), 20);

    for x in 0..10 {
        for y in 0..20 {
            assert_eq!(c.pixel_at(x, y), BLACK)
        }
    }
}

#[test]
fn test_canvas_pixel_setting() {
    let mut c: Canvas<Color> = Canvas::new(10, 20, BLACK);
    let red = RED;

    c.write_pixel(2, 3, red);
    assert_eq!(c.pixel_at(2, 3), red);
}

#[test]
fn writing_a_pixel_leaves_the_others() {
    let mut c: Canvas<Color> = Canvas::new(4, 3, BLACK);
    c.write_pixel(3, 2, RED);
    for x in 0..4 {
        for y in 0..3 {
            let expected = if (x, y) == (3, 2) { RED } else { BLACK };
            assert_eq!(c.pixel_at(x, y), expected);
        }
    }
}

#[test]
fn fill_sets_every_pixel() {
    let mut c: Canvas<Color> = Canvas::new(3, 5, BLACK);
    c.write_pixel(1, 1, (0.5, 0.5, 0.5));
    c.fill(RED);
    for x in 0..3 {
        for y in 0..5 {
            assert_eq!(c.pixel_at(x, y), RED);
        }
    }
}

#[test]
fn empty_canvas_has_no_pixels() {
    let c: Canvas<Color> = Canvas::new(0, 7, BLACK);
    assert_eq!(c.width(), 0);
    assert_eq!(c.height(), 7);
}

#[test]
fn clone_keeps_the_pixels() {
    let mut c: Canvas<Color> = Canvas::new(2, 2, BLACK);
    c.write_pixel(0, 1, RED);
    let d = c.clone();
    assert_eq!(d, c);
    assert_eq!(d.pixel_at(0, 1), RED);
}

#[test]
fn test_render_as_ppm_header() {
    let c = Canvas::new(5, 3, rgb8(0, 0, 0));

    let header = c
        .render_as_ppm()
        .lines()
        .take(3)
        .fold(String::new(), |a, b| a + b + "\n");

    let expected = "P3\n\
    5 3\n\
    255\n";
    assert_eq!(header, expected);
}

#[test]
fn test_render_as_ppm_pixels() {
    let mut c = Canvas::new(5, 3, rgb8(0, 0, 0));
    // 1.5, 0, 0 / 0, 0.5, 0 / -0.5, 0, 1 once clamped and scaled to bytes
    let c1 = rgb8(255, 0, 0);
    let c2 = rgb8(0, 128, 0);
    let c3 = rgb8(0, 0, 255);
    c.write_pixel(0, 0, c1);
    c.write_pixel(2, 1, c2);
    c.write_pixel(4, 2, c3);

    let ppm = c
        .render_as_ppm()
        .lines()
        .skip(3)
        .fold(String::new(), |a, b| a + b + "\n");

    let expected = "\
    255 0 0 0 0 0 0 0 0 0 0 0 0 0 0 \n\
    0 0 0 0 0 0 0 128 0 0 0 0 0 0 0 \n\
    0 0 0 0 0 0 0 0 0 0 0 0 0 0 255 \n";
    assert_eq!(ppm, expected);
}

#[test]
fn test_rendering_limits_line_length() {
    let mut canvas = Canvas::new(9, 2, rgb8(0, 0, 0));
    // 1, 0.8, 0.6 once scaled to bytes
    let color = rgb8(255, 204, 153);
    canvas.fill(color);

    let ppm = canvas
        .render_as_ppm()
        .lines()
        .skip(3)
        .fold(String::new(), |a, b| a + b + "\n");

    assert_eq!(
        ppm,
        "\
    255 204 153 255 204 153 255 204 153 255 204 153 255 204 153 \n\
    255 204 153 255 204 153 255 204 153 255 204 153 \n\
    255 204 153 255 204 153 255 204 153 255 204 153 255 204 153 \n\
    255 204 153 255 204 153 255 204 153 255 204 153 \n\
    "
    );
}

#[test]
fn five_by_three_solid_canvas_encodes_whole_scanlines() {
    let mut canvas = Canvas::new(5, 3, rgb8(0, 0, 0));
    canvas.fill(rgb8(255, 204, 153));
    let line = "255 204 153 255 204 153 255 204 153 255 204 153 255 204 153 \n";
    let expected = format!("P3\n5 3\n255\n{}{}{}", line, line, line);
    assert_eq!(canvas.render_as_ppm(), expected);
}

#[test]
fn no_line_is_longer_than_seventy() {
    let mut canvas = Canvas::new(23, 4, rgb8(0, 0, 0));
    canvas.fill(rgb8(255, 255, 255));
    canvas.write_pixel(5, 1, rgb8(7, 10, 100));
    let ppm = canvas.render_as_ppm();
    for line in ppm.lines() {
        assert!(line.len() <= 70, "line too long: {:?}", line);
    }
    // "255 255 255 " is 12 characters: five to a line, so 23 pixels take 5 lines per row
    assert_eq!(ppm.lines().count(), 3 + 4 * 5);
}

#[test]
fn a_line_may_be_exactly_seventy_long() {
    // five times "100 100 100 " (60 characters) and "10 10 100 " (10) fill a line
    let mut canvas = Canvas::new(7, 1, rgb8(100, 100, 100));
    canvas.write_pixel(5, 0, rgb8(10, 10, 100));
    canvas.write_pixel(6, 0, rgb8(1, 1, 0));
    let ppm = canvas.render_as_ppm();
    let body: Vec<&str> = ppm.lines().skip(3).collect();
    assert_eq!(body.len(), 2);
    assert_eq!(body[0].len(), 70);
    assert!(body[0].ends_with("10 10 100 "));
    assert_eq!(body[1], "1 1 0 ");
}

#[test]
fn test_ppm_ends_in_newline() {
    let canvas = Canvas::new(1, 1, rgb8(0, 0, 0));
    let ppm = canvas.render_as_ppm();
    let last = ppm.chars().last().unwrap();

    assert_eq!(last, '\n');
}

#[test]
fn empty_canvas_encodes_header_only() {
    let canvas = Canvas::new(0, 0, rgb8(0, 0, 0));
    assert_eq!(canvas.render_as_ppm(), "P3\n0 0\n255\n");
    let narrow = Canvas::new(0, 2, rgb8(0, 0, 0));
    assert_eq!(narrow.render_as_ppm(), "P3\n0 2\n255\n\n\n");
}

#[test]
fn test_render_as_ppm() {
    // 2, 0, 0.5 once clamped and scaled to bytes
    let c1 = rgb8(255, 0, 128);
    assert_eq!(c1.render_as_ppm(), "255 0 128 ");
}

#[test]
fn single_digit_channels_render_without_padding() {
    assert_eq!(rgb8(0, 9, 10).render_as_ppm(), "0 9 10 ");
}
