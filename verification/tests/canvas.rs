//! Tests of the canvas, sub-views and compositing.

use statusbar::canvas::{draw_hline, fill, Canvas, CoveragePixel, Paint, Paintable, RasterText};
use statusbar::{Color, Error};

fn canvas(w: usize, h: usize) -> Canvas {
    Canvas::new(h, w, vec![0u8; w * h * 4])
}

#[test]
fn set_then_get_pixel() {
    let mut c = canvas(4, 3);
    let color = Color::new(10, 20, 30, 40);
    c.set_pixel(2, 1, color).unwrap();
    assert_eq!(c.get_pixel(2, 1).unwrap(), color);
    assert_eq!(c.get_pixel(0, 0).unwrap(), Color::new(0, 0, 0, 0));
}

#[test]
fn pixel_bytes_are_bgra_row_major() {
    let mut c = canvas(2, 2);
    c.set_pixel(1, 0, Color::new(1, 2, 3, 4)).unwrap();
    let buf = c.into_buffer();
    assert_eq!(&buf[4..8], &[3, 2, 1, 4]);
    assert_eq!(&buf[0..4], &[0, 0, 0, 0]);
}

#[test]
fn out_of_bounds_pixels_are_errors() {
    let mut c = canvas(4, 3);
    assert_eq!(c.set_pixel(4, 0, Color::new(0, 0, 0, 0)), Err(Error::PointOutbound));
    assert_eq!(c.set_pixel(0, 3, Color::new(0, 0, 0, 0)), Err(Error::PointOutbound));
    assert_eq!(c.get_pixel(9, 9), Err(Error::PointOutbound));
    assert_eq!(c.width(), 4);
    assert_eq!(c.height(), 3);
}

#[test]
fn draw_pixel_blends_over_content() {
    let mut c = canvas(1, 1);
    c.set_pixel(0, 0, Color::new(0, 0, 255, 255)).unwrap();
    let red = Color::new(255, 0, 0, 255);
    c.draw_pixel(0, 0, red).unwrap();
    let expect = red.blend(&Color::new(0, 0, 255, 255));
    assert_eq!(c.get_pixel(0, 0).unwrap(), expect);
    assert_eq!(expect, Color::new(254, 0, 0, 255));
}

#[test]
fn slice_translates_coordinates() {
    let c = canvas(4, 4);
    let mut s = c.slice(1, 2, 3, 2).unwrap();
    assert_eq!(s.width(), 3);
    assert_eq!(s.height(), 2);
    let color = Color::new(7, 7, 7, 7);
    s.set_pixel(0, 0, color).unwrap();
    assert_eq!(s.set_pixel(3, 0, color), Err(Error::PointOutbound));
    assert_eq!(s.get_pixel(0, 2), Err(Error::PointOutbound));
    let c = s.into_parent();
    assert_eq!(c.get_pixel(1, 2).unwrap(), color);
}

#[test]
fn slice_rejects_out_of_bounds_rectangles() {
    let c = canvas(4, 4);
    let (c, e) = c.slice(2, 0, 3, 1).unwrap_err();
    assert_eq!(e, Error::PointOutbound);
    let (c, _) = c.slice(0, 3, 1, 2).unwrap_err();
    assert!(c.slice(0, 0, 4, 4).is_ok());
}

#[test]
fn nested_slices_compose_translations() {
    let c = canvas(6, 6);
    let s = c.slice(1, 1, 4, 4).unwrap();
    let mut s2 = s.slice(2, 2, 2, 2).unwrap();
    let color = Color::new(9, 8, 7, 6);
    s2.set_pixel(1, 1, color).unwrap();
    let c = s2.into_parent().into_parent();
    assert_eq!(c.get_pixel(4, 4).unwrap(), color);
}

#[test]
fn fill_blends_over_every_pixel() {
    let mut c = canvas(3, 2);
    let wash = Color::new(100, 150, 200, 255);
    fill(&mut c, wash);
    let expect = wash.blend(&Color::new(0, 0, 0, 0));
    for y in 0..2 {
        for x in 0..3 {
            assert_eq!(c.get_pixel(x, y).unwrap(), expect);
        }
    }
}

#[test]
fn hline_paints_one_row_segment() {
    let mut c = canvas(5, 3);
    let color = Color::new(50, 60, 70, 255);
    draw_hline(&mut c, 1, 1, 4, color);
    let expect = color.blend(&Color::new(0, 0, 0, 0));
    for x in 1..4 {
        assert_eq!(c.get_pixel(x, 1).unwrap(), expect);
    }
    assert_eq!(c.get_pixel(0, 1).unwrap(), Color::new(0, 0, 0, 0));
    assert_eq!(c.get_pixel(4, 1).unwrap(), Color::new(0, 0, 0, 0));
    assert_eq!(c.get_pixel(2, 0).unwrap(), Color::new(0, 0, 0, 0));
}

#[test]
fn raster_text_composites_coverage() {
    let mut c = canvas(3, 3);
    let fg = Color::new(255, 255, 255, 255);
    let bg = Color::new(0, 0, 0, 255);
    let text = RasterText::new(
        vec![
            CoveragePixel { x: 0, y: 0, cov: 255 },
            CoveragePixel { x: 1, y: 0, cov: 128 },
        ],
        fg,
        bg,
    );
    text.paint(&mut c).unwrap();
    let expect0 = fg.with_alpha(255).blend(&bg).blend(&Color::new(0, 0, 0, 0));
    let expect1 = fg.with_alpha(128).blend(&bg).blend(&Color::new(0, 0, 0, 0));
    assert_eq!(c.get_pixel(0, 0).unwrap(), expect0);
    assert_eq!(c.get_pixel(1, 0).unwrap(), expect1);
    assert_eq!(c.get_pixel(2, 2).unwrap(), Color::new(0, 0, 0, 0));
}

#[test]
fn raster_text_rejects_out_of_bounds_samples() {
    let mut c = canvas(2, 2);
    let text = RasterText::new(
        vec![CoveragePixel { x: 5, y: 0, cov: 10 }],
        Color::new(255, 255, 255, 255),
        Color::new(0, 0, 0, 255),
    );
    assert_eq!(text.paint(&mut c), Err(Error::PointOutbound));
}

#[test]
fn whole_frame_composes() {
    // Fill, then a slice for a glyph, then an underline: the pieces a
    // repaint uses, end to end.
    let mut c = canvas(10, 6);
    let bg = Color::new(20, 20, 20, 255);
    let fg = Color::new(230, 230, 230, 255);
    fill(&mut c, bg);
    let mut s = c.slice(2, 1, 4, 4).unwrap();
    let glyph = RasterText::new(vec![CoveragePixel { x: 0, y: 0, cov: 200 }], fg, bg);
    glyph.paint(&mut s).unwrap();
    let mut c = s.into_parent();
    draw_hline(&mut c, 5, 2, 6, fg);
    let washed = bg.blend(&Color::new(0, 0, 0, 0));
    assert_eq!(c.get_pixel(2, 1).unwrap(), fg.with_alpha(200).blend(&bg).blend(&washed));
    assert_eq!(c.get_pixel(3, 5).unwrap(), fg.blend(&washed));
    assert_eq!(c.get_pixel(0, 0).unwrap(), washed);
}

#[test]
fn config_carries_values() {
    let cfg = statusbar::Config::new(
        Color::new(1, 2, 3, 4),
        Color::new(5, 6, 7, 8),
        true,
        Some(String::from("bar")),
        vec![String::from("sans-serif")],
    );
    assert_eq!(cfg.background_color(), Color::new(1, 2, 3, 4));
    assert_eq!(cfg.foreground_color(), Color::new(5, 6, 7, 8));
    assert!(cfg.permaent());
    assert_eq!(cfg.name(), Some(&String::from("bar")));
    assert_eq!(cfg.fonts().len(), 1);
}
