use mandelbrot::color::{color_for, Color};
use mandelbrot::raster::{render_mandelbrot, rgb_image_to_color_image, RenderError, Rgba};
use num_complex::Complex;

fn escape_count(c: Complex<f64>, budget: usize) -> usize {
    let mut z = Complex::new(0.0, 0.0);
    let mut i = 0;
    while i < budget && z.norm_sqr() <= 4.0 {
        z = z * z + c;
        i += 1;
    }
    i
}

fn sample(width: u32, height: u32, bounds: (f64, f64, f64, f64), budget: usize) -> Vec<usize> {
    let (x_min, x_max, y_min, y_max) = bounds;
    let mut counts = Vec::new();
    for py in 0..height {
        for px in 0..width {
            let cx = x_min + (px as f64 / width as f64) * (x_max - x_min);
            let cy = y_min + (py as f64 / height as f64) * (y_max - y_min);
            counts.push(escape_count(Complex::new(cx, cy), budget));
        }
    }
    counts
}

#[test]
fn four_by_four_view_of_the_whole_set() {
    let counts = sample(4, 4, (-2.5, 1.0, -1.5, 1.5), 25);
    assert_eq!(counts[0], 1);
    assert_eq!(counts[2 * 4 + 3], 25);
    let raster = render_mandelbrot(4, 4, &counts, 25).unwrap();
    assert_eq!(raster.width(), 4);
    assert_eq!(raster.height(), 4);
    assert_eq!(raster.pixel(0, 0), Some(Color { red: 100, green: 0, blue: 54 }));
    assert_eq!(raster.pixel(3, 2), Some(Color { red: 0, green: 20, blue: 20 }));
}

#[test]
fn every_pixel_gets_the_colour_of_its_own_count() {
    let counts: Vec<usize> = vec![0, 1, 2, 3, 4, 5, 23, 24, 25, 25, 12, 30];
    let raster = render_mandelbrot(4, 3, &counts, 25).unwrap();
    assert_eq!(raster.width(), 4);
    assert_eq!(raster.height(), 3);
    for y in 0..3u32 {
        for x in 0..4u32 {
            let count = counts[(y * 4 + x) as usize];
            assert_eq!(raster.pixel(x, y), Some(color_for(count, 25)));
        }
    }
    assert_eq!(raster.pixel(1, 0), Some(Color { red: 100, green: 0, blue: 54 }));
    assert_eq!(raster.pixel(0, 1), Some(Color { red: 100, green: 0, blue: 125 }));
    assert_eq!(raster.pixel(3, 1), Some(Color { red: 100, green: 25, blue: 251 }));
    assert_eq!(raster.pixel(0, 2), Some(Color { red: 0, green: 20, blue: 20 }));
    assert_eq!(raster.pixel(3, 2), Some(Color { red: 100, green: 255, blue: 255 }));
}

#[test]
fn pixels_outside_the_raster_are_none() {
    let counts: Vec<usize> = vec![8, 8, 8, 8, 8, 8];
    let raster = render_mandelbrot(3, 2, &counts, 8).unwrap();
    assert_eq!(raster.pixel(2, 1), Some(Color { red: 0, green: 20, blue: 20 }));
    assert_eq!(raster.pixel(3, 0), None);
    assert_eq!(raster.pixel(0, 2), None);
    assert_eq!(raster.pixel(u32::MAX, u32::MAX), None);
}

#[test]
fn a_raster_without_width_or_height_is_empty() {
    let none: Vec<usize> = Vec::new();
    let flat = render_mandelbrot(0, 7, &none, 25).unwrap();
    assert_eq!(flat.width(), 0);
    assert_eq!(flat.height(), 7);
    assert_eq!(flat.pixel(0, 0), None);
    let thin = render_mandelbrot(7, 0, &none, 25).unwrap();
    assert_eq!(thin.width(), 7);
    assert_eq!(thin.height(), 0);
    let empty = render_mandelbrot(0, 0, &none, 25).unwrap();
    assert_eq!(empty.width(), 0);
    assert_eq!(empty.height(), 0);
    let image = rgb_image_to_color_image(&flat);
    assert_eq!(image.width, 0);
    assert_eq!(image.height, 7);
    assert!(image.pixels.is_empty());
}

#[test]
fn samples_that_do_not_match_the_size_are_refused() {
    let counts: Vec<usize> = vec![1, 2, 3];
    assert!(matches!(render_mandelbrot(2, 2, &counts, 25), Err(RenderError::InvalidParameter)));
    assert!(matches!(render_mandelbrot(3, 0, &counts, 25), Err(RenderError::InvalidParameter)));
    assert!(matches!(render_mandelbrot(1, 2, &counts, 25), Err(RenderError::InvalidParameter)));
    assert!(matches!(
        render_mandelbrot(u32::MAX, u32::MAX, &counts, 25),
        Err(RenderError::InvalidParameter)
    ));
    assert!(render_mandelbrot(3, 1, &counts, 25).is_ok());
    assert!(render_mandelbrot(1, 3, &counts, 25).is_ok());
}

#[test]
fn display_image_keeps_size_and_row_order() {
    let counts: Vec<usize> = vec![0, 24, 25, 3, 23, 1];
    let raster = render_mandelbrot(3, 2, &counts, 25).unwrap();
    let image = rgb_image_to_color_image(&raster);
    assert_eq!(image.width, 3);
    assert_eq!(image.height, 2);
    assert_eq!(image.pixels.len(), 6);
    assert_eq!(image.pixels[0], Rgba { red: 100, green: 0, blue: 0, alpha: 255 });
    assert_eq!(image.pixels[1], Rgba { red: 100, green: 25, blue: 251, alpha: 255 });
    assert_eq!(image.pixels[2], Rgba { red: 0, green: 20, blue: 20, alpha: 255 });
    assert_eq!(image.pixels[3], Rgba { red: 100, green: 0, blue: 108, alpha: 255 });
    assert_eq!(image.pixels[4], Rgba { red: 100, green: 2, blue: 248, alpha: 255 });
    assert_eq!(image.pixels[5], Rgba { red: 100, green: 0, blue: 54, alpha: 255 });
    for y in 0..2u32 {
        for x in 0..3u32 {
            let color = raster.pixel(x, y).unwrap();
            let shown = image.pixels[(y * 3 + x) as usize];
            assert_eq!((shown.red, shown.green, shown.blue), (color.red, color.green, color.blue));
            assert_eq!(shown.alpha, 255);
        }
    }
}

#[test]
fn the_same_count_gets_the_same_colour_everywhere() {
    let counts: Vec<usize> = vec![5; 64];
    let raster = render_mandelbrot(8, 8, &counts, 40).unwrap();
    let expected = color_for(5, 40);
    for y in 0..8u32 {
        for x in 0..8u32 {
            assert_eq!(raster.pixel(x, y), Some(expected));
        }
    }
}

#[test]
fn a_row_too_wide_for_the_machine_word_is_refused() {
    let none: Vec<usize> = Vec::new();
    let row_fits = 3 * (u32::MAX as u64) <= usize::MAX as u64;
    assert_eq!(render_mandelbrot(u32::MAX, 0, &none, 25).is_ok(), row_fits);
    assert_eq!(render_mandelbrot(1_431_655_766, 0, &none, 25).is_ok(), row_fits);
    assert!(render_mandelbrot(1_431_655_765, 0, &none, 25).is_ok());
    let wide = render_mandelbrot(1_431_655_765, 0, &none, 25).unwrap();
    assert_eq!(wide.width(), 1_431_655_765);
    assert_eq!(wide.height(), 0);
}
