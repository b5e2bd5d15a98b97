//! The raster: a grid of colours kept in an `image::RgbImage`, and its conversion for display.

use std::collections::HashMap;
use vstd::prelude::*;
use crate::color::{Color, color_for, palette};

verus! {

/// A grid of `width × height` colours. It is held in an `image::RgbImage`, whose inside is not
/// open to proof: what a raster holds is known through [`raster_size`] and [`raster_pixels`]
/// alone, and only as far as the functions below that call into the `image` crate say.
#[verifier::external_body]
pub struct Raster {
    image: image::RgbImage,
}

/// Width and height of a raster, in pixels.
pub uninterp spec fn raster_size(raster: Raster) -> (u32, u32);

/// The colour at each position `(x, y)` of a raster, as `(red, green, blue)`.
pub uninterp spec fn raster_pixels(raster: Raster) -> Map<(int, int), (u8, u8, u8)>;

/// `ImageBuffer::new`: an image of the given size. It works out the number of its bytes as
/// three times the width, then times the height, and panics when either product is more than
/// a `usize` holds, or when the bytes are more than a vector can hold.
#[verifier::external_body]
fn new_raster(width: u32, height: u32) -> (raster: Raster)
    requires
        3 * width <= usize::MAX,
        3 * (width * height) <= isize::MAX,
    ensures
        raster_size(raster) == (width, height),
{
    Raster { image: image::RgbImage::new(width, height) }
}

/// `ImageBuffer::width`: the width that the image was made with.
#[verifier::external_body]
fn raster_width(raster: &Raster) -> (width: u32)
    ensures
        width == raster_size(*raster).0,
{
    raster.image.width()
}

/// `ImageBuffer::height`: the height that the image was made with.
#[verifier::external_body]
fn raster_height(raster: &Raster) -> (height: u32)
    ensures
        height == raster_size(*raster).1,
{
    raster.image.height()
}

/// `ImageBuffer::put_pixel`: stores one colour at `(x, y)` and leaves the size and every other
/// position as they were. It panics outside the image, hence the bounds.
#[verifier::external_body]
fn put_pixel(raster: &mut Raster, x: u32, y: u32, color: Color)
    requires
        x < raster_size(*old(raster)).0,
        y < raster_size(*old(raster)).1,
    ensures
        raster_size(*final(raster)) == raster_size(*old(raster)),
        raster_pixels(*final(raster)) == raster_pixels(*old(raster)).insert(
            (x as int, y as int),
            (color.red, color.green, color.blue),
        ),
{
    raster.image.put_pixel(x, y, image::Rgb([color.red, color.green, color.blue]));
}

/// `ImageBuffer::get_pixel`: the colour stored at `(x, y)`. It panics outside the image, hence
/// the bounds.
#[verifier::external_body]
fn get_pixel(raster: &Raster, x: u32, y: u32) -> (color: Color)
    requires
        x < raster_size(*raster).0,
        y < raster_size(*raster).1,
    ensures
        (color.red, color.green, color.blue) == raster_pixels(*raster)[(x as int, y as int)],
{
    let pixel = raster.image.get_pixel(x, y);
    Color { red: pixel[0], green: pixel[1], blue: pixel[2] }
}

impl Raster {
    /// The width in pixels.
    pub open spec fn spec_width(self) -> int {
        raster_size(self).0 as int
    }

    /// The height in pixels.
    pub open spec fn spec_height(self) -> int {
        raster_size(self).1 as int
    }

    /// The colour at `(x, y)`.
    pub open spec fn spec_pixel(self, x: int, y: int) -> Color {
        let (red, green, blue) = raster_pixels(self)[(x, y)];
        Color { red, green, blue }
    }

    /// The width in pixels.
    pub fn width(&self) -> (width: u32)
        ensures
            width == self.spec_width(),
    {
        raster_width(self)
    }

    /// The height in pixels.
    pub fn height(&self) -> (height: u32)
        ensures
            height == self.spec_height(),
    {
        raster_height(self)
    }

    /// The colour at `(x, y)`, or `None` outside the raster.
    pub fn pixel(&self, x: u32, y: u32) -> (color: Option<Color>)
        ensures
            color == if x < self.spec_width() && y < self.spec_height() {
                Some(self.spec_pixel(x as int, y as int))
            } else {
                None
            },
    {
        if x < raster_width(self) && y < raster_height(self) {
            Some(get_pixel(self, x, y))
        } else {
            None
        }
    }
}

/// Why a render was refused.
#[derive(Clone, Copy, Debug, PartialEq, Eq, Structural)]
pub enum RenderError {
    /// The size and the samples do not go together, or the raster would not fit in memory.
    InvalidParameter,
}

/// Whether a raster of this size can be rendered from this many samples: there is one sample
/// for each pixel, the three bytes of each pixel of one row can be counted in a `usize`, and
/// those of all pixels fit in one allocation.
pub open spec fn renderable(width: u32, height: u32, samples: nat) -> bool {
    &&& samples == width * height
    &&& 3 * width <= usize::MAX
    &&& 3 * (width * height) <= isize::MAX
}

/// Whether every colour in the cache is the palette's colour for its count.
pub open spec fn cache_agrees(cache: Map<usize, Color>, budget: usize) -> bool {
    forall|count: usize| #[trigger]
        cache.contains_key(count) ==> cache[count] == palette(count as nat, budget as nat)
}

/// The palette's colour for a count, taken from the cache where it is there, and otherwise
/// worked out and put there.
fn cached_color(cache: &mut HashMap<usize, Color>, count: usize, budget: usize) -> (color: Color)
    requires
        cache_agrees(old(cache)@, budget),
    ensures
        cache_agrees(final(cache)@, budget),
        color == palette(count as nat, budget as nat),
{
    broadcast use vstd::std_specs::hash::group_hash_axioms;

    let known: Option<Color> = match cache.get(&count) {
        Some(color) => Some(*color),
        None => None,
    };
    match known {
        Some(color) => color,
        None => {
            let color = color_for(count, budget);
            cache.insert(count, color);
            color
        },
    }
}

/// Renders a raster of `width × height` pixels from the escape counts of its pixels, which were
/// counted under a budget of `max_iter` steps. The counts come row by row, top row first, so
/// that the one of pixel `(x, y)` is at place `y * width + x`. Each pixel gets the palette's
/// colour for its count. A width or height of zero gives an empty raster.
pub fn render_mandelbrot(width: u32, height: u32, counts: &Vec<usize>, max_iter: usize) -> (result:
    Result<Raster, RenderError>)
    ensures
        result.is_ok() == renderable(width, height, counts@.len()),
        result matches Ok(raster) ==> {
            &&& raster.spec_width() == width
            &&& raster.spec_height() == height
            &&& forall|x: int, y: int|
                0 <= x < width && 0 <= y < height ==> #[trigger] raster.spec_pixel(x, y)
                    == palette(counts@[y * width + x] as nat, max_iter as nat)
        },
        result matches Err(error) ==> error == RenderError::InvalidParameter,
{
    assert(width * height <= 0xFFFF_FFFF * 0xFFFF_FFFF) by (nonlinear_arith)
        requires
            width <= 0xFFFF_FFFF,
            height <= 0xFFFF_FFFF,
    ;
    let cells: u64 = width as u64 * height as u64;
    let row_bytes: u64 = 3 * (width as u64);
    if counts.len() as u64 != cells || row_bytes > usize::MAX as u64 || cells > isize::MAX as u64
        / 3 {
        return Err(RenderError::InvalidParameter);
    }
    let mut raster = new_raster(width, height);
    let mut cache: HashMap<usize, Color> = HashMap::new();
    let mut place: usize = 0;
    let mut y: u32 = 0;
    while y < height
        invariant
            counts@.len() == width * height,
            counts@.len() <= usize::MAX,
            raster_size(raster) == (width, height),
            cache_agrees(cache@, max_iter),
            y <= height,
            place == y * width,
            forall|i: int, j: int|
                0 <= i < width && 0 <= j < y ==> #[trigger] raster.spec_pixel(i, j) == palette(
                    counts@[j * width + i] as nat,
                    max_iter as nat,
                ),
        decreases height - y,
    {
        let mut x: u32 = 0;
        while x < width
            invariant
                counts@.len() == width * height,
                counts@.len() <= usize::MAX,
                raster_size(raster) == (width, height),
                cache_agrees(cache@, max_iter),
                y < height,
                x <= width,
                place == y * width + x,
                forall|i: int, j: int|
                    0 <= i < width && 0 <= j < y ==> #[trigger] raster.spec_pixel(i, j) == palette(
                        counts@[j * width + i] as nat,
                        max_iter as nat,
                    ),
                forall|i: int|
                    0 <= i < x ==> #[trigger] raster.spec_pixel(i, y as int) == palette(
                        counts@[y * width + i] as nat,
                        max_iter as nat,
                    ),
            decreases width - x,
        {
            proof {
                lemma_cell_in_rows(x as int, y as int, width as int, height as int);
                assert(height * width == width * height) by (nonlinear_arith);
            }
            let color = cached_color(&mut cache, counts[place], max_iter);
            let ghost before = raster;
            put_pixel(&mut raster, x, y, color);
            proof {
                assert forall|i: int, j: int| 0 <= i < width && 0 <= j < y implies #[trigger]
                    raster.spec_pixel(i, j) == palette(
                    counts@[j * width + i] as nat,
                    max_iter as nat,
                ) by {
                    assert(raster.spec_pixel(i, j) == before.spec_pixel(i, j));
                }
                assert forall|i: int| 0 <= i < x + 1 implies #[trigger] raster.spec_pixel(
                    i,
                    y as int,
                ) == palette(counts@[y * width + i] as nat, max_iter as nat) by {
                    if i < x {
                        assert(raster.spec_pixel(i, y as int) == before.spec_pixel(i, y as int));
                    }
                }
            }
            x = x + 1;
            place = place + 1;
        }
        proof {
            assert((y + 1) * width == y * width + width) by (nonlinear_arith);
        }
        y = y + 1;
    }
    Ok(raster)
}

/// A colour with an alpha channel, as a display takes it.
#[derive(Clone, Copy, Debug, PartialEq, Eq, Structural)]
pub struct Rgba {
    pub red: u8,
    pub green: u8,
    pub blue: u8,
    pub alpha: u8,
}

/// The opaque display colour of a raster colour.
pub open spec fn opaque(color: Color) -> Rgba {
    Rgba { red: color.red, green: color.green, blue: color.blue, alpha: 255 }
}

/// An image as a display takes it: its size and its pixels row by row, top row first.
pub struct ColorImage {
    pub width: usize,
    pub height: usize,
    pub pixels: Vec<Rgba>,
}

/// Converts a raster into a display image of the same size: the pixel at `(x, y)` goes, made
/// opaque, to place `y * width + x`.
pub fn rgb_image_to_color_image(image: &Raster) -> (out: ColorImage)
    ensures
        out.width == image.spec_width(),
        out.height == image.spec_height(),
        out.pixels@.len() == image.spec_width() * image.spec_height(),
        forall|x: int, y: int|
            0 <= x < image.spec_width() && 0 <= y < image.spec_height() ==> out.pixels@[y
                * image.spec_width() + x] == opaque(#[trigger] image.spec_pixel(x, y)),
{
    let width = raster_width(image);
    let height = raster_height(image);
    let mut pixels: Vec<Rgba> = Vec::new();
    let mut y: u32 = 0;
    while y < height
        invariant
            width == image.spec_width(),
            height == image.spec_height(),
            y <= height,
            pixels@.len() == y * width,
            forall|i: int, j: int|
                0 <= i < width && 0 <= j < y ==> pixels@[j * width + i] == opaque(
                    #[trigger] image.spec_pixel(i, j),
                ),
        decreases height - y,
    {
        let mut x: u32 = 0;
        while x < width
            invariant
                width == image.spec_width(),
                height == image.spec_height(),
                y < height,
                x <= width,
                pixels@.len() == y * width + x,
                forall|i: int, j: int|
                    0 <= i < width && 0 <= j < y ==> pixels@[j * width + i] == opaque(
                        #[trigger] image.spec_pixel(i, j),
                    ),
                forall|i: int|
                    0 <= i < x ==> pixels@[y * width + i] == opaque(
                        #[trigger] image.spec_pixel(i, y as int),
                    ),
            decreases width - x,
        {
            let color = get_pixel(image, x, y);
            let ghost before = pixels@;
            pixels.push(Rgba { red: color.red, green: color.green, blue: color.blue, alpha: 255 });
            proof {
                assert forall|i: int, j: int| 0 <= i < width && 0 <= j < y implies pixels@[j
                    * width + i] == opaque(#[trigger] image.spec_pixel(i, j)) by {
                    lemma_cell_in_rows(i, j, width as int, y as int);
                    assert(pixels@[j * width + i] == before[j * width + i]);
                }
            }
            x = x + 1;
        }
        proof {
            assert((y + 1) * width == y * width + width) by (nonlinear_arith);
        }
        y = y + 1;
    }
    proof {
        assert(height * width == width * height) by (nonlinear_arith);
        assert forall|x: int, y: int|
            0 <= x < image.spec_width() && 0 <= y < image.spec_height() implies pixels@[y
            * image.spec_width() + x] == opaque(#[trigger] image.spec_pixel(x, y)) by {
            assert(pixels@[y * width + x] == opaque(image.spec_pixel(x, y)));
        }
    }
    ColorImage { width: width as usize, height: height as usize, pixels }
}

/// The place of a cell in the first `rows` rows lies before the end of those rows.
pub proof fn lemma_cell_in_rows(x: int, y: int, width: int, rows: int)
    requires
        0 <= x < width,
        0 <= y < rows,
    ensures
        0 <= y * width + x < rows * width,
{
    assert(y * width + x < rows * width) by (nonlinear_arith)
        requires
            0 <= x < width,
            0 <= y < rows,
    ;
    assert(0 <= y * width) by (nonlinear_arith)
        requires
            0 <= y,
            0 <= width,
    ;
}

} // verus!
