use vstd::prelude::*;

use image::RgbaImage;

verus! {

/// An owned buffer of RGBA pixels, four bytes per pixel, rows packed one
/// after another.
#[verifier::external_body]
pub struct RgbaBuffer {
    img: RgbaImage,
}

/// The width and height that an RGBA buffer was made with.
pub uninterp spec fn rgba_dims(img: RgbaBuffer) -> (u32, u32);

/// The pixels of an RGBA buffer, row by row; each pixel is its four channels.
pub uninterp spec fn rgba_grid(img: RgbaBuffer) -> Seq<Seq<Seq<u8>>>;

/// The bytes that an RGBA buffer stores.
pub uninterp spec fn rgba_raw(img: RgbaBuffer) -> Seq<u8>;

/// The four bytes that pixel `(x, y)` occupies in a packed RGBA buffer of
/// the given width.
pub open spec fn packed_pixel(buf: Seq<u8>, width: int, x: int, y: int) -> Seq<u8> {
    buf.subrange(4 * (y * width + x), 4 * (y * width + x) + 4)
}

/// `raw` packs the `width × height` pixels of `grid`: it holds at least
/// `4 * width * height` bytes, and pixel `(x, y)` is the four bytes at
/// `4 * (y * width + x)`.
pub open spec fn packs(raw: Seq<u8>, width: u32, height: u32, grid: Seq<Seq<Seq<u8>>>) -> bool {
    &&& 4 * width * height <= raw.len()
    &&& forall|x: int, y: int|
        0 <= x < width && 0 <= y < height ==> #[trigger] grid[y][x] == packed_pixel(
            raw,
            width as int,
            x,
            y,
        )
}

/// Relies on `ImageBuffer::dimensions`, which returns the width and height
/// the buffer was made with; every constructor of `ImageBuffer` makes sure
/// that its bytes hold that many pixels, pixel `(x, y)` at
/// `4 * (y * width + x)` (`get_pixel`).
#[verifier::external_body]
fn rgba_dimensions(img: &RgbaBuffer) -> (r: (u32, u32))
    ensures
        r == rgba_dims(*img),
        packs(rgba_raw(*img), r.0, r.1, rgba_grid(*img)),
{
    img.img.dimensions()
}

/// Relies on `ImageBuffer::get_pixel`, which returns the pixel at `(x, y)`
/// and panics outside the buffer's dimensions.
#[verifier::external_body]
fn rgba_get_pixel(img: &RgbaBuffer, x: u32, y: u32) -> (r: [u8; 4])
    requires
        x < rgba_dims(*img).0,
        y < rgba_dims(*img).1,
    ensures
        r@ == rgba_grid(*img)[y as int][x as int],
{
    img.img.get_pixel(x, y).0
}

/// Relies on `ImageBuffer::from_raw`, which keeps `buf` as the image's bytes
/// and accepts it exactly when `4 * width` and `4 * width * height` do not
/// overflow `usize` and `buf` holds at least `4 * width * height` bytes.
#[verifier::external_body]
fn rgba_from_raw(width: u32, height: u32, buf: Vec<u8>) -> (r: Option<RgbaBuffer>)
    ensures
        r.is_some() <==> (4 * width <= usize::MAX && 4 * width * height <= buf@.len()),
        r matches Some(img) ==> rgba_dims(img) == (width, height),
        r matches Some(img) ==> rgba_raw(img) == buf@,
        r matches Some(img) ==> packs(buf@, width, height, rgba_grid(img)),
{
    image::ImageBuffer::from_raw(width, height, buf).map(|img| RgbaBuffer { img })
}

/// Relies on `ImageBuffer::into_raw`, which hands back the image's bytes.
#[verifier::external_body]
fn rgba_into_raw(img: RgbaBuffer) -> (r: Vec<u8>)
    ensures
        r@ == rgba_raw(img),
{
    img.img.into_raw()
}

impl RgbaBuffer {
    /// Takes `buf` as the packed pixels of a `width × height` image, or
    /// `None` when it holds fewer than `4 * width * height` bytes or that
    /// size does not fit in `usize`.
    pub fn from_raw(width: u32, height: u32, buf: Vec<u8>) -> (r: Option<RgbaBuffer>)
        ensures
            r.is_some() <==> (4 * width <= usize::MAX && 4 * width * height <= buf@.len()),
            r matches Some(img) ==> rgba_dims(img) == (width, height),
            r matches Some(img) ==> rgba_raw(img) == buf@,
            r matches Some(img) ==> packs(buf@, width, height, rgba_grid(img)),
    {
        rgba_from_raw(width, height, buf)
    }

    /// The bytes of the image, pixels packed row by row.
    pub fn into_raw(self) -> (r: Vec<u8>)
        ensures
            r@ == rgba_raw(self),
    {
        rgba_into_raw(self)
    }
}

/// A read-only image of RGBA pixels: its size and the pixel at each place.
pub trait ImageView {
    /// What the view needs to answer queries.
    spec fn well_formed(&self) -> bool;

    /// Width and height.
    spec fn spec_dimensions(&self) -> (u32, u32);

    /// The channels of the pixel at `(x, y)`.
    spec fn spec_pixel(&self, x: u32, y: u32) -> Seq<u8>;

    /// Width and height.
    fn dimensions(&self) -> (r: (u32, u32))
        requires
            self.well_formed(),
        ensures
            r == self.spec_dimensions(),
    ;

    /// The rectangle covered: left, top, width and height.
    fn bounds(&self) -> (r: (u32, u32, u32, u32))
        requires
            self.well_formed(),
        ensures
            r == (0u32, 0u32, self.spec_dimensions().0, self.spec_dimensions().1),
    ;

    /// The pixel at `(x, y)`, which must lie inside the image.
    fn get_pixel(&self, x: u32, y: u32) -> (r: [u8; 4])
        requires
            self.well_formed(),
            x < self.spec_dimensions().0,
            y < self.spec_dimensions().1,
        ensures
            r@ == self.spec_pixel(x, y),
    ;
}

impl ImageView for RgbaBuffer {
    open spec fn well_formed(&self) -> bool {
        true
    }

    open spec fn spec_dimensions(&self) -> (u32, u32) {
        rgba_dims(*self)
    }

    open spec fn spec_pixel(&self, x: u32, y: u32) -> Seq<u8> {
        rgba_grid(*self)[y as int][x as int]
    }

    fn dimensions(&self) -> (r: (u32, u32)) {
        rgba_dimensions(self)
    }

    fn bounds(&self) -> (r: (u32, u32, u32, u32)) {
        let (w, h) = rgba_dimensions(self);
        (0, 0, w, h)
    }

    fn get_pixel(&self, x: u32, y: u32) -> (r: [u8; 4]) {
        rgba_get_pixel(self, x, y)
    }
}

} // verus!
