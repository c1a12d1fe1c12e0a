//! The pixel grid on which the codec works, and its passage from and to the
//! images of the `image` crate.

use image::DynamicImage;
use image::GenericImageView;
use image::ImageBuffer;
use vstd::prelude::*;

verus! {

/// An image of the `image` crate, whatever the layout of its samples. Nothing
/// is read from it but through the functions below.
#[verifier::external_type_specification]
#[verifier::external_body]
pub struct ExDynamicImage(DynamicImage);

/// The pixels of an image as `get_pixel` gives them: four bytes for each
/// pixel in the order red, green, blue, alpha, the pixels in row-major order.
pub uninterp spec fn image_rgba(img: DynamicImage) -> Seq<u8>;

/// The width and the height of an image, in pixels.
pub uninterp spec fn image_extent(img: DynamicImage) -> (nat, nat);

/// `GenericImageView::dimensions` of a `DynamicImage`: the width and the
/// height of the image. The image has four RGBA bytes for each pixel of that
/// extent.
#[verifier::external_body]
fn dimensions_of(img: &DynamicImage) -> (d: (u32, u32))
    ensures
        (d.0 as nat, d.1 as nat) == image_extent(*img),
        image_rgba(*img).len() == 4 * d.0 * d.1,
{
    img.dimensions()
}

/// `GenericImageView::get_pixel` of a `DynamicImage`: the pixel in column `x`
/// of row `y`, as RGBA. It panics outside the image, so the place must lie
/// inside.
#[verifier::external_body]
fn pixel_of(img: &DynamicImage, x: u32, y: u32) -> (p: [u8; 4])
    requires
        x < image_extent(*img).0,
        y < image_extent(*img).1,
    ensures
        p@ == image_rgba(*img).subrange(
            4 * (x + y * image_extent(*img).0),
            4 * (x + y * image_extent(*img).0) + 4,
        ),
{
    img.get_pixel(x, y).0
}

/// `ImageBuffer::from_raw` for RGBA bytes, wrapped as a `DynamicImage`: there
/// is an image if four times the width fits the machine word (the buffer is
/// as long as the extent asks), and it has that extent and those bytes.
#[verifier::external_body]
fn image_from_raw(width: u32, height: u32, data: Vec<u8>) -> (r: Option<DynamicImage>)
    requires
        data@.len() == 4 * width * height,
    ensures
        r is Some <==> 4 * width <= usize::MAX,
        r is Some ==> image_extent(r->0) == (width as nat, height as nat),
        r is Some ==> image_rgba(r->0) == data@,
{
    ImageBuffer::from_raw(width, height, data).map(DynamicImage::ImageRgba8)
}

/// What a grid holds: its width and height in pixels and its bytes, four
/// for each pixel in the order red, green, blue, alpha, the pixels in
/// row-major order.
pub struct Raster {
    pub width: nat,
    pub height: nat,
    pub data: Seq<u8>,
}

/// What an image holds, as a grid holds it.
pub open spec fn raster_of(img: DynamicImage) -> Raster {
    Raster { width: image_extent(img).0, height: image_extent(img).1, data: image_rgba(img) }
}

/// A rectangular grid of RGBA pixels.
pub struct PixelGrid {
    width: u32,
    height: u32,
    data: Vec<u8>,
}

impl View for PixelGrid {
    type V = Raster;

    closed spec fn view(&self) -> Raster {
        Raster { width: self.width as nat, height: self.height as nat, data: self.data@ }
    }
}

impl PixelGrid {
    #[verifier::type_invariant]
    spec fn inv(self) -> bool {
        self.data@.len() == 4 * self.width * self.height
    }

    /// The grid of the given size over `data`, if `data` holds four bytes
    /// for each of its pixels and no more.
    pub fn new(width: u32, height: u32, data: Vec<u8>) -> (r: Option<Self>)
        ensures
            r is Some <==> data@.len() == 4 * width * height,
            r is Some ==> r->0@ == (Raster { width: width as nat, height: height as nat, data: data@ }),
    {
        assert(4 * width * height <= 4 * 0xffff_ffff * 0xffff_ffff) by (nonlinear_arith)
            requires
                width <= 0xffff_ffff,
                height <= 0xffff_ffff,
        ;
        let wanted: u128 = 4 * (width as u128) * (height as u128);
        if data.len() as u128 == wanted {
            Some(PixelGrid { width, height, data })
        } else {
            None
        }
    }

    /// The grid of the given size over `data`, which holds four bytes for
    /// each of its pixels and no more.
    pub(crate) fn from_parts(width: u32, height: u32, data: Vec<u8>) -> (r: Self)
        requires
            data@.len() == 4 * width * height,
        ensures
            r@ == (Raster { width: width as nat, height: height as nat, data: data@ }),
    {
        PixelGrid { width, height, data }
    }

    /// The grid of an image: its extent and its pixels as RGBA.
    pub fn from_image(img: &DynamicImage) -> (r: Self)
        ensures
            r@ == raster_of(*img),
    {
        let (width, height) = dimensions_of(img);
        let ghost all = image_rgba(*img);
        let mut data: Vec<u8> = Vec::new();
        let mut y: u32 = 0;
        while y < height
            invariant
                y <= height,
                image_extent(*img) == (width as nat, height as nat),
                all == image_rgba(*img),
                all.len() == 4 * width * height,
                data@ == all.subrange(0, 4 * (y * width)),
            decreases height - y,
        {
            let mut x: u32 = 0;
            while x < width
                invariant
                    x <= width,
                    y < height,
                    image_extent(*img) == (width as nat, height as nat),
                    all == image_rgba(*img),
                    all.len() == 4 * width * height,
                    data@ == all.subrange(0, 4 * (x + y * width)),
                decreases width - x,
            {
                proof {
                    assert(4 * (x + y * width) + 4 <= 4 * width * height) by (nonlinear_arith)
                        requires
                            x < width,
                            y < height,
                    ;
                }
                let pixel = pixel_of(img, x, y);
                data.push(pixel[0]);
                data.push(pixel[1]);
                data.push(pixel[2]);
                data.push(pixel[3]);
                proof {
                    let at = 4 * (x + y * width);
                    assert(pixel@ == all.subrange(at, at + 4));
                    assert(pixel@[0] == all[at] && pixel@[1] == all[at + 1] && pixel@[2] == all[at
                        + 2] && pixel@[3] == all[at + 3]);
                    assert(data@ =~= all.subrange(0, at + 4));
                }
                x += 1;
            }
            proof {
                assert(width + y * width == (y + 1) * width) by (nonlinear_arith);
            }
            y += 1;
        }
        proof {
            assert(4 * (height * width) == 4 * width * height) by (nonlinear_arith);
            assert(data@ =~= all);
        }
        PixelGrid { width, height, data }
    }

    /// The image of the grid, with the same extent and the same bytes. There
    /// is none only where four times the width does not fit the machine word,
    /// which needs a grid without pixels.
    pub fn into_image(self) -> (r: Option<DynamicImage>)
        ensures
            r is Some <==> 4 * self@.width <= usize::MAX,
            r is Some ==> raster_of(r->0) == self@,
    {
        proof {
            use_type_invariant(&self);
        }
        image_from_raw(self.width, self.height, self.data)
    }

    /// The width in pixels.
    pub fn width(&self) -> (r: u32)
        ensures
            r == self@.width,
    {
        self.width
    }

    /// The height in pixels.
    pub fn height(&self) -> (r: u32)
        ensures
            r == self@.height,
    {
        self.height
    }

    /// The bytes of the grid.
    pub fn as_bytes(&self) -> (r: &[u8])
        ensures
            r@ == self@.data,
            r@.len() == 4 * self@.width * self@.height,
    {
        proof {
            use_type_invariant(self);
        }
        self.data.as_slice()
    }

    /// The number of pixels.
    pub fn pixel_count(&self) -> (r: usize)
        ensures
            r == self@.width * self@.height,
            self@.data.len() == 4 * r,
            4 * r <= usize::MAX,
    {
        proof {
            use_type_invariant(self);
            assert(4 * self.width * self.height == 4 * (self.width * self.height)) by (nonlinear_arith);
        }
        self.data.len() / 4
    }
}

} // verus!
