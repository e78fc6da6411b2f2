//! Textures: what a surface looks like at a point.

use vstd::prelude::*;
use image::GenericImageView;
use crate::perlin::{spec_tables, Perlin};
use crate::rng::Rng;
use crate::scalar::Scalar;
use crate::vec3::{Color, Vec3};

verus! {

/// `image::DynamicImage`, a decoded image of any pixel format. Nothing is
/// known of a value but what the functions below say.
#[verifier::external_type_specification]
#[verifier::external_body]
pub struct ExDynamicImage(image::DynamicImage);

/// The pixels of a decoded image, by column and row, each as its red, green
/// and blue bytes.
pub uninterp spec fn image_pixels(img: image::DynamicImage) -> Map<(int, int), (u8, u8, u8)>;

/// The width and height of a decoded image.
pub uninterp spec fn image_size(img: image::DynamicImage) -> (int, int);

/// `DynamicImage::width`: the number of columns of the image.
#[verifier::external_body]
fn image_width(img: &image::DynamicImage) -> (w: u32)
    ensures
        w == image_size(*img).0,
{
    img.width()
}

/// `DynamicImage::height`: the number of rows of the image.
#[verifier::external_body]
fn image_height(img: &image::DynamicImage) -> (h: u32)
    ensures
        h == image_size(*img).1,
{
    img.height()
}

/// `GenericImageView::get_pixel` on a `DynamicImage`: the pixel in column `x`
/// and row `y`, converted to eight bits per channel, without its alpha. The
/// call panics outside the image, which the precondition rules out.
#[verifier::external_body]
fn image_pixel(img: &image::DynamicImage, x: u32, y: u32) -> (rgb: (u8, u8, u8))
    requires
        x < image_size(*img).0,
        y < image_size(*img).1,
    ensures
        rgb == image_pixels(*img)[(x as int, y as int)],
{
    let pixel = img.get_pixel(x, y);
    (pixel.0[0], pixel.0[1], pixel.0[2])
}

/// One colour everywhere.
#[derive(Clone, Copy, Debug)]
pub struct SolidColor {
    pub color_value: Color,
}

impl SolidColor {
    pub fn new(color: Color) -> (s: Self)
        ensures
            s.color_value == color,
    {
        Self { color_value: color }
    }

    /// The colour, whatever the point.
    pub fn value(&self, _u: Scalar, _v: Scalar, _p: &Vec3) -> (c: Color)
        ensures
            c == self.color_value,
    {
        self.color_value
    }
}

/// Gradient noise, scaled.
pub struct NoiseTexture {
    pub noise: Perlin,
    pub scale: Scalar,
}

impl NoiseTexture {
    /// A noise texture over the given gradients, its tables drawn from `rng`.
    pub fn new(sc: Scalar, ran_vec: [Vec3; 256], rng: &mut Rng) -> (t: Self)
        ensures
            t.scale == sc,
            t.noise.gradients() == ran_vec@,
            t.noise.table_x() == spec_tables(old(rng).state).x,
            t.noise.table_y() == spec_tables(old(rng).state).y,
            t.noise.table_z() == spec_tables(old(rng).state).z,
            final(rng).state == spec_tables(old(rng).state).state,
    {
        Self { noise: Perlin::new(ran_vec, rng), scale: sc }
    }
}

/// A picture wrapped around a surface.
pub struct ImageTexture {
    width: u32,
    height: u32,
    img: image::DynamicImage,
}

impl ImageTexture {
    #[verifier::type_invariant]
    spec fn inv(self) -> bool {
        self.width == image_size(self.img).0 && self.height == image_size(self.img).1
    }

    /// The picture.
    pub closed spec fn picture(self) -> image::DynamicImage {
        self.img
    }

    /// The number of columns of the picture.
    pub closed spec fn spec_width(&self) -> u32 {
        self.width
    }

    /// The number of rows of the picture.
    pub closed spec fn spec_height(&self) -> u32 {
        self.height
    }

    /// The column or row nearest to `i` among `0..n`.
    pub open spec fn spec_clamp_index(i: u32, n: u32) -> int {
        if i >= n {
            n - 1
        } else {
            i as int
        }
    }

    pub fn new(img: image::DynamicImage) -> (t: Self)
        ensures
            t.picture() == img,
            t.spec_width() == image_size(img).0,
            t.spec_height() == image_size(img).1,
    {
        let width = image_width(&img);
        let height = image_height(&img);
        Self { width, height, img }
    }

    #[verifier::when_used_as_spec(spec_width)]
    pub fn width(&self) -> (w: u32)
        ensures
            w == self.spec_width(),
            w == image_size(self.picture()).0,
    {
        proof {
            use_type_invariant(self);
        }
        self.width
    }

    #[verifier::when_used_as_spec(spec_height)]
    pub fn height(&self) -> (h: u32)
        ensures
            h == self.spec_height(),
            h == image_size(self.picture()).1,
    {
        proof {
            use_type_invariant(self);
        }
        self.height
    }

    /// The pixel at column `i` and row `j`, each brought back to the last
    /// column or row when it lies beyond; `None` for a picture without
    /// pixels.
    pub fn value(&self, i: u32, j: u32) -> (rgb: Option<(u8, u8, u8)>)
        ensures
            rgb == if self.spec_width() == 0 || self.spec_height() == 0 {
                None
            } else {
                Some(
                    image_pixels(self.picture())[(
                        Self::spec_clamp_index(i, self.spec_width()),
                        Self::spec_clamp_index(j, self.spec_height()),
                    )],
                )
            },
    {
        proof {
            use_type_invariant(self);
        }
        if self.width == 0 || self.height == 0 {
            return None;
        }
        let mut i = i;
        let mut j = j;
        if i >= self.width {
            i = self.width - 1;
        }
        if j >= self.height {
            j = self.height - 1;
        }
        Some(image_pixel(&self.img, i, j))
    }
}

/// What a surface looks like at a point.
pub enum Texture {
    Solid(SolidColor),
    Checker(CheckerTexture),
    Noise(NoiseTexture),
    Image(ImageTexture),
}

/// Two textures alternating in a three-dimensional checker pattern.
pub struct CheckerTexture {
    pub odd: Box<Texture>,
    pub even: Box<Texture>,
}

impl CheckerTexture {
    /// A checker of two plain colours, `c1` on the even and `c2` on the odd
    /// cells.
    pub fn new(c1: Color, c2: Color) -> (t: Self)
        ensures
            *t.even == Texture::Solid(SolidColor { color_value: c1 }),
            *t.odd == Texture::Solid(SolidColor { color_value: c2 }),
    {
        Self {
            even: Box::new(Texture::Solid(SolidColor::new(c1))),
            odd: Box::new(Texture::Solid(SolidColor::new(c2))),
        }
    }

    /// The texture of the cell that a point lies in: the odd one where
    /// `sines`, the product of the sines of the point's scaled coordinates,
    /// is below zero, and the even one elsewhere.
    pub fn value(&self, sines: Scalar) -> (t: &Texture)
        ensures
            *t == if sines.spec_lt(Scalar { bits: 0 }) {
                *self.odd
            } else {
                *self.even
            },
    {
        if sines.lt(Scalar::zero()) {
            &*self.odd
        } else {
            &*self.even
        }
    }
}

} // verus!
