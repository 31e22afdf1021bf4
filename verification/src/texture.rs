//! Textures: which colour a surface has at a point.
//!
//! A texture cannot do arithmetic on coordinates, so finding a colour goes in
//! steps: `value` says what the texture needs next, the caller computes it, and
//! `branch` or `texel` takes the answer.

use vstd::prelude::*;
use crate::scalar::{Vec3, ONE, ZERO};

verus! {

#[verifier::external_type_specification]
#[verifier::external_body]
pub struct ExDynamicImage(image::DynamicImage);

/// The width and height of a raster, in pixels.
pub uninterp spec fn image_extent(image: image::DynamicImage) -> (u32, u32);

/// The red, green and blue of each pixel of a raster of integer samples, by
/// column and row.
pub uninterp spec fn image_texels(image: image::DynamicImage) -> Map<(u32, u32), (u8, u8, u8)>;

/// Whether the samples of a raster are floating-point numbers.
pub uninterp spec fn image_is_float(image: image::DynamicImage) -> bool;

/// The variant of an `image::DynamicImage`: whether it is one of the two
/// with 32-bit floating-point samples, `ImageRgb32F` and `ImageRgba32F`.
#[verifier::external_body]
fn image_has_float_samples(image: &image::DynamicImage) -> (b: bool)
    ensures
        b == image_is_float(*image),
{
    match image {
        image::DynamicImage::ImageRgb32F(_) => true,
        image::DynamicImage::ImageRgba32F(_) => true,
        _ => false,
    }
}

/// `image::GenericImageView::width` on a `DynamicImage`: the first of the
/// raster's dimensions.
#[verifier::external_body]
fn image_width(image: &image::DynamicImage) -> (w: u32)
    ensures
        w == image_extent(*image).0,
{
    image::GenericImageView::width(image)
}

/// `image::GenericImageView::height` on a `DynamicImage`: the second of the
/// raster's dimensions.
#[verifier::external_body]
fn image_height(image: &image::DynamicImage) -> (h: u32)
    ensures
        h == image_extent(*image).1,
{
    image::GenericImageView::height(image)
}

/// `image::GenericImageView::get_pixel` on a `DynamicImage`: the pixel at
/// column `x` and row `y`, as 8-bit RGBA, of which the first three channels
/// are kept. The call panics outside the raster, and on a floating-point
/// sample that is no number, so positions outside and rasters of
/// floating-point samples are left out.
#[verifier::external_body]
fn image_pixel(image: &image::DynamicImage, x: u32, y: u32) -> (p: (u8, u8, u8))
    requires
        !image_is_float(*image),
        x < image_extent(*image).0,
        y < image_extent(*image).1,
    ensures
        p == image_texels(*image)[(x, y)],
{
    let pixel = image::GenericImageView::get_pixel(image, x, y);
    (pixel.0[0], pixel.0[1], pixel.0[2])
}

/// The colour shown for a raster without rows.
pub open spec fn spec_missing_color() -> Vec3 {
    Vec3 { x: ZERO, y: ONE, z: ONE }
}

/// A texture: one colour, a checker pattern of two textures, or a raster.
#[derive(Clone, Copy)]
pub enum Texture {
    /// The same colour everywhere.
    SolidColor(Vec3),
    /// Cells of side `1 / inv_scale`, alternately of the first and of the
    /// second texture. The first field is `inv_scale`.
    Checker(i64, &'static Texture, &'static Texture),
    /// A raster addressed by surface coordinates.
    Image(&'static image::DynamicImage),
}

/// What a texture gives, or needs before it can give a colour.
#[derive(Clone, Copy, Debug, PartialEq, Eq, Structural)]
pub enum Lookup {
    /// The colour itself.
    Color(Vec3),
    /// The cell of the point is needed: each coordinate multiplied by this
    /// factor and rounded down. `branch` takes it.
    Cell(i64),
    /// A pixel position is needed, in a raster of this width and height.
    /// `texel` takes it.
    Texel(u32, u32),
}

/// Whether the cell `(x_int, y_int, z_int)` of a checker pattern is an even
/// one: the sum of the three is even.
pub open spec fn spec_even_cell(x_int: int, y_int: int, z_int: int) -> bool {
    (x_int + y_int + z_int) % 2 == 0
}

/// Whether the cell `(x_int, y_int, z_int)` of a checker pattern is an even one.
pub fn even_cell(x_int: i32, y_int: i32, z_int: i32) -> (even: bool)
    ensures
        even == spec_even_cell(x_int as int, y_int as int, z_int as int),
{
    let sum: i64 = x_int as i64 + y_int as i64 + z_int as i64;
    sum % 2 == 0
}

impl Texture {
    /// What `value` returns.
    pub open spec fn spec_value(self) -> Lookup {
        match self {
            Texture::SolidColor(color) => Lookup::Color(color),
            Texture::Checker(inv_scale, _, _) => Lookup::Cell(inv_scale),
            Texture::Image(image) => if image_extent(*image).1 == 0 {
                Lookup::Color(spec_missing_color())
            } else {
                Lookup::Texel(image_extent(*image).0, image_extent(*image).1)
            },
        }
    }

    /// The colour of a solid texture; for a checker, the factor by which to
    /// find the point's cell; for a raster, its size, or the marker colour
    /// where it has no rows.
    pub fn value(&self) -> (l: Lookup)
        ensures
            l == self.spec_value(),
    {
        match self {
            Texture::SolidColor(color) => Lookup::Color(*color),
            Texture::Checker(inv_scale, _, _) => Lookup::Cell(*inv_scale),
            Texture::Image(image) => {
                let height = image_height(image);
                if height == 0 {
                    Lookup::Color(Vec3 { x: ZERO, y: ONE, z: ONE })
                } else {
                    Lookup::Texel(image_width(image), height)
                }
            },
        }
    }

    /// The texture of a checker pattern in the given cell; any other texture
    /// is the same in every cell.
    pub open spec fn spec_branch(self, x_int: int, y_int: int, z_int: int) -> Texture {
        match self {
            Texture::Checker(_, color_even, color_odd) => if spec_even_cell(x_int, y_int, z_int) {
                *color_even
            } else {
                *color_odd
            },
            _ => self,
        }
    }

    /// The texture that holds in the cell `(x_int, y_int, z_int)`: for a
    /// checker pattern its first texture in even cells and its second in odd
    /// ones.
    pub fn branch(&self, x_int: i32, y_int: i32, z_int: i32) -> (t: Texture)
        ensures
            t == self.spec_branch(x_int as int, y_int as int, z_int as int),
    {
        match self {
            Texture::Checker(_, color_even, color_odd) => {
                if even_cell(x_int, y_int, z_int) {
                    **color_even
                } else {
                    **color_odd
                }
            },
            _ => *self,
        }
    }

    /// The pixel of a raster of integer samples at column `x` and row `y`,
    /// where there is one.
    pub open spec fn spec_texel(self, x: u32, y: u32) -> Option<(u8, u8, u8)> {
        match self {
            Texture::Image(image) => if !image_is_float(*image) && x < image_extent(*image).0 && y
                < image_extent(*image).1 {
                Some(image_texels(*image)[(x, y)])
            } else {
                None
            },
            _ => None,
        }
    }

    /// The red, green and blue of a raster at column `x` and row `y`. `None`
    /// for a position outside the raster, for a raster of floating-point
    /// samples, which has to be converted before it is used as a texture, and
    /// for a texture that is no raster.
    pub fn texel(&self, x: u32, y: u32) -> (p: Option<(u8, u8, u8)>)
        ensures
            p == self.spec_texel(x, y),
    {
        match self {
            Texture::Image(image) => {
                if !image_has_float_samples(image) && x < image_width(image) && y
                    < image_height(image) {
                    Some(image_pixel(image, x, y))
                } else {
                    None
                }
            },
            _ => None,
        }
    }
}

/// A checker pattern alternates: one cell further along any one axis, the
/// other of its two textures holds, and two cells further the same one again.
pub proof fn lemma_checker_alternates(t: Texture, x_int: int, y_int: int, z_int: int)
    requires
        t is Checker,
    ensures
        spec_even_cell(x_int + 1, y_int, z_int) != spec_even_cell(x_int, y_int, z_int),
        spec_even_cell(x_int, y_int + 1, z_int) != spec_even_cell(x_int, y_int, z_int),
        spec_even_cell(x_int, y_int, z_int + 1) != spec_even_cell(x_int, y_int, z_int),
        t.spec_branch(x_int, y_int, z_int) == (if spec_even_cell(x_int, y_int, z_int) {
            *t->1
        } else {
            *t->2
        }),
        t.spec_branch(x_int + 1, y_int, z_int) == (if spec_even_cell(x_int, y_int, z_int) {
            *t->2
        } else {
            *t->1
        }),
        t.spec_branch(x_int, y_int + 1, z_int) == t.spec_branch(x_int + 1, y_int, z_int),
        t.spec_branch(x_int, y_int, z_int + 1) == t.spec_branch(x_int + 1, y_int, z_int),
        t.spec_branch(x_int + 2, y_int, z_int) == t.spec_branch(x_int, y_int, z_int),
        t.spec_branch(x_int, y_int + 2, z_int) == t.spec_branch(x_int, y_int, z_int),
        t.spec_branch(x_int, y_int, z_int + 2) == t.spec_branch(x_int, y_int, z_int),
{
}

} // verus!
