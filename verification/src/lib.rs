//! The decision core of a path tracer.
//!
//! Every real quantity (a coordinate, a ray parameter, a colour channel) is held
//! as an order key, see [`scalar`]. The library compares, selects, orders and
//! stores such keys; it never does arithmetic on the numbers they stand for.

use vstd::prelude::*;

pub mod aabb;
pub mod bvh;
pub mod camera;
pub mod geometry;
pub mod material;
pub mod ray;
pub mod scalar;
pub mod search;
pub mod texture;
pub mod utility;
pub mod world;

use crate::camera::{Camera, ConfigError};
use crate::scalar::Vec3;

verus! {

/// Whether the four bytes of pixel `(x, y)` in a row-major RGBA raster of
/// the given width are those of `pixel`.
pub open spec fn pixel_is(raster: Seq<u8>, image_width: int, x: int, y: int, pixel: [u8; 4]) -> bool {
    let at = 4 * (y * image_width + x);
    &&& 0 <= at
    &&& at + 4 <= raster.len()
    &&& raster[at] == pixel[0]
    &&& raster[at + 1] == pixel[1]
    &&& raster[at + 2] == pixel[2]
    &&& raster[at + 3] == pixel[3]
}

/// Whether pixel `(x, y)` of the raster is one that `shade` gives for it.
pub open spec fn shaded<F: Fn(u32, u32) -> [u8; 4]>(
    shade: F,
    raster: Seq<u8>,
    image_width: int,
    x: u32,
    y: u32,
) -> bool {
    exists|pixel: [u8; 4]|
        call_ensures(shade, (x, y), pixel) && #[trigger] pixel_is(
            raster,
            image_width,
            x as int,
            y as int,
            pixel,
        )
}

/// Renders an image pixel by pixel, row by row from the top, each row from
/// the left: `shade` gives the pixel for a column and a row, and the raster
/// holds the pixels row-major, four bytes each.
pub fn render<F: Fn(u32, u32) -> [u8; 4]>(image_width: u32, image_height: u32, shade: F) -> (raster:
    Vec<u8>)
    requires
        forall|x: u32, y: u32| x < image_width && y < image_height ==> call_requires(shade, (x, y)),
    ensures
        raster@.len() == 4 * image_width * image_height,
        forall|x: u32, y: u32|
            x < image_width && y < image_height ==> #[trigger] shaded(
                shade,
                raster@,
                image_width as int,
                x,
                y,
            ),
{
    let mut raster: Vec<u8> = Vec::new();
    let ghost width = image_width as int;
    let mut y: u32 = 0;
    while y < image_height
        invariant
            width == image_width,
            y <= image_height,
            raster@.len() == 4 * (y * width),
            forall|x: u32, y: u32|
                x < image_width && y < image_height ==> call_requires(shade, (x, y)),
            forall|px: u32, py: u32|
                px < image_width && py < y ==> #[trigger] shaded(shade, raster@, width, px, py),
        decreases image_height - y,
    {
        let mut x: u32 = 0;
        while x < image_width
            invariant
                width == image_width,
                y < image_height,
                x <= image_width,
                raster@.len() == 4 * (y * width + x),
                forall|x: u32, y: u32|
                    x < image_width && y < image_height ==> call_requires(shade, (x, y)),
                forall|px: u32, py: u32|
                    px < image_width && py < y ==> #[trigger] shaded(shade, raster@, width, px, py),
                forall|px: u32| px < x ==> #[trigger] shaded(shade, raster@, width, px, y),
            decreases image_width - x,
        {
            let ghost before = raster@;
            let pixel = shade(x, y);
            raster.push(pixel[0]);
            raster.push(pixel[1]);
            raster.push(pixel[2]);
            raster.push(pixel[3]);
            proof {
                assert(pixel_is(raster@, width, x as int, y as int, pixel));
                assert forall|px: u32, py: u32| px < image_width && py < y implies #[trigger] shaded(
                    shade,
                    raster@,
                    width,
                    px,
                    py,
                ) by {
                    lemma_pixel_stays(shade, before, raster@, width, px, py);
                }
                assert forall|px: u32| px < x + 1 implies #[trigger] shaded(
                    shade,
                    raster@,
                    width,
                    px,
                    y,
                ) by {
                    if px < x {
                        lemma_pixel_stays(shade, before, raster@, width, px, y);
                    }
                }
            }
            x += 1;
        }
        proof {
            assert((y + 1) * width == y * width + width) by (nonlinear_arith);
        }
        y += 1;
    }
    proof {
        assert(4 * (image_height * width) == 4 * image_width * image_height) by (nonlinear_arith)
            requires
                width == image_width,
        ;
    }
    raster
}

/// A pixel that a raster holds is still there when the raster has grown.
proof fn lemma_pixel_stays<F: Fn(u32, u32) -> [u8; 4]>(
    shade: F,
    before: Seq<u8>,
    after: Seq<u8>,
    image_width: int,
    x: u32,
    y: u32,
)
    requires
        shaded(shade, before, image_width, x, y),
        before.len() <= after.len(),
        forall|i: int| 0 <= i < before.len() ==> before[i] == after[i],
    ensures
        shaded(shade, after, image_width, x, y),
{
    let pixel = choose|pixel: [u8; 4]|
        call_ensures(shade, (x, y), pixel) && #[trigger] pixel_is(
            before,
            image_width,
            x as int,
            y as int,
            pixel,
        );
    assert(pixel_is(after, image_width, x as int, y as int, pixel));
}

/// What is needed to render a scene: the size of the image, the camera, and
/// where the pixels lie in the world.
pub struct Renderer {
    image_width: u32,
    image_height: u32,
    /// The camera used for rendering.
    pub camera: Camera,
    upper_left_pixel: Vec3,
    pixel_delta_u: Vec3,
    pixel_delta_v: Vec3,
}

impl Renderer {
    /// The width of the image, in pixels.
    pub closed spec fn view_width(self) -> u32 {
        self.image_width
    }

    /// The height of the image, in pixels.
    pub closed spec fn view_height(self) -> u32 {
        self.image_height
    }

    /// The camera.
    pub closed spec fn view_camera(self) -> Camera {
        self.camera
    }

    /// The centre of the upper left pixel, and the steps from one pixel
    /// centre to the next along a row and along a column.
    pub closed spec fn view_grid(self) -> (Vec3, Vec3, Vec3) {
        (self.upper_left_pixel, self.pixel_delta_u, self.pixel_delta_v)
    }

    /// Makes a renderer, after checking the image's shape. `image_height` is
    /// the width divided by the aspect ratio and rounded down;
    /// `upper_left_pixel`, `pixel_delta_u` and `pixel_delta_v` place the
    /// pixels in the world. A zero aspect ratio is refused first, then an
    /// image without rows.
    pub fn new(
        aspect_ratio: i64,
        image_width: u32,
        image_height: u32,
        camera: Camera,
        upper_left_pixel: Vec3,
        pixel_delta_u: Vec3,
        pixel_delta_v: Vec3,
    ) -> (made: Result<Self, ConfigError>)
        ensures
            aspect_ratio == 0 ==> made is Err && made->Err_0 == ConfigError::AspectRatio,
            aspect_ratio != 0 && image_height == 0 ==> made is Err && made->Err_0
                == ConfigError::NoRows,
            aspect_ratio != 0 && image_height != 0 ==> made is Ok && made->Ok_0.view_width()
                == image_width && made->Ok_0.view_height() == image_height && made->Ok_0.view_camera()
                == camera && made->Ok_0.view_grid() == (
                upper_left_pixel,
                pixel_delta_u,
                pixel_delta_v,
            ),
    {
        if aspect_ratio == 0 {
            return Err(ConfigError::AspectRatio);
        }
        if image_height == 0 {
            return Err(ConfigError::NoRows);
        }
        Ok(
            Renderer {
                image_width,
                image_height,
                camera,
                upper_left_pixel,
                pixel_delta_u,
                pixel_delta_v,
            },
        )
    }

    /// The width of the image, in pixels.
    pub fn image_width(&self) -> (w: u32)
        ensures
            w == self.view_width(),
    {
        self.image_width
    }

    /// The height of the image, in pixels.
    pub fn image_height(&self) -> (h: u32)
        ensures
            h == self.view_height(),
    {
        self.image_height
    }

    /// The centre of the upper left pixel, and the steps from one pixel
    /// centre to the next along a row and along a column.
    pub fn grid(&self) -> (g: (Vec3, Vec3, Vec3))
        ensures
            g == self.view_grid(),
    {
        (self.upper_left_pixel, self.pixel_delta_u, self.pixel_delta_v)
    }

    /// Renders the image on one thread: `shade` gives the pixel for a column
    /// and a row.
    pub fn render_image<F: Fn(u32, u32) -> [u8; 4]>(&self, shade: F) -> (raster: Vec<u8>)
        requires
            forall|x: u32, y: u32|
                x < self.view_width() && y < self.view_height() ==> call_requires(shade, (x, y)),
        ensures
            raster@.len() == 4 * self.view_width() * self.view_height(),
            forall|x: u32, y: u32|
                x < self.view_width() && y < self.view_height() ==> #[trigger] shaded(
                    shade,
                    raster@,
                    self.view_width() as int,
                    x,
                    y,
                ),
    {
        render(self.image_width, self.image_height, shade)
    }

    /// Whether `rows` has a row for each row of the image and in each row a
    /// pixel for each column.
    pub open spec fn fits(self, rows: Seq<Vec<[u8; 4]>>) -> bool {
        &&& rows.len() == self.view_height()
        &&& forall|y: int| 0 <= y < rows.len() ==> (#[trigger] rows[y])@.len() == self.view_width()
    }

    /// Puts rows of pixels that were rendered apart, by whichever worker,
    /// into one raster: pixel `x` of row `y` stands at column `x` of row `y`.
    /// `None` where `rows` is not of the image's shape.
    pub fn render_parallel_image_data(&self, rows: &Vec<Vec<[u8; 4]>>) -> (raster: Option<Vec<u8>>)
        ensures
            raster.is_some() == self.fits(rows@),
            raster matches Some(bytes) ==> {
                &&& bytes@.len() == 4 * self.view_width() * self.view_height()
                &&& forall|x: int, y: int|
                    0 <= x < self.view_width() && 0 <= y < self.view_height() ==> #[trigger] pixel_is(
                        bytes@,
                        self.view_width() as int,
                        x,
                        y,
                        rows@[y]@[x],
                    )
            },
    {
        if rows.len() != self.image_height as usize {
            return None;
        }
        let ghost width = self.image_width as int;
        let mut raster: Vec<u8> = Vec::new();
        let mut y: usize = 0;
        while y < rows.len()
            invariant
                width == self.image_width,
                rows@.len() == self.image_height,
                y <= rows@.len(),
                raster@.len() == 4 * (y * width),
                forall|k: int| 0 <= k < y ==> (#[trigger] rows@[k])@.len() == width,
                forall|px: int, py: int|
                    0 <= px < width && 0 <= py < y ==> #[trigger] pixel_is(
                        raster@,
                        width,
                        px,
                        py,
                        rows@[py]@[px],
                    ),
            decreases rows@.len() - y,
        {
            let row = &rows[y];
            if row.len() != self.image_width as usize {
                return None;
            }
            let mut x: usize = 0;
            while x < row.len()
                invariant
                    width == self.image_width,
                    rows@.len() == self.image_height,
                    y < rows@.len(),
                    *row == rows@[y as int],
                    row@.len() == width,
                    x <= row@.len(),
                    raster@.len() == 4 * (y * width + x),
                    forall|k: int| 0 <= k < y ==> (#[trigger] rows@[k])@.len() == width,
                    forall|px: int, py: int|
                        0 <= px < width && 0 <= py < y ==> #[trigger] pixel_is(
                            raster@,
                            width,
                            px,
                            py,
                            rows@[py]@[px],
                        ),
                    forall|px: int|
                        0 <= px < x ==> #[trigger] pixel_is(
                            raster@,
                            width,
                            px,
                            y as int,
                            rows@[y as int]@[px],
                        ),
                decreases row@.len() - x,
            {
                let ghost before = raster@;
                let pixel = row[x];
                raster.push(pixel[0]);
                raster.push(pixel[1]);
                raster.push(pixel[2]);
                raster.push(pixel[3]);
                proof {
                    assert(pixel_is(raster@, width, x as int, y as int, pixel));
                    assert forall|px: int, py: int|
                        0 <= px < width && 0 <= py < y implies #[trigger] pixel_is(
                        raster@,
                        width,
                        px,
                        py,
                        rows@[py]@[px],
                    ) by {
                        assert(pixel_is(before, width, px, py, rows@[py]@[px]));
                    }
                    assert forall|px: int| 0 <= px < x + 1 implies #[trigger] pixel_is(
                        raster@,
                        width,
                        px,
                        y as int,
                        rows@[y as int]@[px],
                    ) by {
                        if px < x {
                            assert(pixel_is(before, width, px, y as int, rows@[y as int]@[px]));
                        }
                    }
                }
                x += 1;
            }
            proof {
                assert((y + 1) * width == y * width + width) by (nonlinear_arith);
            }
            y += 1;
        }
        proof {
            assert(4 * (self.image_height * width) == 4 * self.image_width * self.image_height)
                by (nonlinear_arith)
                requires
                    width == self.image_width,
            ;
        }
        Some(raster)
    }
}

} // verus!
