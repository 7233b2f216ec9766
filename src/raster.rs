use vstd::prelude::*;
use crate::color::{glyph_of, pixel_to_emoji, Rgba};

verus! {

/// An RGBA image held row by row, four bytes per pixel (red, green, blue, alpha).
pub struct Image {
    width: u32,
    height: u32,
    data: Vec<u8>,
}

/// What `DynamicImage::resize` with the Catmull-Rom filter gives for an RGBA
/// image of the given size and bytes and the given bounding box: the new
/// width, height and bytes.
pub uninterp spec fn catmull_rom_fit(
    data: Seq<u8>,
    width: u32,
    height: u32,
    max_width: u32,
    max_height: u32,
) -> (u32, u32, Seq<u8>);

/// Relies on image's `DynamicImage::resize` with `FilterType::CatmullRom`: the
/// image scaled to the largest size that fits the box with its aspect ratio
/// kept, each side at least one pixel; an image of exactly the box's size comes
/// back as a copy.
#[verifier::external_body]
fn resize_catmull_rom(width: u32, height: u32, data: Vec<u8>, max_width: u32, max_height: u32) -> (r: (u32, u32, Vec<u8>))
    requires
        data@.len() == 4 * width * height,
        width >= 1,
        height >= 1,
    ensures
        (r.0, r.1, r.2@) == catmull_rom_fit(data@, width, height, max_width, max_height),
        r.2@.len() == 4 * r.0 * r.1,
        r.0 >= 1,
        r.1 >= 1,
        max_width == width && max_height == height ==> r.0 == width && r.1 == height && r.2@ == data@,
{
    let buffer = image::RgbaImage::from_raw(width, height, data).unwrap();
    let dynamic = image::DynamicImage::ImageRgba8(buffer);
    let resized = dynamic.resize(max_width, max_height, image::imageops::FilterType::CatmullRom).into_rgba8();
    (resized.width(), resized.height(), resized.into_raw())
}

/// The pixel at column `x` and row `y` of a row-major RGBA byte sequence.
pub open spec fn pixel_of(data: Seq<u8>, width: int, x: int, y: int) -> Rgba {
    let i = 4 * (y * width + x);
    Rgba { r: data[i], g: data[i + 1], b: data[i + 2], a: data[i + 3] }
}

/// Size and bytes of an image after fitting it into the optional box; an
/// absent bound stands for the image's own size on that side. An image without
/// pixels has nothing to resample and stays as it is.
pub open spec fn resized(
    width: u32,
    height: u32,
    data: Seq<u8>,
    max_width: Option<u32>,
    max_height: Option<u32>,
) -> (u32, u32, Seq<u8>) {
    let nw = match max_width {
        Some(w) => w,
        None => width,
    };
    let nh = match max_height {
        Some(h) => h,
        None => height,
    };
    if width == 0 || height == 0 || (nw == width && nh == height) {
        (width, height, data)
    } else {
        catmull_rom_fit(data, width, height, nw, nh)
    }
}

/// Fitting an image into a box with neither bound set leaves its size and
/// pixels as they are.
pub proof fn lemma_resize_unbounded_keeps_image(width: u32, height: u32, data: Seq<u8>)
    ensures
        resized(width, height, data, None, None) == (width, height, data),
{
}

impl Image {
    pub closed spec fn spec_width(&self) -> u32 {
        self.width
    }

    pub closed spec fn spec_height(&self) -> u32 {
        self.height
    }

    pub closed spec fn spec_data(&self) -> Seq<u8> {
        self.data@
    }

    /// Four bytes for each of the width times height pixels.
    pub open spec fn wf(&self) -> bool {
        self.spec_data().len() == 4 * self.spec_width() * self.spec_height()
    }

    pub open spec fn pixel(&self, x: int, y: int) -> Rgba {
        pixel_of(self.spec_data(), self.spec_width() as int, x, y)
    }

    /// An image of the given size over row-major RGBA bytes; `None` when the
    /// byte count is not four times the number of pixels.
    pub fn from_raw(width: u32, height: u32, data: Vec<u8>) -> (r: Option<Image>)
        ensures
            r is Some <==> data@.len() == 4 * width * height,
            r matches Some(img) ==> img.wf() && img.spec_width() == width
                && img.spec_height() == height && img.spec_data() == data@,
    {
        proof {
            assert(4 * (width as int) * (height as int) <= 4 * 0xffff_ffff * 0xffff_ffff) by (nonlinear_arith)
                requires width <= 0xffff_ffff, height <= 0xffff_ffff;
        }
        if data.len() as u128 == 4 * (width as u128) * (height as u128) {
            Some(Image { width, height, data })
        } else {
            None
        }
    }

    pub fn width(&self) -> (r: u32)
        ensures
            r == self.spec_width(),
    {
        self.width
    }

    pub fn height(&self) -> (r: u32)
        ensures
            r == self.spec_height(),
    {
        self.height
    }

    pub fn get_pixel(&self, x: u32, y: u32) -> (p: Rgba)
        requires
            self.wf(),
            x < self.spec_width(),
            y < self.spec_height(),
        ensures
            p == self.pixel(x as int, y as int),
    {
        let (w, h) = (self.width as usize, self.height as usize);
        let len = self.data.len();
        proof {
            let (xi, yi, wi, hi) = (x as int, y as int, w as int, h as int);
            assert(yi * wi + xi < wi * hi) by (nonlinear_arith)
                requires xi < wi, yi < hi, 0 <= xi, 0 <= yi;
            assert(self.data@.len() == 4 * (wi * hi)) by (nonlinear_arith)
                requires self.data@.len() == 4 * wi * hi;
            assert(4 * (yi * wi + xi) + 3 < self.data@.len());
        }
        let i: usize = 4 * (y as usize * w + x as usize);
        Rgba { r: self.data[i], g: self.data[i + 1], b: self.data[i + 2], a: self.data[i + 3] }
    }

    /// Scales the image with a Catmull-Rom filter to the largest size that
    /// fits the box, keeping its aspect ratio; an absent bound stands for the
    /// image's own size on that side.
    pub fn resize(self, max_width: Option<u32>, max_height: Option<u32>) -> (r: Image)
        requires
            self.wf(),
        ensures
            r.wf(),
            (r.spec_width(), r.spec_height(), r.spec_data())
                == resized(self.spec_width(), self.spec_height(), self.spec_data(), max_width, max_height),
    {
        if self.width == 0 || self.height == 0 {
            return self;
        }
        let nw = match max_width {
            Some(w) => w,
            None => self.width,
        };
        let nh = match max_height {
            Some(h) => h,
            None => self.height,
        };
        let (width, height, data) = resize_catmull_rom(self.width, self.height, self.data, nw, nh);
        Image { width, height, data }
    }
}

} // verus!
