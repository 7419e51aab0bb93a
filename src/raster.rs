//! The rendered image: 8-bit RGB pixels collected row by row from the top,
//! and its encoding as a PNG file.
use vstd::prelude::*;
use vstd::arithmetic::div_mod::lemma_fundamental_div_mod;

verus! {

/// png's `EncodingError`, carried opaquely from the encoder to the point
/// where it becomes `RasterError::Encode`.
#[verifier::external_type_specification]
#[verifier::external_body]
pub struct ExEncodingError(png::EncodingError);

/// What the png crate's encoder writes for an 8-bit RGB image of `width` by
/// `height` pixels `rgb`, tagged with the source chromaticities
/// `chromaticities` (white, red, green, blue; x then y, scaled by 100000).
pub uninterp spec fn png_encoding(width: u32, height: u32, chromaticities: Seq<u32>, rgb: Seq<u8>) -> Seq<u8>;

/// Relies on png's `Encoder` and `Writer::write_image_data`: writing into
/// memory, the file is a function of the header fields and the samples, and
/// an 8-bit RGB image with non-zero sides and one sample triple per pixel is
/// always accepted.
#[verifier::external_body]
fn encode_rgb8(width: u32, height: u32, chromaticities: &[u32; 8], rgb: &[u8]) -> (r: Result<Vec<u8>, png::EncodingError>)
    requires
        rgb@.len() == 3 * width * height,
    ensures
        r is Ok ==> r->Ok_0@ == png_encoding(width, height, chromaticities@, rgb@),
        width > 0 && height > 0 ==> r is Ok,
{
    let mut out = Vec::new();
    let mut encoder = png::Encoder::new(&mut out, width, height);
    encoder.set_color(png::ColorType::Rgb);
    encoder.set_depth(png::BitDepth::Eight);
    let [w1, w2, r1, r2, g1, g2, b1, b2] = chromaticities.map(png::ScaledFloat::from_scaled);
    encoder.set_source_chromaticities(png::SourceChromaticities { white: (w1, w2), red: (r1, r2), green: (g1, g2), blue: (b1, b2) });
    let mut writer = encoder.write_header()?;
    writer.write_image_data(rgb)?;
    writer.finish()?;
    Ok(out)
}

/// The chromaticities of the sRGB primaries and D65 white point, scaled by
/// 100000: white, red, green, blue, each x then y.
pub open spec fn srgb_chromaticities() -> Seq<u32> {
    seq![31270u32, 32900, 64000, 33000, 30000, 60000, 15000, 6000]
}

fn srgb_chromaticity_table() -> (r: [u32; 8])
    ensures
        r@ == srgb_chromaticities(),
{
    let r = [31270u32, 32900, 64000, 33000, 30000, 60000, 15000, 6000];
    assert(r@ =~= srgb_chromaticities());
    r
}

/// Why a raster could not be encoded.
#[derive(Clone, Copy, Debug, PartialEq, Eq, Structural)]
pub enum RasterError {
    /// Not every pixel has been written.
    Incomplete,
    /// A side of length zero: a PNG file has at least one pixel.
    Empty,
    /// A side longer than a PNG file can state.
    TooLarge,
    /// The PNG encoder refused the image.
    Encode,
}

/// A `width` by `height` image being filled pixel by pixel, row by row from
/// the top, each pixel as red, green and blue bytes.
pub struct Raster {
    width: usize,
    height: usize,
    rgb: Vec<u8>,
}

impl Raster {
    /// Width, height and the samples written so far.
    pub closed spec fn view(&self) -> (nat, nat, Seq<u8>) {
        (self.width as nat, self.height as nat, self.rgb@)
    }

    pub open spec fn wf(&self) -> bool {
        let (width, height, rgb) = self.view();
        rgb.len() % 3 == 0 && rgb.len() <= width * height * 3
    }

    /// Whether every pixel has been written.
    pub open spec fn complete(&self) -> bool {
        let (width, height, rgb) = self.view();
        rgb.len() == width * height * 3
    }

    /// An empty raster of the given size.
    pub fn new(width: usize, height: usize) -> (r: Raster)
        ensures
            r.wf(),
            r.view() == (width as nat, height as nat, Seq::<u8>::empty()),
    {
        Raster { width, height, rgb: Vec::new() }
    }

    /// Appends the next pixel.
    pub fn push_pixel(&mut self, red: u8, green: u8, blue: u8)
        requires
            old(self).wf(),
            !old(self).complete(),
        ensures
            final(self).wf(),
            final(self).view() == (old(self).view().0, old(self).view().1, old(self).view().2.push(red).push(green).push(blue)),
    {
        self.rgb.push(red);
        self.rgb.push(green);
        self.rgb.push(blue);
    }

    /// Whether every pixel has been written.
    pub fn is_complete(&self) -> (r: bool)
        requires
            self.wf(),
        ensures
            r == self.complete(),
    {
        let len = self.rgb.len();
        assert(self.width as int * self.height as int <= 0xffff_ffff_ffff_ffff * 0xffff_ffff_ffff_ffff) by (nonlinear_arith)
            requires
                0 <= self.width <= 0xffff_ffff_ffff_ffff,
                0 <= self.height <= 0xffff_ffff_ffff_ffff,
        ;
        (len / 3) as u128 == self.width as u128 * self.height as u128
    }

    /// Camera pixel coordinates of the next pixel to write: pixels are
    /// written row by row from the top, and row `j` counts up from the
    /// bottom, so the `k`-th pixel is column `k % width` of row
    /// `height - 1 - k / width`.
    pub open spec fn next_pixel_spec(&self) -> Option<(nat, nat)> {
        let (width, height, rgb) = self.view();
        let k = rgb.len() / 3;
        if k >= width * height {
            None
        } else {
            Some(((k % width) as nat, (height - 1 - k / width) as nat))
        }
    }

    /// Where the next pixel goes (see `next_pixel_spec`); `None` once the
    /// raster is complete.
    pub fn next_pixel(&self) -> (r: Option<(usize, usize)>)
        requires
            self.wf(),
        ensures
            r is None <==> self.complete(),
            r is Some ==> self.next_pixel_spec() == Some((r->Some_0.0 as nat, r->Some_0.1 as nat)),
    {
        if self.is_complete() {
            return None;
        }
        let k = self.rgb.len() / 3;
        let w = self.width;
        let h = self.height;
        proof {
            assert(k < w * h) by (nonlinear_arith)
                requires
                    3 * k == self.rgb@.len(),
                    self.rgb@.len() < w * h * 3,
            ;
            assert(w > 0) by (nonlinear_arith)
                requires
                    0 <= k < w * h,
                    w >= 0,
                    h >= 0,
            ;
            lemma_fundamental_div_mod(k as int, w as int);
            assert(k / w < h) by (nonlinear_arith)
                requires
                    k < w * h,
                    w > 0,
                    k == w * (k / w) + k % w,
                    k % w >= 0,
            ;
        }
        Some((k % w, h - 1 - k / w))
    }

    /// The samples written so far.
    pub fn samples(&self) -> (r: &Vec<u8>)
        ensures
            r@ == self.view().2,
    {
        &self.rgb
    }

    /// The image as a PNG file: 8-bit RGB, tagged with the sRGB
    /// chromaticities.
    pub fn to_png(&self) -> (r: Result<Vec<u8>, RasterError>)
        requires
            self.wf(),
        ensures
            !self.complete() ==> r == Err::<Vec<u8>, RasterError>(RasterError::Incomplete),
            self.complete() && (self.view().0 == 0 || self.view().1 == 0) ==> r == Err::<Vec<u8>, RasterError>(
                RasterError::Empty,
            ),
            self.complete() && self.view().0 > 0 && self.view().1 > 0 && (self.view().0 > u32::MAX
                || self.view().1 > u32::MAX) ==> r == Err::<Vec<u8>, RasterError>(RasterError::TooLarge),
            self.complete() && 0 < self.view().0 <= u32::MAX && 0 < self.view().1 <= u32::MAX ==> r is Ok
                && r->Ok_0@ == png_encoding(
                self.view().0 as u32,
                self.view().1 as u32,
                srgb_chromaticities(),
                self.view().2,
            ),
    {
        if !self.is_complete() {
            return Err(RasterError::Incomplete);
        }
        if self.width == 0 || self.height == 0 {
            return Err(RasterError::Empty);
        }
        if self.width > u32::MAX as usize || self.height > u32::MAX as usize {
            return Err(RasterError::TooLarge);
        }
        let table = srgb_chromaticity_table();
        assert(self.rgb@.len() == 3 * (self.width as u32) * (self.height as u32)) by (nonlinear_arith)
            requires
                self.rgb@.len() == self.width * self.height * 3,
                self.width <= u32::MAX,
                self.height <= u32::MAX,
        ;
        match encode_rgb8(self.width as u32, self.height as u32, &table, self.rgb.as_slice()) {
            Ok(bytes) => Ok(bytes),
            Err(_) => Err(RasterError::Encode),
        }
    }
}

} // verus!
