//! Texture images: decoding from PNG, and texel lookup with wraparound
//! addressing, so that texture coordinates outside `[0, 1)` repeat the image.
use vstd::prelude::*;
use vstd::arithmetic::div_mod::{lemma_fundamental_div_mod, lemma_fundamental_div_mod_converse};

verus! {

/// png's `DecodingError`, carried opaquely from the decoder to the point
/// where it becomes `TextureError::Decode`.
#[verifier::external_type_specification]
#[verifier::external_body]
pub struct ExDecodingError(png::DecodingError);

/// The first frame of a PNG image as the decoder hands it out, before any
/// interpretation: `color_type` and `bit_depth` are the codes of the PNG
/// format (2 is RGB, 6 is RGBA; 8 bits per sample), and `data` holds
/// `height` rows of `line_size` bytes each.
pub struct PngFrame {
    pub width: u32,
    pub height: u32,
    pub color_type: u8,
    pub bit_depth: u8,
    pub line_size: usize,
    pub data: Vec<u8>,
}

impl PngFrame {
    pub open spec fn parts(&self) -> (u32, u32, u8, u8, usize, Seq<u8>) {
        (self.width, self.height, self.color_type, self.bit_depth, self.line_size, self.data@)
    }
}

/// What the png crate's decoder makes of the file `bytes`: the first frame
/// (width, height, color type, bit depth, row length, samples), or `None`
/// where the decoder refuses the file.
pub uninterp spec fn png_first_frame(bytes: Seq<u8>) -> Option<(u32, u32, u8, u8, usize, Seq<u8>)>;

/// Relies on png's `Decoder::read_info` and `Reader::next_frame`: decoding
/// without transformations, the first frame is a function of the bytes.
#[verifier::external_body]
fn decode_first_frame(bytes: &[u8]) -> (r: Result<PngFrame, png::DecodingError>)
    ensures
        r is Ok <==> png_first_frame(bytes@) is Some,
        r is Ok ==> r->Ok_0.parts() == png_first_frame(bytes@)->Some_0,
{
    let mut reader = png::Decoder::new(bytes).read_info()?;
    let mut data = vec![0; reader.output_buffer_size()];
    let info = reader.next_frame(&mut data)?;
    let (width, height, line_size) = (info.width, info.height, info.line_size);
    Ok(PngFrame { width, height, color_type: info.color_type as u8, bit_depth: info.bit_depth as u8, line_size, data })
}

/// Why an image cannot serve as a texture.
#[derive(Clone, Copy, Debug, PartialEq, Eq, Structural)]
pub enum TextureError {
    /// The PNG decoder refused the file.
    Decode,
    /// Samples that are not 8-bit RGB or RGBA.
    UnsupportedFormat,
    /// No pixels.
    Empty,
    /// Rows shorter than the width asks for, or fewer bytes than the rows.
    Truncated,
}

/// An image of `width` by `height` texels, row by row from the top. Texel
/// `(x, y)` starts at byte `y * row_bytes + x * channels` of `samples` and
/// its first three bytes are red, green and blue.
pub struct Texture {
    width: usize,
    height: usize,
    channels: usize,
    row_bytes: usize,
    samples: Vec<u8>,
}

/// Whether the layout fits: a texel per column of each row, every row in
/// the samples.
pub open spec fn layout_ok(width: int, height: int, channels: int, row_bytes: int, len: int) -> bool {
    &&& width >= 1
    &&& height >= 1
    &&& channels == 3 || channels == 4
    &&& row_bytes >= width * channels
    &&& len >= row_bytes * height
}

/// The texture that a frame gives, or why it gives none.
pub open spec fn frame_texture(f: (u32, u32, u8, u8, usize, Seq<u8>)) -> Result<(nat, nat, nat, nat, Seq<u8>), TextureError> {
    let (width, height, color_type, bit_depth, line_size, data) = f;
    if bit_depth != 8 || (color_type != 2 && color_type != 6) {
        Err(TextureError::UnsupportedFormat)
    } else if width == 0 || height == 0 {
        Err(TextureError::Empty)
    } else {
        let channels: nat = if color_type == 2 { 3 } else { 4 };
        if layout_ok(width as int, height as int, channels as int, line_size as int, data.len() as int) {
            Ok((width as nat, height as nat, channels, line_size as nat, data))
        } else {
            Err(TextureError::Truncated)
        }
    }
}

impl Texture {
    /// Width, height, bytes per texel, bytes per row, samples.
    pub closed spec fn view(&self) -> (nat, nat, nat, nat, Seq<u8>) {
        (self.width as nat, self.height as nat, self.channels as nat, self.row_bytes as nat, self.samples@)
    }

    pub open spec fn wf(&self) -> bool {
        let (width, height, channels, row_bytes, samples) = self.view();
        layout_ok(width as int, height as int, channels as int, row_bytes as int, samples.len() as int)
    }

    pub fn width(&self) -> (r: usize)
        ensures
            r == self.view().0,
    {
        self.width
    }

    pub fn height(&self) -> (r: usize)
        ensures
            r == self.view().1,
    {
        self.height
    }

    /// A texture over a decoded frame: 8-bit RGB or RGBA samples, at least
    /// one texel, and rows that hold what the width asks for.
    pub fn from_frame(frame: PngFrame) -> (r: Result<Texture, TextureError>)
        ensures
            r is Ok ==> r->Ok_0.wf(),
            frame_texture(frame.parts()) is Ok <==> r is Ok,
            r is Ok ==> r->Ok_0.view() == frame_texture(frame.parts())->Ok_0,
            r is Err ==> frame_texture(frame.parts()) == Err::<(nat, nat, nat, nat, Seq<u8>), TextureError>(r->Err_0),
    {
        if frame.bit_depth != 8 || (frame.color_type != 2 && frame.color_type != 6) {
            return Err(TextureError::UnsupportedFormat);
        }
        if frame.width == 0 || frame.height == 0 {
            return Err(TextureError::Empty);
        }
        let channels: usize = if frame.color_type == 2 { 3 } else { 4 };
        let width = frame.width;
        assert(width as int * channels as int <= 0xffff_ffff * 4) by (nonlinear_arith)
            requires
                0 <= width <= 0xffff_ffff,
                0 <= channels <= 4,
        ;
        let row_need: u128 = frame.width as u128 * channels as u128;
        let line_size = frame.line_size;
        let height = frame.height;
        assert(line_size as int * height as int <= 0xffff_ffff_ffff_ffff * 0xffff_ffff) by (nonlinear_arith)
            requires
                0 <= line_size <= 0xffff_ffff_ffff_ffff,
                0 <= height <= 0xffff_ffff,
        ;
        let total_need: u128 = frame.line_size as u128 * frame.height as u128;
        if (frame.line_size as u128) < row_need || (frame.data.len() as u128) < total_need {
            return Err(TextureError::Truncated);
        }
        Ok(Texture {
            width: frame.width as usize,
            height: frame.height as usize,
            channels,
            row_bytes: frame.line_size,
            samples: frame.data,
        })
    }

    /// Decodes the PNG file `bytes` into a texture.
    pub fn from_png(bytes: &[u8]) -> (r: Result<Texture, TextureError>)
        ensures
            r is Ok ==> r->Ok_0.wf(),
            png_first_frame(bytes@) is None ==> r == Err::<Texture, TextureError>(TextureError::Decode),
            png_first_frame(bytes@) is Some ==> (frame_texture(png_first_frame(bytes@)->Some_0) is Ok <==> r is Ok),
            r is Ok ==> r->Ok_0.view() == frame_texture(png_first_frame(bytes@)->Some_0)->Ok_0,
            png_first_frame(bytes@) is Some && r is Err ==> frame_texture(png_first_frame(bytes@)->Some_0)
                == Err::<(nat, nat, nat, nat, Seq<u8>), TextureError>(r->Err_0),
    {
        match decode_first_frame(bytes) {
            Ok(frame) => Texture::from_frame(frame),
            Err(_) => Err(TextureError::Decode),
        }
    }
}

/// The first three bytes of texel `(x, y)` of a texture with view `t`.
pub open spec fn texel_at(t: (nat, nat, nat, nat, Seq<u8>), x: int, y: int) -> (u8, u8, u8) {
    let (width, height, channels, row_bytes, samples) = t;
    let base = y * row_bytes + x * channels;
    (samples[base], samples[base + 1], samples[base + 2])
}

/// `c` reduced into `0..n`, repeating every `n`: the Euclidean remainder.
pub fn wrap_coordinate(c: i64, n: usize) -> (r: usize)
    requires
        n > 0,
    ensures
        r as int == c as int % n as int,
        r < n,
{
    let m = n as u64;
    if c >= 0 {
        let r = (c as u64) % m;
        r as usize
    } else {
        let k = (-(c + 1)) as u64;
        let r = m - 1 - k % m;
        proof {
            let q = k as int / m as int;
            lemma_fundamental_div_mod(k as int, m as int);
            assert(c as int == (-q - 1) * m as int + r as int) by (nonlinear_arith)
                requires
                    k as int == m as int * q + k as int % m as int,
                    r as int == m as int - 1 - k as int % m as int,
                    c as int == -(k as int) - 1,
            ;
            lemma_fundamental_div_mod_converse(c as int, m as int, -q - 1, r as int);
        }
        r as usize
    }
}

proof fn lemma_texel_in_bounds(x: int, y: int, width: int, height: int, channels: int, row_bytes: int, len: int)
    requires
        layout_ok(width, height, channels, row_bytes, len),
        0 <= x < width,
        0 <= y < height,
    ensures
        0 <= y * row_bytes,
        0 <= x * channels,
        y * row_bytes + x * channels + 3 <= len,
{
    assert(0 <= x * channels) by (nonlinear_arith)
        requires
            0 <= x,
            0 <= channels,
    ;
    assert(0 <= y * row_bytes) by (nonlinear_arith)
        requires
            0 <= y,
            0 <= row_bytes,
    ;
    assert(x * channels + channels <= row_bytes) by (nonlinear_arith)
        requires
            x + 1 <= width,
            0 <= channels,
            width * channels <= row_bytes,
    ;
    assert(y * row_bytes + row_bytes <= len) by (nonlinear_arith)
        requires
            y + 1 <= height,
            0 <= row_bytes,
            row_bytes * height <= len,
    ;
}

impl Texture {
    /// A texture over tightly packed 8-bit RGB rows, `width * 3` bytes each;
    /// `None` when there is no texel or `samples` is shorter than the rows.
    pub fn from_rgb(width: usize, height: usize, samples: Vec<u8>) -> (r: Option<Texture>)
        ensures
            r is Some <==> layout_ok(width as int, height as int, 3, width * 3, samples@.len() as int),
            r is Some ==> r->Some_0.wf() && r->Some_0.view() == (width as nat, height as nat, 3nat, (width * 3) as nat, samples@),
    {
        let row: u128 = width as u128 * 3;
        let len = samples.len();
        if width == 0 || height == 0 || row > len as u128 {
            proof {
                if width > 0 && height > 0 {
                    assert(width * 3 <= (width * 3) * height) by (nonlinear_arith)
                        requires
                            height >= 1,
                            width >= 1,
                    ;
                }
            }
            return None;
        }
        assert(row * height <= 0xffff_ffff_ffff_ffff * 0xffff_ffff_ffff_ffff) by (nonlinear_arith)
            requires
                0 <= row <= 0xffff_ffff_ffff_ffff,
                0 <= height <= 0xffff_ffff_ffff_ffff,
        ;
        if row * (height as u128) > len as u128 {
            return None;
        }
        assert(row <= row * height) by (nonlinear_arith)
            requires
                height >= 1,
                row >= 0,
        ;
        Some(Texture { width, height, channels: 3, row_bytes: (width * 3) as usize, samples })
    }

    /// Texel `(x, y)`, both coordinates wrapped around into the image, as
    /// red, green and blue.
    pub fn texel(&self, x: i64, y: i64) -> (r: (u8, u8, u8))
        requires
            self.wf(),
        ensures
            r == texel_at(self.view(), x as int % self.view().0 as int, y as int % self.view().1 as int),
    {
        let i = wrap_coordinate(x, self.width);
        let j = wrap_coordinate(y, self.height);
        let len = self.samples.len();
        proof {
            lemma_texel_in_bounds(i as int, j as int, self.width as int, self.height as int,
                self.channels as int, self.row_bytes as int, len as int);
        }
        let base = j * self.row_bytes + i * self.channels;
        (self.samples[base], self.samples[base + 1], self.samples[base + 2])
    }
}

} // verus!
