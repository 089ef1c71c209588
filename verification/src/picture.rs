use vstd::prelude::*;
use bitvec::order::Msb0;
use bitvec::vec::BitVec;
use image::{DynamicImage, GenericImageView, GrayImage, ImageBuffer, Rgb, RgbaImage};
use crate::error::LabelError;

verus! {

/// Whether dot `k` (0 is the most significant bit) of `byte` is printed.
pub open spec fn dot_at(byte: u8, k: int) -> bool {
    (byte >> ((7 - k) as u8)) & 1u8 == 1u8
}

/// Bit `i` of a byte string in most-significant-bit-first order.
pub open spec fn bit_of(bytes: Seq<u8>, i: int) -> bool {
    dot_at(bytes[i / 8], i % 8)
}

/// Packs `bits` with `bitvec` (`BitVec<u8, Msb0>` collected from the bits,
/// then `set_uninitialized(false)` and `into_vec`). Claimed of bitvec: the
/// result has one byte per started group of eight bits, bit `i` lands in
/// byte `i / 8` at position `i % 8` counted from the most significant bit,
/// and the unused bits of the last byte are zero.
#[verifier::external_body]
fn pack_bits(bits: &Vec<bool>) -> (packed: Vec<u8>)
    ensures
        packed@.len() == (bits@.len() + 7) / 8,
        forall|i: int| 0 <= i < bits@.len() ==> #[trigger] bit_of(packed@, i) == bits@[i],
        forall|i: int| bits@.len() <= i < 8 * packed@.len() ==> !#[trigger] bit_of(packed@, i),
{
    let mut bv: BitVec<u8, Msb0> = bits.iter().copied().collect();
    bv.set_uninitialized(false);
    bv.into_vec()
}

/// A grey picture, one luma byte per pixel, row after row.
pub struct LumaImage {
    pub width: u32,
    pub height: u32,
    pub pixels: Vec<u8>,
}

impl LumaImage {
    /// The pixel buffer holds exactly `width * height` pixels.
    pub open spec fn wf(&self) -> bool {
        self.pixels@.len() == self.width as int * self.height as int
    }

    /// The luma value at column `x` of row `y`.
    pub open spec fn luma(&self, x: int, y: int) -> u8 {
        self.pixels@[y * self.width + x]
    }
}

/// A pixel is white when its luma is at the maximum.
pub open spec fn is_white(luma: u8) -> bool {
    luma == 0xFFu8
}

/// `row` prints row `y` of `image`: dot `8 * j + k` of the line is set
/// exactly when that column exists and its pixel is not white.
pub open spec fn prints_row(image: LumaImage, y: int, row: Seq<u8>) -> bool {
    &&& row.len() == 8
    &&& forall|j: int, k: int|
        0 <= j < 8 && 0 <= k < 8 ==> #[trigger] dot_at(row[j], k) == (8 * j + k < image.width
            && !is_white(image.luma(8 * j + k, y)))
}

/// An image that can be printed on a Dymo label printer: one entry of eight
/// bytes (64 dots, the most significant bit first) per printed line.
pub struct PrintableImage {
    pub data: Vec<[u8; 8]>,
}

proof fn lemma_row_index(y: int, x: int, w: int, h: int)
    requires
        0 <= y < h,
        0 <= x < w,
    ensures
        0 <= y * w + x < w * h,
        y * w + w <= w * h,
{
    assert(y * w + x < w * h) by (nonlinear_arith)
        requires
            0 <= y < h,
            0 <= x < w,
    ;
    assert(y * w + w <= w * h) by (nonlinear_arith)
        requires
            0 <= y < h,
            0 <= w,
    ;
    assert(0 <= y * w) by (nonlinear_arith)
        requires
            0 <= y,
            0 <= w,
    ;
}

/// Turns row `y` of `image` into the eight bytes of one printed line.
fn row_to_bitvec(image: &LumaImage, y: usize) -> (row: [u8; 8])
    requires
        image.wf(),
        y < image.height,
        image.width >= 57,
    ensures
        prints_row(*image, y as int, row@),
{
    let w = image.width as usize;
    let n = image.pixels.len();
    proof {
        lemma_row_index(y as int, 0, w as int, image.height as int);
        assert(image.pixels@.len() == (w as int) * (image.height as int));
        assert((y as int) * (w as int) + (w as int) <= image.pixels@.len());
    }
    let start: usize = y * w;
    let mut bits: Vec<bool> = Vec::new();
    let mut x: usize = 0;
    while x < w
        invariant
            w == image.width,
            image.wf(),
            y < image.height,
            start == y * w,
            start + w <= n,
            n == image.pixels@.len(),
            0 <= x <= w,
            bits@.len() == x,
            forall|i: int| 0 <= i < x ==> bits@[i] == !is_white(image.luma(i, y as int)),
        decreases w - x,
    {
        let dark = image.pixels[start + x] != 0xFFu8;
        bits.push(dark);
        x = x + 1;
    }
    let packed = pack_bits(&bits);
    let row: [u8; 8] = [
        packed[0],
        packed[1],
        packed[2],
        packed[3],
        packed[4],
        packed[5],
        packed[6],
        packed[7],
    ];
    proof {
        assert forall|j: int, k: int| 0 <= j < 8 && 0 <= k < 8 implies #[trigger] dot_at(row@[j], k)
            == (8 * j + k < image.width && !is_white(image.luma(8 * j + k, y as int))) by {
            let i = 8 * j + k;
            assert(i / 8 == j && i % 8 == k);
            assert(row@[j] == packed@[j]);
            assert(bit_of(packed@, i) == dot_at(packed@[j], k));
        }
    }
    row
}

/// The character that shows a dot in a preview: a full block when printed, a space when not.
pub open spec fn dot_char(printed: bool) -> char {
    if printed {
        '\u{2588}'
    } else {
        ' '
    }
}

/// The preview of one byte: eight characters, the most significant bit first.
pub open spec fn byte_preview(byte: u8) -> Seq<char> {
    Seq::new(8, |k: int| dot_char(dot_at(byte, k)))
}

/// The preview of the bytes of one line, without the line break.
pub open spec fn bytes_preview(bytes: Seq<u8>) -> Seq<char>
    decreases bytes.len(),
{
    if bytes.len() == 0 {
        Seq::empty()
    } else {
        bytes_preview(bytes.drop_last()) + byte_preview(bytes.last())
    }
}

/// The preview of all lines, each one followed by a line break.
pub open spec fn preview_text(rows: Seq<[u8; 8]>) -> Seq<char>
    decreases rows.len(),
{
    if rows.len() == 0 {
        Seq::empty()
    } else {
        preview_text(rows.drop_last()) + bytes_preview(rows.last()@) + seq!['\n']
    }
}

/// Appends `c` to `s` with `String::push`.
#[verifier::external_body]
pub(crate) fn push_char(s: &mut String, c: char)
    ensures
        final(s)@ == old(s)@.push(c),
{
    s.push(c);
}

impl PrintableImage {
    /// Draws the image as text: a full block for each printed dot, a space
    /// for each blank one, and a line break after every line.
    pub fn preview(&self) -> (output: String)
        ensures
            output@ == preview_text(self.data@),
    {
        let mut output = String::new();
        let mut r: usize = 0;
        while r < self.data.len()
            invariant
                0 <= r <= self.data@.len(),
                output@ == preview_text(self.data@.take(r as int)),
            decreases self.data@.len() - r,
        {
            let row = self.data[r];
            let ghost line_start = output@;
            let mut j: usize = 0;
            while j < 8
                invariant
                    0 <= j <= 8,
                    output@ == line_start + bytes_preview(row@.take(j as int)),
                decreases 8 - j,
            {
                let byte = row[j];
                let ghost byte_start = output@;
                let mut k: u8 = 0;
                while k < 8
                    invariant
                        0 <= k <= 8,
                        output@ == byte_start + byte_preview(byte).take(k as int),
                    decreases 8 - k,
                {
                    let printed = (byte >> (7 - k)) & 1u8 == 1u8;
                    if printed {
                        push_char(&mut output, '\u{2588}');
                    } else {
                        push_char(&mut output, ' ');
                    }
                    proof {
                        assert(byte_preview(byte).take(k + 1) =~= byte_preview(byte).take(
                            k as int,
                        ).push(dot_char(dot_at(byte, k as int))));
                    }
                    k = k + 1;
                }
                proof {
                    assert(byte_preview(byte).take(8) =~= byte_preview(byte));
                    assert(row@.take(j + 1).drop_last() =~= row@.take(j as int));
                }
                j = j + 1;
            }
            push_char(&mut output, '\n');
            proof {
                assert(row@.take(8) =~= row@);
                assert(self.data@.take(r + 1).drop_last() =~= self.data@.take(r as int));
            }
            r = r + 1;
        }
        proof {
            assert(self.data@.take(r as int) =~= self.data@);
        }
        output
    }

    /// Packs every row of a grey picture into a printed line; a pixel is
    /// printed unless it is white. Only the first 64 columns are kept.
    pub fn printable_from_grey(image: &LumaImage) -> (res: Result<Self, LabelError>)
        requires
            image.wf(),
            image.height == 0 || image.width >= 57,
        ensures
            res matches Ok(p) && p.data@.len() == image.height && forall|y: int|
                0 <= y < image.height ==> prints_row(*image, y, #[trigger] p.data@[y]@),
    {
        let mut rows: Vec<[u8; 8]> = Vec::new();
        let mut y: usize = 0;
        while y < image.height as usize
            invariant
                image.wf(),
                image.height == 0 || image.width >= 57,
                0 <= y <= image.height,
                rows@.len() == y,
                forall|i: int| 0 <= i < y ==> prints_row(*image, i, #[trigger] rows@[i]@),
            decreases image.height - y,
        {
            let row = row_to_bitvec(image, y);
            rows.push(row);
            y = y + 1;
        }
        Ok(PrintableImage { data: rows })
    }
}


/// The samples of a decoded picture, row after row: one luma byte per pixel,
/// four bytes (red, green, blue, alpha) per pixel, or three 16-bit values
/// (red, green, blue) per pixel.
pub enum Pixels {
    Luma(Vec<u8>),
    Rgba(Vec<u8>),
    Rgb16(Vec<u16>),
}

/// The samples of a picture as mathematical sequences.
pub enum PixelsView {
    Luma(Seq<u8>),
    Rgba(Seq<u8>),
    Rgb16(Seq<u16>),
}

impl View for Pixels {
    type V = PixelsView;

    open spec fn view(&self) -> PixelsView {
        match self {
            Pixels::Luma(v) => PixelsView::Luma(v@),
            Pixels::Rgba(v) => PixelsView::Rgba(v@),
            Pixels::Rgb16(v) => PixelsView::Rgb16(v@),
        }
    }
}

impl PixelsView {
    /// The number of samples per pixel.
    pub open spec fn channels(self) -> int {
        match self {
            PixelsView::Luma(_) => 1,
            PixelsView::Rgba(_) => 4,
            PixelsView::Rgb16(_) => 3,
        }
    }

    /// The number of samples.
    pub open spec fn len(self) -> int {
        match self {
            PixelsView::Luma(s) => s.len() as int,
            PixelsView::Rgba(s) => s.len() as int,
            PixelsView::Rgb16(s) => s.len() as int,
        }
    }

    /// The samples of a picture of `width` by `height` pixels after a
    /// quarter turn clockwise, in the same layout.
    pub open spec fn rotated(self, width: int, height: int) -> PixelsView {
        match self {
            PixelsView::Luma(s) => PixelsView::Luma(rotated_samples(width, height, 1, s)),
            PixelsView::Rgba(s) => PixelsView::Rgba(rotated_samples(width, height, 4, s)),
            PixelsView::Rgb16(s) => PixelsView::Rgb16(rotated_samples(width, height, 3, s)),
        }
    }
}

/// A decoded picture as the image library delivered it.
pub struct SourceImage {
    pub width: u32,
    pub height: u32,
    /// Whether the picture's colour type carries an alpha channel.
    pub has_alpha: bool,
    pub pixels: Pixels,
}

impl SourceImage {
    /// The sample buffer holds exactly `width * height` pixels.
    pub open spec fn wf(&self) -> bool {
        self.pixels@.len() == self.width as int * self.height as int * self.pixels@.channels()
    }
}

/// The samples of a picture of `width` by `height` pixels after a quarter
/// turn clockwise: pixel (x, y) of the turned picture, which is `height`
/// wide, is pixel (y, height - 1 - x) of the original.
pub open spec fn rotated_samples<T>(width: int, height: int, channels: int, s: Seq<T>) -> Seq<T> {
    Seq::new(
        s.len(),
        |i: int|
            {
                let p = i / channels;
                let c = i % channels;
                let x = p % height;
                let y = p / height;
                s[((height - 1 - x) * width + y) * channels + c]
            },
    )
}

/// Turns `image` a quarter turn clockwise with `image::imageops::rotate90`
/// on an `ImageBuffer` built from the samples. Claimed of the image crate:
/// width and height trade places, the colour layout is kept, and each pixel
/// moves as `rotated_samples` says (as `rotate90_in` places pixel (x, y) at
/// (height - 1 - y, x)).
#[verifier::external_body]
fn rotate90(image: &SourceImage) -> (rotated: SourceImage)
    requires
        image.wf(),
    ensures
        rotated.width == image.height,
        rotated.height == image.width,
        rotated.has_alpha == image.has_alpha,
        rotated.pixels@ == image.pixels@.rotated(image.width as int, image.height as int),
{
    let (w, h) = (image.width, image.height);
    let pixels = match &image.pixels {
        Pixels::Luma(v) => Pixels::Luma(image::imageops::rotate90(&GrayImage::from_raw(w, h, v.clone()).unwrap()).into_raw()),
        Pixels::Rgba(v) => Pixels::Rgba(image::imageops::rotate90(&RgbaImage::from_raw(w, h, v.clone()).unwrap()).into_raw()),
        Pixels::Rgb16(v) => Pixels::Rgb16(image::imageops::rotate90(&ImageBuffer::<Rgb<u16>, Vec<u16>>::from_raw(w, h, v.clone()).unwrap()).into_raw()),
    };
    SourceImage { width: h, height: w, has_alpha: image.has_alpha, pixels }
}

/// The luma values that `DynamicImage::grayscale` followed by `into_luma8`
/// gives for a picture with these samples.
pub uninterp spec fn spec_grayscale(width: u32, height: u32, pixels: PixelsView) -> Seq<u8>;

/// Converts a picture to grey with the image crate (`DynamicImage::grayscale`,
/// then `into_luma8`). Claimed of the image crate: the result is named by
/// `spec_grayscale`, holds one value per pixel, and a grey picture comes back
/// unchanged (`grayscale` clones a `Luma8` picture). How colours are weighed
/// is left to the name.
#[verifier::external_body]
fn grayscale(image: &SourceImage) -> (gray: Vec<u8>)
    requires
        image.wf(),
    ensures
        gray@ == spec_grayscale(image.width, image.height, image.pixels@),
        gray@.len() == image.width as int * image.height as int,
        image.pixels@ matches PixelsView::Luma(s) ==> gray@ == s,
{
    let (w, h) = (image.width, image.height);
    let dynamic = match &image.pixels {
        Pixels::Luma(v) => DynamicImage::ImageLuma8(GrayImage::from_raw(w, h, v.clone()).unwrap()),
        Pixels::Rgba(v) => DynamicImage::ImageRgba8(RgbaImage::from_raw(w, h, v.clone()).unwrap()),
        Pixels::Rgb16(v) => DynamicImage::ImageRgb16(ImageBuffer::<Rgb<u16>, Vec<u16>>::from_raw(w, h, v.clone()).unwrap()),
    };
    dynamic.grayscale().into_luma8().into_raw()
}

/// Whether one side of the picture has the printer's width of 64 dots.
pub open spec fn dimensions_ok(image: SourceImage) -> bool {
    image.height == 64 || image.width == 64
}

/// A picture that is 64 pixels high is turned so that it is 64 pixels wide.
pub open spec fn needs_rotation(image: SourceImage) -> bool {
    image.height == 64
}

pub open spec fn upright_width(image: SourceImage) -> u32 {
    if needs_rotation(image) {
        image.height
    } else {
        image.width
    }
}

pub open spec fn upright_height(image: SourceImage) -> u32 {
    if needs_rotation(image) {
        image.width
    } else {
        image.height
    }
}

pub open spec fn upright_pixels(image: SourceImage) -> PixelsView {
    if needs_rotation(image) {
        image.pixels@.rotated(image.width as int, image.height as int)
    } else {
        image.pixels@
    }
}

/// The grey values of the upright picture.
pub open spec fn upright_gray(image: SourceImage) -> Seq<u8> {
    spec_grayscale(upright_width(image), upright_height(image), upright_pixels(image))
}

/// The black-and-white values of the upright picture for a threshold.
pub open spec fn bw_pixels(image: SourceImage, threshold: u8) -> Seq<u8> {
    upright_gray(image).map_values(|l: u8| crate::color_map::bilevel(l, threshold))
}

/// Brings a picture upright: one that is 64 pixels high is turned a quarter
/// turn clockwise, one that is 64 pixels wide is kept, any other is refused;
/// a picture with transparency is refused too.
pub fn prepare_image(image: &SourceImage) -> (res: Result<SourceImage, LabelError>)
    requires
        image.wf(),
    ensures
        match res {
            Ok(p) => {
                &&& dimensions_ok(*image)
                &&& !image.has_alpha
                &&& p.wf()
                &&& p.width == upright_width(*image)
                &&& p.height == upright_height(*image)
                &&& p.has_alpha == image.has_alpha
                &&& p.pixels@ == upright_pixels(*image)
            },
            Err(LabelError::Dimensions { width, height }) => {
                &&& !dimensions_ok(*image)
                &&& width == image.width
                &&& height == image.height
            },
            Err(LabelError::Transparency) => dimensions_ok(*image) && image.has_alpha,
            Err(_) => false,
        },
{
    let pic = if image.height == 64 {
        let rotated = rotate90(image);
        proof {
            assert(rotated.pixels@.channels() == image.pixels@.channels());
            assert(rotated.pixels@.len() == image.pixels@.len());
            assert(rotated.width as int * rotated.height as int == image.width as int
                * image.height as int) by (nonlinear_arith)
                requires
                    rotated.width == image.height,
                    rotated.height == image.width,
            ;
        }
        rotated
    } else if image.width == 64 {
        copy_image(image)
    } else {
        return Err(
            LabelError::Dimensions { width: image.width, height: image.height },
        );
    };
    if pic.has_alpha {
        return Err(LabelError::Transparency);
    }
    Ok(pic)
}

/// A copy of `image`.
fn copy_image(image: &SourceImage) -> (copy: SourceImage)
    ensures
        copy.width == image.width,
        copy.height == image.height,
        copy.has_alpha == image.has_alpha,
        copy.pixels@ == image.pixels@,
{
    let pixels = match &image.pixels {
        Pixels::Luma(v) => Pixels::Luma(copy_vec(v)),
        Pixels::Rgba(v) => Pixels::Rgba(copy_vec(v)),
        Pixels::Rgb16(v) => Pixels::Rgb16(copy_vec(v)),
    };
    SourceImage { width: image.width, height: image.height, has_alpha: image.has_alpha, pixels }
}

/// A copy of a sample buffer.
fn copy_vec<T: Copy>(v: &Vec<T>) -> (copy: Vec<T>)
    ensures
        copy@ == v@,
{
    let mut copy: Vec<T> = Vec::new();
    let mut i: usize = 0;
    while i < v.len()
        invariant
            0 <= i <= v@.len(),
            copy@ == v@.take(i as int),
        decreases v@.len() - i,
    {
        copy.push(v[i]);
        proof {
            assert(v@.take(i + 1) =~= v@.take(i as int).push(v@[i as int]));
        }
        i = i + 1;
    }
    proof {
        assert(v@.take(i as int) =~= v@);
    }
    copy
}

/// Converts a picture into a black-and-white picture for the printer: it is
/// brought upright (see `prepare_image`), turned grey, and every pixel whose
/// luma is above `threshold` becomes white (255), every other one black (0).
pub fn convert_to_bw(image: &SourceImage, threshold: u8) -> (res: Result<LumaImage, LabelError>)
    requires
        image.wf(),
    ensures
        converts_to(*image, threshold, res),
{
    let pic = match prepare_image(image) {
        Ok(p) => p,
        Err(e) => {
            return Err(e);
        },
    };
    let mut gray = grayscale(&pic);
    let colormap = crate::color_map::DynamicBiLevel { threshold };
    let ghost gray0 = gray@;
    let mut i: usize = 0;
    while i < gray.len()
        invariant
            0 <= i <= gray@.len(),
            gray@.len() == gray0.len(),
            colormap.threshold == threshold,
            forall|j: int| 0 <= j < i ==> gray@[j] == crate::color_map::bilevel(gray0[j], threshold),
            forall|j: int| i <= j < gray@.len() ==> gray@[j] == gray0[j],
        decreases gray0.len() - i,
    {
        let mut px = gray[i];
        colormap.map_color(&mut px);
        gray.set(i, px);
        i = i + 1;
    }
    proof {
        assert(gray@ =~= bw_pixels(*image, threshold));
    }
    Ok(LumaImage { width: pic.width, height: pic.height, pixels: gray })
}


/// The library's error for an error of the image crate, given by its message.
fn image_error(message: String) -> (res: LabelError)
    ensures
        res == (LabelError::Image { message }),
{
    LabelError::Image { message }
}

/// What `image::load_from_memory` makes of `data`: where it fails, the text
/// of its error; else the width, height, whether the colour type has alpha,
/// and the samples: grey for an 8-bit or 16-bit grey picture (as `to_luma8`
/// gives them), the 16-bit values of a 16-bit RGB picture, or else RGBA as
/// `to_rgba8` gives them.
pub uninterp spec fn spec_decoded(data: Seq<u8>) -> Result<(u32, u32, bool, PixelsView), Seq<char>>;

/// Decodes a picture file held in memory with `image::load_from_memory`,
/// then takes its dimensions, `color().has_alpha()`, and its samples: an
/// 8-bit grey picture's buffer as it is, a 16-bit grey picture through
/// `to_luma8`, a 16-bit RGB picture's buffer as it is, any other picture
/// through `to_rgba8`;
/// an error is turned into its `Display` text. Claimed of the image crate:
/// the outcome, error text included, is a function of `data` (named by
/// `spec_decoded`), and the buffer holds one pixel per position.
#[verifier::external_body]
fn load_from_memory(data: &[u8]) -> (res: Result<SourceImage, String>)
    ensures
        match res {
            Ok(img) => {
                &&& img.wf()
                &&& spec_decoded(data@) == Ok::<_, Seq<char>>(
                    (img.width, img.height, img.has_alpha, img.pixels@),
                )
            },
            Err(message) => spec_decoded(data@) == Err::<(u32, u32, bool, PixelsView), Seq<char>>(message@),
        },
{
    let img = match image::load_from_memory(data) {
        Ok(img) => img,
        Err(err) => return Err(err.to_string()),
    };
    let (width, height) = img.dimensions();
    let has_alpha = img.color().has_alpha();
    let pixels = match img {
        image::DynamicImage::ImageLuma8(buf) => Pixels::Luma(buf.into_raw()),
        grey16 @ image::DynamicImage::ImageLuma16(_) => Pixels::Luma(grey16.to_luma8().into_raw()),
        image::DynamicImage::ImageRgb16(buf) => Pixels::Rgb16(buf.into_raw()),
        other => Pixels::Rgba(other.to_rgba8().into_raw()),
    };
    Ok(SourceImage { width, height, has_alpha, pixels })
}

/// Whether the decoded picture matches the plain values of `img`.
pub open spec fn decodes_to(data: Seq<u8>, img: SourceImage) -> bool {
    spec_decoded(data) == Ok::<_, Seq<char>>(
        (img.width, img.height, img.has_alpha, img.pixels@),
    )
}

/// Whether `e` is the error that decoding `data` gives, with its message.
pub open spec fn decode_error_is(data: Seq<u8>, e: LabelError) -> bool {
    e matches LabelError::Image { message } && spec_decoded(data) == Err::<
        (u32, u32, bool, PixelsView),
        Seq<char>,
    >(message@)
}

/// Decodes a picture file held in memory.
pub fn decode_image(data: &[u8]) -> (res: Result<SourceImage, LabelError>)
    ensures
        match res {
            Ok(img) => img.wf() && decodes_to(data@, img),
            Err(e) => decode_error_is(data@, e),
        },
{
    match load_from_memory(data) {
        Ok(img) => Ok(img),
        Err(message) => Err(image_error(message)),
    }
}

/// Decodes a picture file held in memory and converts it to black and
/// white for the printer (see `convert_to_bw`).
pub fn convert_memory_bw_image(data: &[u8], threshold: u8) -> (res: Result<LumaImage, LabelError>)
    ensures
        spec_decoded(data@) is Err ==> (res matches Err(e) && decode_error_is(data@, e)),
        spec_decoded(data@) is Ok ==> exists|img: SourceImage|
            #![trigger decodes_to(data@, img)]
            img.wf() && decodes_to(data@, img) && converts_to(img, threshold, res),
{
    let pic = match decode_image(data) {
        Ok(pic) => pic,
        Err(e) => {
            return Err(e);
        },
    };
    let res = convert_to_bw(&pic, threshold);
    proof {
        assert(decodes_to(data@, pic));
    }
    res
}

/// What `convert_to_bw` gives for `image`: the black-and-white upright picture,
/// or the error that names why the picture cannot be printed.
pub open spec fn converts_to(image: SourceImage, threshold: u8, res: Result<LumaImage, LabelError>) -> bool {
    match res {
        Ok(g) => {
            &&& dimensions_ok(image)
            &&& !image.has_alpha
            &&& g.wf()
            &&& g.width == 64
            &&& g.width == upright_width(image)
            &&& g.height == upright_height(image)
            &&& g.pixels@ == bw_pixels(image, threshold)
        },
        Err(LabelError::Dimensions { width, height }) => {
            &&& !dimensions_ok(image)
            &&& width == image.width
            &&& height == image.height
        },
        Err(LabelError::Transparency) => dimensions_ok(image) && image.has_alpha,
        Err(_) => false,
    }
}

/// What `PngEncoder::encode` gives for an 8-bit grey picture: the PNG file,
/// or where it fails the text of its error.
pub uninterp spec fn spec_png(width: u32, height: u32, pixels: Seq<u8>) -> Result<Seq<u8>, Seq<char>>;

/// Encodes a grey picture as PNG with `image::codecs::png::PngEncoder` into a
/// `Vec`; an error is turned into its `Display` text. Claimed of the image
/// crate: the outcome, error text included, is a function of the dimensions
/// and the pixels, named by `spec_png`.
#[verifier::external_body]
fn png_encode(image: &LumaImage) -> (res: Result<Vec<u8>, String>)
    requires
        image.wf(),
    ensures
        match res {
            Ok(bytes) => spec_png(image.width, image.height, image.pixels@) == Ok::<_, Seq<char>>(bytes@),
            Err(message) => spec_png(image.width, image.height, image.pixels@) == Err::<Seq<u8>, _>(message@),
        },
{
    let mut buffer = Vec::new();
    let encoder = image::codecs::png::PngEncoder::new(&mut buffer);
    match encoder.encode(&image.pixels, image.width, image.height, image::ColorType::L8) {
        Ok(()) => Ok(buffer),
        Err(err) => Err(err.to_string()),
    }
}

/// Encodes a grey picture as a PNG file.
pub fn encode_png(image: &LumaImage) -> (res: Result<Vec<u8>, LabelError>)
    requires
        image.wf(),
    ensures
        match res {
            Ok(bytes) => spec_png(image.width, image.height, image.pixels@) == Ok::<_, Seq<char>>(bytes@),
            Err(LabelError::Image { message }) => spec_png(image.width, image.height, image.pixels@)
                == Err::<Seq<u8>, _>(message@),
            Err(_) => false,
        },
{
    match png_encode(image) {
        Ok(bytes) => Ok(bytes),
        Err(message) => Err(image_error(message)),
    }
}


/// Whatever `convert_to_bw` returns can be packed for the printer: the
/// picture is exactly 64 pixels wide, so every line fills its eight bytes.
pub proof fn lemma_bw_printable(image: SourceImage, threshold: u8, bw: LumaImage)
    requires
        converts_to(image, threshold, Ok(bw)),
    ensures
        bw.wf(),
        bw.width == 64,
        bw.height == 0 || bw.width >= 57,
{
}

/// From picture to printed line: after `convert_to_bw` and
/// `printable_from_grey`, dot `x` of line `y` is printed exactly when the
/// grey value of that pixel of the upright picture is at most the threshold.
pub proof fn lemma_printed_iff_dark(
    image: SourceImage,
    threshold: u8,
    bw: LumaImage,
    rows: Seq<[u8; 8]>,
    x: int,
    y: int,
)
    requires
        converts_to(image, threshold, Ok(bw)),
        rows.len() == bw.height,
        forall|r: int| 0 <= r < bw.height ==> prints_row(bw, r, #[trigger] rows[r]@),
        0 <= x < 64,
        0 <= y < bw.height,
    ensures
        dot_at(rows[y]@[x / 8], x % 8) <==> upright_gray(image)[y * 64 + x] <= threshold,
{
    let j = x / 8;
    let k = x % 8;
    assert(prints_row(bw, y, rows[y]@));
    assert(8 * j + k == x);
    assert(dot_at(rows[y]@[j], k) == (8 * j + k < bw.width && !is_white(bw.luma(8 * j + k, y))));
    assert(0 <= y * 64 + x < 64 * bw.height) by (nonlinear_arith)
        requires
            0 <= x < 64,
            0 <= y < bw.height,
    ;
    assert(bw.pixels@.len() == 64 * bw.height);
    let i = y * 64 + x;
    assert(bw.pixels@[i] == crate::color_map::bilevel(upright_gray(image)[i], threshold));
}

/// The preview of `n` bytes is `8 * n` characters long, and character
/// `8 * j + k` shows dot `k` of byte `j`.
pub proof fn lemma_bytes_preview(bytes: Seq<u8>)
    ensures
        bytes_preview(bytes).len() == 8 * bytes.len(),
        forall|j: int, k: int|
            0 <= j < bytes.len() && 0 <= k < 8 ==> #[trigger] bytes_preview(bytes)[8 * j + k]
                == dot_char(dot_at(bytes[j], k)),
    decreases bytes.len(),
{
    if bytes.len() > 0 {
        let init = bytes.drop_last();
        lemma_bytes_preview(init);
        assert forall|j: int, k: int|
            0 <= j < bytes.len() && 0 <= k < 8 implies #[trigger] bytes_preview(bytes)[8 * j + k]
                == dot_char(dot_at(bytes[j], k)) by {
            if j < bytes.len() - 1 {
                assert(bytes_preview(init)[8 * j + k] == dot_char(dot_at(init[j], k)));
            } else {
                assert(byte_preview(bytes.last())[k] == dot_char(dot_at(bytes[j], k)));
            }
        }
    }
}

/// A preview has 65 characters per line: the 64 dots of line `r` at
/// `65 * r + x`, each a full block when printed and a space when not, then
/// a line break at `65 * r + 64`.
pub proof fn lemma_preview_layout(rows: Seq<[u8; 8]>)
    ensures
        preview_text(rows).len() == 65 * rows.len(),
        forall|r: int, x: int|
            0 <= r < rows.len() && 0 <= x < 64 ==> #[trigger] preview_text(rows)[65 * r + x]
                == dot_char(dot_at(rows[r]@[x / 8], x % 8)),
        forall|r: int| 0 <= r < rows.len() ==> #[trigger] preview_text(rows)[65 * r + 64] == '\n',
    decreases rows.len(),
{
    if rows.len() > 0 {
        let init = rows.drop_last();
        let last = rows.last()@;
        lemma_preview_layout(init);
        lemma_bytes_preview(last);
        let n = rows.len() - 1;
        assert forall|r: int, x: int|
            0 <= r < rows.len() && 0 <= x < 64 implies #[trigger] preview_text(rows)[65 * r + x]
                == dot_char(dot_at(rows[r]@[x / 8], x % 8)) by {
            if r < n {
                assert(preview_text(init)[65 * r + x] == dot_char(dot_at(init[r]@[x / 8], x % 8)));
            } else {
                let j = x / 8;
                let k = x % 8;
                assert(x == 8 * j + k);
                assert(bytes_preview(last)[8 * j + k] == dot_char(dot_at(last[j], k)));
            }
        }
        assert forall|r: int| 0 <= r < rows.len() implies #[trigger] preview_text(rows)[65 * r + 64]
            == '\n' by {
            if r < n {
                assert(preview_text(init)[65 * r + 64] == '\n');
            }
        }
    }
}

/// What a printed line holds: in a line that prints row `y` of a grey
/// picture, bit `7 - k` of byte `j` is set exactly when column `8 * j + k`
/// exists and its luma is not 255; every other grey level, however light,
/// is printed.
pub proof fn lemma_printed_dots(image: LumaImage, y: int, row: Seq<u8>, j: int, k: int)
    requires
        prints_row(image, y, row),
        0 <= j < 8,
        0 <= k < 8,
    ensures
        row.len() == 8,
        ((row[j] >> ((7 - k) as u8)) & 1u8 == 1u8) <==> (8 * j + k < image.width
            && image.pixels@[y * image.width + 8 * j + k] != 255u8),
{
    assert(dot_at(row[j], k) == (8 * j + k < image.width && !is_white(image.luma(8 * j + k, y))));
    assert(y * image.width + (8 * j + k) == y * image.width + 8 * j + k);
}

/// Whatever `printable_from_grey` returns for a grey picture: one line per
/// row, and in line `y`, bit `7 - k` of byte `j` set exactly when column
/// `8 * j + k` exists and its luma is not 255.
pub proof fn lemma_printable_from_grey_dots(image: LumaImage, p: PrintableImage, y: int, j: int, k: int)
    requires
        p.data@.len() == image.height,
        forall|r: int| 0 <= r < image.height ==> prints_row(image, r, #[trigger] p.data@[r]@),
        0 <= y < image.height,
        0 <= j < 8,
        0 <= k < 8,
    ensures
        ((p.data@[y]@[j] >> ((7 - k) as u8)) & 1u8 == 1u8) <==> (8 * j + k < image.width
            && image.pixels@[y * image.width + 8 * j + k] != 255u8),
{
    assert(prints_row(image, y, p.data@[y]@));
    lemma_printed_dots(image, y, p.data@[y]@, j, k);
}

} // verus!
