//! Pictures: textures made of them, textures shown as them, and the files they
//! are written to. The work on the pixels is done by `rage_formats` and
//! `rage_render`, and named here.
use vstd::prelude::*;
use vstd::string::*;
use crate::commands::textures::EncodeFormat;
use crate::formats::{is_wide, wide, PixelView, Pixels, TOO_LARGE};
use crate::hash::joaat;
use crate::text::{chars_of, lowercase};

verus! {

/// A picture: its size, and its rows of red, green, blue and alpha bytes.
#[derive(Debug, Clone, PartialEq, Eq)]
pub struct Picture {
    pub width: u32,
    pub height: u32,
    pub rgba: Vec<u8>,
}

/// What a picture holds.
pub struct PictureView {
    pub width: u32,
    pub height: u32,
    pub rgba: Seq<u8>,
}

impl View for Picture {
    type V = PictureView;

    open spec fn view(&self) -> PictureView {
        PictureView { width: self.width, height: self.height, rgba: self.rgba@ }
    }
}

impl PictureView {
    /// There are four bytes for every pixel.
    pub open spec fn wf(self) -> bool {
        self.rgba.len() == self.width * self.height * 4
    }

    /// Neither side is longer than so many pixels.
    pub open spec fn is_within(self, edge: u32) -> bool {
        self.width <= edge && self.height <= edge
    }
}

impl Picture {
    /// Whether there are four bytes for every pixel.
    pub fn is_whole(&self) -> (r: bool)
        ensures
            r == self@.wf(),
    {
        let wide: u128 = self.width as u128;
        let high: u128 = self.height as u128;
        assert(wide * high <= 0xffff_ffff * 0xffff_ffff) by (nonlinear_arith)
            requires
                wide <= 0xffff_ffff,
                high <= 0xffff_ffff,
        ;
        self.rgba.len() as u128 == wide * high * 4
    }
}

/// A file format for pictures.
#[derive(Debug, Clone, Copy, PartialEq, Eq, Structural)]
pub enum PictureFormat {
    Png,
    Jpeg,
    WebP,
}

// ── Textures of pictures ────────────────────────────────────────────────────

/// The number of bytes of a picture of this size has 32 bits, or the size is
/// refused before they are counted.
pub open spec fn is_encodable(width: u32, height: u32) -> bool {
    width > 0xffff || height > 0xffff || width * height * 4 <= u32::MAX
}

fn can_encode(width: u32, height: u32) -> (r: bool)
    ensures
        r == is_encodable(width, height),
{
    if width > 0xffff || height > 0xffff {
        return true;
    }
    let wide: u64 = width as u64;
    let high: u64 = height as u64;
    assert(wide * high <= 0xffff * 0xffff) by (nonlinear_arith)
        requires
            wide <= 0xffff,
            high <= 0xffff,
    ;
    wide * high * 4 <= 0xffff_ffff
}

/// The texture that `rage_formats::encode_texture` makes of pixels, or why it
/// does not.
pub uninterp spec fn encoded(
    name: Seq<char>,
    rgba: Seq<u8>,
    width: u32,
    height: u32,
    format: EncodeFormat,
    levels: Option<u8>,
) -> Result<PixelView, Seq<char>>;

/// `rage_formats::encode_texture`, whose result depends on its arguments
/// alone: it encodes in the same way on every processor. The texture has the
/// given name, the hash of the name in lower case, and the given size; a size
/// is refused that is empty or beyond 16 bits, and so are pixels that do not
/// fill it.
#[verifier::external_body]
fn encode_texture(
    name: &str,
    rgba: &[u8],
    width: u32,
    height: u32,
    format: EncodeFormat,
    levels: Option<u8>,
) -> (r: Result<Pixels, String>)
    requires
        is_wide(),
        is_encodable(width, height),
    ensures
        match r {
            Ok(p) => encoded(name@, rgba@, width, height, format, levels) == Ok::<
                PixelView,
                Seq<char>,
            >(p@) && p.name@ == name@ && p.name_hash == joaat(lowercase(name@)) && p.width == width
                && p.height == height && p.depth == 1 && 0 < width && 0 < height && rgba.len()
                == width * height * 4,
            Err(e) => encoded(name@, rgba@, width, height, format, levels) == Err::<
                PixelView,
                Seq<char>,
            >(e@),
        },
{
    let format = match format {
        EncodeFormat::Bc1 => rage_formats::EncodeFormat::Bc1,
        EncodeFormat::Bc3 => rage_formats::EncodeFormat::Bc3,
        EncodeFormat::Bc4 => rage_formats::EncodeFormat::Bc4,
        EncodeFormat::Bc5 => rage_formats::EncodeFormat::Bc5,
        EncodeFormat::Bc7 => rage_formats::EncodeFormat::Bc7,
        EncodeFormat::Rgba8 => rage_formats::EncodeFormat::Rgba8,
    };
    let t = rage_formats::encode_texture(name, rgba, width, height, format, levels).map_err(|e| format!("{e:#}"))?;
    Ok(Pixels {
        name: t.name, name_hash: t.name_hash, width: t.width, height: t.height, depth: t.depth, format: t.format as u32,
        format_name: t.format.to_string(), levels: t.levels, stride: t.stride, data: t.pixel_data,
    })
}

/// The texture of a picture, or why there is none.
pub open spec fn texture_of(
    name: Seq<char>,
    p: PictureView,
    format: EncodeFormat,
    levels: Option<u8>,
) -> Result<PixelView, Seq<char>> {
    if is_wide() && is_encodable(p.width, p.height) {
        encoded(name, p.rgba, p.width, p.height, format, levels)
    } else {
        Err(TOO_LARGE@)
    }
}

/// Makes the texture of a picture: named `name`, in the given format, with so
/// many levels, or with all that there can be.
pub fn encode_picture(name: &str, p: &Picture, format: EncodeFormat, levels: Option<u8>) -> (r: Result<
    Pixels,
    String,
>)
    ensures
        match r {
            Ok(t) => texture_of(name@, p@, format, levels) == Ok::<PixelView, Seq<char>>(t@)
                && t.name@ == name@ && t.name_hash == joaat(lowercase(name@)) && t.width == p.width
                && t.height == p.height && t.depth == 1 && p@.wf(),
            Err(e) => texture_of(name@, p@, format, levels) == Err::<PixelView, Seq<char>>(e@),
        },
{
    if wide() && can_encode(p.width, p.height) {
        encode_texture(name, p.rgba.as_slice(), p.width, p.height, format, levels)
    } else {
        Err(TOO_LARGE.to_owned())
    }
}

// ── Pictures of textures ────────────────────────────────────────────────────

/// The picture that `rage_formats::to_rgba_image` makes of the first level of
/// a texture, or why it does not.
pub uninterp spec fn decoded(p: PixelView) -> Result<PictureView, Seq<char>>;

/// `rage_formats::to_rgba_image`, whose result depends on the texture alone.
/// The picture has the size of the texture and a whole number of pixels.
#[verifier::external_body]
fn to_rgba_image(p: &Pixels) -> (r: Result<Picture, String>)
    requires
        is_wide(),
    ensures
        match r {
            Ok(img) => decoded(p@) == Ok::<PictureView, Seq<char>>(img@) && img@.wf() && img.width
                == p.width && img.height == p.height,
            Err(e) => decoded(p@) == Err::<PictureView, Seq<char>>(e@),
        },
{
    let t = rage_formats::YtdTexture {
        name: p.name.clone(), name_hash: p.name_hash, width: p.width, height: p.height, depth: p.depth,
        format: rage_formats::TextureFormat::from_u32(p.format), levels: p.levels, stride: p.stride,
        pixel_data: p.data.clone(),
    };
    let img = rage_formats::to_rgba_image(&t).map_err(|e| e.to_string())?;
    Ok(Picture { width: img.width(), height: img.height(), rgba: img.into_raw() })
}

/// The picture that `rage_formats::fit_max_size` makes of one.
pub uninterp spec fn fitted(p: PictureView, max_edge: u32) -> PictureView;

/// `rage_formats::fit_max_size`, whose result depends on its arguments alone:
/// a picture whose longer side is within the limit is handed back as it is,
/// and any other is made smaller, so that it is (with no side below one).
#[verifier::external_body]
fn fit_max_size(p: Picture, max_edge: u32) -> (r: Picture)
    requires
        is_wide(),
        p@.wf(),
    ensures
        r@ == fitted(p@, max_edge),
        r@.wf(),
        p@.is_within(max_edge) ==> r@ == p@,
        max_edge > 0 ==> r@.is_within(max_edge),
{
    let img = rage_formats::image::RgbaImage::from_raw(p.width, p.height, p.rgba).unwrap_or_default();
    let img = rage_formats::fit_max_size(img, max_edge);
    Picture { width: img.width(), height: img.height(), rgba: img.into_raw() }
}

/// The picture of a texture, with its longer side within a limit where there
/// is one; or why there is none.
pub open spec fn picture_of(p: PixelView, max_size: Option<u32>) -> Result<PictureView, Seq<char>> {
    if !is_wide() {
        Err(TOO_LARGE@)
    } else {
        match decoded(p) {
            Ok(img) => Ok(
                match max_size {
                    Some(edge) => fitted(img, edge),
                    None => img,
                },
            ),
            Err(e) => Err(e),
        }
    }
}

/// Makes the picture of a texture.
pub fn render_texture(p: &Pixels, max_size: Option<u32>) -> (r: Result<Picture, String>)
    ensures
        match r {
            Ok(img) => picture_of(p@, max_size) == Ok::<PictureView, Seq<char>>(img@) && img@.wf()
                && (max_size matches Some(edge) ==> edge > 0 ==> img@.is_within(edge)) && (
            max_size is None || (max_size matches Some(edge) && p.width <= edge && p.height <= edge)
                ==> img.width == p.width && img.height == p.height && decoded(p@) == Ok::<
                PictureView,
                Seq<char>,
            >(img@)),
            Err(e) => picture_of(p@, max_size) == Err::<PictureView, Seq<char>>(e@),
        },
{
    if !wide() {
        return Err(TOO_LARGE.to_owned());
    }
    let img = match to_rgba_image(p) {
        Ok(img) => img,
        Err(e) => return Err(e),
    };
    match max_size {
        Some(edge) => Ok(fit_max_size(img, edge)),
        None => Ok(img),
    }
}

// ── Files of pictures ───────────────────────────────────────────────────────

/// The file that `rage_formats::encode_image` makes of a picture, or why it
/// does not.
pub uninterp spec fn picture_file(p: PictureView, format: PictureFormat, quality: u8) -> Result<
    Seq<u8>,
    Seq<char>,
>;

/// `rage_formats::encode_image`, whose result depends on its arguments alone.
#[verifier::external_body]
fn image_bytes(p: &Picture, format: PictureFormat, quality: u8) -> (r: Result<Vec<u8>, String>)
    requires
        is_wide(),
        p@.wf(),
    ensures
        match r {
            Ok(bytes) => picture_file(p@, format, quality) == Ok::<Seq<u8>, Seq<char>>(bytes@),
            Err(e) => picture_file(p@, format, quality) == Err::<Seq<u8>, Seq<char>>(e@),
        },
{
    let format = match format {
        PictureFormat::Png => rage_formats::ImageFormat::Png,
        PictureFormat::Jpeg => rage_formats::ImageFormat::Jpeg,
        PictureFormat::WebP => rage_formats::ImageFormat::WebP,
    };
    let img = rage_formats::image::RgbaImage::from_raw(p.width, p.height, p.rgba.clone()).unwrap_or_default();
    rage_formats::encode_image(&img, format, quality).map_err(|e| e.to_string())
}

/// What is said of a picture whose bytes do not fill its size.
pub const NOT_WHOLE: &'static str = "pixel buffer does not match texture dimensions";

/// The file of a picture, or why there is none.
pub open spec fn file_of(p: PictureView, format: PictureFormat, quality: u8) -> Result<
    Seq<u8>,
    Seq<char>,
> {
    if !is_wide() {
        Err(TOO_LARGE@)
    } else if !p.wf() {
        Err(NOT_WHOLE@)
    } else {
        picture_file(p, format, quality)
    }
}

/// Makes the file of a picture; the quality has a say in a JPEG file only.
pub fn encode_image(p: &Picture, format: PictureFormat, quality: u8) -> (r: Result<Vec<u8>, String>)
    ensures
        match r {
            Ok(bytes) => file_of(p@, format, quality) == Ok::<Seq<u8>, Seq<char>>(bytes@),
            Err(e) => file_of(p@, format, quality) == Err::<Seq<u8>, Seq<char>>(e@),
        },
{
    if !wide() {
        Err(TOO_LARGE.to_owned())
    } else if !p.is_whole() {
        Err(NOT_WHOLE.to_owned())
    } else {
        image_bytes(p, format, quality)
    }
}

// ── Contact sheets ──────────────────────────────────────────────────────────

/// A picture on a contact sheet, with what is written below it.
#[derive(Debug)]
pub struct SheetItem {
    pub label: String,
    pub picture: Picture,
}

/// What an item of a contact sheet holds.
pub struct SheetItemView {
    pub label: Seq<char>,
    pub picture: PictureView,
}

impl View for SheetItem {
    type V = SheetItemView;

    open spec fn view(&self) -> SheetItemView {
        SheetItemView { label: self.label@, picture: self.picture@ }
    }
}

/// What the items of a contact sheet hold.
pub open spec fn item_views(items: Seq<SheetItem>) -> Seq<SheetItemView> {
    items.map_values(|i: SheetItem| i@)
}

/// The largest cell of a contact sheet.
pub const MAX_CELL: u32 = 2048;

/// The picture is whole and the label can be measured.
pub open spec fn is_item_sound(item: SheetItemView) -> bool {
    item.picture.wf() && item.label.len() <= 0x1000_0000
}

/// The sides of a contact sheet of these items, in cells of this size, can be
/// counted.
pub open spec fn is_sheet_sound(items: Seq<SheetItemView>, cell: u32) -> bool {
    &&& is_wide()
    &&& cell <= MAX_CELL
    &&& items.len() <= 0x8000_0000
    &&& forall|i: int| 0 <= i < items.len() ==> is_item_sound(#[trigger] items[i])
}

/// The picture that `rage_render::compose_sheet` makes of some items, with
/// cells of the given size and all else as usual.
pub uninterp spec fn sheet_of(items: Seq<SheetItemView>, cell: u32) -> PictureView;

/// `rage_render::compose_sheet`, whose result depends on its arguments alone.
#[verifier::external_body]
fn draw_sheet(items: &Vec<SheetItem>, cell: u32) -> (r: Picture)
    requires
        is_sheet_sound(item_views(items@), cell),
    ensures
        r@ == sheet_of(item_views(items@), cell),
        r@.wf(),
{
    let images: Vec<_> = items.iter().map(|i| rage_formats::image::RgbaImage::from_raw(
        i.picture.width, i.picture.height, i.picture.rgba.clone()).unwrap_or_default()).collect();
    let list: Vec<_> = items.iter().zip(&images).map(|(i, image)| rage_render::SheetItem {
        label: i.label.clone(), image,
    }).collect();
    let sheet = rage_render::compose_sheet(&list, &rage_render::SheetOptions { cell, ..Default::default() });
    Picture { width: sheet.width(), height: sheet.height(), rgba: sheet.into_raw() }
}

fn check_items(items: &Vec<SheetItem>) -> (r: bool)
    ensures
        r == forall|i: int|
            0 <= i < items.len() ==> is_item_sound(#[trigger] item_views(items@)[i]),
{
    let mut i: usize = 0;
    while i < items.len()
        invariant
            i <= items.len(),
            forall|k: int| 0 <= k < i ==> is_item_sound(#[trigger] item_views(items@)[k]),
        decreases items.len() - i,
    {
        assert(item_views(items@)[i as int] == items[i as int]@);
        let label = chars_of(items[i].label.as_str());
        if !items[i].picture.is_whole() || label.len() as u64 > 0x1000_0000 {
            assert(!is_item_sound(item_views(items@)[i as int]));
            return false;
        }
        i = i + 1;
    }
    true
}

/// Draws a contact sheet of some pictures, in cells of the given size; nothing
/// where its sides cannot be counted.
pub fn compose_sheet(items: &Vec<SheetItem>, cell: u32) -> (r: Option<Picture>)
    ensures
        match r {
            Some(sheet) => is_sheet_sound(item_views(items@), cell) && sheet@ == sheet_of(
                item_views(items@),
                cell,
            ) && sheet@.wf(),
            None => !is_sheet_sound(item_views(items@), cell),
        },
{
    if wide() && cell <= MAX_CELL && items.len() as u64 <= 0x8000_0000 && check_items(items) {
        Some(draw_sheet(items, cell))
    } else {
        None
    }
}

} // verus!
