//! What the game's own file formats hold, as plain values. The formats are
//! read by `rage_formats`; its readers are named here, not described.
use vstd::prelude::*;
use vstd::string::*;
use crate::commands::resource::container::{
    can_count, is_countable, lemma_countable, prepare_rsc7, system_section, unpacked, word, word_at, RSC7_MAGIC,
};
use crate::commands::resource::info::DrawableKind;
use crate::index::model::ArchetypeBox;
use crate::layout::{all_read_back, check_layout, comes_back, layout_rests};
use crate::nesting::{
    count_rbf_nesting, count_xml_nesting, is_rbf, rbf_nesting, starts_as_rbf, xml_nesting,
    MAX_NESTING,
};
use crate::sections::{are_textures_countable, lemma_textures_countable, Sections};

verus! {

// ── Limits ──────────────────────────────────────────────────────────────────

/// What is said of a file whose sizes this machine cannot count.
pub const TOO_LARGE: &'static str = "the sizes that the file gives are too large for this machine";

/// Sizes have 64 bits. Writers and decoders that multiply sizes without a check
/// need that: the writer of dictionaries, say, tries pages of up to 4 GiB.
pub open spec fn is_wide() -> bool {
    usize::MAX == 0xffff_ffff_ffff_ffff
}

/// Whether sizes have 64 bits.
pub fn wide() -> (r: bool)
    ensures
        r == is_wide(),
{
    usize::MAX as u64 == 0xffff_ffff_ffff_ffff
}

// ── Texture relationships ───────────────────────────────────────────────────

/// A texture dictionary and the one it inherits from.
#[derive(Debug, Clone, PartialEq, Eq)]
pub struct TxdRelationship {
    pub child: String,
    pub parent: String,
}

/// The texts of a list of relationships: child, parent.
pub open spec fn relationship_texts(list: Seq<TxdRelationship>) -> Seq<(Seq<char>, Seq<char>)> {
    list.map_values(|r: TxdRelationship| (r.child@, r.parent@))
}

/// The relationships (child, parent) that
/// `rage_formats::parse_txd_relationships` finds in a file; none where it
/// fails.
pub uninterp spec fn parsed_relationships(data: Seq<u8>) -> Option<Seq<(Seq<char>, Seq<char>)>>;

/// The document in a file of relationships nests no deeper than is read: an
/// RBF document, as it is or as the system section of a resource, or else an
/// XML text.
pub open spec fn is_shallow(data: Seq<u8>) -> bool {
    if is_rbf(data) {
        rbf_nesting(data) <= MAX_NESTING
    } else if data.len() >= 4 && word(data, 0) == RSC7_MAGIC {
        match system_section(data) {
            Ok(system) => is_rbf(system) ==> rbf_nesting(system) <= MAX_NESTING,
            Err(_) => true,
        }
    } else {
        xml_nesting(data) <= MAX_NESTING
    }
}

fn check_shallow(data: &[u8]) -> (r: bool)
    requires
        is_countable(data@),
    ensures
        r == is_shallow(data@),
{
    if starts_as_rbf(data) {
        return count_rbf_nesting(data) <= MAX_NESTING;
    }
    if data.len() >= 4 && word_at(data, 0) == RSC7_MAGIC {
        return match prepare_rsc7(data) {
            Ok((system, _)) => !starts_as_rbf(system.as_slice()) || count_rbf_nesting(system.as_slice())
                <= MAX_NESTING,
            Err(_) => true,
        };
    }
    count_xml_nesting(data) <= MAX_NESTING
}

/// `rage_formats::parse_txd_relationships`, whose result depends on the
/// file's bytes alone: the relationships in the order of the file. It goes
/// one call deeper for each level of the document.
#[verifier::external_body]
fn gtxd_relationships(data: &[u8]) -> (r: Option<Vec<TxdRelationship>>)
    requires
        is_countable(data@),
        is_shallow(data@),
    ensures
        match r {
            Some(list) => parsed_relationships(data@) == Some(relationship_texts(list@)),
            None => parsed_relationships(data@) == None::<Seq<(Seq<char>, Seq<char>)>>,
        },
{
    let found = rage_formats::parse_txd_relationships(data).ok()?;
    Some(found.into_iter().map(|r| TxdRelationship { child: r.child, parent: r.parent }).collect())
}

/// The relationships (child, parent) in a file; none where it cannot be read.
pub open spec fn txd_relationships(data: Seq<u8>) -> Option<Seq<(Seq<char>, Seq<char>)>> {
    if is_countable(data) && is_shallow(data) {
        parsed_relationships(data)
    } else {
        None
    }
}

/// Reads the relationships in a file.
pub(crate) fn parse_txd_relationships(data: &[u8]) -> (r: Option<Vec<TxdRelationship>>)
    ensures
        match r {
            Some(list) => txd_relationships(data@) == Some(relationship_texts(list@)),
            None => txd_relationships(data@) == None::<Seq<(Seq<char>, Seq<char>)>>,
        },
{
    if can_count(data) && check_shallow(data) {
        gtxd_relationships(data)
    } else {
        None
    }
}

// ── World cache ─────────────────────────────────────────────────────────────

/// What a world cache file says of interiors: the maps it describes, and
/// which interior (first) is placed by which map (second).
#[derive(Debug)]
pub struct WorldCache {
    pub maps: Vec<u32>,
    pub proxies: Vec<(u32, u32)>,
}

/// No four bytes of a file give a length that this machine could not count
/// from where they stand.
pub open spec fn are_lengths_countable(data: Seq<u8>) -> bool {
    forall|i: int| 0 <= i && i + 4 <= data.len() ==> i + 8 + #[trigger] word(data, i) <= usize::MAX
}

fn can_count_lengths(data: &[u8]) -> (r: bool)
    ensures
        r == are_lengths_countable(data@),
{
    let mut i: usize = 0;
    while i < data.len() && data.len() - i >= 4
        invariant
            i <= data.len(),
            forall|k: int|
                0 <= k < i && k + 4 <= data.len() ==> k + 8 + #[trigger] word(data@, k) <= usize::MAX,
        decreases data.len() - i,
    {
        let n: u32 = word_at(data, i);
        let left: usize = usize::MAX - i;
        if left < 8 || n as u64 > (left - 8) as u64 {
            assert(!(i + 8 + word(data@, i as int) <= usize::MAX));
            return false;
        }
        i = i + 1;
    }
    true
}

/// The maps, and the interiors with their maps, that
/// `rage_formats::parse_cache_dat` finds in a file; none where it fails.
pub uninterp spec fn parsed_cache(data: Seq<u8>) -> Option<(Seq<u32>, Seq<(u32, u32)>)>;

/// `rage_formats::parse_cache_dat`, whose result depends on the file's bytes
/// alone: the names of its map nodes, and the name and parent of its interior
/// proxies, in the order of the file.
#[verifier::external_body]
fn cache_contents(data: &[u8]) -> (r: Option<WorldCache>)
    requires
        are_lengths_countable(data@),
    ensures
        match r {
            Some(c) => parsed_cache(data@) == Some((c.maps@, c.proxies@)),
            None => parsed_cache(data@) == None::<(Seq<u32>, Seq<(u32, u32)>)>,
        },
{
    let found = rage_formats::parse_cache_dat(data).ok()?;
    Some(WorldCache {
        maps: found.map_nodes.iter().map(|n| n.name).collect(),
        proxies: found.interior_proxies.iter().map(|p| (p.name, p.parent)).collect(),
    })
}

/// What a world cache file says of interiors; nothing where it cannot be
/// read.
pub open spec fn world_cache(data: Seq<u8>) -> Option<(Seq<u32>, Seq<(u32, u32)>)> {
    if are_lengths_countable(data) {
        parsed_cache(data)
    } else {
        None
    }
}

/// Reads a world cache file.
pub(crate) fn parse_cache_dat(data: &[u8]) -> (r: Option<WorldCache>)
    ensures
        match r {
            Some(c) => world_cache(data@) == Some((c.maps@, c.proxies@)),
            None => world_cache(data@) == None::<(Seq<u32>, Seq<(u32, u32)>)>,
        },
{
    if can_count_lengths(data) {
        cache_contents(data)
    } else {
        None
    }
}

// ── Texture dictionaries ────────────────────────────────────────────────────

/// A texture of a dictionary.
#[derive(Debug, Clone, PartialEq, Eq)]
pub struct Texture {
    /// Empty where only the hash is stored.
    pub name: String,
    /// The name's hash as stored, 0 where none is.
    pub name_hash: u32,
    pub width: u16,
    pub height: u16,
    pub depth: u16,
    /// The pixel format's name.
    pub format: String,
    pub levels: u8,
    /// The length of the pixel data.
    pub bytes: usize,
}

/// A `Texture` as texts and numbers.
pub struct TextureView {
    pub name: Seq<char>,
    pub name_hash: u32,
    pub width: u16,
    pub height: u16,
    pub depth: u16,
    pub format: Seq<char>,
    pub levels: u8,
    pub bytes: usize,
}

impl View for Texture {
    type V = TextureView;

    open spec fn view(&self) -> TextureView {
        TextureView {
            name: self.name@,
            name_hash: self.name_hash,
            width: self.width,
            height: self.height,
            depth: self.depth,
            format: self.format@,
            levels: self.levels,
            bytes: self.bytes,
        }
    }
}

/// The textures of a list, as texts and numbers.
pub open spec fn texture_views(list: Seq<Texture>) -> Seq<TextureView> {
    list.map_values(|t: Texture| t@)
}

/// A texture with its pixels.
#[derive(Debug, Clone, PartialEq, Eq)]
pub struct Pixels {
    pub name: String,
    pub name_hash: u32,
    pub width: u16,
    pub height: u16,
    pub depth: u16,
    /// The pixel format as it is stored, and its name.
    pub format: u32,
    pub format_name: String,
    pub levels: u8,
    pub stride: u16,
    pub data: Vec<u8>,
}

/// A `Pixels` as texts and numbers.
pub struct PixelView {
    pub name: Seq<char>,
    pub name_hash: u32,
    pub width: u16,
    pub height: u16,
    pub depth: u16,
    pub format: u32,
    pub format_name: Seq<char>,
    pub levels: u8,
    pub stride: u16,
    pub data: Seq<u8>,
}

impl View for Pixels {
    type V = PixelView;

    open spec fn view(&self) -> PixelView {
        PixelView {
            name: self.name@,
            name_hash: self.name_hash,
            width: self.width,
            height: self.height,
            depth: self.depth,
            format: self.format,
            format_name: self.format_name@,
            levels: self.levels,
            stride: self.stride,
            data: self.data@,
        }
    }
}

/// The textures of a list with their pixels.
pub open spec fn pixel_views(list: Seq<Pixels>) -> Seq<PixelView> {
    list.map_values(|p: Pixels| p@)
}

/// What is said of a texture with its pixels.
pub open spec fn described(p: PixelView) -> TextureView {
    TextureView {
        name: p.name,
        name_hash: p.name_hash,
        width: p.width,
        height: p.height,
        depth: p.depth,
        format: p.format_name,
        levels: p.levels,
        bytes: p.data.len() as usize,
    }
}

/// Says what a texture with its pixels is.
pub fn describe_pixels(p: &Pixels) -> (r: Texture)
    ensures
        r@ == described(p@),
{
    Texture {
        name: p.name.clone(),
        name_hash: p.name_hash,
        width: p.width,
        height: p.height,
        depth: p.depth,
        format: p.format_name.clone(),
        levels: p.levels,
        bytes: p.data.len(),
    }
}

/// The sizes that a dictionary gives can be counted.
pub open spec fn is_dictionary_countable(data: Seq<u8>) -> bool {
    is_countable(data) && match unpacked(data) {
        Ok((system, graphics)) => are_textures_countable(system, graphics),
        Err(_) => true,
    }
}

fn can_count_dictionary(data: &[u8]) -> (r: bool)
    ensures
        r == is_dictionary_countable(data@),
{
    if !can_count(data) {
        return false;
    }
    match prepare_rsc7(data) {
        Ok((system, graphics)) => {
            let s = Sections { system, graphics };
            s.can_count_textures()
        },
        Err(_) => true,
    }
}

/// The textures that `rage_formats::parse_ytd` finds in a file, or what it
/// says is wrong with the file.
pub uninterp spec fn parsed_pixels(data: Seq<u8>) -> Result<Seq<PixelView>, Seq<char>>;

/// `rage_formats::parse_ytd`, whose result depends on the file's bytes alone:
/// the textures in the order of the file, or its error as text. A texture
/// that it cannot read it leaves out, with a line on standard error.
#[verifier::external_body]
fn ytd_pixels(data: &[u8]) -> (r: Result<Vec<Pixels>, String>)
    requires
        is_dictionary_countable(data@),
    ensures
        match r {
            Ok(list) => parsed_pixels(data@) == Ok::<Seq<PixelView>, Seq<char>>(pixel_views(list@)),
            Err(e) => parsed_pixels(data@) == Err::<Seq<PixelView>, Seq<char>>(e@),
        },
{
    let found = rage_formats::parse_ytd(data).map_err(|e| format!("{e:#}"))?;
    Ok(found.into_iter().map(|t| Pixels {
        name: t.name, name_hash: t.name_hash, width: t.width, height: t.height, depth: t.depth,
        format: t.format as u32, format_name: t.format.to_string(), levels: t.levels, stride: t.stride,
        data: t.pixel_data,
    }).collect())
}

/// The textures in a file with their pixels, or what is wrong with the file.
pub open spec fn pixels_in(data: Seq<u8>) -> Result<Seq<PixelView>, Seq<char>> {
    if is_dictionary_countable(data) {
        parsed_pixels(data)
    } else {
        Err(TOO_LARGE@)
    }
}

/// Reads the textures in a file with their pixels.
pub fn read_pixels(data: &[u8]) -> (r: Result<Vec<Pixels>, String>)
    ensures
        match r {
            Ok(list) => pixels_in(data@) == Ok::<Seq<PixelView>, Seq<char>>(pixel_views(list@)),
            Err(e) => pixels_in(data@) == Err::<Seq<PixelView>, Seq<char>>(e@),
        },
{
    if can_count_dictionary(data) {
        ytd_pixels(data)
    } else {
        Err(TOO_LARGE.to_owned())
    }
}

/// The textures in a file, or what is wrong with the file.
pub open spec fn dictionary(data: Seq<u8>) -> Result<Seq<TextureView>, Seq<char>> {
    match pixels_in(data) {
        Ok(list) => Ok(list.map_values(|p: PixelView| described(p))),
        Err(e) => Err(e),
    }
}

/// Reads the textures in a file.
pub(crate) fn parse_ytd(data: &[u8]) -> (r: Result<Vec<Texture>, String>)
    ensures
        match r {
            Ok(list) => dictionary(data@) == Ok::<Seq<TextureView>, Seq<char>>(texture_views(list@)),
            Err(e) => dictionary(data@) == Err::<Seq<TextureView>, Seq<char>>(e@),
        },
{
    let list = match read_pixels(data) {
        Ok(list) => list,
        Err(e) => return Err(e),
    };
    let mut out: Vec<Texture> = Vec::new();
    let mut i: usize = 0;
    while i < list.len()
        invariant
            i <= list.len(),
            out.len() == i,
            forall|k: int| 0 <= k < i ==> (#[trigger] out[k])@ == described(list[k]@),
        decreases list.len() - i,
    {
        out.push(describe_pixels(&list[i]));
        i = i + 1;
    }
    assert(texture_views(out@) =~= pixel_views(list@).map_values(|p: PixelView| described(p)));
    Ok(out)
}

// ── Textures of drawables ───────────────────────────────────────────────────

/// The textures that each drawable of a file embeds, as
/// `rage_formats::parse_drawables` finds them; nothing for a drawable without
/// a shader group. Or its error as text.
pub uninterp spec fn parsed_drawables(data: Seq<u8>, kind: DrawableKind) -> Result<
    Seq<Option<Seq<PixelView>>>,
    Seq<char>,
>;

/// The textures of each drawable.
pub open spec fn group_views(list: Seq<Option<Vec<Pixels>>>) -> Seq<Option<Seq<PixelView>>> {
    list.map_values(|g: Option<Vec<Pixels>>| group_view(g))
}

/// The textures of one drawable.
pub open spec fn group_view(g: Option<Vec<Pixels>>) -> Option<Seq<PixelView>> {
    match g {
        Some(list) => Some(pixel_views(list@)),
        None => None,
    }
}

/// `rage_formats::parse_drawables`, whose result depends on its arguments
/// alone; of each drawable the textures of its shader group are kept.
#[verifier::external_body]
fn drawable_pixels(data: &[u8], kind: DrawableKind) -> (r: Result<Vec<Option<Vec<Pixels>>>, String>)
    requires
        is_wide(),
        is_countable(data@),
    ensures
        match r {
            Ok(list) => parsed_drawables(data@, kind) == Ok::<
                Seq<Option<Seq<PixelView>>>,
                Seq<char>,
            >(group_views(list@)),
            Err(e) => parsed_drawables(data@, kind) == Err::<
                Seq<Option<Seq<PixelView>>>,
                Seq<char>,
            >(e@),
        },
{
    let kind = match kind {
        DrawableKind::Ydr => rage_formats::DrawableKind::Ydr,
        DrawableKind::Ydd => rage_formats::DrawableKind::Ydd,
        DrawableKind::Yft => rage_formats::DrawableKind::Yft,
    };
    let list = rage_formats::parse_drawables(data, kind).map_err(|e| format!("{e:#}"))?;
    Ok(list.into_iter().map(|e| e.drawable.shader_group.map(|g| g.textures.into_iter().map(|t| Pixels {
        name: t.name, name_hash: t.name_hash, width: t.width, height: t.height, depth: t.depth, format: t.format as u32,
        format_name: t.format.to_string(), levels: t.levels, stride: t.stride, data: t.pixel_data,
    }).collect())).collect())
}

/// The textures of all drawables, one after the other.
pub open spec fn flattened(groups: Seq<Option<Seq<PixelView>>>) -> Seq<PixelView>
    decreases groups.len(),
{
    if groups.len() == 0 {
        Seq::empty()
    } else {
        flattened(groups.drop_last()) + (match groups.last() {
            Some(list) => list,
            None => Seq::empty(),
        })
    }
}

/// The textures that the drawables of a file embed, or what is wrong with the
/// file.
pub open spec fn embedded_in(data: Seq<u8>, kind: DrawableKind) -> Result<
    Seq<PixelView>,
    Seq<char>,
> {
    if is_wide() && is_countable(data) {
        match parsed_drawables(data, kind) {
            Ok(groups) => Ok(flattened(groups)),
            Err(e) => Err(e),
        }
    } else {
        Err(TOO_LARGE@)
    }
}

/// Hands out the textures of all drawables, one after the other.
pub fn embedded_textures(groups: Vec<Option<Vec<Pixels>>>) -> (out: Vec<Pixels>)
    ensures
        pixel_views(out@) == flattened(group_views(groups@)),
{
    let ghost all = group_views(groups@);
    let mut rest = groups;
    let mut out: Vec<Pixels> = Vec::new();
    let ghost mut done: int = 0;
    assert(pixel_views(out@) =~= flattened(all.take(0)));
    while rest.len() > 0
        invariant
            0 <= done <= all.len(),
            rest.len() == all.len() - done,
            group_views(rest@) == all.skip(done),
            pixel_views(out@) == flattened(all.take(done)),
        decreases rest.len(),
    {
        let ghost before = rest@;
        let group = rest.remove(0);
        proof {
            assert(group_views(before)[0] == all.skip(done)[0]);
            assert(all[done] == group_view(group));
            assert(group_views(rest@) =~= all.skip(done + 1)) by {
                assert forall|i: int| 0 <= i < rest.len() implies group_views(rest@)[i] == #[trigger] all.skip(
                    done + 1,
                )[i] by {
                    assert(group_views(before)[i + 1] == all.skip(done)[i + 1]);
                }
            }
            assert(all.take(done + 1).drop_last() =~= all.take(done));
        }
        let ghost start = pixel_views(out@);
        match group {
            Some(textures) => {
                let ghost added = pixel_views(textures@);
                let mut textures = textures;
                out.append(&mut textures);
                assert(pixel_views(out@) =~= start + added);
            },
            None => {
                assert(start =~= start + Seq::<PixelView>::empty());
            },
        }
        proof {
            done = done + 1;
        }
    }
    assert(all.take(done) =~= all);
    out
}

/// Reads the textures that the drawables of a file embed.
pub fn read_embedded(data: &[u8], kind: DrawableKind) -> (r: Result<Vec<Pixels>, String>)
    ensures
        match r {
            Ok(list) => embedded_in(data@, kind) == Ok::<Seq<PixelView>, Seq<char>>(
                pixel_views(list@),
            ),
            Err(e) => embedded_in(data@, kind) == Err::<Seq<PixelView>, Seq<char>>(e@),
        },
{
    if wide() && can_count(data) {
        match drawable_pixels(data, kind) {
            Ok(groups) => Ok(embedded_textures(groups)),
            Err(e) => Err(e),
        }
    } else {
        Err(TOO_LARGE.to_owned())
    }
}

// ── DDS files ───────────────────────────────────────────────────────────────

/// The depth that the header of a DDS file gives.
pub open spec fn dds_depth(data: Seq<u8>) -> int {
    if word(data, 8) / 0x80_0000 % 2 == 1 && word(data, 24) > 1 {
        word(data, 24) as int
    } else {
        1
    }
}

/// The sizes that the header of a DDS file gives, of up to 255 levels of four
/// bytes per pixel, can be counted.
pub open spec fn is_dds_countable(data: Seq<u8>) -> bool {
    let height = word(data, 12) as int;
    let width = word(data, 16) as int;
    let depth = dds_depth(data);
    data.len() >= 128 && height <= 0xffff && width <= 0xffff && depth <= 0xffff ==> {
        &&& 1020 * (width + 4) * (height + 4) * depth <= usize::MAX
        &&& 0x2_0000 * height * depth <= usize::MAX
    }
}

fn can_count_dds(data: &[u8]) -> (r: bool)
    ensures
        r == is_dds_countable(data@),
{
    if data.len() < 128 {
        return true;
    }
    let height: u64 = word_at(data, 12) as u64;
    let width: u64 = word_at(data, 16) as u64;
    let given: u64 = word_at(data, 24) as u64;
    let mut depth: u64 = 1;
    if word_at(data, 8) / 0x80_0000 % 2 == 1 && given > 1 {
        depth = given;
    }
    if height > 0xffff || width > 0xffff || depth > 0xffff {
        return true;
    }
    assert(1020 * (width + 4) * (height + 4) <= 1020 * 0x1_0003 * 0x1_0003) by (nonlinear_arith)
        requires
            width <= 0xffff,
            height <= 0xffff,
    ;
    let level: u64 = 1020 * (width + 4) * (height + 4);
    assert(level * depth <= 1020 * 0x1_0003 * 0x1_0003 * 0xffff) by (nonlinear_arith)
        requires
            level <= 1020 * 0x1_0003 * 0x1_0003,
            depth <= 0xffff,
    ;
    assert(0x2_0000 * height * depth <= 0x2_0000 * 0xffff * 0xffff) by (nonlinear_arith)
        requires
            height <= 0xffff,
            depth <= 0xffff,
    ;
    level * depth <= usize::MAX as u64 && 0x2_0000 * height * depth <= usize::MAX as u64
}

/// The texture that `rage_formats::parse_dds` finds in a file, or what it
/// says is wrong with the file.
pub uninterp spec fn parsed_dds(data: Seq<u8>) -> Result<PixelView, Seq<char>>;

/// `rage_formats::parse_dds`, whose result depends on the file's bytes alone:
/// the texture, or its error as text.
#[verifier::external_body]
fn dds_pixels(data: &[u8]) -> (r: Result<Pixels, String>)
    requires
        is_dds_countable(data@),
    ensures
        match r {
            Ok(p) => parsed_dds(data@) == Ok::<PixelView, Seq<char>>(p@),
            Err(e) => parsed_dds(data@) == Err::<PixelView, Seq<char>>(e@),
        },
{
    let t = rage_formats::parse_dds(data).map_err(|e| format!("{e:#}"))?;
    Ok(Pixels {
        name: t.name, name_hash: t.name_hash, width: t.width, height: t.height, depth: t.depth,
        format: t.format as u32, format_name: t.format.to_string(), levels: t.levels, stride: t.stride,
        data: t.pixel_data,
    })
}

/// The texture in a DDS file, or what is wrong with the file.
pub open spec fn dds_in(data: Seq<u8>) -> Result<PixelView, Seq<char>> {
    if is_dds_countable(data) {
        parsed_dds(data)
    } else {
        Err(TOO_LARGE@)
    }
}

/// Reads the texture in a DDS file.
pub fn parse_dds(data: &[u8]) -> (r: Result<Pixels, String>)
    ensures
        match r {
            Ok(p) => dds_in(data@) == Ok::<PixelView, Seq<char>>(p@),
            Err(e) => dds_in(data@) == Err::<PixelView, Seq<char>>(e@),
        },
{
    if can_count_dds(data) {
        dds_pixels(data)
    } else {
        Err(TOO_LARGE.to_owned())
    }
}

/// The file that `rage_formats::YtdTexture::to_dds` makes of a texture.
pub uninterp spec fn dds_file(p: PixelView) -> Seq<u8>;

/// `rage_formats::YtdTexture::to_dds`, whose result depends on the texture
/// alone.
#[verifier::external_body]
fn dds_bytes(p: &Pixels) -> (r: Vec<u8>)
    requires
        is_wide(),
    ensures
        r@ == dds_file(p@),
{
    rage_formats::YtdTexture {
        name: p.name.clone(), name_hash: p.name_hash, width: p.width, height: p.height, depth: p.depth,
        format: rage_formats::TextureFormat::from_u32(p.format), levels: p.levels, stride: p.stride,
        pixel_data: p.data.clone(),
    }.to_dds()
}

/// Makes the DDS file of a texture, where sizes have 64 bits.
pub fn to_dds(p: &Pixels) -> (r: Option<Vec<u8>>)
    ensures
        match r {
            Some(bytes) => is_wide() && bytes@ == dds_file(p@),
            None => !is_wide(),
        },
{
    if wide() {
        Some(dds_bytes(p))
    } else {
        None
    }
}

/// The textures of a list of references, with their pixels.
pub open spec fn referred_pixels(list: Seq<&Pixels>) -> Seq<PixelView> {
    list.map_values(|p: &Pixels| p@)
}

/// The file that `rage_formats::serialize_ytd` makes of textures, or what it
/// says is wrong with them.
pub uninterp spec fn serialized(list: Seq<PixelView>) -> Result<Seq<u8>, Seq<char>>;

/// `rage_formats::serialize_ytd`, whose result depends on the textures alone:
/// the bytes of the file, or its error as text. It lays its pages out anew
/// until their number no longer changes. `rage_formats::parse_ytd` reads the
/// textures back from the file, sorted by their hashes, each with its name, its
/// sizes, its format and the bytes of its levels, where the names are of at
/// most 255 bytes without a zero and the sections within reach of addresses.
#[verifier::external_body]
fn ytd_bytes(list: &Vec<&Pixels>) -> (r: Result<Vec<u8>, String>)
    requires
        is_wide(),
        layout_rests(referred_pixels(list@)),
    ensures
        match r {
            Ok(bytes) => serialized(referred_pixels(list@)) == Ok::<Seq<u8>, Seq<char>>(bytes@) && (
            comes_back(referred_pixels(list@), bytes@) ==> parsed_pixels(bytes@) == Ok::<
                Seq<PixelView>,
                Seq<char>,
            >(all_read_back(referred_pixels(list@)))),
            Err(e) => serialized(referred_pixels(list@)) == Err::<Seq<u8>, Seq<char>>(e@),
        },
{
    let textures: Vec<_> = list.iter().map(|p| rage_formats::YtdTexture {
        name: p.name.clone(), name_hash: p.name_hash, width: p.width, height: p.height, depth: p.depth,
        format: rage_formats::TextureFormat::from_u32(p.format), levels: p.levels, stride: p.stride,
        pixel_data: p.data.clone(),
    }).collect();
    rage_formats::serialize_ytd(&textures).map_err(|e| format!("{e:#}"))
}

/// The file of a dictionary of textures, or what is wrong with them.
pub open spec fn dictionary_file(list: Seq<PixelView>) -> Result<Seq<u8>, Seq<char>> {
    if !is_wide() {
        Err(TOO_LARGE@)
    } else if !layout_rests(list) {
        Err(NO_LAYOUT@)
    } else {
        serialized(list)
    }
}

/// What is said of textures whose pages cannot be laid out.
pub const NO_LAYOUT: &'static str = "the pages of these textures cannot be laid out";

/// Makes the file of a dictionary of textures, from which they are read back.
pub fn serialize_ytd(list: &Vec<&Pixels>) -> (r: Result<Vec<u8>, String>)
    ensures
        match r {
            Ok(bytes) => dictionary_file(referred_pixels(list@)) == Ok::<Seq<u8>, Seq<char>>(bytes@)
                && (comes_back(referred_pixels(list@), bytes@) ==> pixels_in(bytes@) == Ok::<
                Seq<PixelView>,
                Seq<char>,
            >(all_read_back(referred_pixels(list@)))),
            Err(e) => dictionary_file(referred_pixels(list@)) == Err::<Seq<u8>, Seq<char>>(e@),
        },
{
    if !wide() {
        Err(TOO_LARGE.to_owned())
    } else if !check_layout(list) {
        Err(NO_LAYOUT.to_owned())
    } else {
        match ytd_bytes(list) {
            Ok(bytes) => {
                proof {
                    lemma_dictionary_countable(bytes@);
                }
                Ok(bytes)
            },
            Err(e) => Err(e),
        }
    }
}

proof fn lemma_dictionary_countable(data: Seq<u8>)
    requires
        is_wide(),
    ensures
        is_dictionary_countable(data),
{
    lemma_countable(data);
    match unpacked(data) {
        Ok((system, graphics)) => lemma_textures_countable(system, graphics),
        Err(_) => {},
    }
}

// ── Archetypes ──────────────────────────────────────────────────────────────

/// What a `.ytyp` says of an archetype.
#[derive(Debug, Clone, Copy, PartialEq, Eq, Structural)]
pub struct Archetype {
    pub name_hash: u32,
    /// Hash of the texture dictionary, 0 where none is named.
    pub texture_dict_hash: u32,
    /// Hash of the drawable dictionary, 0 where none is named.
    pub drawable_dictionary_hash: u32,
    /// Hash of the model's own name, 0 where none is given.
    pub asset_name_hash: u32,
    pub asset_type: u32,
    pub is_mlo: bool,
    /// The distance up to which it is drawn, as its bits.
    pub lod_dist: u32,
    pub bounds: ArchetypeBox,
}

/// The asset type of a fragment.
pub const ASSET_FRAGMENT: u32 = 1;

/// The asset type of a member of a drawable dictionary.
pub const ASSET_DRAWABLE_DICTIONARY: u32 = 3;

impl Archetype {
    /// The model lives inside a drawable dictionary that is named.
    pub open spec fn in_dictionary(self) -> bool {
        self.asset_type == ASSET_DRAWABLE_DICTIONARY && self.drawable_dictionary_hash != 0
    }

    /// The hash of the file or the dictionary that holds the model.
    pub open spec fn model(self) -> u32 {
        if self.in_dictionary() {
            self.drawable_dictionary_hash
        } else if self.asset_name_hash != 0 {
            self.asset_name_hash
        } else {
            self.name_hash
        }
    }

    /// Whether the model lives inside a drawable dictionary.
    pub fn in_drawable_dictionary(&self) -> (r: bool)
        ensures
            r == self.in_dictionary(),
    {
        self.asset_type == ASSET_DRAWABLE_DICTIONARY && self.drawable_dictionary_hash != 0
    }

    /// The hash of the file or the dictionary that holds the model.
    pub fn model_hash(&self) -> (r: u32)
        ensures
            r == self.model(),
    {
        if self.in_drawable_dictionary() {
            self.drawable_dictionary_hash
        } else if self.asset_name_hash != 0 {
            self.asset_name_hash
        } else {
            self.name_hash
        }
    }
}


/// A point in space, its coordinates as bits.
#[derive(Debug, Clone, Copy, PartialEq, Eq, Structural)]
pub struct Corner {
    pub x: u32,
    pub y: u32,
    pub z: u32,
}

/// A room of an interior.
#[derive(Debug)]
pub struct RoomBits {
    pub name: String,
    /// The objects attached to the room, by their places among the entities.
    pub attached: Vec<u32>,
    pub bb_min: Corner,
    pub bb_max: Corner,
}

/// A `RoomBits` with its text.
pub struct RoomView {
    pub name: Seq<char>,
    pub attached: Seq<u32>,
    pub bb_min: Corner,
    pub bb_max: Corner,
}

impl View for RoomBits {
    type V = RoomView;

    open spec fn view(&self) -> RoomView {
        RoomView {
            name: self.name@,
            attached: self.attached@,
            bb_min: self.bb_min,
            bb_max: self.bb_max,
        }
    }
}

/// The rooms of a list, with their texts.
pub open spec fn room_views(list: Seq<RoomBits>) -> Seq<RoomView> {
    list.map_values(|r: RoomBits| r@)
}

/// A portal between two rooms.
#[derive(Debug)]
pub struct PortalBits {
    pub room_from: u32,
    pub room_to: u32,
    pub corners: Vec<Corner>,
}

/// A `PortalBits` with its list.
pub struct PortalView {
    pub room_from: u32,
    pub room_to: u32,
    pub corners: Seq<Corner>,
}

impl View for PortalBits {
    type V = PortalView;

    open spec fn view(&self) -> PortalView {
        PortalView { room_from: self.room_from, room_to: self.room_to, corners: self.corners@ }
    }
}

/// The portals of a list, with their lists.
pub open spec fn portal_views(list: Seq<PortalBits>) -> Seq<PortalView> {
    list.map_values(|p: PortalBits| p@)
}

/// Something that an interior places, its fractional numbers as bits.
#[derive(Debug, Clone, Copy, PartialEq, Eq)]
pub struct PlacedBits {
    pub archetype_hash: u32,
    pub position: Corner,
    pub rotation: [u32; 4],
    pub scale_xy: u32,
    pub scale_z: u32,
}

/// A set of entities that can be switched on.
#[derive(Debug)]
pub struct SetBits {
    pub name_hash: u32,
    pub entities: Vec<PlacedBits>,
}

/// A `SetBits` with its list.
pub struct SetView {
    pub name_hash: u32,
    pub entities: Seq<PlacedBits>,
}

impl View for SetBits {
    type V = SetView;

    open spec fn view(&self) -> SetView {
        SetView { name_hash: self.name_hash, entities: self.entities@ }
    }
}

/// The sets of a list, with their lists.
pub open spec fn set_views(list: Seq<SetBits>) -> Seq<SetView> {
    list.map_values(|s: SetBits| s@)
}

/// An interior that a type file declares.
#[derive(Debug)]
pub struct InteriorBits {
    pub name_hash: u32,
    pub rooms: Vec<RoomBits>,
    pub portals: Vec<PortalBits>,
    pub entities: Vec<PlacedBits>,
    pub entity_sets: Vec<SetBits>,
}

/// An `InteriorBits` with its texts.
pub struct InteriorView {
    pub name_hash: u32,
    pub rooms: Seq<RoomView>,
    pub portals: Seq<PortalView>,
    pub entities: Seq<PlacedBits>,
    pub entity_sets: Seq<SetView>,
}

impl View for InteriorBits {
    type V = InteriorView;

    open spec fn view(&self) -> InteriorView {
        InteriorView {
            name_hash: self.name_hash,
            rooms: room_views(self.rooms@),
            portals: portal_views(self.portals@),
            entities: self.entities@,
            entity_sets: set_views(self.entity_sets@),
        }
    }
}

/// The interiors of a list, with their texts.
pub open spec fn interior_views(list: Seq<InteriorBits>) -> Seq<InteriorView> {
    list.map_values(|m: InteriorBits| m@)
}

/// A type file: its archetypes and its interiors.
pub struct TypesView {
    pub archetypes: Seq<Archetype>,
    pub interiors: Seq<InteriorView>,
}

/// What `rage_formats::parse_ytyp` finds in a file, or what it says is wrong
/// with the file.
pub uninterp spec fn parsed_types(data: Seq<u8>) -> Result<TypesView, Seq<char>>;

/// `rage_formats::parse_ytyp`, whose result depends on the file's bytes
/// alone: the archetypes in the order of the file, their fractional numbers as
/// bits, or its error as text.
#[verifier::external_body]
fn ytyp_archetypes(data: &[u8]) -> (r: Result<Vec<Archetype>, String>)
    requires
        is_countable(data@),
    ensures
        match r {
            Ok(list) => parsed_types(data@) is Ok && parsed_types(data@)->Ok_0.archetypes == list@,
            Err(e) => parsed_types(data@) == Err::<TypesView, Seq<char>>(e@),
        },
{
    let found = rage_formats::parse_ytyp(data).map_err(|e| format!("{e:#}"))?;
    Ok(found.archetypes.iter().map(|a| Archetype {
        name_hash: a.name_hash,
        texture_dict_hash: a.texture_dict_hash,
        drawable_dictionary_hash: a.drawable_dictionary_hash,
        asset_name_hash: a.asset_name_hash,
        asset_type: a.asset_type,
        is_mlo: a.is_mlo,
        lod_dist: a.lod_dist.to_bits(),
        bounds: ArchetypeBox {
            min_x: a.bb_min.x.to_bits(), min_y: a.bb_min.y.to_bits(), min_z: a.bb_min.z.to_bits(),
            max_x: a.bb_max.x.to_bits(), max_y: a.bb_max.y.to_bits(), max_z: a.bb_max.z.to_bits(),
        },
    }).collect())
}

/// `rage_formats::parse_ytyp`, whose result depends on the file's bytes
/// alone: the names and the rooms of the interiors in the order of the file,
/// their fractional numbers as bits, or its error as text.
#[verifier::external_body]
fn ytyp_rooms(data: &[u8]) -> (r: Result<Vec<(u32, Vec<RoomBits>)>, String>)
    requires
        is_countable(data@),
    ensures
        match r {
            Ok(list) => {
                &&& parsed_types(data@) is Ok
                &&& parsed_types(data@)->Ok_0.interiors.len() == list.len()
                &&& forall|i: int|
                    0 <= i < list.len() ==> parsed_types(data@)->Ok_0.interiors[i].name_hash == (
                    #[trigger] list[i]).0 && parsed_types(data@)->Ok_0.interiors[i].rooms
                        == room_views(list[i].1@)
            },
            Err(e) => parsed_types(data@) == Err::<TypesView, Seq<char>>(e@),
        },
{
    let corner = |v: rage_formats::Vec3| Corner { x: v.x.to_bits(), y: v.y.to_bits(), z: v.z.to_bits() };
    let found = rage_formats::parse_ytyp(data).map_err(|e| format!("{e:#}"))?;
    Ok(found.mlos.into_iter().map(|m| (m.name_hash, m.rooms.into_iter().map(|r| RoomBits {
        name: r.name, attached: r.attached_objects, bb_min: corner(r.bb_min), bb_max: corner(r.bb_max),
    }).collect())).collect())
}

/// `rage_formats::parse_ytyp`, whose result depends on the file's bytes
/// alone: the portals of each interior in the order of the file, their
/// fractional numbers as bits, or its error as text.
#[verifier::external_body]
fn ytyp_portals(data: &[u8]) -> (r: Result<Vec<Vec<PortalBits>>, String>)
    requires
        is_countable(data@),
    ensures
        match r {
            Ok(list) => {
                &&& parsed_types(data@) is Ok
                &&& parsed_types(data@)->Ok_0.interiors.len() == list.len()
                &&& forall|i: int|
                    0 <= i < list.len() ==> parsed_types(data@)->Ok_0.interiors[i].portals
                        == portal_views((#[trigger] list[i])@)
            },
            Err(e) => parsed_types(data@) == Err::<TypesView, Seq<char>>(e@),
        },
{
    let corner = |v: rage_formats::Vec3| Corner { x: v.x.to_bits(), y: v.y.to_bits(), z: v.z.to_bits() };
    let found = rage_formats::parse_ytyp(data).map_err(|e| format!("{e:#}"))?;
    Ok(found.mlos.into_iter().map(|m| m.portals.into_iter().map(|p| PortalBits {
        room_from: p.room_from, room_to: p.room_to, corners: p.corners.into_iter().map(corner).collect(),
    }).collect()).collect())
}

/// `rage_formats::parse_ytyp`, whose result depends on the file's bytes
/// alone: the entities of each interior in the order of the file, their
/// fractional numbers as bits, or its error as text.
#[verifier::external_body]
fn ytyp_entities(data: &[u8]) -> (r: Result<Vec<Vec<PlacedBits>>, String>)
    requires
        is_countable(data@),
    ensures
        match r {
            Ok(list) => {
                &&& parsed_types(data@) is Ok
                &&& parsed_types(data@)->Ok_0.interiors.len() == list.len()
                &&& forall|i: int|
                    0 <= i < list.len() ==> parsed_types(data@)->Ok_0.interiors[i].entities == (
                    #[trigger] list[i])@
            },
            Err(e) => parsed_types(data@) == Err::<TypesView, Seq<char>>(e@),
        },
{
    let corner = |v: rage_formats::Vec3| Corner { x: v.x.to_bits(), y: v.y.to_bits(), z: v.z.to_bits() };
    let found = rage_formats::parse_ytyp(data).map_err(|e| format!("{e:#}"))?;
    Ok(found.mlos.into_iter().map(|m| m.entities.into_iter().map(|e| PlacedBits {
        archetype_hash: e.archetype_hash, position: corner(e.position), rotation: e.rotation.map(|c| c.to_bits()),
        scale_xy: e.scale_xy.to_bits(), scale_z: e.scale_z.to_bits(),
    }).collect()).collect())
}

/// `rage_formats::parse_ytyp`, whose result depends on the file's bytes
/// alone: the entity sets of each interior in the order of the file, their
/// fractional numbers as bits, or its error as text.
#[verifier::external_body]
fn ytyp_sets(data: &[u8]) -> (r: Result<Vec<Vec<SetBits>>, String>)
    requires
        is_countable(data@),
    ensures
        match r {
            Ok(list) => {
                &&& parsed_types(data@) is Ok
                &&& parsed_types(data@)->Ok_0.interiors.len() == list.len()
                &&& forall|i: int|
                    0 <= i < list.len() ==> parsed_types(data@)->Ok_0.interiors[i].entity_sets
                        == set_views((#[trigger] list[i])@)
            },
            Err(e) => parsed_types(data@) == Err::<TypesView, Seq<char>>(e@),
        },
{
    let corner = |v: rage_formats::Vec3| Corner { x: v.x.to_bits(), y: v.y.to_bits(), z: v.z.to_bits() };
    let found = rage_formats::parse_ytyp(data).map_err(|e| format!("{e:#}"))?;
    Ok(found.mlos.into_iter().map(|m| m.entity_sets.into_iter().map(|s| SetBits {
        name_hash: s.name_hash, entities: s.entities.into_iter().map(|e| PlacedBits {
            archetype_hash: e.archetype_hash, position: corner(e.position), rotation: e.rotation.map(|c| c.to_bits()),
            scale_xy: e.scale_xy.to_bits(), scale_z: e.scale_z.to_bits(),
        }).collect(),
    }).collect()).collect())
}

/// A type file, or what is wrong with the file.
pub open spec fn types_in(data: Seq<u8>) -> Result<TypesView, Seq<char>> {
    if is_countable(data) {
        parsed_types(data)
    } else {
        Err(TOO_LARGE@)
    }
}

/// Reads the archetypes of a type file.
pub(crate) fn parse_ytyp(data: &[u8]) -> (r: Result<Vec<Archetype>, String>)
    ensures
        match r {
            Ok(list) => types_in(data@) is Ok && types_in(data@)->Ok_0.archetypes == list@,
            Err(e) => types_in(data@) == Err::<TypesView, Seq<char>>(e@),
        },
{
    if can_count(data) {
        ytyp_archetypes(data)
    } else {
        Err(TOO_LARGE.to_owned())
    }
}

/// Reads the interiors of a type file.
pub(crate) fn parse_ytyp_interiors(data: &[u8]) -> (r: Result<Vec<InteriorBits>, String>)
    ensures
        match r {
            Ok(list) => types_in(data@) is Ok && types_in(data@)->Ok_0.interiors == interior_views(list@),
            Err(e) => types_in(data@) == Err::<TypesView, Seq<char>>(e@),
        },
{
    if !can_count(data) {
        return Err(TOO_LARGE.to_owned());
    }
    let mut rooms = match ytyp_rooms(data) {
        Ok(list) => list,
        Err(e) => return Err(e),
    };
    let mut portals = match ytyp_portals(data) {
        Ok(list) => list,
        Err(e) => return Err(e),
    };
    let mut entities = match ytyp_entities(data) {
        Ok(list) => list,
        Err(e) => return Err(e),
    };
    let mut sets = match ytyp_sets(data) {
        Ok(list) => list,
        Err(e) => return Err(e),
    };
    let ghost all = types_in(data@)->Ok_0.interiors;
    let mut out: Vec<InteriorBits> = Vec::new();
    while rooms.len() > 0
        invariant
            out.len() + rooms.len() == all.len(),
            portals.len() == rooms.len(),
            entities.len() == rooms.len(),
            sets.len() == rooms.len(),
            forall|i: int| 0 <= i < out.len() ==> (#[trigger] out[i])@ == all[i],
            forall|i: int|
                0 <= i < rooms.len() ==> all[out.len() + i].name_hash == (#[trigger] rooms[i]).0
                    && all[out.len() + i].rooms == room_views(rooms[i].1@),
            forall|i: int|
                0 <= i < portals.len() ==> all[out.len() + i].portals == portal_views(
                    (#[trigger] portals[i])@,
                ),
            forall|i: int|
                0 <= i < entities.len() ==> all[out.len() + i].entities == (#[trigger] entities[i])@,
            forall|i: int|
                0 <= i < sets.len() ==> all[out.len() + i].entity_sets == set_views((#[trigger] sets[i])@),
        decreases rooms.len(),
    {
        let (name_hash, own) = rooms.remove(0);
        let mlo = InteriorBits {
            name_hash,
            rooms: own,
            portals: portals.remove(0),
            entities: entities.remove(0),
            entity_sets: sets.remove(0),
        };
        assert(mlo@ == all[out.len() as int]);
        out.push(mlo);
    }
    assert(interior_views(out@) =~= all);
    Ok(out)
}

// ── Maps ────────────────────────────────────────────────────────────────────

/// What a map says of itself, its fractional numbers as bits.
#[derive(Debug, Clone, Copy, PartialEq, Eq, Structural)]
pub struct HeaderBits {
    pub name_hash: u32,
    /// 0 where the map has no parent.
    pub parent_hash: u32,
    pub flags: u32,
    pub content_flags: u32,
    pub streaming_min: Corner,
    pub streaming_max: Corner,
    pub entities_min: Corner,
    pub entities_max: Corner,
}

/// What `rage_formats::parse_ymap_header` finds in a file, or what it says is
/// wrong with the file.
pub uninterp spec fn parsed_map_header(data: Seq<u8>) -> Result<HeaderBits, Seq<char>>;

/// `rage_formats::parse_ymap_header`, whose result depends on the file's
/// bytes alone.
#[verifier::external_body]
fn ymap_header(data: &[u8]) -> (r: Result<HeaderBits, String>)
    requires
        is_countable(data@),
    ensures
        match r {
            Ok(h) => parsed_map_header(data@) == Ok::<HeaderBits, Seq<char>>(h),
            Err(e) => parsed_map_header(data@) == Err::<HeaderBits, Seq<char>>(e@),
        },
{
    let corner = |v: rage_formats::Vec3| Corner { x: v.x.to_bits(), y: v.y.to_bits(), z: v.z.to_bits() };
    let h = rage_formats::parse_ymap_header(data).map_err(|e| format!("{e:#}"))?;
    Ok(HeaderBits {
        name_hash: h.name_hash,
        parent_hash: h.parent_hash,
        flags: h.flags,
        content_flags: h.content_flags,
        streaming_min: corner(h.streaming_extents_min),
        streaming_max: corner(h.streaming_extents_max),
        entities_min: corner(h.entities_extents_min),
        entities_max: corner(h.entities_extents_max),
    })
}

/// The header of a map, or what is wrong with the file.
pub open spec fn map_header(data: Seq<u8>) -> Result<HeaderBits, Seq<char>> {
    if is_countable(data) {
        parsed_map_header(data)
    } else {
        Err(TOO_LARGE@)
    }
}

/// Reads the header of a map.
pub(crate) fn parse_ymap_header(data: &[u8]) -> (r: Result<HeaderBits, String>)
    ensures
        match r {
            Ok(h) => map_header(data@) == Ok::<HeaderBits, Seq<char>>(h),
            Err(e) => map_header(data@) == Err::<HeaderBits, Seq<char>>(e@),
        },
{
    if can_count(data) {
        ymap_header(data)
    } else {
        Err(TOO_LARGE.to_owned())
    }
}

/// Something that a map places, its fractional numbers as bits.
#[derive(Debug, Clone, Copy, PartialEq, Eq)]
pub struct EntityBits {
    pub archetype_hash: u32,
    pub flags: u32,
    pub guid: u32,
    pub parent_index: i32,
    pub is_mlo_instance: bool,
    pub position: Corner,
    pub rotation: [u32; 4],
    pub scale_xy: u32,
    pub scale_z: u32,
    pub lod_dist: u32,
}

/// The entities that `rage_formats::parse_ymap_entities` finds in a file, in
/// its order, or what it says is wrong with the file.
pub uninterp spec fn parsed_map_entities(data: Seq<u8>) -> Result<Seq<EntityBits>, Seq<char>>;

/// `rage_formats::parse_ymap_entities`, whose result depends on the file's
/// bytes alone.
#[verifier::external_body]
fn ymap_entities(data: &[u8]) -> (r: Result<Vec<EntityBits>, String>)
    requires
        is_countable(data@),
    ensures
        match r {
            Ok(list) => parsed_map_entities(data@) == Ok::<Seq<EntityBits>, Seq<char>>(list@),
            Err(e) => parsed_map_entities(data@) == Err::<Seq<EntityBits>, Seq<char>>(e@),
        },
{
    let corner = |v: rage_formats::Vec3| Corner { x: v.x.to_bits(), y: v.y.to_bits(), z: v.z.to_bits() };
    let found = rage_formats::parse_ymap_entities(data).map_err(|e| format!("{e:#}"))?;
    Ok(found.iter().map(|e| EntityBits {
        archetype_hash: e.archetype_hash, flags: e.flags, guid: e.guid,
        parent_index: e.parent_index, is_mlo_instance: e.is_mlo_instance,
        position: corner(e.position),
        rotation: e.rotation.map(|c| c.to_bits()),
        scale_xy: e.scale_xy.to_bits(), scale_z: e.scale_z.to_bits(), lod_dist: e.lod_dist.to_bits(),
    }).collect())
}

/// The entities of a map, or what is wrong with the file.
pub open spec fn map_entities(data: Seq<u8>) -> Result<Seq<EntityBits>, Seq<char>> {
    if is_countable(data) {
        parsed_map_entities(data)
    } else {
        Err(TOO_LARGE@)
    }
}

/// Reads the entities of a map.
pub(crate) fn parse_ymap_entities(data: &[u8]) -> (r: Result<Vec<EntityBits>, String>)
    ensures
        match r {
            Ok(list) => map_entities(data@) == Ok::<Seq<EntityBits>, Seq<char>>(list@),
            Err(e) => map_entities(data@) == Err::<Seq<EntityBits>, Seq<char>>(e@),
        },
{
    if can_count(data) {
        ymap_entities(data)
    } else {
        Err(TOO_LARGE.to_owned())
    }
}

/// An interior that a map places, its position as bits.
#[derive(Debug)]
pub struct InstanceBits {
    pub archetype_hash: u32,
    pub position: Corner,
    pub rotation: [u32; 4],
    pub scale_xy: u32,
    pub scale_z: u32,
    pub group_id: u32,
    pub floor_id: u32,
    pub default_entity_sets: Vec<u32>,
    pub num_exit_portals: u32,
}

/// An `InstanceBits` with its list.
pub struct InstanceView {
    pub archetype_hash: u32,
    pub position: Corner,
    pub rotation: [u32; 4],
    pub scale_xy: u32,
    pub scale_z: u32,
    pub group_id: u32,
    pub floor_id: u32,
    pub default_entity_sets: Seq<u32>,
    pub num_exit_portals: u32,
}

impl View for InstanceBits {
    type V = InstanceView;

    open spec fn view(&self) -> InstanceView {
        InstanceView {
            archetype_hash: self.archetype_hash,
            position: self.position,
            rotation: self.rotation,
            scale_xy: self.scale_xy,
            scale_z: self.scale_z,
            group_id: self.group_id,
            floor_id: self.floor_id,
            default_entity_sets: self.default_entity_sets@,
            num_exit_portals: self.num_exit_portals,
        }
    }
}

/// The interiors of a list, with their lists.
pub open spec fn instance_views(list: Seq<InstanceBits>) -> Seq<InstanceView> {
    list.map_values(|i: InstanceBits| i@)
}

/// The interiors that `rage_formats::parse_ymap_mlo_instances` finds in a
/// file, in its order, or what it says is wrong with the file.
pub uninterp spec fn parsed_map_instances(data: Seq<u8>) -> Result<Seq<InstanceView>, Seq<char>>;

/// `rage_formats::parse_ymap_mlo_instances`, whose result depends on the
/// file's bytes alone.
#[verifier::external_body]
fn ymap_instances(data: &[u8]) -> (r: Result<Vec<InstanceBits>, String>)
    requires
        is_countable(data@),
    ensures
        match r {
            Ok(list) => parsed_map_instances(data@) == Ok::<Seq<InstanceView>, Seq<char>>(
                instance_views(list@),
            ),
            Err(e) => parsed_map_instances(data@) == Err::<Seq<InstanceView>, Seq<char>>(e@),
        },
{
    let corner = |v: rage_formats::Vec3| Corner { x: v.x.to_bits(), y: v.y.to_bits(), z: v.z.to_bits() };
    let found = rage_formats::parse_ymap_mlo_instances(data).map_err(|e| format!("{e:#}"))?;
    Ok(found.into_iter().map(|i| InstanceBits {
        archetype_hash: i.entity.archetype_hash,
        position: corner(i.entity.position),
        rotation: i.entity.rotation.map(|c| c.to_bits()),
        scale_xy: i.entity.scale_xy.to_bits(), scale_z: i.entity.scale_z.to_bits(),
        group_id: i.group_id, floor_id: i.floor_id,
        default_entity_sets: i.default_entity_sets,
        num_exit_portals: i.num_exit_portals,
    }).collect())
}

/// The interiors that a map places, or what is wrong with the file.
pub open spec fn map_instances(data: Seq<u8>) -> Result<Seq<InstanceView>, Seq<char>> {
    if is_countable(data) {
        parsed_map_instances(data)
    } else {
        Err(TOO_LARGE@)
    }
}

/// Reads the interiors that a map places.
pub(crate) fn parse_ymap_mlo_instances(data: &[u8]) -> (r: Result<Vec<InstanceBits>, String>)
    ensures
        match r {
            Ok(list) => map_instances(data@) == Ok::<Seq<InstanceView>, Seq<char>>(
                instance_views(list@),
            ),
            Err(e) => map_instances(data@) == Err::<Seq<InstanceView>, Seq<char>>(e@),
        },
{
    if can_count(data) {
        ymap_instances(data)
    } else {
        Err(TOO_LARGE.to_owned())
    }
}

} // verus!
