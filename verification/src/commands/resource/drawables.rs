//! Textures and drawables (`.ytd`, `.ydr`, `.ydd`, `.yft`).
use vstd::prelude::*;
use vstd::string::*;
use crate::commands::resource::maps::{hash_json, json_hash};
use crate::commands::resource::numbers::{Number, Point};
use crate::formats::Texture;
use crate::json_text::{array, array_of};
use crate::text::{
    bool_of, bool_text, decimal, decimal_of, hex_digits_upper, hex_upper_of, pad_right,
    padded_right, unlines,
};
use crate::utils::{json_string, json_text};
use crate::writer::{unlines_of, write_each, written, Writes};

verus! {

// ── What a drawable holds ───────────────────────────────────────────────────

/// The bounds of a drawable.
#[derive(Debug, Clone)]
pub struct Bounds {
    pub center: Point,
    pub radius: Number,
    pub min: Point,
    pub max: Point,
    /// Measured over the vertices, since none are stored.
    pub computed: bool,
}

/// The bounds of one geometry.
#[derive(Debug, Clone)]
pub struct GeometryBounds {
    pub model: usize,
    pub geometry: usize,
    pub shader_id: u16,
    pub vertices: usize,
    pub triangles: usize,
    pub min: Point,
    pub max: Point,
    pub centroid: Point,
}

/// A level of detail.
#[derive(Debug, Clone)]
pub struct Lod {
    pub level: String,
    pub models: usize,
    pub geometries: usize,
    pub triangles: usize,
}

/// A shader of a drawable.
#[derive(Debug, Clone)]
pub struct Shader {
    pub name_hash: u32,
    pub file_name_hash: u32,
    pub render_bucket: u8,
    /// The diffuse texture, if the shader has one.
    pub diffuse: Option<String>,
}

/// The shaders of a drawable and the textures it embeds.
#[derive(Debug, Clone)]
pub struct ShaderGroup {
    pub shaders: Vec<Shader>,
    pub textures: Vec<Texture>,
}

/// The distances up to which each level of detail is drawn.
#[derive(Debug, Clone)]
pub struct LodDistances {
    pub high: Number,
    pub medium: Number,
    pub low: Number,
    pub very_low: Number,
}

/// A drawable, as its file or dictionary lists it.
#[derive(Debug, Clone)]
pub struct DrawableEntry {
    /// The name in the listing.
    pub name: String,
    pub hash: u32,
    /// The drawable's own name, empty where it has none.
    pub own_name: String,
    pub bounds: Bounds,
    pub lod_distances: LodDistances,
    /// The bounds of each geometry of the best level of detail, if there is
    /// one.
    pub geometry_bounds: Option<Vec<GeometryBounds>>,
    pub lods: Vec<Lod>,
    pub shader_group: Option<ShaderGroup>,
}

// ── Text ────────────────────────────────────────────────────────────────────

/// The name of a texture, or its hash.
pub open spec fn texture_label(tex: Texture) -> Seq<char> {
    if tex.name@.len() == 0 {
        "0x"@ + hex_digits_upper(tex.name_hash as nat, 8)
    } else {
        tex.name@
    }
}

/// The name of a texture, or its hash.
pub fn label_texture(tex: &Texture) -> (out: String)
    ensures
        out@ == texture_label(*tex),
{
    if tex.name.as_str().is_empty() {
        let mut out = String::from_str("0x");
        out.append(hex_upper_of(tex.name_hash, 8).as_str());
        out
    } else {
        tex.name.clone()
    }
}

/// The line about a texture.
pub open spec fn texture_line(tex: Texture) -> Seq<char> {
    "  "@ + texture_label(tex) + " \u{2014} "@ + decimal(tex.width as nat) + "x"@ + decimal(
        tex.height as nat,
    ) + "x"@ + decimal(tex.depth as nat) + " "@ + tex.format@ + " "@ + decimal(tex.levels as nat)
        + " mip(s) ("@ + decimal(tex.bytes as nat) + " bytes)"@
}

/// The line about a texture.
pub fn write_texture_line(tex: &Texture) -> (out: String)
    ensures
        out@ == texture_line(*tex),
{
    let mut out = String::from_str("  ");
    out.append(label_texture(tex).as_str());
    out.append(" \u{2014} ");
    out.append(decimal_of(tex.width as u64).as_str());
    out.append("x");
    out.append(decimal_of(tex.height as u64).as_str());
    out.append("x");
    out.append(decimal_of(tex.depth as u64).as_str());
    out.append(" ");
    out.append(tex.format.as_str());
    out.append(" ");
    out.append(decimal_of(tex.levels as u64).as_str());
    out.append(" mip(s) (");
    out.append(decimal_of(tex.bytes as u64).as_str());
    out.append(" bytes)");
    out
}

/// Writes an item as a line.
pub struct PlainLine;

/// Writes an item as a line of a drawable.
pub struct IndentedLine;

impl Writes<Texture> for PlainLine {
    open spec fn text_of(&self, i: nat, item: &Texture) -> Seq<char> {
        texture_line(*item)
    }

    fn write(&self, i: usize, item: &Texture) -> (out: String) {
        write_texture_line(item)
    }
}

impl Writes<Texture> for IndentedLine {
    open spec fn text_of(&self, i: nat, item: &Texture) -> Seq<char> {
        "  "@ + texture_line(*item)
    }

    fn write(&self, i: usize, item: &Texture) -> (out: String) {
        let mut out = String::from_str("  ");
        out.append(write_texture_line(item).as_str());
        out
    }
}

impl Writes<GeometryBounds> for IndentedLine {
    open spec fn text_of(&self, i: nat, item: &GeometryBounds) -> Seq<char> {
        "      #"@ + decimal(item.geometry as nat) + " model "@ + decimal(item.model as nat)
            + " shader "@ + decimal(item.shader_id as nat) + "   "@ + decimal(item.triangles as nat)
            + " tris, "@ + decimal(item.vertices as nat) + " verts\n           min "@ + item.min.text()
            + " max "@ + item.max.text() + " centroid "@ + item.centroid.text()
    }

    fn write(&self, i: usize, item: &GeometryBounds) -> (out: String) {
        let mut out = String::from_str("      #");
        out.append(decimal_of(item.geometry as u64).as_str());
        out.append(" model ");
        out.append(decimal_of(item.model as u64).as_str());
        out.append(" shader ");
        out.append(decimal_of(item.shader_id as u64).as_str());
        out.append("   ");
        out.append(decimal_of(item.triangles as u64).as_str());
        out.append(" tris, ");
        out.append(decimal_of(item.vertices as u64).as_str());
        out.append(" verts\n           min ");
        out.append(item.min.show().as_str());
        out.append(" max ");
        out.append(item.max.show().as_str());
        out.append(" centroid ");
        out.append(item.centroid.show().as_str());
        out
    }
}

impl Writes<Lod> for IndentedLine {
    open spec fn text_of(&self, i: nat, item: &Lod) -> Seq<char> {
        "    "@ + pad_right(item.level@ + ":"@, ' ', 8) + " "@ + decimal(item.models as nat)
            + " models, "@ + decimal(item.geometries as nat) + " geometries, "@ + decimal(
            item.triangles as nat,
        ) + " triangles"@
    }

    fn write(&self, i: usize, item: &Lod) -> (out: String) {
        let mut level = item.level.clone();
        level.append(":");
        let mut out = String::from_str("    ");
        out.append(padded_right(level.as_str(), ' ', 8).as_str());
        out.append(" ");
        out.append(decimal_of(item.models as u64).as_str());
        out.append(" models, ");
        out.append(decimal_of(item.geometries as u64).as_str());
        out.append(" geometries, ");
        out.append(decimal_of(item.triangles as u64).as_str());
        out.append(" triangles");
        out
    }
}

/// The diffuse texture of a shader, a dash for none.
pub open spec fn diffuse_text(diffuse: Option<String>) -> Seq<char> {
    match diffuse {
        Some(d) => d@,
        None => "-"@,
    }
}

impl Writes<Shader> for IndentedLine {
    open spec fn text_of(&self, i: nat, item: &Shader) -> Seq<char> {
        "      #"@ + pad_right(decimal(i), ' ', 3) + " name 0x"@ + hex_digits_upper(
            item.name_hash as nat,
            8,
        ) + "  file 0x"@ + hex_digits_upper(item.file_name_hash as nat, 8) + "  bucket "@ + decimal(
            item.render_bucket as nat,
        ) + "  diffuse "@ + diffuse_text(item.diffuse)
    }

    fn write(&self, i: usize, item: &Shader) -> (out: String) {
        let mut out = String::from_str("      #");
        out.append(padded_right(decimal_of(i as u64).as_str(), ' ', 3).as_str());
        out.append(" name 0x");
        out.append(hex_upper_of(item.name_hash, 8).as_str());
        out.append("  file 0x");
        out.append(hex_upper_of(item.file_name_hash, 8).as_str());
        out.append("  bucket ");
        out.append(decimal_of(item.render_bucket as u64).as_str());
        out.append("  diffuse ");
        match &item.diffuse {
            Some(d) => {
                out.append(d.as_str());
            },
            None => {
                out.append("-");
            },
        }
        out
    }
}

impl DrawableEntry {
    /// The drawable's own name, or the one in the listing.
    pub open spec fn label(self) -> Seq<char> {
        if self.own_name@.len() == 0 {
            self.name@
        } else {
            self.own_name@
        }
    }

    fn show_label(&self) -> (out: &str)
        ensures
            out@ == self.label(),
    {
        if self.own_name.as_str().is_empty() {
            self.name.as_str()
        } else {
            self.own_name.as_str()
        }
    }
}

/// The lines about the name, the bounds and the distances of a drawable.
pub open spec fn drawable_head(entry: DrawableEntry) -> Seq<char> {
    let b = entry.bounds;
    let d = entry.lod_distances;
    "\n  "@ + entry.label() + " (0x"@ + hex_digits_upper(entry.hash as nat, 8)
        + ")\n    bounds:   center "@ + b.center.text() + " radius "@ + b.radius.shown@ + (if b.computed {
        " (computed)"@
    } else {
        ""@
    }) + "\n              min "@ + b.min.text() + " max "@ + b.max.text() + "\n    lod dist: "@
        + d.high.shown@ + " / "@ + d.medium.shown@ + " / "@ + d.low.shown@ + " / "@ + d.very_low.shown@
        + "\n"@
}

fn write_drawable_head(entry: &DrawableEntry) -> (out: String)
    ensures
        out@ == drawable_head(*entry),
{
    let b = &entry.bounds;
    let d = &entry.lod_distances;
    let mut out = String::from_str("\n  ");
    out.append(entry.show_label());
    out.append(" (0x");
    out.append(hex_upper_of(entry.hash, 8).as_str());
    out.append(")\n    bounds:   center ");
    out.append(b.center.show().as_str());
    out.append(" radius ");
    out.append(b.radius.shown.as_str());
    if b.computed {
        out.append(" (computed)");
    } else {
        out.append("");
    }
    out.append("\n              min ");
    out.append(b.min.show().as_str());
    out.append(" max ");
    out.append(b.max.show().as_str());
    out.append("\n    lod dist: ");
    out.append(d.high.shown.as_str());
    out.append(" / ");
    out.append(d.medium.shown.as_str());
    out.append(" / ");
    out.append(d.low.shown.as_str());
    out.append(" / ");
    out.append(d.very_low.shown.as_str());
    out.append("\n");
    out
}

/// The lines about the geometries of a drawable, where they are asked for and
/// there are any.
pub open spec fn geometry_text(bounds: Option<Vec<GeometryBounds>>, verbose: bool) -> Seq<char> {
    match bounds {
        Some(list) => if verbose && list.len() > 0 {
            "    geometry bounds:\n"@ + unlines(written(IndentedLine, list@))
        } else {
            ""@
        },
        None => ""@,
    }
}

fn write_geometry(bounds: &Option<Vec<GeometryBounds>>, verbose: bool) -> (out: String)
    ensures
        out@ == geometry_text(*bounds, verbose),
{
    let mut out = String::from_str("");
    if let Some(list) = bounds {
        if verbose && list.len() > 0 {
            out = String::from_str("    geometry bounds:\n");
            out.append(unlines_of(&write_each(&IndentedLine, list)).as_str());
        }
    }
    out
}

/// The lines about the shaders and the embedded textures of a drawable.
pub open spec fn shaders_text(group: Option<ShaderGroup>) -> Seq<char> {
    match group {
        Some(g) => "    shaders:  "@ + decimal(g.shaders@.len()) + "\n"@ + unlines(
            written(IndentedLine, g.shaders@),
        ) + "    embedded textures: "@ + decimal(g.textures@.len()) + "\n"@ + unlines(
            written(IndentedLine, g.textures@),
        ),
        None => "    shaders:  none\n"@,
    }
}

fn write_shaders(group: &Option<ShaderGroup>) -> (out: String)
    ensures
        out@ == shaders_text(*group),
{
    match group {
        Some(g) => {
            let mut out = String::from_str("    shaders:  ");
            out.append(decimal_of(g.shaders.len() as u64).as_str());
            out.append("\n");
            out.append(unlines_of(&write_each(&IndentedLine, &g.shaders)).as_str());
            out.append("    embedded textures: ");
            out.append(decimal_of(g.textures.len() as u64).as_str());
            out.append("\n");
            out.append(unlines_of(&write_each(&IndentedLine, &g.textures)).as_str());
            out
        },
        None => String::from_str("    shaders:  none\n"),
    }
}

/// What is printed of a drawable.
pub open spec fn drawable_text(entry: DrawableEntry, verbose: bool) -> Seq<char> {
    drawable_head(entry) + geometry_text(entry.geometry_bounds, verbose) + unlines(
        written(IndentedLine, entry.lods@),
    ) + shaders_text(entry.shader_group)
}

/// Prints a drawable; the bounds of each geometry only where `verbose`.
pub fn write_drawable(entry: &DrawableEntry, verbose: bool) -> (out: String)
    ensures
        out@ == drawable_text(*entry, verbose),
{
    let mut out = write_drawable_head(entry);
    out.append(write_geometry(&entry.geometry_bounds, verbose).as_str());
    out.append(unlines_of(&write_each(&IndentedLine, &entry.lods)).as_str());
    out.append(write_shaders(&entry.shader_group).as_str());
    out
}

// ── JSON ────────────────────────────────────────────────────────────────────

/// Writes an item as a JSON value.
pub struct DrawableJson {
    pub verbose: bool,
}

impl Writes<Texture> for DrawableJson {
    open spec fn text_of(&self, i: nat, item: &Texture) -> Seq<char> {
        "{\"name\":"@ + json_text(item.name@) + ",\"hash\":"@ + hash_json(item.name_hash)
            + ",\"width\":"@ + decimal(item.width as nat) + ",\"height\":"@ + decimal(item.height as nat)
            + ",\"depth\":"@ + decimal(item.depth as nat) + ",\"format\":\""@ + item.format@
            + "\",\"mips\":"@ + decimal(item.levels as nat) + ",\"bytes\":"@ + decimal(item.bytes as nat)
            + "}"@
    }

    fn write(&self, i: usize, item: &Texture) -> (out: String) {
        let mut out = String::from_str("{\"name\":");
        out.append(json_string(item.name.as_str()).as_str());
        out.append(",\"hash\":");
        out.append(json_hash(item.name_hash).as_str());
        out.append(",\"width\":");
        out.append(decimal_of(item.width as u64).as_str());
        out.append(",\"height\":");
        out.append(decimal_of(item.height as u64).as_str());
        out.append(",\"depth\":");
        out.append(decimal_of(item.depth as u64).as_str());
        out.append(",\"format\":\"");
        out.append(item.format.as_str());
        out.append("\",\"mips\":");
        out.append(decimal_of(item.levels as u64).as_str());
        out.append(",\"bytes\":");
        out.append(decimal_of(item.bytes as u64).as_str());
        out.append("}");
        out
    }
}

/// Textures as a JSON array.
pub open spec fn textures_json(list: Seq<Texture>) -> Seq<char> {
    array(written(DrawableJson { verbose: false }, list))
}

/// Textures as a JSON array.
pub fn json_textures(list: &Vec<Texture>) -> (out: String)
    ensures
        out@ == textures_json(list@),
{
    array_of(&write_each(&DrawableJson { verbose: false }, list))
}

impl Writes<GeometryBounds> for DrawableJson {
    open spec fn text_of(&self, i: nat, item: &GeometryBounds) -> Seq<char> {
        "{\"model\":"@ + decimal(item.model as nat) + ",\"geometry\":"@ + decimal(item.geometry as nat)
            + ",\"shader\":"@ + decimal(item.shader_id as nat) + ",\"vertices\":"@ + decimal(
            item.vertices as nat,
        ) + ",\"triangles\":"@ + decimal(item.triangles as nat) + ",\"min\":"@ + item.min.as_json()
            + ",\"max\":"@ + item.max.as_json() + ",\"centroid\":"@ + item.centroid.as_json() + "}"@
    }

    fn write(&self, i: usize, item: &GeometryBounds) -> (out: String) {
        let mut out = String::from_str("{\"model\":");
        out.append(decimal_of(item.model as u64).as_str());
        out.append(",\"geometry\":");
        out.append(decimal_of(item.geometry as u64).as_str());
        out.append(",\"shader\":");
        out.append(decimal_of(item.shader_id as u64).as_str());
        out.append(",\"vertices\":");
        out.append(decimal_of(item.vertices as u64).as_str());
        out.append(",\"triangles\":");
        out.append(decimal_of(item.triangles as u64).as_str());
        out.append(",\"min\":");
        out.append(item.min.json().as_str());
        out.append(",\"max\":");
        out.append(item.max.json().as_str());
        out.append(",\"centroid\":");
        out.append(item.centroid.json().as_str());
        out.append("}");
        out
    }
}

/// The bounds of geometries as a JSON array.
pub fn json_geometry_bounds(list: &Vec<GeometryBounds>) -> (out: String)
    ensures
        out@ == array(written(DrawableJson { verbose: false }, list@)),
{
    array_of(&write_each(&DrawableJson { verbose: false }, list))
}

impl Writes<Lod> for DrawableJson {
    open spec fn text_of(&self, i: nat, item: &Lod) -> Seq<char> {
        "{\"level\":\""@ + item.level@ + "\",\"models\":"@ + decimal(item.models as nat)
            + ",\"geometries\":"@ + decimal(item.geometries as nat) + ",\"triangles\":"@ + decimal(
            item.triangles as nat,
        ) + "}"@
    }

    fn write(&self, i: usize, item: &Lod) -> (out: String) {
        let mut out = String::from_str("{\"level\":\"");
        out.append(item.level.as_str());
        out.append("\",\"models\":");
        out.append(decimal_of(item.models as u64).as_str());
        out.append(",\"geometries\":");
        out.append(decimal_of(item.geometries as u64).as_str());
        out.append(",\"triangles\":");
        out.append(decimal_of(item.triangles as u64).as_str());
        out.append("}");
        out
    }
}

/// The diffuse texture of a shader as a JSON value.
pub open spec fn diffuse_json(diffuse: Option<String>) -> Seq<char> {
    match diffuse {
        Some(d) => json_text(d@),
        None => "null"@,
    }
}

impl Writes<Shader> for DrawableJson {
    open spec fn text_of(&self, i: nat, item: &Shader) -> Seq<char> {
        "{\"id\":"@ + decimal(i) + ",\"name_hash\":"@ + hash_json(item.name_hash)
            + ",\"file_name_hash\":"@ + hash_json(item.file_name_hash) + ",\"render_bucket\":"@ + decimal(
            item.render_bucket as nat,
        ) + ",\"diffuse\":"@ + diffuse_json(item.diffuse) + "}"@
    }

    fn write(&self, i: usize, item: &Shader) -> (out: String) {
        let mut out = String::from_str("{\"id\":");
        out.append(decimal_of(i as u64).as_str());
        out.append(",\"name_hash\":");
        out.append(json_hash(item.name_hash).as_str());
        out.append(",\"file_name_hash\":");
        out.append(json_hash(item.file_name_hash).as_str());
        out.append(",\"render_bucket\":");
        out.append(decimal_of(item.render_bucket as u64).as_str());
        out.append(",\"diffuse\":");
        match &item.diffuse {
            Some(d) => {
                out.append(json_string(d.as_str()).as_str());
            },
            None => {
                out.append("null");
            },
        }
        out.append("}");
        out
    }
}

/// The member with the bounds of the geometries, where they are asked for and
/// the drawable has a level of detail.
pub open spec fn geometry_json(bounds: Option<Vec<GeometryBounds>>, verbose: bool) -> Seq<char> {
    match bounds {
        Some(list) => if verbose {
            ",\"geometry_bounds\":"@ + array(written(DrawableJson { verbose: false }, list@))
        } else {
            ""@
        },
        None => ""@,
    }
}

fn json_geometry(bounds: &Option<Vec<GeometryBounds>>, verbose: bool) -> (out: String)
    ensures
        out@ == geometry_json(*bounds, verbose),
{
    let mut out = String::from_str("");
    if let Some(list) = bounds {
        if verbose {
            out = String::from_str(",\"geometry_bounds\":");
            out.append(json_geometry_bounds(list).as_str());
        }
    }
    out
}

/// The bounds and the distances of a drawable as members.
pub open spec fn bounds_json(entry: DrawableEntry, verbose: bool) -> Seq<char> {
    let b = entry.bounds;
    let d = entry.lod_distances;
    ",\"bounds\":{\"center\":"@ + b.center.as_json() + ",\"radius\":"@ + b.radius.json@ + ",\"min\":"@
        + b.min.as_json() + ",\"max\":"@ + b.max.as_json() + ",\"computed\":"@ + bool_text(b.computed)
        + "}"@ + geometry_json(entry.geometry_bounds, verbose) + ",\"lod_distances\":["@ + d.high.json@
        + ","@ + d.medium.json@ + ","@ + d.low.json@ + ","@ + d.very_low.json@ + "]"@
}

fn json_bounds(entry: &DrawableEntry, verbose: bool) -> (out: String)
    ensures
        out@ == bounds_json(*entry, verbose),
{
    let b = &entry.bounds;
    let d = &entry.lod_distances;
    let mut out = String::from_str(",\"bounds\":{\"center\":");
    out.append(b.center.json().as_str());
    out.append(",\"radius\":");
    out.append(b.radius.json.as_str());
    out.append(",\"min\":");
    out.append(b.min.json().as_str());
    out.append(",\"max\":");
    out.append(b.max.json().as_str());
    out.append(",\"computed\":");
    out.append(bool_of(b.computed));
    out.append("}");
    out.append(json_geometry(&entry.geometry_bounds, verbose).as_str());
    out.append(",\"lod_distances\":[");
    out.append(d.high.json.as_str());
    out.append(",");
    out.append(d.medium.json.as_str());
    out.append(",");
    out.append(d.low.json.as_str());
    out.append(",");
    out.append(d.very_low.json.as_str());
    out.append("]");
    out
}

/// The shaders and the textures of a drawable as members.
pub open spec fn shaders_json(group: Option<ShaderGroup>) -> Seq<char> {
    match group {
        Some(g) => ",\"shaders\":"@ + array(written(DrawableJson { verbose: false }, g.shaders@))
            + ",\"textures\":"@ + textures_json(g.textures@),
        None => ",\"shaders\":[],\"textures\":[]"@,
    }
}

fn json_shaders(group: &Option<ShaderGroup>) -> (out: String)
    ensures
        out@ == shaders_json(*group),
{
    match group {
        Some(g) => {
            let mut out = String::from_str(",\"shaders\":");
            out.append(array_of(&write_each(&DrawableJson { verbose: false }, &g.shaders)).as_str());
            out.append(",\"textures\":");
            out.append(json_textures(&g.textures).as_str());
            out
        },
        None => String::from_str(",\"shaders\":[],\"textures\":[]"),
    }
}

/// A drawable as a JSON value.
pub open spec fn drawable_json(entry: DrawableEntry, verbose: bool) -> Seq<char> {
    "{\"name\":"@ + json_text(entry.label()) + ",\"hash\":"@ + hash_json(entry.hash) + bounds_json(
        entry,
        verbose,
    ) + ",\"lods\":"@ + array(written(DrawableJson { verbose: false }, entry.lods@)) + shaders_json(
        entry.shader_group,
    ) + "}"@
}

/// A drawable as a JSON value; the bounds of each geometry only where
/// `verbose`.
pub fn json_drawable(entry: &DrawableEntry, verbose: bool) -> (out: String)
    ensures
        out@ == drawable_json(*entry, verbose),
{
    let mut out = String::from_str("{\"name\":");
    out.append(json_string(entry.show_label()).as_str());
    out.append(",\"hash\":");
    out.append(json_hash(entry.hash).as_str());
    out.append(json_bounds(entry, verbose).as_str());
    out.append(",\"lods\":");
    out.append(array_of(&write_each(&DrawableJson { verbose: false }, &entry.lods)).as_str());
    out.append(json_shaders(&entry.shader_group).as_str());
    out.append("}");
    out
}

impl Writes<DrawableEntry> for DrawableJson {
    open spec fn text_of(&self, i: nat, item: &DrawableEntry) -> Seq<char> {
        drawable_json(*item, self.verbose)
    }

    fn write(&self, i: usize, item: &DrawableEntry) -> (out: String) {
        json_drawable(item, self.verbose)
    }
}

} // verus!
