//! `rage navmesh`: what is printed of a navmesh cell, which archive's copy of
//! a cell is taken, and cells and collision as OBJ files.
use std::collections::HashSet;
use vstd::prelude::*;
use vstd::string::*;
use crate::cells::{
    cell_in, is_same_cell, read_navmesh, rewrite_cell, rewritten_in, Cell, CellPolyView, CellView,
};
use crate::commands::extract::{is_archive, Nested, Packed};
use crate::file_names::{before_dot, without_extension};
use crate::hash::{joaat, rage_joaat};
use crate::order::{ascending, sorted_numbers};
use crate::text::{
    contains, decimal, decimal_of, ends_with, has_text, join, join_with, lowercase, signed_decimal,
    signed_of, texts, to_lowercase, unlines,
};
use crate::writer::{unlines_of, write_each, written, Writes};

verus! {

// ── Arguments ───────────────────────────────────────────────────────────────

/// Swallows whatever an old `navmesh plot` line carried.
#[derive(Debug)]
pub struct MovedPlotArgs {
    pub rest: Vec<String>,
}

impl MovedPlotArgs {
    /// Where plotting went.
    pub fn message(&self) -> (out: &'static str)
        ensures
            out@ == "`navmesh plot` was replaced by `rage plot`; see `rage plot --help`"@,
    {
        "`navmesh plot` was replaced by `rage plot`; see `rage plot --help`"
    }
}

/// The arguments of `rage navmesh info`.
#[derive(Debug)]
pub struct InfoArgs {
    pub file: String,
    /// The archive to look the file up in, instead of on disk.
    pub archive: Option<String>,
}

/// The arguments of `rage navmesh cell`.
#[derive(Debug)]
pub struct CellArgs {
    /// A world position inside the cell.
    pub at: Option<String>,
    /// The index of the cell.
    pub index: Option<String>,
    pub output: Option<String>,
}

/// The arguments of `rage navmesh export`.
#[derive(Debug)]
pub struct ExportArgs {
    pub file: String,
    pub output: String,
}

/// The arguments of `rage navmesh ybn-obj`.
#[derive(Debug)]
pub struct YbnObjArgs {
    pub file: String,
    /// The map that places the collision.
    pub ymap: Option<String>,
    pub output: String,
}

/// How a cell is named.
#[derive(Debug)]
pub enum CellChoice {
    At(String),
    Index(String),
    Unnamed,
}

impl CellArgs {
    /// Decides how the cell is named: a position goes before an index.
    pub fn choice(&self) -> (r: CellChoice)
        ensures
            match (self.at, self.index) {
                (Some(at), _) => r matches CellChoice::At(s) && s@ == at@,
                (None, Some(index)) => r matches CellChoice::Index(s) && s@ == index@,
                (None, None) => r is Unnamed,
            },
    {
        match (&self.at, &self.index) {
            (Some(at), _) => CellChoice::At(at.clone()),
            (None, Some(index)) => CellChoice::Index(index.clone()),
            (None, None) => CellChoice::Unnamed,
        }
    }
}

// ── Cells ───────────────────────────────────────────────────────────────────

/// The name of the file of a cell: its coordinates times three.
pub open spec fn cell_name(cx: nat, cy: nat) -> Seq<char> {
    "navmesh["@ + decimal(cx * 3) + "]["@ + decimal(cy * 3) + "].ynv"@
}

/// `rage_formats::cell_file_name`: the name of the file of a cell.
#[verifier::external_body]
pub(crate) fn cell_file_name(cx: u32, cy: u32) -> (out: String)
    requires
        cx * 3 <= u32::MAX,
        cy * 3 <= u32::MAX,
    ensures
        out@ == cell_name(cx as nat, cy as nat),
{
    rage_formats::cell_file_name(cx, cy)
}

/// The name of the file of a cell of the grid, which has 100 cells each way.
pub fn grid_cell_name(cx: u32, cy: u32) -> (r: Option<String>)
    ensures
        r is Some <==> cx < 100 && cy < 100,
        r matches Some(name) ==> name@ == cell_name(cx as nat, cy as nat),
{
    if cx < 100 && cy < 100 {
        Some(cell_file_name(cx, cy))
    } else {
        None
    }
}

/// The number of an area that is a cell of the grid: the column, then the row.
pub open spec fn cell_of(area_id: u32) -> Option<(u32, u32)> {
    if area_id >= 10000 {
        None
    } else {
        Some((area_id % 100, area_id / 100))
    }
}

/// A polygon of a navmesh.
#[derive(Debug)]
pub struct NavPoly {
    pub interior: bool,
    pub flat_ground: bool,
    pub footpath: bool,
    pub road: bool,
    pub water: bool,
    /// The area that each edge leads to, where it leads anywhere.
    pub links: Vec<Option<u32>>,
}

/// What is printed of a navmesh.
#[derive(Debug)]
pub struct NavInfo {
    pub area_id: u32,
    pub content_flags: u32,
    /// The corners of its bounds, as they are shown.
    pub bb_min: String,
    pub bb_max: String,
    pub polys: Vec<NavPoly>,
    pub portals: usize,
    pub points: usize,
}

/// Where an edge leads, if it leads anywhere.
pub open spec fn link_of(end: (bool, u32)) -> Option<u32> {
    if end.0 {
        None
    } else {
        Some(end.1)
    }
}

/// What is printed of a polygon of a cell.
pub open spec fn is_poly_of(p: NavPoly, c: CellPolyView) -> bool {
    &&& p.interior == c.interior
    &&& p.flat_ground == c.flat_ground
    &&& p.footpath == c.footpath
    &&& p.road == c.road
    &&& p.water == c.water
    &&& p.links@ == c.ends.map_values(|e: (bool, u32)| link_of(e))
}

/// What is printed of a cell whose bounds are shown by the given texts.
pub open spec fn is_info_of(nav: NavInfo, cell: CellView, bb_min: Seq<char>, bb_max: Seq<char>) -> bool {
    &&& nav.area_id == cell.header.area_id
    &&& nav.content_flags == cell.header.content_flags
    &&& nav.bb_min@ == bb_min
    &&& nav.bb_max@ == bb_max
    &&& nav.portals == cell.header.portals
    &&& nav.points == cell.header.points
    &&& nav.polys.len() == cell.polys.len()
    &&& forall|i: int|
        0 <= i < cell.polys.len() ==> is_poly_of(#[trigger] nav.polys[i], cell.polys[i])
}

fn links_of(ends: &Vec<(bool, u32)>) -> (out: Vec<Option<u32>>)
    ensures
        out@ == ends@.map_values(|e: (bool, u32)| link_of(e)),
{
    let mut out: Vec<Option<u32>> = Vec::new();
    let mut i: usize = 0;
    while i < ends.len()
        invariant
            i <= ends.len(),
            out.len() == i,
            forall|k: int| 0 <= k < i ==> out[k] == link_of(#[trigger] ends[k]),
        decreases ends.len() - i,
    {
        let end = ends[i];
        if end.0 {
            out.push(None);
        } else {
            out.push(Some(end.1));
        }
        i = i + 1;
    }
    assert(out@ =~= ends@.map_values(|e: (bool, u32)| link_of(e)));
    out
}

/// What is printed of a cell whose bounds are shown by the given texts.
pub fn info_of(cell: &Cell, bb_min: &str, bb_max: &str) -> (nav: NavInfo)
    ensures
        is_info_of(nav, cell@, bb_min@, bb_max@),
{
    let mut polys: Vec<NavPoly> = Vec::new();
    let mut i: usize = 0;
    while i < cell.polys.len()
        invariant
            i <= cell.polys.len(),
            polys.len() == i,
            forall|k: int| 0 <= k < i ==> is_poly_of(#[trigger] polys[k], cell.polys[k]@),
        decreases cell.polys.len() - i,
    {
        let p = &cell.polys[i];
        polys.push(
            NavPoly {
                interior: p.interior,
                flat_ground: p.flat_ground,
                footpath: p.footpath,
                road: p.road,
                water: p.water,
                links: links_of(&p.ends),
            },
        );
        i = i + 1;
    }
    NavInfo {
        area_id: cell.header.area_id,
        content_flags: cell.header.content_flags,
        bb_min: bb_min.to_owned(),
        bb_max: bb_max.to_owned(),
        polys,
        portals: cell.header.portals,
        points: cell.header.points,
    }
}

/// Reads the cell in a file; `what` names the file.
pub fn read_cell(what: &str, data: &[u8]) -> (r: Result<Cell, String>)
    ensures
        match r {
            Ok(cell) => cell_in(data@) == Ok::<CellView, Seq<char>>(cell@),
            Err(e) => cell_in(data@) is Err && e@ == "parsing '"@ + what@ + "': "@ + cell_in(data@)->Err_0,
        },
{
    match read_navmesh(data) {
        Ok(cell) => Ok(cell),
        Err(reason) => {
            let mut e = String::from_str("parsing '");
            e.append(what);
            e.append("': ");
            e.append(reason.as_str());
            Err(e)
        },
    }
}

/// The kinds of polygons that are counted.
#[derive(Debug, Clone, Copy, PartialEq, Eq, Structural)]
pub enum PolyKind {
    Interior,
    FlatGround,
    Footpath,
    Road,
    Water,
}

/// The polygon is of the kind.
pub open spec fn is_kind(p: NavPoly, kind: PolyKind) -> bool {
    match kind {
        PolyKind::Interior => p.interior,
        PolyKind::FlatGround => p.flat_ground,
        PolyKind::Footpath => p.footpath,
        PolyKind::Road => p.road,
        PolyKind::Water => p.water,
    }
}

/// The number of polygons of a kind.
pub open spec fn kind_count(polys: Seq<NavPoly>, kind: PolyKind) -> nat
    decreases polys.len(),
{
    if polys.len() == 0 {
        0
    } else {
        kind_count(polys.drop_last(), kind) + (if is_kind(polys.last(), kind) {
            1nat
        } else {
            0
        })
    }
}

fn count_kind(polys: &Vec<NavPoly>, kind: PolyKind) -> (n: usize)
    ensures
        n == kind_count(polys@, kind),
{
    let mut n: usize = 0;
    let mut i: usize = 0;
    assert(polys@.take(0) =~= Seq::empty());
    while i < polys.len()
        invariant
            i <= polys.len(),
            n <= i,
            n == kind_count(polys@.take(i as int), kind),
        decreases polys.len() - i,
    {
        proof {
            assert(polys@.take(i + 1).drop_last() =~= polys@.take(i as int));
            assert(polys@.take(i + 1).last() == polys[i as int]);
        }
        let p = &polys[i];
        let hit: bool = match kind {
            PolyKind::Interior => p.interior,
            PolyKind::FlatGround => p.flat_ground,
            PolyKind::Footpath => p.footpath,
            PolyKind::Road => p.road,
            PolyKind::Water => p.water,
        };
        if hit {
            n = n + 1;
        }
        i = i + 1;
    }
    assert(polys@.take(polys.len() as int) =~= polys@);
    n
}

/// The number of edges that lead somewhere.
pub open spec fn linked_in(links: Seq<Option<u32>>) -> nat
    decreases links.len(),
{
    if links.len() == 0 {
        0
    } else {
        linked_in(links.drop_last()) + (if links.last() is Some {
            1nat
        } else {
            0
        })
    }
}

/// The number of edges that lead into another area.
pub open spec fn foreign_in(links: Seq<Option<u32>>, area: u32) -> nat
    decreases links.len(),
{
    if links.len() == 0 {
        0
    } else {
        foreign_in(links.drop_last(), area) + (if links.last() is Some && links.last() != Some(area) {
            1nat
        } else {
            0
        })
    }
}

/// The areas that edges lead to.
pub open spec fn areas_in(links: Seq<Option<u32>>) -> Set<u32> {
    Set::new(|a: u32| links.contains(Some(a)))
}

/// The edges of some polygons, one after another.
pub open spec fn all_links(polys: Seq<NavPoly>) -> Seq<Option<u32>>
    decreases polys.len(),
{
    if polys.len() == 0 {
        Seq::empty()
    } else {
        all_links(polys.drop_last()) + polys.last().links@
    }
}

/// The edges of some polygons, one after another.
fn collect_links(polys: &Vec<NavPoly>) -> (out: Vec<Option<u32>>)
    ensures
        out@ == all_links(polys@),
{
    let mut out: Vec<Option<u32>> = Vec::new();
    let mut i: usize = 0;
    assert(polys@.take(0) =~= Seq::empty());
    while i < polys.len()
        invariant
            i <= polys.len(),
            out@ == all_links(polys@.take(i as int)),
        decreases polys.len() - i,
    {
        proof {
            assert(polys@.take(i + 1).drop_last() =~= polys@.take(i as int));
            assert(polys@.take(i + 1).last() == polys[i as int]);
        }
        let links = &polys[i].links;
        let ghost before = out@;
        let mut j: usize = 0;
        assert(before + links@.take(0) =~= before);
        while j < links.len()
            invariant
                j <= links.len(),
                out@ == before + links@.take(j as int),
            decreases links.len() - j,
        {
            out.push(links[j]);
            assert(links@.take(j + 1) =~= links@.take(j as int).push(links[j as int]));
            assert(out@ =~= before + links@.take(j + 1));
            j = j + 1;
        }
        assert(links@.take(links.len() as int) =~= links@);
        i = i + 1;
    }
    assert(polys@.take(polys.len() as int) =~= polys@);
    out
}

/// What the edges of a navmesh come to.
struct LinkCounts {
    linked: usize,
    foreign: usize,
    areas: Vec<u32>,
}

fn count_links(links: &Vec<Option<u32>>, area: u32) -> (r: LinkCounts)
    ensures
        r.linked == linked_in(links@),
        r.foreign == foreign_in(links@, area),
        r.areas@ == ascending(areas_in(links@)),
{
    let mut linked: usize = 0;
    let mut foreign: usize = 0;
    let mut areas: HashSet<u32> = HashSet::new();
    let mut list: Vec<u32> = Vec::new();
    let mut i: usize = 0;
    assert(links@.take(0) =~= Seq::empty());
    assert(areas@ =~= areas_in(links@.take(0)));
    while i < links.len()
        invariant
            i <= links.len(),
            linked <= i,
            foreign <= i,
            linked == linked_in(links@.take(i as int)),
            foreign == foreign_in(links@.take(i as int), area),
            areas@ == areas_in(links@.take(i as int)),
            list@.no_duplicates(),
            forall|a: u32| areas@.contains(a) <==> #[trigger] list@.contains(a),
        decreases links.len() - i,
    {
        let ghost before = links@.take(i as int);
        let ghost now = links@.take(i + 1);
        proof {
            assert(now.drop_last() =~= before);
            assert(now.last() == links[i as int]);
            assert(now =~= before.push(links[i as int]));
        }
        if let Some(a) = links[i] {
            linked = linked + 1;
            if a != area {
                foreign = foreign + 1;
            }
            if !areas.contains(&a) {
                let ghost had = list@;
                areas.insert(a);
                list.push(a);
                proof {
                    assert(!had.contains(a));
                    assert(list@ =~= had.push(a));
                    assert forall|b: u32| areas@.contains(b) <==> #[trigger] list@.contains(b) by {
                        assert(list@[had.len() as int] == a);
                        if had.contains(b) {
                            let k = choose|k: int| 0 <= k < had.len() && had[k] == b;
                            assert(list@[k] == b);
                        }
                        if list@.contains(b) && b != a {
                            let k = choose|k: int| 0 <= k < list@.len() && list@[k] == b;
                            assert(had[k] == b);
                        }
                    }
                }
            }
        }
        assert(areas@ =~= areas_in(now)) by {
            assert forall|a: u32| areas@.contains(a) <==> areas_in(now).contains(a) by {
                if before.contains(Some(a)) {
                    let k = choose|k: int| 0 <= k < before.len() && before[k] == Some(a);
                    assert(now[k] == Some(a));
                }
                if now.contains(Some(a)) {
                    let k = choose|k: int| 0 <= k < now.len() && now[k] == Some(a);
                    if k < before.len() {
                        assert(before[k] == Some(a));
                    }
                }
                if links[i as int] == Some(a) {
                    assert(now[i as int] == Some(a));
                }
            }
        }
        i = i + 1;
    }
    assert(links@.take(links.len() as int) =~= links@);
    assert(list@.to_set() =~= areas@) by {
        assert forall|a: u32| list@.to_set().contains(a) <==> areas@.contains(a) by {
            assert(list@.to_set().contains(a) <==> list@.contains(a));
        }
    }
    LinkCounts { linked, foreign, areas: sorted_numbers(&list) }
}

/// The names of a navmesh's content flags.
pub open spec fn content_names(flags: u32) -> Seq<Seq<char>> {
    flag_name(flags, 1, "Polygons"@) + flag_name(flags, 2, "Portals"@) + flag_name(flags, 4, "Vehicle"@)
        + flag_name(flags, 8, "Unknown8"@) + flag_name(flags, 16, "Unknown16"@)
}

/// The name of a flag, where it is set.
pub open spec fn flag_name(flags: u32, bit: u32, name: Seq<char>) -> Seq<Seq<char>> {
    if flags & bit != 0 {
        seq![name]
    } else {
        Seq::empty()
    }
}

fn push_flag(out: &mut Vec<String>, flags: u32, bit: u32, name: &str)
    ensures
        texts(final(out)@) == texts(old(out)@) + flag_name(flags, bit, name@),
{
    if flags & bit != 0 {
        out.push(name.to_owned());
    }
    assert(texts(out@) =~= texts(old(out)@) + flag_name(flags, bit, name@));
}

/// What a navmesh's content flags say.
pub open spec fn content_text(flags: u32) -> Seq<char> {
    if content_names(flags).len() == 0 {
        "none"@
    } else {
        join(content_names(flags), ", "@)
    }
}

/// What a navmesh's content flags say.
pub fn content_flag_names(flags: u32) -> (out: String)
    ensures
        out@ == content_text(flags),
{
    let mut names: Vec<String> = Vec::new();
    assert(texts(names@) =~= Seq::empty());
    push_flag(&mut names, flags, 1, "Polygons");
    push_flag(&mut names, flags, 2, "Portals");
    push_flag(&mut names, flags, 4, "Vehicle");
    push_flag(&mut names, flags, 8, "Unknown8");
    push_flag(&mut names, flags, 16, "Unknown16");
    assert(texts(names@) =~= content_names(flags));
    if names.len() == 0 {
        String::from_str("none")
    } else {
        join_with(&names, ", ")
    }
}

/// The edge of the grid line `i`: cells are 150 m wide from -6000 on.
pub open spec fn grid_line(i: int) -> int {
    i * 150 - 6000
}

/// The line that says which cell a navmesh is, and what it spans.
pub open spec fn cell_text(area_id: u32) -> Seq<char> {
    match cell_of(area_id) {
        Some((cx, cy)) => "Cell:      "@ + cell_name(cx as nat, cy as nat) + " (area "@ + decimal(
            area_id as nat,
        ) + "), x "@ + signed_decimal(grid_line(cx as int)) + ".."@ + signed_decimal(
            grid_line(cx + 1),
        ) + ", y "@ + signed_decimal(grid_line(cy as int)) + ".."@ + signed_decimal(
            grid_line(cy + 1),
        ) + "\n"@,
        None => "Area:      "@ + decimal(area_id as nat) + " (standalone)\n"@,
    }
}

fn line_of_grid(i: u32) -> (out: String)
    requires
        i <= 100,
    ensures
        out@ == signed_decimal(grid_line(i as int)),
{
    signed_of((i * 150) as i32 - 6000)
}

fn write_cell(area_id: u32) -> (out: String)
    ensures
        out@ == cell_text(area_id),
{
    if area_id >= 10000 {
        let mut out = String::from_str("Area:      ");
        out.append(decimal_of(area_id as u64).as_str());
        out.append(" (standalone)\n");
        return out;
    }
    let cx: u32 = area_id % 100;
    let cy: u32 = area_id / 100;
    let mut out = String::from_str("Cell:      ");
    out.append(cell_file_name(cx, cy).as_str());
    out.append(" (area ");
    out.append(decimal_of(area_id as u64).as_str());
    out.append("), x ");
    out.append(line_of_grid(cx).as_str());
    out.append("..");
    out.append(line_of_grid(cx + 1).as_str());
    out.append(", y ");
    out.append(line_of_grid(cy).as_str());
    out.append("..");
    out.append(line_of_grid(cy + 1).as_str());
    out.append("\n");
    out
}

/// The line about the polygons.
pub open spec fn polys_text(polys: Seq<NavPoly>) -> Seq<char> {
    "Polygons:  "@ + decimal(polys.len()) + " ("@ + decimal(kind_count(polys, PolyKind::Interior))
        + " interior, "@ + decimal(kind_count(polys, PolyKind::FlatGround)) + " flat ground, "@ + decimal(
        kind_count(polys, PolyKind::Footpath),
    ) + " footpath, "@ + decimal(kind_count(polys, PolyKind::Road)) + " road, "@ + decimal(
        kind_count(polys, PolyKind::Water),
    ) + " water)\n"@
}

fn write_polys(polys: &Vec<NavPoly>) -> (out: String)
    ensures
        out@ == polys_text(polys@),
{
    let mut out = String::from_str("Polygons:  ");
    out.append(decimal_of(polys.len() as u64).as_str());
    out.append(" (");
    out.append(decimal_of(count_kind(polys, PolyKind::Interior) as u64).as_str());
    out.append(" interior, ");
    out.append(decimal_of(count_kind(polys, PolyKind::FlatGround) as u64).as_str());
    out.append(" flat ground, ");
    out.append(decimal_of(count_kind(polys, PolyKind::Footpath) as u64).as_str());
    out.append(" footpath, ");
    out.append(decimal_of(count_kind(polys, PolyKind::Road) as u64).as_str());
    out.append(" road, ");
    out.append(decimal_of(count_kind(polys, PolyKind::Water) as u64).as_str());
    out.append(" water)\n");
    out
}

/// Writes a number.
pub struct NumberText;

impl Writes<u32> for NumberText {
    open spec fn text_of(&self, i: nat, item: &u32) -> Seq<char> {
        decimal(*item as nat)
    }

    fn write(&self, i: usize, item: &u32) -> (out: String) {
        decimal_of(*item as u64)
    }
}

/// What is printed of a navmesh.
pub open spec fn nav_text(nav: NavInfo) -> Seq<char> {
    let links = all_links(nav.polys@);
    cell_text(nav.area_id) + "Flags:     "@ + decimal(nav.content_flags as nat) + " ("@ + content_text(
        nav.content_flags,
    ) + ")\nBounds:    "@ + nav.bb_min@ + " .. "@ + nav.bb_max@ + "\n"@ + polys_text(nav.polys@)
        + "Edges:     "@ + decimal(links.len()) + " ("@ + decimal(linked_in(links)) + " linked, "@
        + decimal(foreign_in(links, nav.area_id)) + " into other cells)\nPortals:   "@ + decimal(
        nav.portals as nat,
    ) + "\nPoints:    "@ + decimal(nav.points as nat) + "\nAdjacent:  "@ + join(
        written(NumberText, ascending(areas_in(links))),
        ", "@,
    ) + "\n"@
}

/// Prints a navmesh: the cell, its bounds, and how many polygons, edges,
/// portals and points it has.
pub fn describe(nav: &NavInfo) -> (out: String)
    ensures
        out@ == nav_text(*nav),
{
    let links = collect_links(&nav.polys);
    let counts = count_links(&links, nav.area_id);
    let mut out = write_cell(nav.area_id);
    out.append("Flags:     ");
    out.append(decimal_of(nav.content_flags as u64).as_str());
    out.append(" (");
    out.append(content_flag_names(nav.content_flags).as_str());
    out.append(")\nBounds:    ");
    out.append(nav.bb_min.as_str());
    out.append(" .. ");
    out.append(nav.bb_max.as_str());
    out.append("\n");
    out.append(write_polys(&nav.polys).as_str());
    out.append("Edges:     ");
    out.append(decimal_of(links.len() as u64).as_str());
    out.append(" (");
    out.append(decimal_of(counts.linked as u64).as_str());
    out.append(" linked, ");
    out.append(decimal_of(counts.foreign as u64).as_str());
    out.append(" into other cells)\nPortals:   ");
    out.append(decimal_of(nav.portals as u64).as_str());
    out.append("\nPoints:    ");
    out.append(decimal_of(nav.points as u64).as_str());
    out.append("\nAdjacent:  ");
    out.append(join_with(&write_each(&NumberText, &counts.areas), ", ").as_str());
    out.append("\n");
    out
}

// ── Finding a cell in the game ──────────────────────────────────────────────

/// Archives nested deeper than this are not searched for navmeshes.
pub const MAX_NAV_DEPTH: usize = 4;

/// A copy of a cell: where it is, and the number by which the caller finds it.
#[derive(Debug)]
pub struct Hit {
    pub place: String,
    pub id: usize,
}

/// A `Hit` with its text.
pub struct HitView {
    pub place: Seq<char>,
    pub id: usize,
}

impl View for Hit {
    type V = HitView;

    open spec fn view(&self) -> HitView {
        HitView { place: self.place@, id: self.id }
    }
}

/// The hits of a list, with their texts.
pub open spec fn hit_views(list: Seq<Hit>) -> Seq<HitView> {
    list.map_values(|h: Hit| h@)
}

/// The file is a navmesh of the given name.
pub open spec fn is_cell(name: Seq<char>, hash: u32) -> bool {
    ".ynv"@.is_suffix_of(lowercase(name)) && joaat(before_dot(lowercase(name))) == hash
}

/// The name of an archive is that of a navmesh pack.
pub open spec fn is_pack(name: Seq<char>) -> bool {
    has_text(lowercase(name), "nav"@)
}

/// Whether the name of an archive is that of a navmesh pack.
pub fn looks_like_pack(name: &str) -> (r: bool)
    ensures
        r == is_pack(name@),
{
    contains(to_lowercase(name).as_str(), "nav")
}

/// The copies of a cell in an archive and in those nested in it, in order,
/// descending only into nested archives that look like navmesh packs.
pub open spec fn hits(files: Seq<Packed>, label: Seq<char>, hash: u32, depth: nat) -> Seq<HitView>
    decreases files,
{
    if depth > MAX_NAV_DEPTH || files.len() == 0 {
        Seq::empty()
    } else {
        let before = hits(files.drop_last(), label, hash, depth);
        let file = files[files.len() - 1];
        let place = label + ":"@ + file.path@;
        if is_archive(file.name@) {
            match file.nested {
                Nested::Files(inner) => if is_pack(file.name@) {
                    before + hits(inner@, place, hash, depth + 1)
                } else {
                    before
                },
                _ => before,
            }
        } else if is_cell(file.name@, hash) {
            before.push(HitView { place, id: file.id })
        } else {
            before
        }
    }
}

/// Finds the copies of a cell, by the hash of its stem, in an archive and in
/// those nested in it.
pub fn find_in_archive(files: &Vec<Packed>, label: &str, hash: u32, depth: usize, out: &mut Vec<Hit>)
    ensures
        hit_views(final(out)@) == hit_views(old(out)@) + hits(files@, label@, hash, depth as nat),
    decreases files@,
{
    let ghost had = hit_views(out@);
    if depth > MAX_NAV_DEPTH {
        assert(had + hits(files@, label@, hash, depth as nat) =~= had);
        return;
    }
    let mut i: usize = 0;
    assert(files@.take(0) =~= Seq::empty());
    assert(had + hits(files@.take(0), label@, hash, depth as nat) =~= had);
    while i < files.len()
        invariant
            i <= files.len(),
            depth <= MAX_NAV_DEPTH,
            had == hit_views(old(out)@),
            hit_views(out@) == had + hits(files@.take(i as int), label@, hash, depth as nat),
        decreases files.len() - i,
    {
        let file = &files[i];
        let ghost now = files@.take(i + 1);
        let ghost so_far = hit_views(out@);
        proof {
            assert(now.drop_last() =~= files@.take(i as int));
            assert(now[i as int] == files[i as int]);
            assert(decreases_to!(files@ => files@[i as int]));
        }
        let lower = to_lowercase(file.name.as_str());
        let mut place = label.to_owned();
        place.append(":");
        place.append(file.path.as_str());
        if ends_with(lower.as_str(), ".rpf") {
            if looks_like_pack(file.name.as_str()) {
                if let Nested::Files(inner) = &file.nested {
                    find_in_archive(inner, place.as_str(), hash, depth + 1, out);
                    assert(hit_views(out@) =~= had + hits(now, label@, hash, depth as nat));
                }
            }
        } else if ends_with(lower.as_str(), ".ynv") && rage_joaat(
            without_extension(lower.as_str()).as_str(),
        ) == hash {
            let ghost hit = HitView { place: place@, id: file.id };
            out.push(Hit { place, id: file.id });
            assert(hit_views(out@) =~= so_far.push(hit));
            assert(hit_views(out@) =~= had + hits(now, label@, hash, depth as nat));
        }
        i = i + 1;
    }
    assert(files@.take(files.len() as int) =~= files@);
}

/// The hash that a cell's file is found by.
pub fn cell_hash(name: &str) -> (r: u32)
    ensures
        r == joaat(lowercase(before_dot(name@))),
{
    rage_joaat(to_lowercase(without_extension(name).as_str()).as_str())
}

// ── OBJ files ───────────────────────────────────────────────────────────────

/// A polygon as an OBJ file writes it.
#[derive(Debug)]
pub struct ObjPoly {
    /// The coordinates of each vertex, separated by blanks.
    pub vertices: Vec<String>,
    /// It lies on the cell's floor: the game never walks it.
    pub sunk: bool,
    pub interior: bool,
}

/// The groups of an OBJ file.
#[derive(Debug, Clone, Copy, PartialEq, Eq, Structural)]
pub enum ObjGroup {
    Exterior,
    Interior,
    Sunk,
    New,
}

/// The group of the `i`-th polygon, where those from `first_new` on are new.
pub open spec fn group_of(p: ObjPoly, i: int, first_new: Option<usize>) -> ObjGroup {
    if first_new matches Some(f) && i >= f {
        ObjGroup::New
    } else if p.sunk {
        ObjGroup::Sunk
    } else if p.interior {
        ObjGroup::Interior
    } else {
        ObjGroup::Exterior
    }
}

/// The number of vertices of some polygons.
pub open spec fn vertex_count(polys: Seq<ObjPoly>) -> nat
    decreases polys.len(),
{
    if polys.len() == 0 {
        0
    } else {
        vertex_count(polys.drop_last()) + polys.last().vertices@.len()
    }
}

/// The lines of the vertices of some polygons.
pub open spec fn vertex_lines(polys: Seq<ObjPoly>) -> Seq<char>
    decreases polys.len(),
{
    if polys.len() == 0 {
        ""@
    } else {
        vertex_lines(polys.drop_last()) + unlines(written(VertexLine, polys.last().vertices@))
    }
}

/// Writes a vertex as a line.
pub struct VertexLine;

impl Writes<String> for VertexLine {
    open spec fn text_of(&self, i: nat, item: &String) -> Seq<char> {
        "v "@ + item@
    }

    fn write(&self, i: usize, item: &String) -> (out: String) {
        let mut out = String::from_str("v ");
        out.append(item.as_str());
        out
    }
}

/// `n` numbers from `from` on.
pub open spec fn numbers_from(from: nat, n: nat) -> Seq<Seq<char>> {
    Seq::new(n, |k: int| decimal((from + k) as nat))
}

/// The line of a face of `n` vertices, of which the first has the number
/// `from`.
pub open spec fn face_line(from: nat, n: nat) -> Seq<char> {
    "f "@ + join(numbers_from(from, n), " "@)
}

fn write_face(from: usize, n: usize) -> (out: String)
    requires
        from + n <= usize::MAX,
    ensures
        out@ == face_line(from as nat, n as nat),
{
    let mut numbers: Vec<String> = Vec::new();
    let mut k: usize = 0;
    while k < n
        invariant
            k <= n,
            from + n <= usize::MAX,
            numbers.len() == k,
            forall|j: int| 0 <= j < k ==> (#[trigger] numbers[j])@ == decimal((from + j) as nat),
        decreases n - k,
    {
        numbers.push(decimal_of((from + k) as u64));
        k = k + 1;
    }
    assert(texts(numbers@) =~= numbers_from(from as nat, n as nat));
    let mut out = String::from_str("f ");
    out.append(join_with(&numbers, " ").as_str());
    out
}

/// The lines of the faces of one group.
pub open spec fn face_lines(polys: Seq<ObjPoly>, first_new: Option<usize>, group: ObjGroup) -> Seq<Seq<char>>
    decreases polys.len(),
{
    if polys.len() == 0 {
        Seq::empty()
    } else {
        let before = face_lines(polys.drop_last(), first_new, group);
        let p = polys.last();
        if group_of(p, polys.len() - 1, first_new) == group {
            before.push(face_line(1 + vertex_count(polys.drop_last()), p.vertices@.len()))
        } else {
            before
        }
    }
}

/// A group with its faces; nothing where it has none.
pub open spec fn group_text(
    polys: Seq<ObjPoly>,
    first_new: Option<usize>,
    group: ObjGroup,
    name: Seq<char>,
) -> Seq<char> {
    let lines = face_lines(polys, first_new, group);
    if lines.len() == 0 {
        ""@
    } else {
        "g "@ + name + "\n"@ + unlines(lines)
    }
}

/// A navmesh as an OBJ file.
pub open spec fn obj_text(polys: Seq<ObjPoly>, first_new: Option<usize>) -> Seq<char> {
    "# rage navmesh export\n"@ + vertex_lines(polys) + group_text(
        polys,
        first_new,
        ObjGroup::Exterior,
        "exterior"@,
    ) + group_text(polys, first_new, ObjGroup::Interior, "interior"@) + group_text(
        polys,
        first_new,
        ObjGroup::Sunk,
        "sunk"@,
    ) + group_text(polys, first_new, ObjGroup::New, "new"@)
}

fn write_vertices(polys: &Vec<ObjPoly>) -> (out: String)
    ensures
        out@ == vertex_lines(polys@),
{
    let mut out = String::from_str("");
    let mut i: usize = 0;
    assert(polys@.take(0) =~= Seq::empty());
    while i < polys.len()
        invariant
            i <= polys.len(),
            out@ == vertex_lines(polys@.take(i as int)),
        decreases polys.len() - i,
    {
        proof {
            assert(polys@.take(i + 1).drop_last() =~= polys@.take(i as int));
            assert(polys@.take(i + 1).last() == polys[i as int]);
        }
        out.append(unlines_of(&write_each(&VertexLine, &polys[i].vertices)).as_str());
        i = i + 1;
    }
    assert(polys@.take(polys.len() as int) =~= polys@);
    out
}

proof fn lemma_vertices_of_prefix(polys: Seq<ObjPoly>, i: int)
    requires
        0 <= i <= polys.len(),
    ensures
        vertex_count(polys.take(i)) <= vertex_count(polys),
    decreases polys.len() - i,
{
    if i < polys.len() {
        lemma_vertices_of_prefix(polys, i + 1);
        assert(polys.take(i + 1).drop_last() =~= polys.take(i));
    } else {
        assert(polys.take(i) =~= polys);
    }
}

fn poly_group(p: &ObjPoly, i: usize, first_new: Option<usize>) -> (g: ObjGroup)
    ensures
        g == group_of(*p, i as int, first_new),
{
    if let Some(f) = first_new {
        if i >= f {
            return ObjGroup::New;
        }
    }
    if p.sunk {
        ObjGroup::Sunk
    } else if p.interior {
        ObjGroup::Interior
    } else {
        ObjGroup::Exterior
    }
}

fn write_group(polys: &Vec<ObjPoly>, first_new: Option<usize>, group: ObjGroup, name: &str) -> (out: String)
    requires
        1 + vertex_count(polys@) <= usize::MAX,
    ensures
        out@ == group_text(polys@, first_new, group, name@),
{
    let mut lines: Vec<String> = Vec::new();
    let mut next: usize = 1;
    let mut i: usize = 0;
    assert(polys@.take(0) =~= Seq::empty());
    assert(texts(lines@) =~= Seq::empty());
    while i < polys.len()
        invariant
            i <= polys.len(),
            1 + vertex_count(polys@) <= usize::MAX,
            next == 1 + vertex_count(polys@.take(i as int)),
            texts(lines@) == face_lines(polys@.take(i as int), first_new, group),
        decreases polys.len() - i,
    {
        proof {
            assert(polys@.take(i + 1).drop_last() =~= polys@.take(i as int));
            assert(polys@.take(i + 1).last() == polys[i as int]);
            lemma_vertices_of_prefix(polys@, i + 1);
        }
        let n: usize = polys[i].vertices.len();
        if poly_group(&polys[i], i, first_new) == group {
            let ghost before = texts(lines@);
            let line = write_face(next, n);
            lines.push(line);
            assert(texts(lines@) =~= before.push(line@));
        }
        next = next + n;
        i = i + 1;
    }
    assert(polys@.take(polys.len() as int) =~= polys@);
    if lines.len() == 0 {
        return String::from_str("");
    }
    let mut out = String::from_str("g ");
    out.append(name);
    out.append("\n");
    out.append(unlines_of(&lines).as_str());
    out
}

/// OBJ text for a navmesh: `interior`, `exterior` and `sunk` groups, plus a
/// `new` group for polygons from `first_new` on when given.
pub fn ynv_to_obj(polys: &Vec<ObjPoly>, first_new: Option<usize>) -> (out: String)
    requires
        1 + vertex_count(polys@) <= usize::MAX,
    ensures
        out@ == obj_text(polys@, first_new),
{
    let mut out = String::from_str("# rage navmesh export\n");
    out.append(write_vertices(polys).as_str());
    out.append(write_group(polys, first_new, ObjGroup::Exterior, "exterior").as_str());
    out.append(write_group(polys, first_new, ObjGroup::Interior, "interior").as_str());
    out.append(write_group(polys, first_new, ObjGroup::Sunk, "sunk").as_str());
    out.append(write_group(polys, first_new, ObjGroup::New, "new").as_str());
    out
}

/// The line of the `i`-th triangle.
pub open spec fn triangle_line(i: nat) -> Seq<char> {
    "f "@ + decimal(i * 3 + 1) + " "@ + decimal(i * 3 + 2) + " "@ + decimal(i * 3 + 3)
}

/// The lines of the triangles of one material, among the first `n`.
pub open spec fn material_lines(materials: Seq<u8>, m: u8) -> Seq<Seq<char>>
    decreases materials.len(),
{
    if materials.len() == 0 {
        Seq::empty()
    } else {
        let before = material_lines(materials.drop_last(), m);
        if materials.last() == m {
            before.push(triangle_line((materials.len() - 1) as nat))
        } else {
            before
        }
    }
}

/// A material with its triangles; nothing where it has none.
pub open spec fn material_text(materials: Seq<u8>, m: u8) -> Seq<char> {
    let lines = material_lines(materials, m);
    if lines.len() == 0 {
        ""@
    } else {
        "g material_"@ + decimal(m as nat) + "\n"@ + unlines(lines)
    }
}

/// The materials below `n` with their triangles, in ascending order.
pub open spec fn materials_text(materials: Seq<u8>, n: nat) -> Seq<char>
    decreases n,
{
    if n == 0 {
        ""@
    } else {
        materials_text(materials, (n - 1) as nat) + material_text(materials, (n - 1) as u8)
    }
}

fn write_material(materials: &Vec<u8>, m: u8) -> (out: String)
    requires
        materials.len() * 3 + 3 <= u64::MAX,
    ensures
        out@ == material_text(materials@, m),
{
    let mut lines: Vec<String> = Vec::new();
    let mut i: usize = 0;
    assert(materials@.take(0) =~= Seq::empty());
    assert(texts(lines@) =~= Seq::empty());
    while i < materials.len()
        invariant
            i <= materials.len(),
            materials.len() * 3 + 3 <= u64::MAX,
            texts(lines@) == material_lines(materials@.take(i as int), m),
        decreases materials.len() - i,
    {
        proof {
            assert(materials@.take(i + 1).drop_last() =~= materials@.take(i as int));
            assert(materials@.take(i + 1).last() == materials[i as int]);
        }
        if materials[i] == m {
            let first: u64 = i as u64 * 3;
            let mut line = String::from_str("f ");
            line.append(decimal_of(first + 1).as_str());
            line.append(" ");
            line.append(decimal_of(first + 2).as_str());
            line.append(" ");
            line.append(decimal_of(first + 3).as_str());
            let ghost before = texts(lines@);
            lines.push(line);
            assert(texts(lines@) =~= before.push(triangle_line(i as nat)));
        }
        i = i + 1;
    }
    assert(materials@.take(materials.len() as int) =~= materials@);
    if lines.len() == 0 {
        return String::from_str("");
    }
    let mut out = String::from_str("g material_");
    out.append(decimal_of(m as u64).as_str());
    out.append("\n");
    out.append(unlines_of(&lines).as_str());
    out
}

/// OBJ text for collision: every vertex, three to a triangle, then the
/// triangles by their material.
pub fn ybn_to_obj(vertices: &Vec<String>, materials: &Vec<u8>) -> (out: String)
    requires
        materials.len() * 3 + 3 <= u64::MAX,
    ensures
        out@ == "# rage navmesh ybn-obj\n"@ + unlines(written(VertexLine, vertices@)) + materials_text(
            materials@,
            256,
        ),
{
    let mut groups = String::from_str("");
    let mut m: u16 = 0;
    while m < 256
        invariant
            m <= 256,
            materials.len() * 3 + 3 <= u64::MAX,
            groups@ == materials_text(materials@, m as nat),
        decreases 256 - m,
    {
        groups.append(write_material(materials, m as u8).as_str());
        m = m + 1;
    }
    let mut out = String::from_str("# rage navmesh ybn-obj\n");
    out.append(unlines_of(&write_each(&VertexLine, vertices)).as_str());
    out.append(groups.as_str());
    out
}

// ── Rewriting ───────────────────────────────────────────────────────────────

/// A cell written anew.
#[derive(Debug)]
pub struct Rewrite {
    pub bytes: Vec<u8>,
    /// What is printed of it.
    pub note: String,
}

/// Writes the cell of a file anew, for `output`; the same cell is read from
/// what is written.
pub fn run_rewrite(data: &[u8], output: &str) -> (r: Result<Rewrite, String>)
    ensures
        match r {
            Ok(w) => cell_in(data@) is Ok && cell_in(w.bytes@) is Ok && is_same_cell(
                cell_in(data@)->Ok_0,
                cell_in(w.bytes@)->Ok_0,
            ) && rewritten_in(data@) == Ok::<Seq<u8>, Seq<char>>(
                w.bytes@,
            ) && w.note@ == "Rewrote "@ + decimal(cell_in(data@)->Ok_0.polys.len()) + " polygons: "@ + decimal(
                data@.len(),
            ) + " -> "@ + decimal(w.bytes@.len()) + " bytes, "@ + output@,
            Err(e) => rewritten_in(data@) == Err::<Seq<u8>, Seq<char>>(e@),
        },
{
    let (polys, bytes) = match rewrite_cell(data) {
        Ok(made) => made,
        Err(e) => return Err(e),
    };
    let mut note = String::from_str("Rewrote ");
    note.append(decimal_of(polys as u64).as_str());
    note.append(" polygons: ");
    note.append(decimal_of(data.len() as u64).as_str());
    note.append(" -> ");
    note.append(decimal_of(bytes.len() as u64).as_str());
    note.append(" bytes, ");
    note.append(output);
    Ok(Rewrite { bytes, note })
}

// ── Laws ────────────────────────────────────────────────────────────────────

/// Every polygon is a face of exactly one group.
pub proof fn law_every_polygon_has_one_group(polys: Seq<ObjPoly>, first_new: Option<usize>)
    ensures
        face_lines(polys, first_new, ObjGroup::Exterior).len() + face_lines(
            polys,
            first_new,
            ObjGroup::Interior,
        ).len() + face_lines(polys, first_new, ObjGroup::Sunk).len() + face_lines(
            polys,
            first_new,
            ObjGroup::New,
        ).len() == polys.len(),
    decreases polys.len(),
{
    if polys.len() > 0 {
        law_every_polygon_has_one_group(polys.drop_last(), first_new);
    }
}

} // verus!
