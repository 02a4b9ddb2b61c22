//! Navmesh cells as plain values. They are read by `rage_formats`; its reader
//! is named here, not described.
use vstd::prelude::*;
use vstd::string::*;
use crate::bits::magnitude;
use crate::commands::resource::container::{
    can_count, is_countable, prepare_rsc7, unpacked, word, word_at,
};
use crate::formats::{is_wide, wide, Corner};
use crate::sections::{at_address, long, long_at, Sections};

verus! {

// ── What a file claims ──────────────────────────────────────────────────────

/// How many items the parts of a list hold together, over the first `n` parts;
/// a part that lies outside the file holds none.
pub open spec fn part_items(
    system: Seq<u8>,
    graphics: Seq<u8>,
    parts: Seq<u8>,
    item: nat,
    n: nat,
) -> nat
    decreases n,
{
    if n == 0 {
        0
    } else {
        let count = word(parts, 16 * n - 8) as nat;
        part_items(system, graphics, parts, item, (n - 1) as nat) + (if at_address(
            system,
            graphics,
            long(parts, 16 * n - 16),
            (count * item) as int,
        ) is Some {
            count
        } else {
            0
        })
    }
}

/// A list claims no more items than the whole file could hold, or no more than
/// its parts do hold.
pub open spec fn list_fits(
    system: Seq<u8>,
    graphics: Seq<u8>,
    address: u64,
    item: nat,
) -> bool {
    match at_address(system, graphics, address, 48) {
        None => true,
        Some(h) => word(h, 8) * item <= system.len() + graphics.len() || match at_address(
            system,
            graphics,
            long(h, 16),
            16 * word(h, 32),
        ) {
            None => false,
            Some(parts) => word(h, 8) <= part_items(
                system,
                graphics,
                parts,
                item,
                word(h, 32) as nat,
            ),
        },
    }
}

/// The lists of a cell, its vertices, indices, edges and polygons, claim no
/// more than there is, and its portals fit into the file. A cell that claims
/// more is never read to its end.
pub open spec fn claims_fit(system: Seq<u8>, graphics: Seq<u8>) -> bool {
    system.len() >= 368 ==> {
        &&& list_fits(system, graphics, long(system, 0x70), 6)
        &&& list_fits(system, graphics, long(system, 0x80), 2)
        &&& list_fits(system, graphics, long(system, 0x88), 8)
        &&& list_fits(system, graphics, long(system, 0x118), 48)
        &&& word(system, 0x14c) * 28 <= system.len() + graphics.len()
    }
}

/// The file of a cell claims no more than it has.
pub open spec fn is_modest(data: Seq<u8>) -> bool {
    match unpacked(data) {
        Ok((system, graphics)) => claims_fit(system, graphics),
        Err(_) => true,
    }
}

/// The three fractional numbers from `at` on are finite.
pub open spec fn are_finite(data: Seq<u8>, at: int) -> bool {
    magnitude(word(data, at)) < 0x7f80_0000 && magnitude(word(data, at + 4)) < 0x7f80_0000
        && magnitude(word(data, at + 8)) < 0x7f80_0000
}

/// The box of a cell, in which all its points lie, and the extent of the box
/// are finite. Of any other box the corners are no numbers, and the bits of
/// those differ from machine to machine.
pub open spec fn is_box_finite(system: Seq<u8>, graphics: Seq<u8>) -> bool {
    system.len() >= 368 ==> are_finite(system, 0x60) && match at_address(
        system,
        graphics,
        long(system, 0x120),
        96,
    ) {
        None => true,
        Some(root) => are_finite(root, 0) && are_finite(root, 16),
    }
}

/// The file of a cell holds a finite box.
pub open spec fn is_boxed(data: Seq<u8>) -> bool {
    match unpacked(data) {
        Ok((system, graphics)) => is_box_finite(system, graphics),
        Err(_) => true,
    }
}

fn finite_at(data: &[u8], at: usize) -> (r: bool)
    requires
        at + 12 <= data.len(),
    ensures
        r == are_finite(data@, at as int),
{
    word_at(data, at) & 0x7fff_ffff < 0x7f80_0000 && word_at(data, at + 4) & 0x7fff_ffff < 0x7f80_0000
        && word_at(data, at + 8) & 0x7fff_ffff < 0x7f80_0000
}

fn box_is_finite(s: &Sections) -> (r: bool)
    ensures
        r == is_box_finite(s.system@, s.graphics@),
{
    if s.system.len() < 368 {
        return true;
    }
    finite_at(s.system.as_slice(), 0x60) && match s.find(long_at(s.system.as_slice(), 0x120), 96) {
        None => true,
        Some(root) => finite_at(root.as_slice(), 0) && finite_at(root.as_slice(), 16),
    }
}

proof fn lemma_part_items(
    system: Seq<u8>,
    graphics: Seq<u8>,
    parts: Seq<u8>,
    item: nat,
    n: nat,
    m: nat,
)
    requires
        n <= m,
    ensures
        part_items(system, graphics, parts, item, n) <= part_items(
            system,
            graphics,
            parts,
            item,
            m,
        ),
    decreases m,
{
    if n < m {
        lemma_part_items(system, graphics, parts, item, n, (m - 1) as nat);
    }
}

fn parts_hold(s: &Sections, parts: &Vec<u8>, count: u32, item: u64, wanted: u32) -> (r: bool)
    requires
        parts.len() == 16 * count,
        1 <= item <= 48,
    ensures
        r == (wanted <= part_items(s.system@, s.graphics@, parts@, item as nat, count as nat)),
{
    let mut items: u64 = 0;
    let mut n: u32 = 0;
    while n < count
        invariant
            n <= count,
            parts.len() == 16 * count,
            1 <= item <= 48,
            items == part_items(s.system@, s.graphics@, parts@, item as nat, n as nat),
            items <= wanted,
        decreases count - n,
    {
        let held: u64 = word_at(parts.as_slice(), 16 * (n as usize) + 8) as u64;
        assert(held * item <= 0xffff_ffff * 48) by (nonlinear_arith)
            requires
                held <= 0xffff_ffff,
                item <= 48,
        ;
        let address: u64 = long_at(parts.as_slice(), 16 * (n as usize));
        if s.find(address, held * item).is_some() {
            items = items + held;
        }
        n = n + 1;
        assert(items == part_items(s.system@, s.graphics@, parts@, item as nat, n as nat));
        if items > wanted as u64 {
            proof {
                lemma_part_items(s.system@, s.graphics@, parts@, item as nat, n as nat, count as nat);
            }
            return true;
        }
    }
    items >= wanted as u64
}

fn list_is_modest(s: &Sections, address: u64, item: u64) -> (r: bool)
    requires
        1 <= item <= 48,
    ensures
        r == list_fits(s.system@, s.graphics@, address, item as nat),
{
    match s.find(address, 48) {
        None => true,
        Some(h) => {
            let count: u32 = word_at(h.as_slice(), 8);
            let parts: u32 = word_at(h.as_slice(), 32);
            assert(count * item <= 0xffff_ffff * 48) by (nonlinear_arith)
                requires
                    count <= 0xffff_ffff,
                    item <= 48,
            ;
            let total: u128 = s.system.len() as u128 + s.graphics.len() as u128;
            let claimed: u128 = (count as u64 * item) as u128;
            claimed <= total || match s.find(long_at(h.as_slice(), 16), 16 * (parts as u64)) {
                None => false,
                Some(bytes) => parts_hold(s, &bytes, parts, item, count),
            }
        },
    }
}

fn claims_are_modest(s: &Sections) -> (r: bool)
    ensures
        r == claims_fit(s.system@, s.graphics@),
{
    if s.system.len() < 368 {
        return true;
    }
    let total: u128 = s.system.len() as u128 + s.graphics.len() as u128;
    let h = s.system.as_slice();
    let portals: u128 = (word_at(h, 0x14c) as u64 * 28) as u128;
    list_is_modest(s, long_at(h, 0x70), 6) && list_is_modest(s, long_at(h, 0x80), 2)
        && list_is_modest(s, long_at(h, 0x88), 8) && list_is_modest(s, long_at(h, 0x118), 48)
        && portals <= total
}

// ── Cells ───────────────────────────────────────────────────────────────────

/// A polygon of a cell.
#[derive(Debug)]
pub struct CellPoly {
    pub interior: bool,
    pub flat_ground: bool,
    pub footpath: bool,
    pub road: bool,
    pub water: bool,
    pub vertices: Vec<Corner>,
    /// Of each edge, whether it leads nowhere, and the area it leads to.
    pub ends: Vec<(bool, u32)>,
    /// How many portals it is linked to.
    pub portal_links: usize,
}

/// A `CellPoly` with its lists.
pub struct CellPolyView {
    pub interior: bool,
    pub flat_ground: bool,
    pub footpath: bool,
    pub road: bool,
    pub water: bool,
    pub vertices: Seq<Corner>,
    pub ends: Seq<(bool, u32)>,
    pub portal_links: usize,
}

impl View for CellPoly {
    type V = CellPolyView;

    open spec fn view(&self) -> CellPolyView {
        CellPolyView {
            interior: self.interior,
            flat_ground: self.flat_ground,
            footpath: self.footpath,
            road: self.road,
            water: self.water,
            vertices: self.vertices@,
            ends: self.ends@,
            portal_links: self.portal_links,
        }
    }
}

/// The polygons of a list, with their lists.
pub open spec fn poly_views(list: Seq<CellPoly>) -> Seq<CellPolyView> {
    list.map_values(|p: CellPoly| p@)
}

/// What a cell says of itself, its fractional numbers as bits.
#[derive(Debug, Clone, Copy, PartialEq, Eq, Structural)]
pub struct CellHeader {
    pub area_id: u32,
    pub content_flags: u32,
    pub bb_min: Corner,
    pub bb_max: Corner,
    pub portals: usize,
    pub points: usize,
}

/// A navmesh cell.
#[derive(Debug)]
pub struct Cell {
    pub header: CellHeader,
    pub polys: Vec<CellPoly>,
}

/// A `Cell` with its lists.
pub struct CellView {
    pub header: CellHeader,
    pub polys: Seq<CellPolyView>,
}

impl View for Cell {
    type V = CellView;

    open spec fn view(&self) -> CellView {
        CellView { header: self.header, polys: poly_views(self.polys@) }
    }
}

/// What `rage_formats::parse_ynv` finds in a file, or what it says is wrong
/// with the file.
pub uninterp spec fn parsed_cell(data: Seq<u8>) -> Result<CellView, Seq<char>>;

/// `rage_formats::parse_ynv`, whose result depends on the file's bytes alone:
/// what the cell says of itself, its fractional numbers as bits, or its error
/// as text. It sets memory aside for as much as the lists of the file claim.
#[verifier::external_body]
fn ynv_header(data: &[u8]) -> (r: Result<CellHeader, String>)
    requires
        is_readable(data@),
    ensures
        match r {
            Ok(h) => parsed_cell(data@) is Ok && parsed_cell(data@)->Ok_0.header == h,
            Err(e) => parsed_cell(data@) == Err::<CellView, Seq<char>>(e@),
        },
{
    let corner = |v: rage_formats::Vec3| Corner { x: v.x.to_bits(), y: v.y.to_bits(), z: v.z.to_bits() };
    let y = rage_formats::parse_ynv(data).map_err(|e| format!("{e:#}"))?;
    Ok(CellHeader {
        area_id: y.area_id, content_flags: y.content_flags, bb_min: corner(y.bb_min), bb_max: corner(y.bb_max),
        portals: y.portals.len(), points: y.points.len(),
    })
}

/// `rage_formats::parse_ynv`, whose result depends on the file's bytes alone:
/// the polygons in the order of the file, their fractional numbers as bits,
/// or its error as text. It sets memory aside for as much as the lists of the
/// file claim.
#[verifier::external_body]
fn ynv_polys(data: &[u8]) -> (r: Result<Vec<CellPoly>, String>)
    requires
        is_readable(data@),
    ensures
        match r {
            Ok(list) => parsed_cell(data@) is Ok && parsed_cell(data@)->Ok_0.polys == poly_views(list@),
            Err(e) => parsed_cell(data@) == Err::<CellView, Seq<char>>(e@),
        },
{
    let corner = |v: rage_formats::Vec3| Corner { x: v.x.to_bits(), y: v.y.to_bits(), z: v.z.to_bits() };
    let y = rage_formats::parse_ynv(data).map_err(|e| format!("{e:#}"))?;
    Ok(y.polys.into_iter().map(|p| CellPoly {
        interior: p.is_interior(), flat_ground: p.is_flat_ground(), footpath: p.is_footpath(),
        road: p.is_road(), water: p.is_water(), portal_links: p.portal_links.len(),
        ends: p.edges.iter().map(|e| (e.a.is_none(), e.a.area_id)).collect(),
        vertices: p.vertices.into_iter().map(corner).collect(),
    }).collect())
}

/// What is said of a cell that is not read.
pub const NOT_READABLE: &'static str = "the cell claims more than the file holds, or its box has no end";

/// A cell can be read: this machine can count its sizes, it claims no more
/// than it has, and its box is finite.
pub open spec fn is_readable(data: Seq<u8>) -> bool {
    is_wide() && is_countable(data) && is_modest(data) && is_boxed(data)
}

/// The cell in a file, or what is wrong with the file.
pub open spec fn cell_in(data: Seq<u8>) -> Result<CellView, Seq<char>> {
    if is_readable(data) {
        parsed_cell(data)
    } else {
        Err(NOT_READABLE@)
    }
}

fn can_read(data: &[u8]) -> (r: bool)
    ensures
        r == is_readable(data@),
{
    if !wide() || !can_count(data) {
        return false;
    }
    match prepare_rsc7(data) {
        Ok((system, graphics)) => {
            let s = Sections { system, graphics };
            claims_are_modest(&s) && box_is_finite(&s)
        },
        Err(_) => true,
    }
}

/// Reads a navmesh cell.
pub fn read_navmesh(data: &[u8]) -> (r: Result<Cell, String>)
    ensures
        match r {
            Ok(cell) => cell_in(data@) == Ok::<CellView, Seq<char>>(cell@),
            Err(e) => cell_in(data@) == Err::<CellView, Seq<char>>(e@),
        },
{
    if !can_read(data) {
        return Err(NOT_READABLE.to_owned());
    }
    match (ynv_header(data), ynv_polys(data)) {
        (Ok(header), Ok(polys)) => Ok(Cell { header, polys }),
        (Err(e), _) | (_, Err(e)) => Err(e),
    }
}

// ── Rewriting ───────────────────────────────────────────────────────────────

/// The links of the polygons of a list to portals.
pub open spec fn link_count(polys: Seq<CellPolyView>) -> nat
    decreases polys.len(),
{
    if polys.len() == 0 {
        0
    } else {
        link_count(polys.drop_last()) + polys.last().portal_links as nat
    }
}

/// A cell can be written. Its polygons, points, portals and links are written
/// in blocks that have to fit on pages of 16384 bytes, two bytes for a polygon
/// of a sector, eight for a point of a sector, 28 for a portal and two for a
/// link; and the cells around it have to have numbers. A cell with more
/// polygons than can be numbered is refused before any of that.
pub open spec fn is_writable(c: CellView) -> bool {
    c.polys.len() > 0x3fff || {
        &&& c.polys.len() <= 8192
        &&& c.header.points <= 2048
        &&& c.header.portals <= 585
        &&& link_count(c.polys) <= 8192
        &&& c.header.area_id <= u32::MAX - 100
    }
}

/// The polygons agree in all but where their corners are.
pub open spec fn is_same_poly(a: CellPolyView, b: CellPolyView) -> bool {
    &&& a.interior == b.interior
    &&& a.flat_ground == b.flat_ground
    &&& a.footpath == b.footpath
    &&& a.road == b.road
    &&& a.water == b.water
    &&& a.vertices.len() == b.vertices.len()
    &&& a.ends == b.ends
    &&& a.portal_links == b.portal_links
}

/// The cells agree in what they say of themselves, their points aside, and in
/// their polygons, in all but where the corners of those are.
pub open spec fn is_same_cell(a: CellView, b: CellView) -> bool {
    &&& a.header.area_id == b.header.area_id
    &&& a.header.content_flags == b.header.content_flags
    &&& a.header.bb_min == b.header.bb_min
    &&& a.header.bb_max == b.header.bb_max
    &&& a.header.portals == b.header.portals
    &&& a.polys.len() == b.polys.len()
    &&& forall|i: int| 0 <= i < a.polys.len() ==> is_same_poly(#[trigger] a.polys[i], b.polys[i])
}

/// The file that `rage_formats::serialize_ynv` makes of the cell that
/// `rage_formats::parse_ynv` finds in a file, or what it says is wrong with
/// the cell.
pub uninterp spec fn rewritten(data: Seq<u8>) -> Result<Seq<u8>, Seq<char>>;

/// `rage_formats::serialize_ynv`, on the cell that `rage_formats::parse_ynv`
/// finds in a file; its result depends on the file's bytes alone.
/// `rage_formats::parse_ynv` reads the cell back from what is written, with the
/// same box, polygons, edges and links. Of the corners, which are rounded to
/// their places in the box, and of the points, which are sorted into sectors,
/// nothing is said.
#[verifier::external_body]
fn ynv_bytes(data: &[u8]) -> (r: Result<Vec<u8>, String>)
    requires
        is_readable(data@),
        parsed_cell(data@) is Ok,
        is_writable(parsed_cell(data@)->Ok_0),
    ensures
        match r {
            Ok(bytes) => rewritten(data@) == Ok::<Seq<u8>, Seq<char>>(bytes@) && is_readable(bytes@)
                && parsed_cell(bytes@) is Ok && is_same_cell(
                parsed_cell(data@)->Ok_0,
                parsed_cell(bytes@)->Ok_0,
            ),
            Err(e) => rewritten(data@) == Err::<Seq<u8>, Seq<char>>(e@),
        },
{
    let cell = rage_formats::parse_ynv(data).map_err(|e| format!("{e:#}"))?;
    rage_formats::serialize_ynv(&cell).map_err(|e| format!("{e:#}"))
}

fn count_links(polys: &Vec<CellPoly>) -> (r: Option<usize>)
    ensures
        match r {
            Some(n) => n == link_count(poly_views(polys@)) && n <= 8192,
            None => link_count(poly_views(polys@)) > 8192,
        },
{
    let ghost all = poly_views(polys@);
    let mut n: usize = 0;
    let mut i: usize = 0;
    assert(all.take(0) =~= Seq::empty());
    while i < polys.len()
        invariant
            i <= polys.len(),
            all == poly_views(polys@),
            n == link_count(all.take(i as int)),
            n <= 8192,
        decreases polys.len() - i,
    {
        let links: usize = polys[i].portal_links;
        proof {
            assert(all.take(i + 1).drop_last() =~= all.take(i as int));
            assert(all.take(i + 1).last() == polys[i as int]@);
        }
        if links > 8192 - n {
            proof {
                lemma_links(all, i + 1, polys.len() as int);
                assert(all.take(polys.len() as int) =~= all);
            }
            return None;
        }
        n = n + links;
        i = i + 1;
    }
    assert(all.take(polys.len() as int) =~= all);
    Some(n)
}

proof fn lemma_links(polys: Seq<CellPolyView>, i: int, j: int)
    requires
        0 <= i <= j <= polys.len(),
    ensures
        link_count(polys.take(i)) <= link_count(polys.take(j)),
    decreases j,
{
    if i < j {
        lemma_links(polys, i, j - 1);
        assert(polys.take(j).drop_last() =~= polys.take(j - 1));
    }
}

/// Whether a cell can be written.
pub fn can_write(cell: &Cell) -> (r: bool)
    ensures
        r == is_writable(cell@),
{
    cell.polys.len() > 0x3fff || cell.polys.len() <= 8192 && cell.header.points <= 2048 && cell.header.portals <= 585
        && cell.header.area_id <= u32::MAX - 100 && count_links(&cell.polys).is_some()
}

/// What is said of a cell that cannot be written.
pub const NOT_WRITABLE: &'static str = "the cell holds more than its pages can";

/// The file that a cell is written anew to, or what is wrong with the cell.
pub open spec fn rewritten_in(data: Seq<u8>) -> Result<Seq<u8>, Seq<char>> {
    match cell_in(data) {
        Err(reason) => Err(reason),
        Ok(c) => if is_writable(c) {
            rewritten(data)
        } else {
            Err(NOT_WRITABLE@)
        },
    }
}

/// Reads a navmesh cell and writes it anew: how many polygons it has, and the
/// new file, from which the same cell is read.
pub fn rewrite_cell(data: &[u8]) -> (r: Result<(usize, Vec<u8>), String>)
    ensures
        match r {
            Ok((polys, bytes)) => cell_in(data@) is Ok && polys == cell_in(data@)->Ok_0.polys.len()
                && rewritten_in(data@) == Ok::<Seq<u8>, Seq<char>>(bytes@) && cell_in(bytes@) is Ok
                && is_same_cell(cell_in(data@)->Ok_0, cell_in(bytes@)->Ok_0),
            Err(e) => rewritten_in(data@) == Err::<Seq<u8>, Seq<char>>(e@),
        },
{
    let cell = match read_navmesh(data) {
        Ok(cell) => cell,
        Err(e) => return Err(e),
    };
    if !can_write(&cell) {
        return Err(NOT_WRITABLE.to_owned());
    }
    match ynv_bytes(data) {
        Ok(bytes) => Ok((cell.polys.len(), bytes)),
        Err(e) => Err(e),
    }
}

} // verus!
