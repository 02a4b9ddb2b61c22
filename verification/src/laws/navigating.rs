//! What is said of a navigation mesh, and how it is written down.
use vstd::prelude::*;
use crate::commands::extract::{Nested, Packed};
use crate::commands::navmesh::{
    all_links, areas_in, cell_of, cell_text, content_names, content_text, face_lines, foreign_in,
    group_of, hits, kind_count, linked_in, material_lines, nav_text, obj_text, HitView, NavInfo,
    NavPoly, ObjGroup, ObjPoly, PolyKind,
};
use crate::file_names::before_dot;
use crate::hash::joaat;
use crate::laws::wording::{lemma_says, says};
use crate::text::{decimal, has_text, join, lowercase, signed_decimal};

verus! {

// ── Counts ──────────────────────────────────────────────────────────────────

proof fn lemma_kinds(polys: Seq<NavPoly>, kind: PolyKind, is: spec_fn(NavPoly) -> bool)
    requires
        forall|p: NavPoly| #[trigger] is(p) == (match kind {
            PolyKind::Interior => p.interior,
            PolyKind::FlatGround => p.flat_ground,
            PolyKind::Footpath => p.footpath,
            PolyKind::Road => p.road,
            PolyKind::Water => p.water,
        }),
    ensures
        kind_count(polys, kind) == polys.filter(is).len(),
    decreases polys.len(),
{
    reveal(Seq::filter);
    if polys.len() > 0 {
        lemma_kinds(polys.drop_last(), kind, is);
        assert(is(polys.last()) == crate::commands::navmesh::is_kind(polys.last(), kind));
    }
}

/// The numbers that are printed of the polygons are those of the polygons that
/// bear each flag: the one before "road" counts the roads, the one before
/// "water" the water, and so on.
pub proof fn law_kinds_are_counted_by_their_flags(nav: NavInfo)
    ensures
        ({
            let polys = nav.polys@;
            let text = nav_text(nav);
            &&& says(text, "Polygons:  "@ + decimal(polys.len()) + " ("@)
            &&& says(text, " ("@ + decimal(polys.filter(|p: NavPoly| p.interior).len()) + " interior, "@)
            &&& says(
                text,
                " interior, "@ + decimal(polys.filter(|p: NavPoly| p.flat_ground).len())
                    + " flat ground, "@,
            )
            &&& says(
                text,
                " flat ground, "@ + decimal(polys.filter(|p: NavPoly| p.footpath).len())
                    + " footpath, "@,
            )
            &&& says(text, " footpath, "@ + decimal(polys.filter(|p: NavPoly| p.road).len()) + " road, "@)
            &&& says(text, " road, "@ + decimal(polys.filter(|p: NavPoly| p.water).len()) + " water)\n"@)
        }),
{
    let polys = nav.polys@;
    lemma_kinds(polys, PolyKind::Interior, |p: NavPoly| p.interior);
    lemma_kinds(polys, PolyKind::FlatGround, |p: NavPoly| p.flat_ground);
    lemma_kinds(polys, PolyKind::Footpath, |p: NavPoly| p.footpath);
    lemma_kinds(polys, PolyKind::Road, |p: NavPoly| p.road);
    lemma_kinds(polys, PolyKind::Water, |p: NavPoly| p.water);
    lemma_says();
}

/// Changing one flag of a polygon changes the count of that kind and no other.
pub proof fn law_a_flag_counts_for_its_own_kind(
    polys: Seq<NavPoly>,
    wet: Seq<NavPoly>,
    i: int,
)
    requires
        0 <= i < polys.len(),
        wet.len() == polys.len(),
        forall|k: int| 0 <= k < polys.len() && k != i ==> wet[k] == polys[k],
        !polys[i].water && wet[i].water,
        wet[i].interior == polys[i].interior,
        wet[i].flat_ground == polys[i].flat_ground,
        wet[i].footpath == polys[i].footpath,
        wet[i].road == polys[i].road,
    ensures
        kind_count(wet, PolyKind::Water) == kind_count(polys, PolyKind::Water) + 1,
        kind_count(wet, PolyKind::Road) == kind_count(polys, PolyKind::Road),
        kind_count(wet, PolyKind::Footpath) == kind_count(polys, PolyKind::Footpath),
        kind_count(wet, PolyKind::FlatGround) == kind_count(polys, PolyKind::FlatGround),
        kind_count(wet, PolyKind::Interior) == kind_count(polys, PolyKind::Interior),
    decreases polys.len(),
{
    if i < polys.len() - 1 {
        assert(wet.last() == polys.last());
        law_a_flag_counts_for_its_own_kind(polys.drop_last(), wet.drop_last(), i);
    } else {
        assert(wet.drop_last() =~= polys.drop_last());
    }
}

proof fn lemma_linked(links: Seq<Option<u32>>, area: u32)
    ensures
        linked_in(links) == links.filter(|l: Option<u32>| l is Some).len(),
        foreign_in(links, area) == links.filter(|l: Option<u32>| l is Some && l->Some_0 != area).len(),
    decreases links.len(),
{
    reveal(Seq::filter);
    if links.len() > 0 {
        lemma_linked(links.drop_last(), area);
    }
}

/// The rest of what is printed: the flags, the bounds, the edges with those
/// that lead to a polygon and those that lead into another cell, the portals
/// and the points.
pub proof fn law_mesh_is_described(nav: NavInfo)
    ensures
        ({
            let text = nav_text(nav);
            let links = all_links(nav.polys@);
            &&& cell_text(nav.area_id).is_prefix_of(text)
            &&& says(
                text,
                "Flags:     "@ + decimal(nav.content_flags as nat) + " ("@,
            )
            &&& says(text, " ("@ + content_text(nav.content_flags) + ")\nBounds:    "@)
            &&& says(text, ")\nBounds:    "@ + nav.bb_min@ + " .. "@)
            &&& says(text, " .. "@ + nav.bb_max@ + "\n"@)
            &&& says(text, "Edges:     "@ + decimal(links.len()) + " ("@)
            &&& says(
                text,
                " ("@ + decimal(links.filter(|l: Option<u32>| l is Some).len()) + " linked, "@,
            )
            &&& says(
                text,
                " linked, "@ + decimal(
                    links.filter(|l: Option<u32>| l is Some && l->Some_0 != nav.area_id).len(),
                ) + " into other cells)\nPortals:   "@,
            )
            &&& says(
                text,
                " into other cells)\nPortals:   "@ + decimal(nav.portals as nat) + "\nPoints:    "@,
            )
            &&& says(text, "\nPoints:    "@ + decimal(nav.points as nat) + "\nAdjacent:  "@)
        }),
{
    lemma_linked(all_links(nav.polys@), nav.area_id);
    lemma_says();
}

/// All edges of all polygons count, in order.
pub proof fn law_all_edges_count(polys: Seq<NavPoly>, poly: NavPoly)
    ensures
        all_links(Seq::empty()).len() == 0,
        all_links(polys.push(poly)) == all_links(polys) + poly.links@,
        all_links(polys.push(poly)).len() == all_links(polys).len() + poly.links@.len(),
{
    assert(polys.push(poly).drop_last() =~= polys);
}

/// An area is adjacent exactly when an edge leads into it.
pub proof fn law_areas_are_those_of_the_edges(links: Seq<Option<u32>>, area: u32)
    ensures
        areas_in(links).contains(area) <==> exists|i: int|
            0 <= i < links.len() && #[trigger] links[i] == Some(area),
{
}

/// The bits of the contents are named one by one, in ascending order.
pub proof fn law_contents_are_named_by_bit(flags: u32)
    ensures
        content_names(flags).contains("Polygons"@) <==> flags & 1 != 0,
        content_names(flags).contains("Portals"@) <==> flags & 2 != 0,
        content_names(flags).contains("Vehicle"@) <==> flags & 4 != 0,
        content_names(flags).contains("Unknown8"@) <==> flags & 8 != 0,
        content_names(flags).contains("Unknown16"@) <==> flags & 16 != 0,
        content_names(flags).len() <= 5,
        content_text(flags) == "none"@ <== flags & 1 == 0 && flags & 2 == 0 && flags & 4 == 0 && flags
            & 8 == 0 && flags & 16 == 0,
        content_names(flags).len() > 0 ==> content_text(flags) == join(content_names(flags), ", "@),
{
    reveal_strlit("Polygons");
    reveal_strlit("Portals");
    reveal_strlit("Vehicle");
    reveal_strlit("Unknown8");
    reveal_strlit("Unknown16");
    let p = "Polygons"@;
    let q = "Portals"@;
    let v = "Vehicle"@;
    let a = "Unknown8"@;
    let b = "Unknown16"@;
    assert(p.len() == 8 && q.len() == 7 && v.len() == 7 && a.len() == 8 && b.len() == 9);
    assert(p[0] == 'P' && a[0] == 'U' && q[0] == 'P' && v[0] == 'V');
    let n0 = crate::commands::navmesh::flag_name(flags, 1, p);
    let n1 = crate::commands::navmesh::flag_name(flags, 2, q);
    let n2 = crate::commands::navmesh::flag_name(flags, 4, v);
    let n3 = crate::commands::navmesh::flag_name(flags, 8, a);
    let n4 = crate::commands::navmesh::flag_name(flags, 16, b);
    assert forall|x: Seq<char>| #[trigger] content_names(flags).contains(x) <==> n0.contains(x)
        || n1.contains(x) || n2.contains(x) || n3.contains(x) || n4.contains(x) by {
        lemma_in_sum(n0, n1, x);
        lemma_in_sum(n0 + n1, n2, x);
        lemma_in_sum(n0 + n1 + n2, n3, x);
        lemma_in_sum(n0 + n1 + n2 + n3, n4, x);
    }
    assert(flags & 1 != 0 ==> n0[0] == p);
    assert(flags & 2 != 0 ==> n1[0] == q);
    assert(flags & 4 != 0 ==> n2[0] == v);
    assert(flags & 8 != 0 ==> n3[0] == a);
    assert(flags & 16 != 0 ==> n4[0] == b);
}

pub proof fn lemma_in_sum<T>(a: Seq<T>, b: Seq<T>, x: T)
    ensures
        (a + b).contains(x) <==> a.contains(x) || b.contains(x),
{
    if a.contains(x) {
        let i = choose|i: int| 0 <= i < a.len() && a[i] == x;
        assert((a + b)[i] == x);
    }
    if b.contains(x) {
        let i = choose|i: int| 0 <= i < b.len() && b[i] == x;
        assert((a + b)[a.len() + i] == x);
    }
    if (a + b).contains(x) {
        let i = choose|i: int| 0 <= i < (a + b).len() && (a + b)[i] == x;
        if i < a.len() {
            assert(a[i] == x);
        } else {
            assert(b[i - a.len()] == x);
        }
    }
}

// ── Cells ───────────────────────────────────────────────────────────────────

/// An area number below ten thousand is a cell of the grid, a hundred to a
/// row: cell and area number each follow from the other. Any other stands
/// alone.
pub proof fn law_area_numbers_are_cells(area_id: u32)
    ensures
        match cell_of(area_id) {
            Some((cx, cy)) => cx < 100 && cy < 100 && area_id == cy * 100 + cx,
            None => area_id >= 10000,
        },
        area_id < 10000 ==> cell_of(area_id) is Some,
{
}

/// A cell is printed with its file name, its area and its edges in the world:
/// cells are 150 wide and the grid starts at -6000. The next column starts
/// where this one ends.
pub proof fn law_cell_is_described(cx: u32, cy: u32)
    requires
        cx < 100,
        cy < 100,
    ensures
        ({
            let area = (cy * 100 + cx) as u32;
            let text = cell_text(area);
            &&& says(
                text,
                "Cell:      "@ + ("navmesh["@ + decimal((3 * cx) as nat) + "]["@ + decimal(
                    (3 * cy) as nat,
                ) + "].ynv"@) + " (area "@,
            )
            &&& says(text, " (area "@ + decimal(area as nat) + "), x "@)
            &&& says(text, "), x "@ + signed_decimal(150 * cx - 6000) + ".."@)
            &&& says(text, ".."@ + signed_decimal(150 * cx - 5850) + ", y "@)
            &&& says(text, ", y "@ + signed_decimal(150 * cy - 6000) + ".."@)
            &&& says(text, ".."@ + signed_decimal(150 * cy - 5850) + "\n"@)
        }),
{
    let area = (cy * 100 + cx) as u32;
    assert(cell_of(area) == Some((cx, cy)));
    assert((3 * cx) as nat == (cx as nat) * 3);
    assert((3 * cy) as nat == (cy as nat) * 3);
    lemma_says();
}

/// A mesh beside the grid is printed as such.
pub proof fn law_standalone_mesh_is_described(area_id: u32)
    requires
        area_id >= 10000,
    ensures
        cell_text(area_id) == "Area:      "@ + decimal(area_id as nat) + " (standalone)\n"@,
{
}

// ── Finding a cell ──────────────────────────────────────────────────────────

/// What one more file adds to a search: a mesh its place, where its name has
/// the hash; an archive what is found in it, one level deeper, where its name
/// speaks of navigation and it can be read. Nothing deeper than the limit.
pub proof fn law_one_more_file_is_searched(
    files: Seq<Packed>,
    file: Packed,
    label: Seq<char>,
    hash: u32,
    depth: nat,
)
    ensures
        depth > 4 ==> hits(files, label, hash, depth).len() == 0,
        hits(Seq::empty(), label, hash, depth).len() == 0,
        depth <= 4 ==> ({
            let before = hits(files, label, hash, depth);
            let got = hits(files.push(file), label, hash, depth);
            let low = lowercase(file.name@);
            let place = label + ":"@ + file.path@;
            if ".rpf"@.is_suffix_of(low) {
                got == before + (match file.nested {
                    Nested::Files(inner) if has_text(low, "nav"@) => hits(
                        inner@,
                        place,
                        hash,
                        depth + 1,
                    ),
                    _ => Seq::empty(),
                })
            } else if ".ynv"@.is_suffix_of(low) && joaat(before_dot(low)) == hash {
                got == before.push(HitView { place, id: file.id })
            } else {
                got == before
            }
        }),
{
    assert(files.push(file).drop_last() =~= files);
    let before = hits(files, label, hash, depth);
    assert(before + Seq::empty() =~= before);
}

// ── Wavefront files ─────────────────────────────────────────────────────────

/// A polygon is in one group: the new ones by their place, before anything
/// else; then the sunk ones; then the interior ones; the rest is outside.
pub proof fn law_groups_of_polygons(p: ObjPoly, i: int, first_new: Option<usize>)
    ensures
        group_of(p, i, first_new) == ObjGroup::New <==> first_new is Some && i >= first_new->Some_0,
        group_of(p, i, first_new) == ObjGroup::Sunk <==> p.sunk && (first_new is None || i
            < first_new->Some_0),
        group_of(p, i, first_new) == ObjGroup::Interior <==> p.interior && !p.sunk && (first_new is None
            || i < first_new->Some_0),
        group_of(p, i, first_new) == ObjGroup::Exterior <==> !p.interior && !p.sunk && (first_new is None
            || i < first_new->Some_0),
{
}

/// One more polygon writes one more face, in its own group, of the vertices
/// that follow those of all polygons before it, counted from one.
pub proof fn law_one_more_face(
    polys: Seq<ObjPoly>,
    p: ObjPoly,
    first_new: Option<usize>,
    group: ObjGroup,
)
    ensures
        ({
            let before = face_lines(polys, first_new, group);
            let got = face_lines(polys.push(p), first_new, group);
            let start = crate::commands::navmesh::vertex_count(polys);
            if group_of(p, polys.len() as int, first_new) == group {
                &&& got.len() == before.len() + 1
                &&& got.drop_last() == before
                &&& got.last() == "f "@ + join(
                    Seq::new(p.vertices@.len(), |k: int| decimal((start + k + 1) as nat)),
                    " "@,
                )
            } else {
                got == before
            }
        }),
        crate::commands::navmesh::vertex_count(polys.push(p))
            == crate::commands::navmesh::vertex_count(polys) + p.vertices@.len(),
        crate::commands::navmesh::vertex_count(Seq::empty()) == 0,
        face_lines(Seq::empty(), first_new, group).len() == 0,
{
    assert(polys.push(p).drop_last() =~= polys);
    let before = face_lines(polys, first_new, group);
    let got = face_lines(polys.push(p), first_new, group);
    let start = crate::commands::navmesh::vertex_count(polys);
    if group_of(p, polys.len() as int, first_new) == group {
        assert(got.drop_last() =~= before);
        assert(crate::commands::navmesh::numbers_from(1 + start, p.vertices@.len()) =~= Seq::new(
            p.vertices@.len(),
            |k: int| decimal((start + k + 1) as nat),
        ));
    }
}

/// The vertices of all polygons are written below each other, a line each.
pub proof fn law_one_more_polygon_of_vertices(polys: Seq<ObjPoly>, p: ObjPoly)
    ensures
        crate::commands::navmesh::vertex_lines(Seq::empty()).len() == 0,
        crate::commands::navmesh::vertex_lines(polys.push(p))
            == crate::commands::navmesh::vertex_lines(polys) + crate::text::unlines(
            Seq::new(p.vertices@.len(), |k: int| "v "@ + p.vertices@[k]@),
        ),
{
    reveal_strlit("");
    assert(polys.push(p).drop_last() =~= polys);
    assert(crate::writer::written(crate::commands::navmesh::VertexLine, p.vertices@) =~= Seq::new(
        p.vertices@.len(),
        |k: int| "v "@ + p.vertices@[k]@,
    ));
}

/// Each group of faces is headed by its own name.
pub proof fn law_groups_are_named(polys: Seq<ObjPoly>, first_new: Option<usize>)
    ensures
        ({
            let text = obj_text(polys, first_new);
            let outside = face_lines(polys, first_new, ObjGroup::Exterior);
            let inside = face_lines(polys, first_new, ObjGroup::Interior);
            let sunk = face_lines(polys, first_new, ObjGroup::Sunk);
            let new = face_lines(polys, first_new, ObjGroup::New);
            &&& outside.len() > 0 ==> says(
                text,
                "g "@ + "exterior"@ + "\n"@ + crate::text::unlines(outside),
            )
            &&& inside.len() > 0 ==> says(
                text,
                "g "@ + "interior"@ + "\n"@ + crate::text::unlines(inside),
            )
            &&& sunk.len() > 0 ==> says(text, "g "@ + "sunk"@ + "\n"@ + crate::text::unlines(sunk))
            &&& new.len() > 0 ==> says(text, "g "@ + "new"@ + "\n"@ + crate::text::unlines(new))
            &&& says(
                text,
                "# rage navmesh export\n"@ + crate::commands::navmesh::vertex_lines(polys),
            )
        }),
{
    lemma_says();
}

/// The triangles of a material are those that bear its number, each of three
/// vertices of its own.
pub proof fn law_triangles_go_by_material(materials: Seq<u8>, own: u8, m: u8)
    ensures
        material_lines(Seq::empty(), m).len() == 0,
        material_lines(materials.push(own), m) == (if own == m {
            material_lines(materials, m).push(
                "f "@ + decimal(3 * materials.len() + 1) + " "@ + decimal(3 * materials.len() + 2)
                    + " "@ + decimal(3 * materials.len() + 3),
            )
        } else {
            material_lines(materials, m)
        }),
{
    assert(materials.push(own).drop_last() =~= materials);
}

} // verus!
