//! Whether the pages of a texture dictionary come to rest. The writer of
//! dictionaries lays the system section out for a number of pages, and again
//! for the number that came out, until the two agree; on some textures they
//! never do.
use vstd::prelude::*;
use vstd::string::*;
use vstd::utf8::encode_utf8;
use crate::commands::resource::container::{section_size, word};
use crate::formats::{is_wide, referred_pixels, PixelView, Pixels};
use crate::hash::{joaat, rage_joaat};
use crate::order::{is_stable_order, lemma_stable_order_unique, stable_order};
use crate::text::{lowercase, to_lowercase};

verus! {

// ── Pages ───────────────────────────────────────────────────────────────────

/// The number of pages that `rage_formats::pack_pages` lays blocks of the
/// given sizes out on, or what it says where they do not fit.
pub uninterp spec fn packed_pages(sizes: Seq<nat>, root_first: bool, max_pages: nat) -> Result<
    nat,
    Seq<char>,
>;

/// Sizes as numbers.
pub open spec fn numbers(sizes: Seq<usize>) -> Seq<nat> {
    sizes.map_values(|s: usize| s as nat)
}

/// `rage_formats::pack_pages`, whose result depends on its arguments alone,
/// with the pages of its flags counted by `rage_formats::rsc7_page_count`:
/// there are never more than are allowed.
#[verifier::external_body]
fn pack_pages(sizes: &Vec<usize>, root_first: bool, max_pages: usize) -> (r: Result<usize, String>)
    requires
        is_wide(),
    ensures
        match r {
            Ok(n) => n <= max_pages && packed_pages(numbers(sizes@), root_first, max_pages as nat)
                == Ok::<nat, Seq<char>>(n as nat),
            Err(e) => packed_pages(numbers(sizes@), root_first, max_pages as nat) == Err::<
                nat,
                Seq<char>,
            >(e@),
        },
{
    rage_formats::pack_pages(sizes, root_first, max_pages)
        .map(|l| rage_formats::rsc7_page_count(l.flags))
        .map_err(|e| format!("{e:#}"))
}

// ── Blocks ──────────────────────────────────────────────────────────────────

/// The hash that a texture is sorted by.
pub open spec fn sort_hash(p: PixelView) -> u64 {
    if p.name_hash != 0 {
        p.name_hash as u64
    } else {
        joaat(lowercase(p.name)) as u64
    }
}

/// The bytes of so many levels, each a quarter of the one before.
pub open spec fn chain(length: nat, levels: nat) -> nat
    decreases levels,
{
    if levels == 0 {
        0
    } else {
        length + chain(length / 4, (levels - 1) as nat)
    }
}

/// The bytes of the pixels of a texture.
pub open spec fn pixel_size(p: PixelView) -> nat {
    chain((p.stride * p.height) as nat, p.levels as nat) * (if p.depth == 0 {
        1nat
    } else {
        p.depth as nat
    })
}

/// The order of textures by their hashes.
pub open spec fn hash_order(list: Seq<PixelView>) -> Seq<usize> {
    choose|order: Seq<usize>| in_hash_order(list, order)
}

/// `order` lists the textures by their hashes.
pub open spec fn in_hash_order(list: Seq<PixelView>, order: Seq<usize>) -> bool {
    is_stable_order(list.map_values(|p: PixelView| sort_hash(p)), order, 0, list.len() as int)
}

/// Textures in the order of their hashes.
pub open spec fn by_hash(list: Seq<PixelView>) -> Seq<PixelView> {
    Seq::new(list.len(), |i: int| list[hash_order(list)[i] as int])
}

/// The sizes of the pixel blocks of textures that have pixels.
pub open spec fn graphics_sizes(list: Seq<PixelView>) -> Seq<nat>
    decreases list.len(),
{
    if list.len() == 0 {
        Seq::empty()
    } else {
        let before = graphics_sizes(list.drop_last());
        if pixel_size(list.last()) > 0 {
            before.push(pixel_size(list.last()))
        } else {
            before
        }
    }
}

/// The size of the block of a texture's name.
pub open spec fn name_size(p: PixelView) -> nat {
    encode_utf8(p.name).len() + 1
}

/// The sizes of the system blocks of textures, with a page map of so many
/// pages: the dictionary, the page map, the hashes, the pointers, the textures
/// and their names.
pub open spec fn system_sizes(list: Seq<PixelView>, pages: nat) -> Seq<nat> {
    seq![0x40nat, 16 + 8 * pages, 4 * list.len(), 8 * list.len()] + Seq::new(
        list.len(),
        |i: int| 0x90nat,
    ) + list.map_values(|p: PixelView| name_size(p))
}

/// The layout comes to rest within so many rounds: the system section laid out
/// for `pages` pages, beside `graphics` pages, takes that many, or does not fit.
pub open spec fn rests(list: Seq<PixelView>, graphics: nat, pages: nat, rounds: nat) -> bool
    decreases rounds,
{
    rounds > 0 && match packed_pages(
        system_sizes(list, pages + graphics),
        true,
        (128 - graphics) as nat,
    ) {
        Err(_) => true,
        Ok(n) => n == pages || rests(list, graphics, n, (rounds - 1) as nat),
    }
}

/// There are at most 128 pages, so a layout that has not come to rest after
/// so many rounds never will.
pub const MAX_ROUNDS: u32 = 130;

/// The layout of the textures' dictionary comes to rest. More textures than a
/// dictionary holds are refused before they are laid out.
pub open spec fn layout_rests(list: Seq<PixelView>) -> bool {
    list.len() > 0xffff || {
        &&& forall|i: int| 0 <= i < list.len() ==> name_size(#[trigger] list[i]) <= usize::MAX
        &&& match packed_pages(graphics_sizes(by_hash(list)), false, 128) {
            Err(_) => true,
            Ok(graphics) => rests(by_hash(list), graphics, 1, MAX_ROUNDS as nat),
        }
    }
}

// ── Reading back ────────────────────────────────────────────────────────────

/// The name of a texture format, by its code.
pub open spec fn format_text(code: u32) -> Seq<char> {
    if code == 21 {
        "A8R8G8B8"@
    } else if code == 22 {
        "X8R8G8B8"@
    } else if code == 25 {
        "A1R5G5B5"@
    } else if code == 28 {
        "A8"@
    } else if code == 32 {
        "A8B8G8R8"@
    } else if code == 50 {
        "L8"@
    } else if code == 0x31545844 {
        "DXT1"@
    } else if code == 0x33545844 {
        "DXT3"@
    } else if code == 0x35545844 {
        "DXT5"@
    } else if code == 0x31495441 {
        "ATI1"@
    } else if code == 0x32495441 {
        "ATI2"@
    } else if code == 0x20374342 {
        "BC7"@
    } else {
        "Unknown"@
    }
}

/// A texture format is one of those that have a code.
pub open spec fn is_known_format(code: u32) -> bool {
    code == 21 || code == 22 || code == 25 || code == 28 || code == 32 || code == 50 || code
        == 0x31545844 || code == 0x33545844 || code == 0x35545844 || code == 0x31495441 || code
        == 0x32495441 || code == 0x20374342
}

/// A texture as it comes back from a dictionary: under the hash that it is
/// found by, at least one deep, of a known format or none, and with the bytes
/// that its levels take up.
pub open spec fn read_back(p: PixelView) -> PixelView {
    PixelView {
        name_hash: sort_hash(p) as u32,
        depth: if p.depth == 0 {
            1
        } else {
            p.depth
        },
        format: if is_known_format(p.format) {
            p.format
        } else {
            0
        },
        format_name: format_text(p.format),
        data: p.data.take(chain((p.stride * p.height) as nat, p.levels as nat) as int),
        ..p
    }
}

/// A name that comes back from a dictionary: no more than 255 bytes, none of
/// them zero.
pub open spec fn is_name_kept(p: PixelView) -> bool {
    encode_utf8(p.name).len() <= 255 && !p.name.contains('\0')
}

/// The textures come back from the file of their dictionary: their names are
/// kept, and neither section is longer than its addresses reach.
pub open spec fn comes_back(list: Seq<PixelView>, bytes: Seq<u8>) -> bool {
    &&& forall|i: int| 0 <= i < list.len() ==> is_name_kept(#[trigger] list[i])
    &&& section_size(word(bytes, 8)) <= 0x1000_0000
    &&& section_size(word(bytes, 12)) <= 0x2000_0000
}

/// The textures of a dictionary as they come back from it, by their hashes.
pub open spec fn all_read_back(list: Seq<PixelView>) -> Seq<PixelView> {
    by_hash(list).map_values(|p: PixelView| read_back(p))
}

/// A texture comes back from a dictionary as it went in if it has its hash, a
/// depth, a known format under its name, and no bytes beyond its levels.
pub proof fn law_whole_textures_come_back_unchanged(p: PixelView)
    requires
        p.name_hash != 0,
        p.depth != 0,
        is_known_format(p.format),
        p.format_name == format_text(p.format),
        p.data.len() == chain((p.stride * p.height) as nat, p.levels as nat),
    ensures
        read_back(p) == p,
{
    assert(p.data.take(p.data.len() as int) =~= p.data);
}

// ── Computing ───────────────────────────────────────────────────────────────

proof fn lemma_chain(length: nat, levels: nat)
    ensures
        chain(length, levels) <= 2 * length,
    decreases levels,
{
    if levels > 0 {
        lemma_chain(length / 4, (levels - 1) as nat);
    }
}

fn chain_size(length: u64, levels: u8) -> (r: u64)
    requires
        length <= 0xffff_ffff,
    ensures
        r == chain(length as nat, levels as nat),
        r <= 2 * length,
{
    let mut total: u64 = 0;
    let mut rest: u64 = length;
    let mut left: u8 = levels;
    proof {
        lemma_chain(length as nat, levels as nat);
    }
    while left > 0
        invariant
            rest <= 0xffff_ffff,
            total + chain(rest as nat, left as nat) == chain(length as nat, levels as nat),
            chain(length as nat, levels as nat) <= 2 * length <= 0x1_ffff_fffe,
        decreases left,
    {
        total = total + rest;
        rest = rest / 4;
        left = left - 1;
    }
    total
}

fn pixel_bytes(p: &Pixels) -> (r: usize)
    requires
        is_wide(),
    ensures
        r == pixel_size(p@),
{
    let stride: u64 = p.stride as u64;
    let height: u64 = p.height as u64;
    assert(stride * height <= 0xffff * 0xffff) by (nonlinear_arith)
        requires
            stride <= 0xffff,
            height <= 0xffff,
    ;
    let level: u64 = chain_size(stride * height, p.levels);
    let depth: u64 = if p.depth == 0 {
        1
    } else {
        p.depth as u64
    };
    assert(level * depth <= 0x1_ffff_ffff * 0xffff) by (nonlinear_arith)
        requires
            level <= 0x1_ffff_ffff,
            depth <= 0xffff,
    ;
    (level * depth) as usize
}

/// Textures in the order of their hashes.
fn sort_by_hash<'a>(list: &Vec<&'a Pixels>) -> (out: Vec<&'a Pixels>)
    ensures
        referred_pixels(out@) == by_hash(referred_pixels(list@)),
        out.len() == list.len(),
        forall|i: int| 0 <= i < out.len() ==> list@.contains(#[trigger] out[i]),
{
    let ghost all = referred_pixels(list@);
    let mut keys: Vec<u64> = Vec::new();
    let mut i: usize = 0;
    while i < list.len()
        invariant
            i <= list.len(),
            keys.len() == i,
            forall|k: int| 0 <= k < i ==> keys[k] == sort_hash((#[trigger] list[k])@),
        decreases list.len() - i,
    {
        let p: &Pixels = list[i];
        let key: u64 = if p.name_hash != 0 {
            p.name_hash as u64
        } else {
            rage_joaat(to_lowercase(p.name.as_str()).as_str()) as u64
        };
        keys.push(key);
        i = i + 1;
    }
    assert(keys@ =~= all.map_values(|p: PixelView| sort_hash(p)));
    let order = stable_order(&keys);
    proof {
        assert(in_hash_order(all, order@));
        lemma_stable_order_unique(keys@, hash_order(all), order@, keys.len() as int);
    }
    let mut out: Vec<&'a Pixels> = Vec::new();
    let mut j: usize = 0;
    while j < order.len()
        invariant
            j <= order.len() == list.len(),
            is_stable_order(keys@, order@, 0, list.len() as int),
            out.len() == j,
            forall|k: int| 0 <= k < j ==> (#[trigger] out[k])@ == list[order[k] as int]@,
            forall|k: int| 0 <= k < j ==> list@.contains(#[trigger] out[k]),
        decreases order.len() - j,
    {
        assert(order[j as int] < list.len());
        out.push(list[order[j]]);
        j = j + 1;
    }
    assert(referred_pixels(out@) =~= by_hash(all));
    out
}

fn count_graphics(list: &Vec<&Pixels>) -> (out: Vec<usize>)
    requires
        is_wide(),
    ensures
        numbers(out@) == graphics_sizes(referred_pixels(list@)),
{
    let ghost all = referred_pixels(list@);
    let mut out: Vec<usize> = Vec::new();
    let mut i: usize = 0;
    assert(all.take(0) =~= Seq::empty());
    assert(numbers(out@) =~= Seq::empty());
    while i < list.len()
        invariant
            i <= list.len(),
            is_wide(),
            all == referred_pixels(list@),
            numbers(out@) == graphics_sizes(all.take(i as int)),
        decreases list.len() - i,
    {
        proof {
            assert(all.take(i + 1).drop_last() =~= all.take(i as int));
            assert(all.take(i + 1).last() == list[i as int]@);
        }
        let size: usize = pixel_bytes(list[i]);
        if size > 0 {
            let ghost before = numbers(out@);
            out.push(size);
            assert(numbers(out@) =~= before.push(size as nat));
        }
        i = i + 1;
    }
    assert(all.take(list.len() as int) =~= all);
    out
}

fn count_system(list: &Vec<&Pixels>, pages: usize) -> (out: Vec<usize>)
    requires
        is_wide(),
        list.len() <= 0xffff,
        pages <= 256,
        forall|i: int| 0 <= i < list.len() ==> name_size((#[trigger] list[i])@) <= usize::MAX,
    ensures
        numbers(out@) == system_sizes(referred_pixels(list@), pages as nat),
{
    let mut out: Vec<usize> = Vec::new();
    out.push(0x40);
    out.push(16 + 8 * pages);
    out.push(4 * list.len());
    out.push(8 * list.len());
    let mut i: usize = 0;
    while i < list.len()
        invariant
            i <= list.len() <= 0xffff,
            pages <= 256,
            out.len() == 4 + i,
            out[0] == 0x40 && out[1] == 16 + 8 * pages && out[2] == 4 * list.len() && out[3] == 8
                * list.len(),
            forall|k: int| 4 <= k < 4 + i ==> out[k] == 0x90,
        decreases list.len() - i,
    {
        out.push(0x90);
        i = i + 1;
    }
    let mut j: usize = 0;
    while j < list.len()
        invariant
            j <= list.len() <= 0xffff,
            pages <= 256,
            out.len() == 4 + list.len() + j,
            out[0] == 0x40 && out[1] == 16 + 8 * pages && out[2] == 4 * list.len() && out[3] == 8
                * list.len(),
            forall|k: int| 4 <= k < 4 + list.len() ==> out[k] == 0x90,
            forall|k: int| 0 <= k < j ==> out[4 + list.len() + k] == name_size((#[trigger] list[k])@),
            forall|i: int| 0 <= i < list.len() ==> name_size((#[trigger] list[i])@) <= usize::MAX,
        decreases list.len() - j,
    {
        assert(name_size(list[j as int]@) <= usize::MAX);
        let bytes = list[j].name.as_str().as_bytes();
        out.push(bytes.len() + 1);
        j = j + 1;
    }
    assert(numbers(out@) =~= system_sizes(referred_pixels(list@), pages as nat));
    out
}

fn names_fit(list: &Vec<&Pixels>) -> (r: bool)
    ensures
        r == forall|i: int| 0 <= i < list.len() ==> name_size((#[trigger] list[i])@) <= usize::MAX,
{
    let mut i: usize = 0;
    while i < list.len()
        invariant
            i <= list.len(),
            forall|k: int| 0 <= k < i ==> name_size((#[trigger] list[k])@) <= usize::MAX,
        decreases list.len() - i,
    {
        let bytes = list[i].name.as_str().as_bytes();
        if bytes.len() == usize::MAX {
            assert(name_size(list[i as int]@) > usize::MAX);
            return false;
        }
        i = i + 1;
    }
    true
}

/// Whether the layout of the textures' dictionary comes to rest.
pub fn check_layout(list: &Vec<&Pixels>) -> (r: bool)
    requires
        is_wide(),
    ensures
        r == layout_rests(referred_pixels(list@)),
{
    let ghost all = referred_pixels(list@);
    if list.len() > 0xffff {
        return true;
    }
    if !names_fit(list) {
        proof {
            let i = choose|i: int| 0 <= i < list.len() && name_size((#[trigger] list[i])@) > usize::MAX;
            assert(all[i] == list[i]@);
        }
        return false;
    }
    assert forall|i: int| 0 <= i < all.len() implies name_size(#[trigger] all[i]) <= usize::MAX by {
        assert(all[i] == list[i]@);
    }
    let sorted = sort_by_hash(list);
    let ghost by = by_hash(all);
    let graphics: usize = match pack_pages(&count_graphics(&sorted), false, 128) {
        Ok(n) => n,
        Err(_) => return true,
    };
    proof {
        assert forall|i: int| 0 <= i < sorted.len() implies name_size((#[trigger] sorted[i])@)
            <= usize::MAX by {
            assert(list@.contains(sorted[i]));
            let k = choose|k: int| 0 <= k < list.len() && list@[k] == sorted[i];
            assert(name_size(list[k]@) <= usize::MAX);
        }
    }
    let mut pages: usize = 1;
    let mut rounds: u32 = MAX_ROUNDS;
    while rounds > 0
        invariant
            is_wide(),
            sorted.len() <= 0xffff,
            graphics <= 128,
            pages <= 128,
            all == referred_pixels(list@),
            by == referred_pixels(sorted@),
            forall|i: int| 0 <= i < sorted.len() ==> name_size((#[trigger] sorted[i])@) <= usize::MAX,
            rests(by, graphics as nat, 1, MAX_ROUNDS as nat) == rests(
                by,
                graphics as nat,
                pages as nat,
                rounds as nat,
            ),
            layout_rests(all) == rests(by, graphics as nat, 1, MAX_ROUNDS as nat),
        decreases rounds,
    {
        let sizes = count_system(&sorted, pages + graphics);
        match pack_pages(&sizes, true, 128 - graphics) {
            Err(_) => return true,
            Ok(n) => {
                if n == pages {
                    return true;
                }
                pages = n;
            },
        }
        rounds = rounds - 1;
    }
    false
}

} // verus!
