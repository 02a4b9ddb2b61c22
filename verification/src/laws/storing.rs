//! How the index is stored, and what is said of it.
use vstd::prelude::*;
use vstd::utf8::{decode_utf8, encode_utf8, valid_utf8};
use crate::commands::index_cmd::{state_text, PartState};
use crate::index::bytes::{
    entries, from_le32, le32, le64, list_bytes, map_bytes, map_of, read_text, read_u32, read_u64,
    text_bytes, IndexError,
};
use crate::index::codec::{
    asset_coder, body_bytes, box_coder, head_bytes, loc_bytes, loc_coder, loc_entry_coder,
    pair_coder, placing_coder, read_head, text_coder,
};
use crate::index::fingerprint::{first_word, stamp_bytes, stamps_bytes, Stamp};
use crate::index::lookup::{summary_parts, summary_text, total_placements};
use crate::index::model::{ArchetypeBox, Asset, IndexView, Location};
use crate::index::parts::Parts;
use crate::order::ascending;
use crate::text::{decimal, join};

verus! {

// ── Numbers and texts ───────────────────────────────────────────────────────

/// A number is stored in four bytes, the lowest first, and a longer one in
/// eight, the lower half first.
pub proof fn law_numbers_are_stored_lowest_first(n: u32, m: u64)
    ensures
        le32(n).len() == 4,
        le32(n)[0] + 0x100 * le32(n)[1] + 0x1_0000 * le32(n)[2] + 0x100_0000 * le32(n)[3] == n,
        le64(m).len() == 8,
        from_le32(le64(m).take(4)) + 0x1_0000_0000 * from_le32(le64(m).skip(4)) == m,
{
    let low = (m % 0x1_0000_0000) as u32;
    let high = (m / 0x1_0000_0000) as u32;
    assert(le64(m).take(4) =~= le32(low));
    assert(le64(m).skip(4) =~= le32(high));
    lemma_le32(n);
    lemma_le32(low);
    lemma_le32(high);
}

proof fn lemma_le32(n: u32)
    ensures
        le32(n)[0] + 0x100 * le32(n)[1] + 0x1_0000 * le32(n)[2] + 0x100_0000 * le32(n)[3] == n,
        from_le32(le32(n)) == n,
{
    let a = n % 256;
    let b = n / 256 % 256;
    let c = n / 65536 % 256;
    let d = n / 16777216;
    assert(a + 256 * b + 65536 * c + 16777216 * d == n && a < 256 && b < 256 && c < 256 && d < 256) by {
        assert(n / 65536 == n / 256 / 256);
        assert(n / 16777216 == n / 256 / 256 / 256);
    }
}

/// A number is read from the first bytes, the lowest first, and what follows is
/// left over.
pub proof fn law_numbers_are_read_lowest_first(s: Seq<u8>)
    ensures
        s.len() < 4 ==> read_u32(s) is Err,
        s.len() >= 4 ==> match read_u32(s) {
            Ok((n, rest)) => n == s[0] + 0x100 * s[1] + 0x1_0000 * s[2] + 0x100_0000 * s[3] && rest
                == s.skip(4),
            Err(_) => false,
        },
        s.len() < 8 ==> read_u64(s) is Err,
        s.len() >= 8 ==> match read_u64(s) {
            Ok((n, rest)) => n == s[0] + 0x100 * s[1] + 0x1_0000 * s[2] + 0x100_0000 * s[3]
                + 0x1_0000_0000 * (s[4] + 0x100 * s[5] + 0x1_0000 * s[6] + 0x100_0000 * s[7]) && rest
                == s.skip(8),
            Err(_) => false,
        },
{
    if s.len() >= 8 {
        assert(s.skip(4).skip(4) =~= s.skip(8));
    }
}

/// A text is stored as its length in bytes and those bytes, and read back only
/// if they are all there and a text.
pub proof fn law_texts_are_stored_with_their_length(t: Seq<char>, s: Seq<u8>)
    ensures
        text_bytes(t) == le32(encode_utf8(t).len() as u32) + encode_utf8(t),
        match read_text(s) {
            Ok((got, rest)) => s.len() >= 4 + from_le32(s) && valid_utf8(
                s.subrange(4, 4 + from_le32(s)),
            ) && got == decode_utf8(s.subrange(4, 4 + from_le32(s))) && rest == s.skip(
                4 + from_le32(s),
            ),
            Err(IndexError::TruncatedNumber) => s.len() < 4,
            Err(IndexError::TruncatedText) => 4 <= s.len() < 4 + from_le32(s),
            Err(IndexError::BadText) => s.len() >= 4 + from_le32(s) && !valid_utf8(
                s.subrange(4, 4 + from_le32(s)),
            ),
            Err(_) => false,
        },
{
    if s.len() >= 4 {
        let n = from_le32(s) as int;
        let rest = s.skip(4);
        if rest.len() >= n {
            assert(rest.take(n) =~= s.subrange(4, 4 + n));
            assert(rest.skip(n) =~= s.skip(4 + n));
        }
    }
}

// ── The file of a part ──────────────────────────────────────────────────────

/// The head of a file: the mark "RFPX", the version, the part and the
/// fingerprint.
pub proof fn law_head_of_a_part(part: Parts, fingerprint: u64)
    ensures
        head_bytes(part, fingerprint) == seq![0x52u8, 0x46, 0x50, 0x58, 8, 0, 0, 0] + le32(
            part.bits as u32,
        ) + le64(fingerprint),
{
    assert(le32(crate::index::codec::MAGIC) =~= seq![0x52u8, 0x46, 0x50, 0x58]);
    assert(le32(crate::index::codec::FORMAT_VERSION) =~= seq![8u8, 0, 0, 0]);
    assert(head_bytes(part, fingerprint) =~= seq![0x52u8, 0x46, 0x50, 0x58, 8, 0, 0, 0] + le32(
        part.bits as u32,
    ) + le64(fingerprint));
}

/// What a file of another mark, version or part is refused with.
pub proof fn law_other_heads_are_refused(s: Seq<u8>, part: Parts)
    requires
        s.len() >= 20,
    ensures
        ({
            let magic = from_le32(s);
            let version = from_le32(s.skip(4));
            let stored = from_le32(s.skip(8));
            match read_head(s, part) {
                Ok((fingerprint, rest)) => magic == 0x5850_4652 && version == 8 && stored == part.bits
                    && fingerprint == from_le32(s.skip(12)) + 0x1_0000_0000 * from_le32(s.skip(16))
                    && rest == s.skip(20),
                Err(IndexError::BadMagic) => magic != 0x5850_4652,
                Err(IndexError::UnsupportedVersion { version: v }) => magic == 0x5850_4652 && v
                    == version && version != 8,
                Err(IndexError::OtherPart { stored: a, expected }) => magic == 0x5850_4652 && version
                    == 8 && a == stored && expected == part.bits && stored != part.bits,
                Err(_) => false,
            }
        }),
{
    assert(s.skip(4).skip(4) =~= s.skip(8));
    assert(s.skip(8).skip(4) =~= s.skip(12));
    assert(s.skip(12).skip(4) =~= s.skip(16));
    assert(s.skip(16).skip(4) =~= s.skip(20));
}

/// What the file of each part holds, in order.
pub proof fn law_body_of_a_part(v: IndexView)
    ensures
        body_bytes(v, Parts::textures()) == map_bytes(v.ytd_by_name, loc_entry_coder()) + (map_bytes(
            v.archetype_txd,
            pair_coder(),
        ) + (map_bytes(v.resident_textures, pair_coder()) + map_bytes(v.parent_txds, pair_coder()))),
        body_bytes(v, Parts::interiors()) == map_bytes(v.mlo_ytyp, loc_entry_coder()) + (map_bytes(
            v.mlo_instances,
            placing_coder(),
        ) + map_bytes(v.ybn_by_name, loc_entry_coder())),
        body_bytes(v, Parts::models()) == map_bytes(v.archetype_box, box_coder()) + (map_bytes(
            v.drawable_by_name,
            loc_entry_coder(),
        ) + map_bytes(v.archetype_asset, asset_coder())),
{
    assert(body_bytes(v, Parts::textures()) =~= map_bytes(v.ytd_by_name, loc_entry_coder()) + (
    map_bytes(v.archetype_txd, pair_coder()) + (map_bytes(v.resident_textures, pair_coder())
        + map_bytes(v.parent_txds, pair_coder()))));
    assert(body_bytes(v, Parts::interiors()) =~= map_bytes(v.mlo_ytyp, loc_entry_coder()) + (
    map_bytes(v.mlo_instances, placing_coder()) + map_bytes(v.ybn_by_name, loc_entry_coder())));
    assert(body_bytes(v, Parts::models()) =~= map_bytes(v.archetype_box, box_coder()) + (map_bytes(
        v.drawable_by_name,
        loc_entry_coder(),
    ) + map_bytes(v.archetype_asset, asset_coder())));
}

/// What an entry of each map is stored as: its key, then its value, field by
/// field.
pub proof fn law_entries_are_stored_field_by_field(
    key: u32,
    value: u32,
    l: Location,
    list: Seq<Location>,
    a: Asset,
)
    ensures
        pair_coder()((key, value)) == le32(key) + le32(value),
        loc_entry_coder()((key, l)) == le32(key) + loc_bytes(l),
        loc_bytes(l) == text_bytes(l.top_archive) + (le32(l.nested_rpfs.len() as u32) + (list_bytes(
            l.nested_rpfs,
            text_coder(),
        ) + text_bytes(l.inner_path))),
        placing_coder()((key, list)) == le32(key) + (le32(list.len() as u32) + list_bytes(
            list,
            loc_coder(),
        )),
        asset_coder()((key, a)) == le32(key) + (le32(a.kind) + le32(a.model)),
{
    assert(loc_bytes(l) =~= text_bytes(l.top_archive) + (le32(l.nested_rpfs.len() as u32) + (
    list_bytes(l.nested_rpfs, text_coder()) + text_bytes(l.inner_path))));
    assert(placing_coder()((key, list)) =~= le32(key) + (le32(list.len() as u32) + list_bytes(
        list,
        loc_coder(),
    )));
    assert(asset_coder()((key, a)) =~= le32(key) + (le32(a.kind) + le32(a.model)));
}

/// A box is stored as its key and the six words of its corners, the lower one
/// first.
pub proof fn law_boxes_are_stored_corner_by_corner(key: u32, b: ArchetypeBox)
    ensures
        box_coder()((key, b)) == le32(key) + (le32(b.min_x) + le32(b.min_y) + le32(b.min_z) + le32(
            b.max_x,
        ) + le32(b.max_y) + le32(b.max_z)),
{
    let w = crate::index::codec::box_words(b);
    let c = crate::index::codec::word_coder();
    let w5 = w.drop_last();
    let w4 = w5.drop_last();
    let w3 = w4.drop_last();
    let w2 = w3.drop_last();
    let w1 = w2.drop_last();
    assert(w1.drop_last() =~= Seq::empty());
    assert(list_bytes(w1.drop_last(), c).len() == 0);
    assert(list_bytes(w1, c) =~= le32(b.min_x));
    assert(list_bytes(w2, c) == le32(b.min_x) + le32(b.min_y));
    assert(list_bytes(w3, c) == list_bytes(w2, c) + le32(b.min_z));
    assert(list_bytes(w4, c) == list_bytes(w3, c) + le32(b.max_x));
    assert(list_bytes(w5, c) == list_bytes(w4, c) + le32(b.max_y));
    assert(list_bytes(w, c) == list_bytes(w5, c) + le32(b.max_z));
}

/// A map is stored as its count and its entries; a key that comes twice counts
/// by its last entry.
pub proof fn law_maps_are_stored_with_their_count<V>(
    m: Map<u32, V>,
    bytes: spec_fn((u32, V)) -> Seq<u8>,
    list: Seq<(u32, V)>,
    one: (u32, V),
)
    ensures
        map_bytes(m, bytes) == le32(m.dom().len() as u32) + list_bytes(entries(m), bytes),
        list_bytes(Seq::empty(), bytes).len() == 0,
        list_bytes(list.push(one), bytes) == list_bytes(list, bytes) + bytes(one),
        map_of(list.push(one)).contains_key(one.0),
        map_of(list.push(one))[one.0] == one.1,
        forall|k: u32|
            k != one.0 ==> (#[trigger] map_of(list.push(one)).contains_key(k) <==> map_of(
                list,
            ).contains_key(k)),
        forall|k: u32|
            k != one.0 && #[trigger] map_of(list).contains_key(k) ==> map_of(list.push(one))[k]
                == map_of(list)[k],
{
    assert(list.push(one).drop_last() =~= list);
}

// ── Parts ───────────────────────────────────────────────────────────────────

/// What each part has of an index: its own maps, and nothing of the others.
pub proof fn law_parts_have_their_own_maps(v: IndexView)
    ensures
        ({
            let t = v.only(Parts::textures());
            &&& t.parts == Parts::textures()
            &&& t.ytd_by_name == v.ytd_by_name && t.archetype_txd == v.archetype_txd
                && t.resident_textures == v.resident_textures && t.parent_txds == v.parent_txds
            &&& t.mlo_ytyp.dom().len() == 0 && t.mlo_instances.dom().len() == 0
                && t.ybn_by_name.dom().len() == 0 && t.archetype_box.dom().len() == 0
                && t.drawable_by_name.dom().len() == 0 && t.archetype_asset.dom().len() == 0
        }),
        ({
            let i = v.only(Parts::interiors());
            &&& i.parts == Parts::interiors()
            &&& i.mlo_ytyp == v.mlo_ytyp && i.mlo_instances == v.mlo_instances && i.ybn_by_name
                == v.ybn_by_name
            &&& i.ytd_by_name.dom().len() == 0 && i.archetype_txd.dom().len() == 0
                && i.resident_textures.dom().len() == 0 && i.parent_txds.dom().len() == 0
                && i.archetype_box.dom().len() == 0 && i.drawable_by_name.dom().len() == 0
                && i.archetype_asset.dom().len() == 0
        }),
        ({
            let m = v.only(Parts::models());
            &&& m.parts == Parts::models()
            &&& m.archetype_box == v.archetype_box && m.drawable_by_name == v.drawable_by_name
                && m.archetype_asset == v.archetype_asset
            &&& m.ytd_by_name.dom().len() == 0 && m.archetype_txd.dom().len() == 0
                && m.resident_textures.dom().len() == 0 && m.parent_txds.dom().len() == 0
                && m.mlo_ytyp.dom().len() == 0 && m.mlo_instances.dom().len() == 0
                && m.ybn_by_name.dom().len() == 0
        }),
{
}

/// The parts have these names and numbers, and a set of parts holds those whose
/// bits it has.
pub proof fn law_parts_have_names(p: Parts)
    ensures
        Parts::textures().bits == 1,
        Parts::interiors().bits == 2,
        Parts::models().bits == 4,
        Parts::textures().title() == "textures"@,
        Parts::interiors().title() == "interiors"@,
        Parts::models().title() == "models"@,
        p.bits != 1 && p.bits != 2 && p.bits != 4 ==> p.title() == "index"@,
        p.holds(Parts::textures()) <==> p.bits & 1 == 1,
        p.holds(Parts::interiors()) <==> p.bits & 2 == 2,
        p.holds(Parts::models()) <==> p.bits & 4 == 4,
        p.holds(Parts::textures()) ==> p.singles()[0] == Parts::textures(),
        p.holds(Parts::models()) ==> p.singles().last() == Parts::models(),
        p.holds(Parts::interiors()) ==> p.singles().contains(Parts::interiors()),
        p.singles().len() == (if p.bits & 1 == 1 {
            1int
        } else {
            0
        }) + (if p.bits & 2 == 2 {
            1int
        } else {
            0
        }) + (if p.bits & 4 == 4 {
            1int
        } else {
            0
        }),
{
    if p.holds(Parts::interiors()) {
        if p.holds(Parts::textures()) {
            assert(p.singles()[1] == Parts::interiors());
        } else {
            assert(p.singles()[0] == Parts::interiors());
        }
    }
}

// ── The fingerprint ─────────────────────────────────────────────────────────

/// The archives go into the fingerprint one after the other, each with its
/// path, a nought, its size and its time.
pub proof fn law_one_more_archive(list: Seq<Stamp>, s: Stamp)
    ensures
        stamps_bytes(Seq::empty()).len() == 0,
        stamps_bytes(list.push(s)) == stamps_bytes(list) + (encode_utf8(s.path) + (seq![0u8] + (le64(
            s.size,
        ) + le64(s.modified)))),
        forall|digest: Seq<u8>|
            #![trigger first_word(digest)]
            first_word(digest) == from_le32(digest) + 0x1_0000_0000 * from_le32(digest.skip(4)),
{
    assert(list.push(s).drop_last() =~= list);
    assert(stamp_bytes(s) =~= encode_utf8(s.path) + (seq![0u8] + (le64(s.size) + le64(s.modified))));
}

// ── What is said ────────────────────────────────────────────────────────────

/// The summary counts what each part that is there holds, each number by its
/// own noun.
pub proof fn law_summary_counts_each_map(v: IndexView)
    ensures
        summary_text(v) == join(summary_parts(v), ", "@),
        v.parts.bits & 1 == 1 ==> summary_parts(v)[0] == decimal(v.ytd_by_name.dom().len())
            + " dictionaries, "@ + decimal(v.archetype_txd.dom().len()) + " archetypes, "@ + decimal(
            v.resident_textures.dom().len(),
        ) + " resident textures, "@ + decimal(v.parent_txds.dom().len()) + " txd parent links"@,
        v.parts.bits & 2 == 2 ==> summary_parts(v).contains(
            decimal(v.mlo_ytyp.dom().len()) + " interiors, "@ + decimal(
                total_placements(v.mlo_instances, ascending(v.mlo_instances.dom())),
            ) + " interior placement rows, "@ + decimal(v.ybn_by_name.dom().len())
                + " collision files"@,
        ),
        v.parts.bits & 4 == 4 ==> summary_parts(v).last() == decimal(v.drawable_by_name.dom().len())
            + " drawables, "@ + decimal(v.archetype_box.dom().len()) + " archetype boxes"@,
        summary_parts(v).len() == v.parts.singles().len(),
        forall|m: Map<u32, Seq<Location>>, keys: Seq<u32>, k: u32| #[trigger]
            total_placements(m, keys.push(k)) == total_placements(m, keys) + m[k].len(),
        forall|m: Map<u32, Seq<Location>>| #[trigger] total_placements(m, Seq::empty()) == 0,
{
    assert forall|m: Map<u32, Seq<Location>>, keys: Seq<u32>, k: u32| #[trigger]
        total_placements(m, keys.push(k)) == total_placements(m, keys) + m[k].len() by {
        assert(keys.push(k).drop_last() =~= keys);
    }
    if v.parts.bits & 2 == 2 {
        let line = decimal(v.mlo_ytyp.dom().len()) + " interiors, "@ + decimal(
            total_placements(v.mlo_instances, ascending(v.mlo_instances.dom())),
        ) + " interior placement rows, "@ + decimal(v.ybn_by_name.dom().len()) + " collision files"@;
        if v.parts.bits & 1 == 1 {
            assert(summary_parts(v)[1] == line);
        } else {
            assert(summary_parts(v)[0] == line);
        }
    }
}

/// What is wrong with a file of the index.
pub proof fn law_index_errors_are_worded(version: u32, stored: u32, expected: u8, count: usize)
    ensures
        IndexError::TruncatedNumber.words() == "index: truncated (u32)"@,
        IndexError::TruncatedText.words() == "index: truncated (string)"@,
        IndexError::BadText.words() == "index: invalid UTF-8"@,
        IndexError::BadMagic.words() == "index: bad magic"@,
        (IndexError::UnsupportedVersion { version }).words() == "index: unsupported format version "@
            + decimal(version as nat),
        (IndexError::OtherPart { stored, expected }).words() == "index: file holds part "@ + decimal(
            stored as nat,
        ) + ", expected "@ + decimal(expected as nat),
        (IndexError::NotSinglePart { bits: expected }).words() == "index: "@ + decimal(expected as nat)
            + " is not a single part"@,
        (IndexError::TrailingBytes { count }).words() == "index: "@ + decimal(count as nat)
            + " trailing bytes"@,
{
}

/// What is said of a stored part.
pub proof fn law_states_of_a_part_are_worded(state: PartState)
    ensures
        match state {
            PartState::Missing => state_text(state) == "not built (built on first use)"@,
            PartState::Current { size, summary } => state_text(state) == decimal(size as nat)
                + " bytes, current: "@ + summary@,
            PartState::Stale { size } => state_text(state) == decimal(size as nat)
                + " bytes, stale (the game's archives changed; rebuilt on next use)"@,
            PartState::Unreadable { size } => state_text(state) == decimal(size as nat)
                + " bytes, from another version of rage (rebuilt on next use)"@,
        },
{
}

} // verus!
