//! What is done with textures, and how they are laid out in a dictionary.
use vstd::prelude::*;
use vstd::utf8::encode_utf8;
use crate::commands::resource::info::DrawableKind;
use crate::commands::textures::{
    build_order, build_pixels, format_for, format_of, has_alpha, has_one, is_file_of, is_idle,
    kept_count, mips_of, numbered, path_order, renamed, sanitized, source_of, textures_in,
    usual_format, with_found, with_listing, with_sorted, without_digits, BuildEntry, EncodeFormat,
    FoundFile, FoundView, Listing, Mips, TextureSource,
};
use crate::formats::{embedded_in, is_wide, pixels_in, PixelView, Pixels};
use crate::hash::joaat;
use crate::images::{
    encoded, file_of, fitted, decoded, picture_file, picture_of, texture_of, PictureFormat,
    PictureView,
};
use crate::layout::{
    by_hash, chain, format_text, graphics_sizes, hash_order, in_hash_order, is_known_format,
    pixel_size, read_back, sort_hash, system_sizes,
};
use crate::text::{ascii_lowercase, decimal, lowercase, number};

verus! {

// ── Options ─────────────────────────────────────────────────────────────────

/// The levels of a texture are all of them, by either word, or a number from 1
/// to 255.
pub proof fn law_levels_are_named(s: Seq<char>)
    ensures
        ascii_lowercase(s) == "auto"@ || ascii_lowercase(s) == "full"@ ==> mips_of(s) == Some(Mips(None)),
        ascii_lowercase(s) != "auto"@ && ascii_lowercase(s) != "full"@ ==> match mips_of(s) {
            Some(Mips(Some(n))) => n >= 1 && number(s, 10, 255) == Some(n as nat),
            Some(Mips(None)) => false,
            None => number(s, 10, 255) is None || number(s, 10, 255) == Some(0nat),
        },
{
}

/// The formats go by these names, in any case, and by no others.
pub proof fn law_formats_go_by_their_names(s: Seq<char>)
    ensures
        ({
            let low = ascii_lowercase(s);
            let got = format_of(s);
            &&& got == Some(EncodeFormat::Bc1) <==> low == "bc1"@ || low == "dxt1"@
            &&& got == Some(EncodeFormat::Bc3) <==> low == "bc3"@ || low == "dxt5"@
            &&& got == Some(EncodeFormat::Bc4) <==> low == "bc4"@ || low == "ati1"@
            &&& got == Some(EncodeFormat::Bc5) <==> low == "bc5"@ || low == "ati2"@
            &&& got == Some(EncodeFormat::Bc7) <==> low == "bc7"@
            &&& got == Some(EncodeFormat::Rgba8) <==> low == "rgba"@ || low == "rgba8"@ || low
                == "a8r8g8b8"@ || low == "none"@
        }),
{
    reveal_strlit("bc1");
    reveal_strlit("bc3");
    reveal_strlit("bc4");
    reveal_strlit("bc5");
    reveal_strlit("bc7");
    reveal_strlit("dxt1");
    reveal_strlit("dxt5");
    reveal_strlit("ati1");
    reveal_strlit("ati2");
    reveal_strlit("rgba");
    reveal_strlit("rgba8");
    reveal_strlit("a8r8g8b8");
    reveal_strlit("none");
    assert("bc1"@[2] == '1' && "bc3"@[2] == '3' && "bc4"@[2] == '4' && "bc5"@[2] == '5' && "bc7"@[2]
        == '7');
    assert("dxt1"@[3] == '1' && "dxt5"@[3] == '5' && "ati1"@[3] == '1' && "ati2"@[3] == '2');
    assert("dxt1"@[0] == 'd' && "dxt5"@[0] == 'd' && "ati1"@[0] == 'a' && "ati2"@[0] == 'a'
        && "rgba"@[0] == 'r' && "none"@[0] == 'n');
    assert("bc1"@.len() == 3 && "bc3"@.len() == 3 && "bc4"@.len() == 3 && "bc5"@.len() == 3
        && "bc7"@.len() == 3 && "dxt1"@.len() == 4 && "dxt5"@.len() == 4 && "ati1"@.len() == 4
        && "ati2"@.len() == 4 && "rgba"@.len() == 4 && "rgba8"@.len() == 5 && "a8r8g8b8"@.len() == 8
        && "none"@.len() == 4);
}

/// Textures are read out of four kinds of files, by extension in any case.
pub proof fn law_sources_go_by_extension(extension: Seq<char>)
    ensures
        ({
            let low = ascii_lowercase(extension);
            let got = source_of(extension);
            &&& got == Some(TextureSource::Dictionary) <==> low == "ytd"@
            &&& got == Some(TextureSource::Drawables(DrawableKind::Ydr)) <==> low == "ydr"@
            &&& got == Some(TextureSource::Drawables(DrawableKind::Ydd)) <==> low == "ydd"@
            &&& got == Some(TextureSource::Drawables(DrawableKind::Yft)) <==> low == "yft"@
        }),
{
    reveal_strlit("ytd");
    reveal_strlit("ydr");
    reveal_strlit("ydd");
    reveal_strlit("yft");
    assert("ytd"@[1] == 't' && "ydr"@[1] == 'd' && "ydd"@[1] == 'd' && "yft"@[1] == 'f' && "ydr"@[2]
        == 'r' && "ydd"@[2] == 'd');
}

/// Textures come out of a dictionary as its own, and out of drawables as those
/// embedded in that kind.
pub proof fn law_textures_come_from_their_source(data: Seq<u8>, kind: DrawableKind)
    ensures
        textures_in(data, TextureSource::Dictionary) == pixels_in(data),
        textures_in(data, TextureSource::Drawables(kind)) == embedded_in(data, kind),
{
}

// ── Files ───────────────────────────────────────────────────────────────────

/// A file name keeps letters, digits, underscores, dashes and dots where they
/// are; each other character becomes an underscore.
pub proof fn law_file_names_are_plain(name: Seq<char>, i: int)
    requires
        0 <= i < name.len(),
    ensures
        sanitized(name).len() == name.len(),
        ('a' <= name[i] <= 'z' || 'A' <= name[i] <= 'Z' || '0' <= name[i] <= '9' || name[i] == '_'
            || name[i] == '-' || name[i] == '.') ==> sanitized(name)[i] == name[i],
        !('a' <= name[i] <= 'z' || 'A' <= name[i] <= 'Z' || '0' <= name[i] <= '9' || name[i] == '_'
            || name[i] == '-' || name[i] == '.') ==> sanitized(name)[i] == '_',
{
}

/// The first of a name has it to itself; the next ones are numbered from two,
/// and the least number that is free is taken.
pub proof fn law_taken_names_are_numbered(earlier: Seq<Seq<char>>, name: Seq<char>, file: Seq<char>)
    requires
        is_file_of(file, earlier, name),
    ensures
        !earlier.contains(sanitized(name)) ==> file == sanitized(name),
        earlier.contains(sanitized(name)) ==> exists|k: nat|
            2 <= k && file == #[trigger] (sanitized(name) + "~"@ + decimal(k)) && forall|j: nat|
                2 <= j < k ==> earlier.contains(#[trigger] (sanitized(name) + "~"@ + decimal(j))),
        !earlier.contains(file),
{
    let base = sanitized(name);
    let k = choose|k: nat|
        #[trigger] crate::commands::textures::is_first_free(earlier, base, k) && file == numbered(base, k);
    assert(numbered(base, 1) == base);
    if !earlier.contains(base) {
        assert(k == 1);
    } else {
        assert(k != 1);
        assert(file == base + "~"@ + decimal(k));
        assert forall|j: nat| 2 <= j < k implies earlier.contains(
            #[trigger] (base + "~"@ + decimal(j)),
        ) by {
            assert(earlier.contains(numbered(base, j)));
        }
    }
}

/// A file is among those asked for by its extension, in any case; one without
/// an extension never is.
pub proof fn law_extensions_are_compared_in_any_case(e: Seq<char>, exts: Seq<Seq<char>>)
    ensures
        !has_one(None, exts),
        has_one(Some(e), exts) <==> exists|i: int|
            0 <= i < exts.len() && ascii_lowercase(#[trigger] exts[i]) == ascii_lowercase(e),
{
}

/// A file is added unless one of its path is there.
pub proof fn law_a_path_is_taken_once(found: Seq<FoundView>, file: FoundView)
    ensures
        (exists|i: int| 0 <= i < found.len() && (#[trigger] found[i]).components == file.components)
            ==> with_found(found, file) == found,
        (forall|i: int| 0 <= i < found.len() ==> (#[trigger] found[i]).components != file.components)
            ==> with_found(found, file) == found.push(file),
{
}

/// Files are gone through in the order of their paths; those of another
/// extension are passed over.
pub proof fn law_files_are_taken_in_order(
    found: Seq<FoundView>,
    files: Seq<FoundFile>,
    n: nat,
    exts: Seq<Seq<char>>,
)
    ensures
        with_sorted(found, files, 0, exts) == found,
        ({
            let file = files[path_order(files)[n as int] as int]@;
            let before = with_sorted(found, files, n, exts);
            with_sorted(found, files, n + 1, exts) == (if file.extension is Some && (exists|i: int|
                0 <= i < exts.len() && ascii_lowercase(#[trigger] exts[i]) == ascii_lowercase(
                    file.extension->Some_0,
                )) {
                with_found(before, file)
            } else {
                before
            })
        }),
{
    let file = files[path_order(files)[n as int] as int]@;
    if file.extension is Some {
        law_extensions_are_compared_in_any_case(file.extension->Some_0, exts);
    }
}

/// A file that is named outright is taken whatever its extension; the files of
/// a folder and those that a pattern matches go by theirs.
pub proof fn law_named_files_are_taken_as_they_are(
    found: Seq<FoundView>,
    file: FoundFile,
    files: Vec<FoundFile>,
    exts: Seq<Seq<char>>,
)
    ensures
        with_listing(found, Listing::File(file), exts) == with_found(found, file@),
        with_listing(found, Listing::Folder(files), exts) == with_sorted(
            found,
            files@,
            files@.len(),
            exts,
        ),
        with_listing(found, Listing::Matches(files), exts) == with_listing(
            found,
            Listing::Folder(files),
            exts,
        ),
        !is_idle(Listing::File(file), exts),
        is_idle(Listing::Folder(files), exts) <==> forall|i: int|
            0 <= i < files@.len() ==> !has_one((#[trigger] files@[i])@.extension, exts),
        is_idle(Listing::Matches(files), exts) == is_idle(Listing::Folder(files), exts),
{
}

/// A file that is wanted makes a listing worth reading: it is then found, and
/// nothing that was found is lost.
pub proof fn law_found_files_stay(
    found: Seq<FoundView>,
    files: Seq<FoundFile>,
    n: nat,
    exts: Seq<Seq<char>>,
    i: int,
)
    requires
        0 <= i < found.len(),
    ensures
        with_sorted(found, files, n, exts).len() >= found.len(),
        with_sorted(found, files, n, exts)[i] == found[i],
    decreases n,
{
    if n > 0 {
        law_found_files_stay(found, files, (n - 1) as nat, exts, i);
    }
}

// ── Building ────────────────────────────────────────────────────────────────

/// A texture that is renamed takes the name and its hash, in lower case, and
/// keeps all else.
pub proof fn law_renaming_keeps_all_else(p: PixelView, stem: Seq<char>)
    ensures
        ({
            let q = renamed(p, stem);
            &&& q.name == stem
            &&& q.name_hash == joaat(lowercase(stem))
            &&& q.width == p.width && q.height == p.height && q.depth == p.depth
            &&& q.format == p.format && q.format_name == p.format_name
            &&& q.levels == p.levels && q.stride == p.stride && q.data == p.data
        }),
{
}

/// The textures that stay are counted one by one.
pub proof fn law_kept_textures_are_counted<T>(entries: Map<Seq<char>, BuildEntry<T>>, n: nat)
    ensures
        kept_count(entries, 0) == 0,
        kept_count(entries, n + 1) == kept_count(entries, n) + (if entries[build_order(
            entries,
        )[n as int]].kept {
            1int
        } else {
            0
        }),
{
}

/// The textures of a build come in the order of their names.
pub proof fn law_build_is_in_order(entries: Map<Seq<char>, BuildEntry<Pixels>>, i: int)
    requires
        0 <= i < build_order(entries).len(),
    ensures
        build_order(entries) == crate::names::in_order(entries.dom()),
        build_pixels(entries).len() == build_order(entries).len(),
        build_pixels(entries)[i] == entries[build_order(entries)[i]].texture@,
{
}

/// The digits at the end of a name are taken off, all of them and nothing else.
pub proof fn law_digits_are_taken_off(s: Seq<char>)
    ensures
        without_digits(s).is_prefix_of(s),
        forall|i: int|
            without_digits(s).len() <= i < s.len() ==> '0' <= #[trigger] s[i] <= '9',
        without_digits(s).len() > 0 ==> !('0' <= without_digits(s).last() <= '9'),
    decreases s.len(),
{
    if s.len() > 0 && '0' <= s.last() <= '9' {
        let front = s.drop_last();
        law_digits_are_taken_off(front);
        assert(without_digits(s) == without_digits(front));
        assert(without_digits(front) =~= s.subrange(0, without_digits(front).len() as int)) by {
            assert(without_digits(front) == front.subrange(
                0,
                without_digits(front).len() as int,
            ));
        }
        assert forall|i: int| without_digits(s).len() <= i < s.len() implies '0' <= #[trigger] s[i]
            <= '9' by {
            if i < front.len() {
                assert(front[i] == s[i]);
            }
        }
    }
}

/// The usual format of an image: a normal map, told by the end of its name
/// before any digits, has two channels; an image with a pixel that is not
/// opaque keeps its alpha; any other has none. One that is asked for is taken
/// instead.
pub proof fn law_usual_formats(name: Seq<char>, rgba: Seq<u8>, asked: EncodeFormat)
    ensures
        ({
            let s = without_digits(ascii_lowercase(name));
            let normal = "_n"@.is_suffix_of(s) || "_nrm"@.is_suffix_of(s) || "_normal"@.is_suffix_of(s)
                || "_nm"@.is_suffix_of(s) || "_bump"@.is_suffix_of(s);
            let clear = exists|k: int|
                0 <= k < rgba.len() && k % 4 == 3 && k - 3 + 4 <= rgba.len() && #[trigger] rgba[k] != 255;
            &&& format_for(Some(asked), name, rgba) == asked
            &&& format_for(None, name, rgba) == usual_format(name, rgba)
            &&& usual_format(name, rgba) == EncodeFormat::Bc5 <==> normal
            &&& usual_format(name, rgba) == EncodeFormat::Bc3 <==> !normal && clear
            &&& usual_format(name, rgba) == EncodeFormat::Bc1 <==> !normal && !clear
        }),
{
    if has_alpha(rgba) {
        let k = choose|k: int|
            0 <= k < rgba.len() / 4 && #[trigger] crate::commands::textures::alpha_of(rgba, k) != 255;
        assert(rgba[4 * k + 3] != 255);
    }
    if exists|k: int|
        0 <= k < rgba.len() && k % 4 == 3 && k - 3 + 4 <= rgba.len() && #[trigger] rgba[k] != 255 {
        let k = choose|k: int|
            0 <= k < rgba.len() && k % 4 == 3 && k - 3 + 4 <= rgba.len() && #[trigger] rgba[k] != 255;
        assert(4 * (k / 4) + 3 == k);
        assert(k / 4 < rgba.len() / 4);
        assert(crate::commands::textures::alpha_of(rgba, k / 4) != 255);
    }
}

// ── Pictures ────────────────────────────────────────────────────────────────

/// A picture is scaled only where an edge is given, and only what can be
/// decoded is.
pub proof fn law_pictures_are_scaled_on_request(p: PixelView, edge: u32)
    requires
        is_wide(),
    ensures
        picture_of(p, None) == decoded(p),
        decoded(p) matches Ok(img) ==> picture_of(p, Some(edge)) == Ok::<PictureView, Seq<char>>(
            fitted(img, edge),
        ),
        decoded(p) is Err ==> picture_of(p, Some(edge)) == picture_of(p, None),
{
}

/// A picture is encoded as a texture of its own pixels and size.
pub proof fn law_pictures_are_encoded_as_they_are(
    name: Seq<char>,
    p: PictureView,
    format: EncodeFormat,
    levels: Option<u8>,
    picture: PictureFormat,
    quality: u8,
)
    requires
        is_wide(),
    ensures
        p.width * p.height * 4 <= u32::MAX ==> texture_of(name, p, format, levels) == encoded(
            name,
            p.rgba,
            p.width,
            p.height,
            format,
            levels,
        ),
        p.rgba.len() == p.width * p.height * 4 ==> file_of(p, picture, quality) == picture_file(
            p,
            picture,
            quality,
        ),
        p.rgba.len() != p.width * p.height * 4 ==> file_of(p, picture, quality) is Err,
{
}

// ── Layout ──────────────────────────────────────────────────────────────────

/// Each level of a texture is a quarter of the one before it; depth multiplies,
/// and none is one.
pub proof fn law_levels_are_quarters(length: nat, levels: nat, p: PixelView)
    ensures
        chain(length, 0) == 0,
        chain(length, 1) == length,
        chain(4 * length, levels + 1) == 4 * length + chain(length, levels),
        p.depth == 0 ==> pixel_size(p) == chain((p.stride * p.height) as nat, p.levels as nat),
        p.depth > 0 ==> pixel_size(p) == chain((p.stride * p.height) as nat, p.levels as nat) * p.depth,
        p.depth == 1 ==> pixel_size(p) == chain((p.stride * p.height) as nat, p.levels as nat),
{
    reveal_with_fuel(chain, 2);
    assert((4 * length) / 4 == length);
}

/// A dictionary is sorted by the hashes of the names; a texture without a hash
/// goes by that of its name in lower case. Equal ones keep their order.
pub proof fn law_dictionary_is_sorted_by_hash(list: Seq<PixelView>, order: Seq<usize>, i: int, j: int)
    requires
        in_hash_order(list, order),
        0 <= i < j < list.len(),
    ensures
        sort_hash(by_hash(list)[i]) <= sort_hash(by_hash(list)[j]),
        sort_hash(by_hash(list)[i]) == sort_hash(by_hash(list)[j]) ==> hash_order(list)[i]
            < hash_order(list)[j],
        forall|p: PixelView|
            p.name_hash != 0 ==> #[trigger] sort_hash(p) == p.name_hash as u64,
        forall|p: PixelView|
            p.name_hash == 0 ==> #[trigger] sort_hash(p) == joaat(lowercase(p.name)) as u64,
{
    let keys = list.map_values(|p: PixelView| sort_hash(p));
    let o = hash_order(list);
    assert(in_hash_order(list, o));
    assert(crate::order::precedes(keys, o[i], o[j]));
    assert(keys[o[i] as int] == sort_hash(list[o[i] as int]));
    assert(keys[o[j] as int] == sort_hash(list[o[j] as int]));
}

/// The blocks of a dictionary: its head, the page table, the hashes, the
/// pointers, a record and a name of each texture, and of each that has pixels
/// its pixels.
pub proof fn law_blocks_of_a_dictionary(list: Seq<PixelView>, pages: nat, p: PixelView, i: int)
    ensures
        ({
            let s = system_sizes(list, pages);
            &&& s.len() == 4 + 2 * list.len()
            &&& s[0] == 64
            &&& s[1] == 16 + 8 * pages
            &&& s[2] == 4 * list.len()
            &&& s[3] == 8 * list.len()
            &&& 0 <= i < list.len() ==> s[4 + i] == 144
            &&& 0 <= i < list.len() ==> s[4 + list.len() + i] == encode_utf8(list[i].name).len() + 1
        }),
        graphics_sizes(Seq::empty()).len() == 0,
        graphics_sizes(list.push(p)) == (if pixel_size(p) == 0 {
            graphics_sizes(list)
        } else {
            graphics_sizes(list).push(pixel_size(p))
        }),
{
    assert(list.push(p).drop_last() =~= list);
}

/// The codes of pixel formats and their names: small numbers are those of the
/// old interface, the others four letters each.
pub proof fn law_pixel_formats_have_names(code: u32)
    ensures
        code == 21 ==> format_text(code) == "A8R8G8B8"@,
        code == 22 ==> format_text(code) == "X8R8G8B8"@,
        code == 25 ==> format_text(code) == "A1R5G5B5"@,
        code == 28 ==> format_text(code) == "A8"@,
        code == 32 ==> format_text(code) == "A8B8G8R8"@,
        code == 50 ==> format_text(code) == "L8"@,
        code == 'D' as u32 + 0x100 * ('X' as u32) + 0x1_0000 * ('T' as u32) + 0x100_0000 * ('1' as u32)
            ==> format_text(code) == "DXT1"@,
        code == 'D' as u32 + 0x100 * ('X' as u32) + 0x1_0000 * ('T' as u32) + 0x100_0000 * ('3' as u32)
            ==> format_text(code) == "DXT3"@,
        code == 'D' as u32 + 0x100 * ('X' as u32) + 0x1_0000 * ('T' as u32) + 0x100_0000 * ('5' as u32)
            ==> format_text(code) == "DXT5"@,
        code == 'A' as u32 + 0x100 * ('T' as u32) + 0x1_0000 * ('I' as u32) + 0x100_0000 * ('1' as u32)
            ==> format_text(code) == "ATI1"@,
        code == 'A' as u32 + 0x100 * ('T' as u32) + 0x1_0000 * ('I' as u32) + 0x100_0000 * ('2' as u32)
            ==> format_text(code) == "ATI2"@,
        code == 'B' as u32 + 0x100 * ('C' as u32) + 0x1_0000 * ('7' as u32) + 0x100_0000 * (' ' as u32)
            ==> format_text(code) == "BC7"@,
        is_known_format(code) <==> format_text(code) != "Unknown"@,
{
    reveal_strlit("Unknown");
    reveal_strlit("A8R8G8B8");
    reveal_strlit("X8R8G8B8");
    reveal_strlit("A1R5G5B5");
    reveal_strlit("A8");
    reveal_strlit("A8B8G8R8");
    reveal_strlit("L8");
    reveal_strlit("DXT1");
    reveal_strlit("DXT3");
    reveal_strlit("DXT5");
    reveal_strlit("ATI1");
    reveal_strlit("ATI2");
    reveal_strlit("BC7");
    assert("Unknown"@.len() == 7);
}

/// A texture that is written and read back keeps its name, size, levels,
/// stride and the pixels that its levels take; it has a hash, a depth and a
/// format that is known or none.
pub proof fn law_what_comes_back_of_a_texture(p: PixelView)
    ensures
        ({
            let q = read_back(p);
            &&& q.name == p.name && q.width == p.width && q.height == p.height && q.levels == p.levels
                && q.stride == p.stride
            &&& q.name_hash == (if p.name_hash != 0 {
                p.name_hash
            } else {
                joaat(lowercase(p.name))
            })
            &&& q.depth == (if p.depth == 0 {
                1
            } else {
                p.depth as int
            })
            &&& is_known_format(p.format) ==> q.format == p.format
            &&& !is_known_format(p.format) ==> q.format == 0
            &&& q.format_name == format_text(p.format)
            &&& q.data == p.data.take(chain((p.stride * p.height) as nat, p.levels as nat) as int)
        }),
{
}

} // verus!
