//! `rage textures`: exporting the textures of a file, encoding images, and
//! building texture dictionaries.
use vstd::prelude::*;
use vstd::set_lib::{lemma_int_range, lemma_len_subset, set_int_range};
use vstd::string::*;
use crate::commands::resource::info::DrawableKind;
use crate::formats::{
    dds_in, dictionary_file, embedded_in, parse_dds, pixel_views, pixels_in, read_embedded,
    read_pixels, referred_pixels, serialize_ytd, PixelView, Pixels,
};
use crate::hash::{joaat, rage_joaat};
use crate::images::{encode_picture, texture_of, Picture};
use crate::index::load_order::{lemma_list_chains, lemma_list_comparable, list_not_after};
use crate::layout::{all_read_back, comes_back};
use crate::names::{in_order, picked, text_order};
use crate::order::{is_stable_order, lemma_stable_order_unique, stable_order, SortKey};
use crate::text::{
    ascii_lowercase, chars_of, contains, decimal, decimal_of, has_text, is_digit, join,
    join_with, lemma_decimal, lemma_number_of_decimal, lowercase, number, number_of, same, texts,
    to_ascii_lowercase, to_lowercase,
};

verus! {

// ── Arguments ───────────────────────────────────────────────────────────────

/// Mip levels wanted: a full chain, or a count.
#[derive(Debug, Clone, Copy, PartialEq, Eq, Structural)]
pub struct Mips(pub Option<u8>);

/// What a text says of the mip levels: `auto` or `full` in any case, or a
/// count from 1 to 255.
pub open spec fn mips_of(s: Seq<char>) -> Option<Mips> {
    let low = ascii_lowercase(s);
    if low == "auto"@ || low == "full"@ {
        Some(Mips(None))
    } else {
        match number(s, 10, 255) {
            Some(n) => if n >= 1 {
                Some(Mips(Some(n as u8)))
            } else {
                None
            },
            None => None,
        }
    }
}

impl Mips {
    /// Reads what a text says of the mip levels.
    pub fn parse(s: &str) -> (r: Result<Mips, String>)
        ensures
            match r {
                Ok(m) => mips_of(s@) == Some(m),
                Err(e) => mips_of(s@) == None::<Mips> && e@ == "'"@ + s@
                    + "' is not 'auto' or a mip count from 1 to 255"@,
            },
    {
        let low = to_ascii_lowercase(s);
        if same(low.as_str(), "auto") || same(low.as_str(), "full") {
            return Ok(Mips(None));
        }
        if let Some(n) = number_of(s, 10, 255) {
            if n >= 1 {
                return Ok(Mips(Some(n as u8)));
            }
        }
        let mut e = String::from_str("'");
        e.append(s);
        e.append("' is not 'auto' or a mip count from 1 to 255");
        Err(e)
    }
}

/// The formats that images are encoded in.
#[derive(Debug, Clone, Copy, PartialEq, Eq, Structural)]
pub enum EncodeFormat {
    Bc1,
    Bc3,
    Bc4,
    Bc5,
    Bc7,
    Rgba8,
}

/// The format of a name, in any case.
pub open spec fn format_of(s: Seq<char>) -> Option<EncodeFormat> {
    let low = ascii_lowercase(s);
    if low == "bc1"@ || low == "dxt1"@ {
        Some(EncodeFormat::Bc1)
    } else if low == "bc3"@ || low == "dxt5"@ {
        Some(EncodeFormat::Bc3)
    } else if low == "bc4"@ || low == "ati1"@ {
        Some(EncodeFormat::Bc4)
    } else if low == "bc5"@ || low == "ati2"@ {
        Some(EncodeFormat::Bc5)
    } else if low == "bc7"@ {
        Some(EncodeFormat::Bc7)
    } else if low == "rgba"@ || low == "rgba8"@ || low == "a8r8g8b8"@ || low == "none"@ {
        Some(EncodeFormat::Rgba8)
    } else {
        None
    }
}

/// `rage_formats::EncodeFormat::parse`: the format of a name, the block
/// compression names and the game's own, in any case.
#[verifier::external_body]
fn encode_format(s: &str) -> (r: Option<EncodeFormat>)
    ensures
        r == format_of(s@),
{
    Some(match rage_formats::EncodeFormat::parse(s)? {
        rage_formats::EncodeFormat::Bc1 => EncodeFormat::Bc1,
        rage_formats::EncodeFormat::Bc3 => EncodeFormat::Bc3,
        rage_formats::EncodeFormat::Bc4 => EncodeFormat::Bc4,
        rage_formats::EncodeFormat::Bc5 => EncodeFormat::Bc5,
        rage_formats::EncodeFormat::Bc7 => EncodeFormat::Bc7,
        rage_formats::EncodeFormat::Rgba8 => EncodeFormat::Rgba8,
    })
}

/// Reads the name of a format.
pub fn parse_format(s: &str) -> (r: Result<EncodeFormat, String>)
    ensures
        match r {
            Ok(f) => format_of(s@) == Some(f),
            Err(e) => format_of(s@) == None::<EncodeFormat> && e@ == "'"@ + s@
                + "' is not one of bc1, bc3, bc4, bc5, bc7, rgba8"@,
        },
{
    match encode_format(s) {
        Some(f) => Ok(f),
        None => {
            let mut e = String::from_str("'");
            e.append(s);
            e.append("' is not one of bc1, bc3, bc4, bc5, bc7, rgba8");
            Err(e)
        },
    }
}

// ── Where textures come from ────────────────────────────────────────────────

/// What textures are read out of.
#[derive(Debug, Clone, Copy, PartialEq, Eq, Structural)]
pub enum TextureSource {
    Dictionary,
    /// The textures that drawables embed.
    Drawables(DrawableKind),
}

/// What a file of the given extension holds textures as, if it does.
pub open spec fn source_of(extension: Seq<char>) -> Option<TextureSource> {
    let ext = ascii_lowercase(extension);
    if ext == "ytd"@ {
        Some(TextureSource::Dictionary)
    } else if ext == "ydr"@ {
        Some(TextureSource::Drawables(DrawableKind::Ydr))
    } else if ext == "ydd"@ {
        Some(TextureSource::Drawables(DrawableKind::Ydd))
    } else if ext == "yft"@ {
        Some(TextureSource::Drawables(DrawableKind::Yft))
    } else {
        None
    }
}

/// Decides what a file of the given extension holds textures as.
pub fn texture_source(extension: &str) -> (r: Option<TextureSource>)
    ensures
        r == source_of(extension@),
{
    let ext = to_ascii_lowercase(extension);
    let ext = ext.as_str();
    if same(ext, "ytd") {
        Some(TextureSource::Dictionary)
    } else if same(ext, "ydr") {
        Some(TextureSource::Drawables(DrawableKind::Ydr))
    } else if same(ext, "ydd") {
        Some(TextureSource::Drawables(DrawableKind::Ydd))
    } else if same(ext, "yft") {
        Some(TextureSource::Drawables(DrawableKind::Yft))
    } else {
        None
    }
}

/// Where the textures to export are.
#[derive(Debug)]
pub enum ExportPlan {
    /// In the loose file itself.
    Loose(TextureSource),
    /// In the named file inside the archive.
    Archived { file: String },
    /// Nowhere: the path is no loose file that holds textures.
    NotLoose { reason: String },
}

/// Decides where the textures to export are: inside the archive where a file
/// is named, else in the path itself, which then has to be a loose file that
/// holds textures.
pub fn run(path: &str, extension: &str, is_file: bool, file: &Option<String>) -> (plan: ExportPlan)
    ensures
        match *file {
            Some(f) => plan matches ExportPlan::Archived { file: named } && named@ == f@,
            None => match source_of(extension@) {
                Some(s) if is_file => plan == ExportPlan::Loose(s),
                _ => plan matches ExportPlan::NotLoose { reason } && reason@ == path@
                    + " is not a loose .ytd/.ydr/.ydd/.yft; to read inside an archive give the file name too"@,
            },
        },
{
    if let Some(f) = file {
        return ExportPlan::Archived { file: f.clone() };
    }
    if is_file {
        if let Some(s) = texture_source(extension) {
            return ExportPlan::Loose(s);
        }
    }
    let mut reason = path.to_owned();
    reason.append(
        " is not a loose .ytd/.ydr/.ydd/.yft; to read inside an archive give the file name too",
    );
    ExportPlan::NotLoose { reason }
}

/// Decides what a file inside an archive holds textures as.
pub fn archived_source(file: &str, extension: &str) -> (r: Result<TextureSource, String>)
    ensures
        match r {
            Ok(s) => source_of(extension@) == Some(s),
            Err(e) => source_of(extension@) is None && e@ == "'"@ + file@
                + "' is not a .ytd, .ydr, .ydd or .yft file"@,
        },
{
    match texture_source(extension) {
        Some(s) => Ok(s),
        None => {
            let mut e = String::from_str("'");
            e.append(file);
            e.append("' is not a .ytd, .ydr, .ydd or .yft file");
            Err(e)
        },
    }
}

// ── What is written ─────────────────────────────────────────────────────────

/// How far an export came.
#[derive(Debug, Clone, Copy, PartialEq, Eq, Structural)]
pub struct Tally {
    pub done: usize,
    pub failed: usize,
}

impl Tally {
    /// Counts one more texture.
    pub fn record(&mut self, succeeded: bool)
        requires
            old(self).done < usize::MAX,
            old(self).failed < usize::MAX,
        ensures
            final(self).done == old(self).done + (if succeeded {
                1int
            } else {
                0
            }),
            final(self).failed == old(self).failed + (if succeeded {
                0int
            } else {
                1
            }),
    {
        if succeeded {
            self.done = self.done + 1;
        } else {
            self.failed = self.failed + 1;
        }
    }
}

/// Refuses an export in which every texture failed.
pub fn check_export(tally: &Tally, total: usize) -> (r: Result<(), String>)
    ensures
        r is Err <==> tally.done == 0 && tally.failed > 0,
        r matches Err(e) ==> e@ == "failed to export any of the "@ + decimal(total as nat)
            + " texture(s)"@,
{
    if tally.done == 0 && tally.failed > 0 {
        let mut e = String::from_str("failed to export any of the ");
        e.append(decimal_of(total as u64).as_str());
        e.append(" texture(s)");
        return Err(e);
    }
    Ok(())
}

/// What becomes of the contact sheet.
#[derive(Debug, Clone, Copy, PartialEq, Eq, Structural)]
pub enum SheetPlan {
    Skip,
    /// Asked for, but raw files have no sheet.
    Ignored,
    Compose,
}

/// Decides what becomes of the contact sheet.
pub fn plan_sheet(sheet: bool, dds: bool, images: usize) -> (r: SheetPlan)
    ensures
        r == (if !sheet {
            SheetPlan::Skip
        } else if dds {
            SheetPlan::Ignored
        } else if images > 0 {
            SheetPlan::Compose
        } else {
            SheetPlan::Skip
        }),
{
    if !sheet {
        SheetPlan::Skip
    } else if dds {
        SheetPlan::Ignored
    } else if images > 0 {
        SheetPlan::Compose
    } else {
        SheetPlan::Skip
    }
}

/// The label of a texture on the contact sheet.
pub fn sheet_label(name: &str, width: u32, height: u32, format: &str) -> (out: String)
    ensures
        out@ == name@ + " "@ + decimal(width as nat) + "x"@ + decimal(height as nat) + " "@ + format@,
{
    let mut out = name.to_owned();
    out.append(" ");
    out.append(decimal_of(width as u64).as_str());
    out.append("x");
    out.append(decimal_of(height as u64).as_str());
    out.append(" ");
    out.append(format);
    out
}

// ── File names ──────────────────────────────────────────────────────────────

/// A character that a file's name may hold.
pub open spec fn is_safe(c: char) -> bool {
    'a' <= c <= 'z' || 'A' <= c <= 'Z' || '0' <= c <= '9' || c == '_' || c == '-' || c == '.'
}

/// A texture's name as a file's name: with underscores for what does not
/// belong there.
pub open spec fn sanitized(name: Seq<char>) -> Seq<char> {
    name.map_values(
        |c: char|
            if is_safe(c) {
                c
            } else {
                '_'
            },
    )
}

/// A texture's name as a file's name.
pub fn sanitize(name: &str) -> (out: String)
    ensures
        out@ == sanitized(name@),
{
    let v = chars_of(name);
    let ghost want = sanitized(name@);
    let mut out = String::new();
    let mut i: usize = 0;
    assert(want.take(0) =~= Seq::empty());
    while i < v.len()
        invariant
            i <= v.len(),
            v@ == name@,
            want == sanitized(name@),
            out@ == want.take(i as int),
        decreases v.len() - i,
    {
        let c: char = v[i];
        let safe: bool = ('a' <= c && c <= 'z') || ('A' <= c && c <= 'Z') || ('0' <= c && c <= '9') || c
            == '_' || c == '-' || c == '.';
        if safe {
            out.push(c);
        } else {
            out.push('_');
        }
        assert(want.take(i + 1) =~= want.take(i as int).push(want[i as int]));
        i = i + 1;
    }
    assert(want.take(v.len() as int) =~= want);
    out
}

/// The `k`-th file of a name: the name itself, then the name with a number
/// behind a tilde.
pub open spec fn numbered(base: Seq<char>, k: nat) -> Seq<char> {
    if k <= 1 {
        base
    } else {
        base + "~"@ + decimal(k)
    }
}

/// `k` is the first number under which a name is free.
pub open spec fn is_first_free(used: Seq<Seq<char>>, base: Seq<char>, k: nat) -> bool {
    &&& k >= 1
    &&& !used.contains(numbered(base, k))
    &&& forall|j: nat| 1 <= j < k ==> used.contains(#[trigger] numbered(base, j))
}

/// `file` is the file of a texture of the given name: the name as a file's
/// name, with a number where an earlier file has it.
pub open spec fn is_file_of(file: Seq<char>, earlier: Seq<Seq<char>>, name: Seq<char>) -> bool {
    exists|k: nat|
        #[trigger] is_first_free(earlier, sanitized(name), k) && file == numbered(sanitized(name), k)
}

/// `files` are the files of textures of the given names.
pub open spec fn are_files_of(files: Seq<Seq<char>>, names: Seq<Seq<char>>) -> bool {
    &&& files.len() == names.len()
    &&& forall|i: int|
        0 <= i < files.len() ==> is_file_of(#[trigger] files[i], files.take(i), names[i])
}

proof fn lemma_numbered_differ(base: Seq<char>, j: nat, k: nat)
    requires
        1 <= j < k,
    ensures
        numbered(base, j) != numbered(base, k),
{
    reveal_strlit("~");
    lemma_decimal(k);
    if j == 1 {
        assert(numbered(base, k).len() > base.len());
    } else if numbered(base, j) == numbered(base, k) {
        let n = base.len() as int + 1;
        assert((base + "~"@ + decimal(j)).skip(n) =~= decimal(j));
        assert((base + "~"@ + decimal(k)).skip(n) =~= decimal(k));
        lemma_number_of_decimal(j, k);
        lemma_number_of_decimal(k, k);
    }
}

/// Names that are all in a list are no more than the list is long.
proof fn lemma_numbered_fit(used: Seq<Seq<char>>, base: Seq<char>, k: nat) -> (places: Set<int>)
    requires
        forall|j: nat| 1 <= j <= k ==> used.contains(#[trigger] numbered(base, j)),
    ensures
        places.finite(),
        places.len() == k,
        places.subset_of(set_int_range(0, used.len() as int)),
        forall|p: int|
            #[trigger] places.contains(p) ==> exists|j: nat| 1 <= j <= k && used[p] == #[trigger] numbered(base, j),
        k <= used.len(),
    decreases k,
{
    let range = set_int_range(0, used.len() as int);
    lemma_int_range(0, used.len() as int);
    if k == 0 {
        assert(Set::<int>::empty().subset_of(range));
        Set::empty()
    } else {
        let before = lemma_numbered_fit(used, base, (k - 1) as nat);
        assert(used.contains(numbered(base, k)));
        let p = choose|p: int| 0 <= p < used.len() && used[p] == numbered(base, k);
        assert(!before.contains(p)) by {
            if before.contains(p) {
                let j = choose|j: nat| 1 <= j <= k - 1 && used[p] == #[trigger] numbered(base, j);
                lemma_numbered_differ(base, j, k);
            }
        }
        let places = before.insert(p);
        assert(places.subset_of(range));
        lemma_len_subset(places, range);
        assert forall|q: int| #[trigger] places.contains(q) implies exists|j: nat|
            1 <= j <= k && used[q] == #[trigger] numbered(base, j) by {
            if q == p {
                assert(used[q] == numbered(base, k));
            } else {
                let j = choose|j: nat| 1 <= j <= k - 1 && used[q] == #[trigger] numbered(base, j);
                assert(used[q] == numbered(base, j));
            }
        }
        places
    }
}

fn is_used(used: &Vec<String>, name: &str) -> (r: bool)
    ensures
        r == texts(used@).contains(name@),
{
    let ghost all = texts(used@);
    let mut i: usize = 0;
    while i < used.len()
        invariant
            i <= used.len(),
            all == texts(used@),
            forall|j: int| 0 <= j < i ==> #[trigger] all[j] != name@,
        decreases used.len() - i,
    {
        if same(used[i].as_str(), name) {
            assert(all[i as int] == name@);
            return true;
        }
        assert(all[i as int] != name@);
        i = i + 1;
    }
    false
}

fn free_name(used: &Vec<String>, base: &str) -> (out: String)
    requires
        used.len() < usize::MAX,
    ensures
        exists|k: nat|
            #[trigger] is_first_free(texts(used@), base@, k) && out@ == numbered(base@, k),
{
    let ghost all = texts(used@);
    let mut k: usize = 1;
    let mut out = base.to_owned();
    while is_used(used, out.as_str())
        invariant
            1 <= k <= used.len() + 1,
            used.len() < usize::MAX,
            all == texts(used@),
            out@ == numbered(base@, k as nat),
            forall|j: nat| 1 <= j < k ==> all.contains(#[trigger] numbered(base@, j)),
        decreases used.len() + 1 - k,
    {
        proof {
            assert forall|j: nat| 1 <= j <= k implies all.contains(#[trigger] numbered(base@, j)) by {
            }
            let places = lemma_numbered_fit(all, base@, k as nat);
        }
        k = k + 1;
        out = base.to_owned();
        out.append("~");
        out.append(decimal_of(k as u64).as_str());
    }
    assert(is_first_free(all, base@, k as nat));
    out
}

/// The files that textures of the given names are written to, without their
/// extension: textures whose names come to the same file's name get distinct
/// files.
pub fn export_names(names: &Vec<String>) -> (out: Vec<String>)
    requires
        names.len() < usize::MAX,
    ensures
        are_files_of(texts(out@), texts(names@)),
{
    let mut out: Vec<String> = Vec::new();
    let mut i: usize = 0;
    while i < names.len()
        invariant
            i <= names.len(),
            names.len() < usize::MAX,
            out.len() == i,
            forall|j: int|
                0 <= j < i ==> is_file_of(
                    #[trigger] texts(out@)[j],
                    texts(out@).take(j),
                    texts(names@)[j],
                ),
        decreases names.len() - i,
    {
        let ghost before = texts(out@);
        let name = free_name(&out, sanitize(names[i].as_str()).as_str());
        out.push(name);
        proof {
            let now = texts(out@);
            assert(now =~= before.push(name@));
            assert forall|j: int| 0 <= j < i + 1 implies is_file_of(
                #[trigger] now[j],
                now.take(j),
                texts(names@)[j],
            ) by {
                assert(now.take(j) =~= before.take(j));
                if j == i {
                    assert(before.take(j) =~= before);
                } else {
                    assert(now[j] == before[j]);
                }
            }
        }
        i = i + 1;
    }
    out
}

/// What is said of a texture that is written under another name.
pub fn rename_note(name: &str, file: &str) -> (r: Option<String>)
    ensures
        r is Some <==> file@ != sanitized(name@),
        r matches Some(line) ==> line@ == "note: '"@ + name@ + "' is written as "@ + file@,
{
    if same(sanitize(name).as_str(), file) {
        return None;
    }
    let mut line = String::from_str("note: '");
    line.append(name);
    line.append("' is written as ");
    line.append(file);
    Some(line)
}

/// No two textures are written to the same file.
pub proof fn law_files_are_distinct(files: Seq<Seq<char>>, names: Seq<Seq<char>>)
    requires
        are_files_of(files, names),
    ensures
        files.no_duplicates(),
{
    assert forall|i: int, j: int| 0 <= i < j < files.len() implies files[i] != files[j] by {
        assert(is_file_of(files[j], files.take(j), names[j]));
        assert(files.take(j)[i] == files[i]);
        assert(files.take(j).contains(files[i]));
    }
}

// ── Inputs ──────────────────────────────────────────────────────────────────

/// A file that was found.
#[derive(Debug)]
pub struct FoundFile {
    pub text: String,
    /// The components of the path.
    pub components: Vec<String>,
    /// The extension, if the path has one.
    pub extension: Option<String>,
}

/// A `FoundFile` as texts.
pub struct FoundView {
    pub text: Seq<char>,
    pub components: Seq<Seq<char>>,
    pub extension: Option<Seq<char>>,
}

impl View for FoundFile {
    type V = FoundView;

    open spec fn view(&self) -> FoundView {
        FoundView {
            text: self.text@,
            components: texts(self.components@),
            extension: match self.extension {
                Some(e) => Some(e@),
                None => None,
            },
        }
    }
}

impl SortKey for FoundFile {
    open spec fn not_after(self, other: FoundFile) -> bool {
        list_not_after(self@.components, other@.components)
    }

    proof fn comparable(a: FoundFile, b: FoundFile) {
        lemma_list_comparable(a@.components, b@.components);
    }

    proof fn chains(a: FoundFile, b: FoundFile, c: FoundFile) {
        lemma_list_chains(a@.components, b@.components, c@.components);
    }

    fn is_not_after(&self, other: &FoundFile) -> (r: bool) {
        let a = &self.components;
        let b = &other.components;
        let ghost x = texts(a@);
        let ghost y = texts(b@);
        let mut i: usize = 0;
        assert(x.skip(0) =~= x);
        assert(y.skip(0) =~= y);
        while i < a.len() && i < b.len()
            invariant
                i <= a.len(),
                i <= b.len(),
                a == self.components,
                b == other.components,
                x == texts(a@),
                y == texts(b@),
                list_not_after(x, y) == list_not_after(x.skip(i as int), y.skip(i as int)),
            decreases a.len() - i,
        {
            assert(x.skip(i as int)[0] == a[i as int]@);
            assert(y.skip(i as int)[0] == b[i as int]@);
            if !same(a[i].as_str(), b[i].as_str()) {
                return chars_of(a[i].as_str()).is_not_after(&chars_of(b[i].as_str()));
            }
            assert(x.skip(i as int).drop_first() =~= x.skip(i + 1));
            assert(y.skip(i as int).drop_first() =~= y.skip(i + 1));
            i = i + 1;
        }
        i >= a.len()
    }
}

/// One of some extensions, in any case.
pub open spec fn has_one(extension: Option<Seq<char>>, exts: Seq<Seq<char>>) -> bool {
    match extension {
        Some(e) => exists|i: int|
            0 <= i < exts.len() && ascii_lowercase(e) == ascii_lowercase(#[trigger] exts[i]),
        None => false,
    }
}

/// Whether a file has one of some extensions, in any case.
pub fn has_extension(extension: &Option<String>, exts: &Vec<String>) -> (r: bool)
    ensures
        r == has_one(
            match *extension {
                Some(e) => Some(e@),
                None => None,
            },
            texts(exts@),
        ),
{
    let ghost all = texts(exts@);
    if let Some(e) = extension {
        let low = to_ascii_lowercase(e.as_str());
        let mut i: usize = 0;
        while i < exts.len()
            invariant
                i <= exts.len(),
                all == texts(exts@),
                *extension == Some(*e),
                low@ == ascii_lowercase(e@),
                forall|j: int|
                    0 <= j < i ==> ascii_lowercase(e@) != ascii_lowercase(#[trigger] all[j]),
            decreases exts.len() - i,
        {
            if same(low.as_str(), to_ascii_lowercase(exts[i].as_str()).as_str()) {
                assert(ascii_lowercase(e@) == ascii_lowercase(all[i as int]));
                return true;
            }
            i = i + 1;
        }
    }
    false
}

/// What an input turned out to be.
#[derive(Debug, Clone, Copy, PartialEq, Eq, Structural)]
pub enum InputKind {
    Folder,
    File,
    Pattern,
    Missing,
}

/// Decides what an input is.
pub fn classify(input: &str, is_dir: bool, is_file: bool) -> (r: InputKind)
    ensures
        r == (if is_dir {
            InputKind::Folder
        } else if is_file {
            InputKind::File
        } else if has_text(input@, "*"@) || has_text(input@, "?"@) || has_text(input@, "["@) {
            InputKind::Pattern
        } else {
            InputKind::Missing
        }),
{
    if is_dir {
        InputKind::Folder
    } else if is_file {
        InputKind::File
    } else if contains(input, "*") || contains(input, "?") || contains(input, "[") {
        InputKind::Pattern
    } else {
        InputKind::Missing
    }
}

/// What stands behind an input.
#[derive(Debug)]
pub enum Listing {
    /// The files of a folder; those without one of the extensions are passed
    /// over.
    Folder(Vec<FoundFile>),
    /// The file itself, whatever its extension, so the caller can say what is
    /// wrong with it.
    File(FoundFile),
    /// The files that a pattern matches; those without one of the extensions
    /// are passed over.
    Matches(Vec<FoundFile>),
}

/// The path is among the files.
pub open spec fn is_among(found: Seq<FoundView>, file: FoundView) -> bool {
    exists|i: int| 0 <= i < found.len() && (#[trigger] found[i]).components == file.components
}

/// The files with one more, unless it is among them.
pub open spec fn with_found(found: Seq<FoundView>, file: FoundView) -> Seq<FoundView> {
    if is_among(found, file) {
        found
    } else {
        found.push(file)
    }
}

/// The order of files by their paths.
pub open spec fn path_order(files: Seq<FoundFile>) -> Seq<usize> {
    choose|order: Seq<usize>| is_stable_order(files, order, 0, files.len() as int)
}

/// The files with the first `n` of a list in path order, of those only that
/// have one of the extensions.
pub open spec fn with_sorted(
    found: Seq<FoundView>,
    files: Seq<FoundFile>,
    n: nat,
    exts: Seq<Seq<char>>,
) -> Seq<FoundView>
    decreases n,
{
    if n == 0 {
        found
    } else {
        let before = with_sorted(found, files, (n - 1) as nat, exts);
        let file = files[path_order(files)[n - 1] as int]@;
        if has_one(file.extension, exts) {
            with_found(before, file)
        } else {
            before
        }
    }
}

/// The files with those behind an input.
pub open spec fn with_listing(
    found: Seq<FoundView>,
    listing: Listing,
    exts: Seq<Seq<char>>,
) -> Seq<FoundView> {
    match listing {
        Listing::Folder(files) => with_sorted(found, files@, files@.len(), exts),
        Listing::File(file) => with_found(found, file@),
        Listing::Matches(files) => with_sorted(found, files@, files@.len(), exts),
    }
}

/// None of the files has one of the extensions.
pub open spec fn none_fits(files: Seq<FoundFile>, exts: Seq<Seq<char>>) -> bool {
    forall|i: int| 0 <= i < files.len() ==> !has_one((#[trigger] files[i])@.extension, exts)
}

/// An input has nothing behind it that is taken.
pub open spec fn is_idle(listing: Listing, exts: Seq<Seq<char>>) -> bool {
    match listing {
        Listing::Folder(files) => none_fits(files@, exts),
        Listing::File(_) => false,
        Listing::Matches(files) => none_fits(files@, exts),
    }
}

/// The files of a list, as texts.
pub open spec fn found_views(list: Seq<FoundFile>) -> Seq<FoundView> {
    list.map_values(|f: FoundFile| f@)
}

fn copy_found(f: &FoundFile) -> (out: FoundFile)
    ensures
        out@ == f@,
{
    let extension = match &f.extension {
        Some(e) => Some(e.clone()),
        None => None,
    };
    FoundFile {
        text: f.text.clone(),
        components: crate::text::copy_texts(&f.components),
        extension,
    }
}

fn same_texts(a: &Vec<String>, b: &Vec<String>) -> (r: bool)
    ensures
        r == (texts(a@) == texts(b@)),
{
    let ghost x = texts(a@);
    let ghost y = texts(b@);
    if a.len() != b.len() {
        assert(x.len() != y.len());
        return false;
    }
    let mut i: usize = 0;
    while i < a.len()
        invariant
            i <= a.len() == b.len(),
            x == texts(a@),
            y == texts(b@),
            forall|j: int| 0 <= j < i ==> #[trigger] x[j] == y[j],
        decreases a.len() - i,
    {
        if !same(a[i].as_str(), b[i].as_str()) {
            assert(x[i as int] != y[i as int]);
            return false;
        }
        assert(x[i as int] == y[i as int]);
        i = i + 1;
    }
    assert(x =~= y);
    true
}

fn push_found(found: &mut Vec<FoundFile>, file: &FoundFile)
    ensures
        found_views(final(found)@) == with_found(found_views(old(found)@), file@),
{
    let ghost before = found_views(found@);
    let mut i: usize = 0;
    while i < found.len()
        invariant
            i <= found.len(),
            found@ == old(found)@,
            before == found_views(found@),
            forall|j: int| 0 <= j < i ==> (#[trigger] before[j]).components != file@.components,
        decreases found.len() - i,
    {
        if same_texts(&found[i].components, &file.components) {
            assert(before[i as int].components == file@.components);
            return;
        }
        assert(before[i as int].components != file@.components);
        i = i + 1;
    }
    found.push(copy_found(file));
    assert(found_views(found@) =~= before.push(file@));
}

fn push_sorted(found: &mut Vec<FoundFile>, files: &Vec<FoundFile>, exts: &Vec<String>) -> (taken: bool)
    ensures
        found_views(final(found)@) == with_sorted(
            found_views(old(found)@),
            files@,
            files@.len(),
            texts(exts@),
        ),
        taken == !none_fits(files@, texts(exts@)),
{
    let order = stable_order(files);
    let ghost had = found_views(found@);
    let ghost only = texts(exts@);
    proof {
        lemma_stable_order_unique(files@, path_order(files@), order@, files.len() as int);
    }
    let mut taken: bool = false;
    let mut k: usize = 0;
    while k < order.len()
        invariant
            k <= order.len() == files.len(),
            order@ == path_order(files@),
            is_stable_order(files@, order@, 0, files.len() as int),
            only == texts(exts@),
            found_views(found@) == with_sorted(had, files@, k as nat, only),
            taken == exists|j: int|
                0 <= j < k && has_one(files[(#[trigger] order[j]) as int]@.extension, only),
        decreases order.len() - k,
    {
        let at: usize = order[k];
        let file = &files[at];
        if has_extension(&file.extension, exts) {
            push_found(found, file);
            taken = true;
            assert(has_one(files[order[k as int] as int]@.extension, only));
        }
        k = k + 1;
    }
    proof {
        if taken {
            let j = choose|j: int|
                0 <= j < order.len() && has_one(files[(#[trigger] order[j]) as int]@.extension, only);
            assert(0 <= order[j] < files.len());
            let i = order[j] as int;
            assert(has_one(files[i]@.extension, texts(exts@)));
        }
        if exists|i: int|
            0 <= i < files.len() && has_one((#[trigger] files[i])@.extension, texts(exts@)) {
            let i = choose|i: int|
                0 <= i < files.len() && has_one((#[trigger] files[i])@.extension, texts(exts@));
            assert(order@.contains(i as usize));
            let j = choose|j: int| 0 <= j < order.len() && order[j] == i as usize;
            assert(has_one(files[order[j] as int]@.extension, only));
        }
    }
    taken
}

/// Adds the files behind an input, in a stable order without duplicates.
/// Returns what is said where nothing of it is taken.
pub fn collect_input(
    found: &mut Vec<FoundFile>,
    input: &str,
    listing: &Listing,
    exts: &Vec<String>,
) -> (warning: Option<String>)
    ensures
        found_views(final(found)@) == with_listing(found_views(old(found)@), *listing, texts(exts@)),
        warning is Some <==> is_idle(*listing, texts(exts@)),
        warning matches Some(w) ==> w@ == (if listing is Folder {
            "warning: no "@ + join(texts(exts@), "/"@) + " files in "@ + input@
        } else {
            "warning: '"@ + input@ + "' matched nothing"@
        }),
{
    match listing {
        Listing::Folder(files) => {
            if push_sorted(found, files, exts) {
                None
            } else {
                let mut w = String::from_str("warning: no ");
                w.append(join_with(exts, "/").as_str());
                w.append(" files in ");
                w.append(input);
                Some(w)
            }
        },
        Listing::File(file) => {
            push_found(found, file);
            None
        },
        Listing::Matches(files) => {
            if push_sorted(found, files, exts) {
                None
            } else {
                let mut w = String::from_str("warning: '");
                w.append(input);
                w.append("' matched nothing");
                Some(w)
            }
        },
    }
}

/// No path comes twice among the files.
pub open spec fn all_distinct(found: Seq<FoundView>) -> bool {
    forall|i: int, j: int|
        0 <= i < j < found.len() ==> (#[trigger] found[i]).components != (#[trigger] found[j]).components
}

proof fn lemma_found_distinct(found: Seq<FoundView>, file: FoundView)
    requires
        all_distinct(found),
    ensures
        all_distinct(with_found(found, file)),
{
    let now = with_found(found, file);
    if !is_among(found, file) {
        assert forall|i: int, j: int| 0 <= i < j < now.len() implies (#[trigger] now[i]).components
            != (#[trigger] now[j]).components by {
            assert(now[i] == found[i]);
            if j == found.len() {
                assert(found[i].components != file.components);
            } else {
                assert(now[j] == found[j]);
            }
        }
    }
}

proof fn lemma_sorted_distinct(
    found: Seq<FoundView>,
    files: Seq<FoundFile>,
    n: nat,
    exts: Seq<Seq<char>>,
)
    requires
        all_distinct(found),
    ensures
        all_distinct(with_sorted(found, files, n, exts)),
    decreases n,
{
    if n > 0 {
        lemma_sorted_distinct(found, files, (n - 1) as nat, exts);
        lemma_found_distinct(
            with_sorted(found, files, (n - 1) as nat, exts),
            files[path_order(files)[n - 1] as int]@,
        );
    }
}

/// Whatever the inputs repeat, no file is taken twice.
pub proof fn law_inputs_have_no_duplicates(
    found: Seq<FoundView>,
    listing: Listing,
    exts: Seq<Seq<char>>,
)
    requires
        all_distinct(found),
    ensures
        all_distinct(with_listing(found, listing, exts)),
{
    match listing {
        Listing::Folder(files) | Listing::Matches(files) => {
            lemma_sorted_distinct(found, files@, files@.len(), exts);
        },
        Listing::File(file) => {
            lemma_found_distinct(found, file@);
        },
    }
}

/// What is said when an encoding cannot start: several images for one file.
pub fn check_targets(single_file: bool, inputs: usize) -> (r: Result<(), String>)
    ensures
        r is Err <==> single_file && inputs > 1,
        r matches Err(e) ==> e@ == "--output names a .dds file but there are "@ + decimal(
            inputs as nat,
        ) + " inputs; give a directory instead"@,
{
    if single_file && inputs > 1 {
        let mut e = String::from_str("--output names a .dds file but there are ");
        e.append(decimal_of(inputs as u64).as_str());
        e.append(" inputs; give a directory instead");
        return Err(e);
    }
    Ok(())
}

/// Where an encoded image goes.
#[derive(Debug, Clone, Copy, PartialEq, Eq, Structural)]
pub enum EncodeTarget {
    /// Nowhere: the input is a DDS already.
    Skip,
    /// To the file that was named.
    Named,
    /// Into the directory that was named, under the input's stem.
    InDirectory,
    /// Next to the input.
    Beside,
}

/// Decides where an encoded image goes.
pub fn encode_target(input_is_dds: bool, has_output: bool, single_file: bool) -> (r: EncodeTarget)
    ensures
        r == (if input_is_dds {
            EncodeTarget::Skip
        } else if !has_output {
            EncodeTarget::Beside
        } else if single_file {
            EncodeTarget::Named
        } else {
            EncodeTarget::InDirectory
        }),
{
    if input_is_dds {
        EncodeTarget::Skip
    } else if !has_output {
        EncodeTarget::Beside
    } else if single_file {
        EncodeTarget::Named
    } else {
        EncodeTarget::InDirectory
    }
}

/// What is said when all images are through: an error where none was encoded.
pub fn run_encode(tally: &Tally, inputs: usize) -> (r: Result<String, String>)
    ensures
        r is Err <==> tally.done == 0,
        match r {
            Err(e) => e@ == "encoded none of the "@ + decimal(inputs as nat) + " input(s)"@,
            Ok(s) => s@ == (if tally.failed > 0 {
                "Encoded "@ + decimal(tally.done as nat) + " image(s), "@ + decimal(
                    tally.failed as nat,
                ) + " failed"@
            } else {
                "Encoded "@ + decimal(tally.done as nat) + " image(s)"@
            }),
        },
{
    if tally.done == 0 {
        let mut e = String::from_str("encoded none of the ");
        e.append(decimal_of(inputs as u64).as_str());
        e.append(" input(s)");
        return Err(e);
    }
    let mut s = String::from_str("Encoded ");
    s.append(decimal_of(tally.done as u64).as_str());
    if tally.failed > 0 {
        s.append(" image(s), ");
        s.append(decimal_of(tally.failed as u64).as_str());
        s.append(" failed");
    } else {
        s.append(" image(s)");
    }
    Ok(s)
}

// ── Building a dictionary ───────────────────────────────────────────────────

/// A texture dictionary that is being built: textures by their lowercase
/// names, since the dictionary looks entries up by the hash of that name.
pub struct DictionaryBuild<T> {
    keys: Vec<String>,
    textures: Vec<T>,
    /// Whether the texture came with the dictionary that was started from.
    kept: Vec<bool>,
    added: usize,
    replaced: usize,
}

/// A texture of a dictionary that is being built.
pub struct BuildEntry<T> {
    pub texture: T,
    /// It came with the dictionary that was started from.
    pub kept: bool,
}

/// The place of a text in a list that holds it.
pub open spec fn place_in(list: Seq<Seq<char>>, s: Seq<char>) -> int {
    choose|i: int| 0 <= i < list.len() && list[i] == s
}

/// The names of a dictionary in dictionary order.
pub open spec fn build_order<T>(entries: Map<Seq<char>, BuildEntry<T>>) -> Seq<Seq<char>> {
    in_order(entries.dom())
}

/// The number of names among the first `n` in dictionary order whose texture
/// came with the dictionary that was started from.
pub open spec fn kept_count<T>(entries: Map<Seq<char>, BuildEntry<T>>, n: nat) -> nat
    decreases n,
{
    if n == 0 {
        0
    } else {
        kept_count(entries, (n - 1) as nat) + (if entries[build_order(entries)[n - 1]].kept {
            1nat
        } else {
            0
        })
    }
}

impl<T> DictionaryBuild<T> {
    /// The textures by their lowercase names.
    pub closed spec fn entries(&self) -> Map<Seq<char>, BuildEntry<T>> {
        Map::new(
            |k: Seq<char>| texts(self.keys@).contains(k),
            |k: Seq<char>|
                BuildEntry {
                    texture: self.textures[place_in(texts(self.keys@), k)],
                    kept: self.kept[place_in(texts(self.keys@), k)],
                },
        )
    }

    /// The number of inputs that added a texture.
    pub closed spec fn added_count(&self) -> nat {
        self.added as nat
    }

    /// The number of inputs that replaced a texture.
    pub closed spec fn replaced_count(&self) -> nat {
        self.replaced as nat
    }

    /// Each name stands for one texture.
    pub closed spec fn wf(&self) -> bool {
        &&& self.keys.len() == self.textures.len() == self.kept.len()
        &&& texts(self.keys@).no_duplicates()
    }

    proof fn lemma_entry(&self, i: int)
        requires
            self.wf(),
            0 <= i < self.keys.len(),
        ensures
            self.entries().contains_key(self.keys[i]@),
            self.entries()[self.keys[i]@] == (BuildEntry {
                texture: self.textures[i],
                kept: self.kept[i],
            }),
    {
        let all = texts(self.keys@);
        let k = self.keys[i]@;
        assert(all[i] == k);
        assert(all.contains(k));
        let j = place_in(all, k);
        assert(0 <= j < all.len() && all[j] == k);
        assert(i == j);
    }

    /// Nothing yet.
    pub fn new() -> (r: DictionaryBuild<T>)
        ensures
            r.wf(),
            r.entries() == Map::<Seq<char>, BuildEntry<T>>::empty(),
            r.added_count() == 0,
            r.replaced_count() == 0,
    {
        let r = DictionaryBuild {
            keys: Vec::new(),
            textures: Vec::new(),
            kept: Vec::new(),
            added: 0,
            replaced: 0,
        };
        assert(r.entries() =~= Map::<Seq<char>, BuildEntry<T>>::empty());
        r
    }

    fn place_of(&self, key: &str) -> (i: usize)
        requires
            self.wf(),
        ensures
            i <= self.keys.len(),
            i < self.keys.len() ==> self.keys[i as int]@ == key@,
            i < self.keys.len() <==> self.entries().contains_key(key@),
    {
        let ghost all = texts(self.keys@);
        let mut i: usize = 0;
        while i < self.keys.len()
            invariant
                i <= self.keys.len(),
                all == texts(self.keys@),
                forall|j: int| 0 <= j < i ==> #[trigger] all[j] != key@,
            decreases self.keys.len() - i,
        {
            if same(self.keys[i].as_str(), key) {
                assert(all[i as int] == key@);
                assert(all.contains(key@));
                return i;
            }
            assert(all[i as int] != key@);
            i = i + 1;
        }
        i
    }

    /// Puts a texture in under its lowercase name; whether it replaces one.
    fn put(&mut self, name: &str, texture: T, kept: bool) -> (replaces: bool)
        requires
            old(self).wf(),
        ensures
            final(self).wf(),
            final(self).added == old(self).added,
            final(self).replaced == old(self).replaced,
            replaces == old(self).entries().contains_key(lowercase(name@)),
            final(self).entries() == old(self).entries().insert(
                lowercase(name@),
                BuildEntry { texture, kept },
            ),
    {
        let key = to_lowercase(name);
        let at: usize = self.place_of(key.as_str());
        let ghost before = *self;
        let ghost had = texts(self.keys@);
        let replaces: bool = at < self.keys.len();
        if replaces {
            self.textures.set(at, texture);
            self.kept.set(at, kept);
            assert(texts(self.keys@) =~= had);
        } else {
            self.keys.push(key);
            self.textures.push(texture);
            self.kept.push(kept);
            assert(texts(self.keys@) =~= had.push(key@));
            proof {
                if had.contains(key@) {
                    assert(before.entries().contains_key(key@));
                }
            }
        }
        proof {
            let now = *self;
            let want = before.entries().insert(key@, BuildEntry { texture, kept });
            assert(now.wf());
            assert forall|k: Seq<char>| now.entries().contains_key(k) <==> want.contains_key(k) by {
                if now.entries().contains_key(k) {
                    let i = choose|i: int| 0 <= i < now.keys.len() && texts(now.keys@)[i] == k;
                    if i < had.len() {
                        assert(had[i] == k);
                        assert(had.contains(k));
                    }
                }
                if before.entries().contains_key(k) {
                    let i = choose|i: int| 0 <= i < had.len() && had[i] == k;
                    assert(texts(now.keys@)[i] == k);
                }
                if k == key@ {
                    assert(texts(now.keys@)[at as int] == k);
                }
            }
            assert forall|k: Seq<char>| now.entries().contains_key(k) implies #[trigger] now.entries()[k]
                == want[k] by {
                let i = choose|i: int| 0 <= i < now.keys.len() && texts(now.keys@)[i] == k;
                assert(now.keys[i]@ == k);
                now.lemma_entry(i);
                if i < had.len() {
                    before.lemma_entry(i);
                    assert(before.keys[i]@ == k);
                    if k == key@ {
                        assert(had[i] == had[at as int]);
                    }
                }
            }
            assert(now.entries() =~= want);
        }
        replaces
    }

    /// Puts a texture in that the dictionary started from holds; a later one
    /// of the same name stands.
    pub fn start_with(&mut self, name: &str, texture: T)
        requires
            old(self).wf(),
        ensures
            final(self).wf(),
            final(self).added_count() == old(self).added_count(),
            final(self).replaced_count() == old(self).replaced_count(),
            final(self).entries() == old(self).entries().insert(
                lowercase(name@),
                BuildEntry { texture, kept: true },
            ),
    {
        self.put(name, texture, true);
    }

    /// Puts an input's texture in, and says whether it adds or replaces one.
    pub fn add(&mut self, name: &str, texture: T) -> (verb: &'static str)
        requires
            old(self).wf(),
            old(self).added_count() + old(self).replaced_count() < usize::MAX,
        ensures
            final(self).wf(),
            final(self).entries() == old(self).entries().insert(
                lowercase(name@),
                BuildEntry { texture, kept: false },
            ),
            old(self).entries().contains_key(lowercase(name@)) ==> {
                &&& verb@ == "replaces"@
                &&& final(self).replaced_count() == old(self).replaced_count() + 1
                &&& final(self).added_count() == old(self).added_count()
            },
            !old(self).entries().contains_key(lowercase(name@)) ==> {
                &&& verb@ == "adds"@
                &&& final(self).added_count() == old(self).added_count() + 1
                &&& final(self).replaced_count() == old(self).replaced_count()
            },
    {
        if self.put(name, texture, false) {
            self.replaced = self.replaced + 1;
            assert(self.entries() == self.entries());
            "replaces"
        } else {
            self.added = self.added + 1;
            "adds"
        }
    }

    /// The textures in the order of their lowercase names, and how many of
    /// them came with the dictionary that was started from and were not
    /// replaced.
    pub fn finish(&self) -> (r: (Vec<&T>, usize))
        requires
            self.wf(),
        ensures
            r.0.len() == build_order(self.entries()).len(),
            forall|i: int|
                0 <= i < r.0.len() ==> *(#[trigger] r.0[i]) == self.entries()[build_order(
                    self.entries(),
                )[i]].texture,
            r.1 == kept_count(self.entries(), r.0@.len()),
    {
        let order = text_order(&self.keys);
        let ghost e = self.entries();
        proof {
            assert(e.dom() =~= texts(self.keys@).to_set());
        }
        let mut out: Vec<&T> = Vec::new();
        let mut kept: usize = 0;
        let mut i: usize = 0;
        while i < order.len()
            invariant
                i <= order.len(),
                self.wf(),
                e == self.entries(),
                picked(self.keys@, order@) == build_order(e),
                forall|k: int| 0 <= k < order.len() ==> #[trigger] order[k] < self.keys.len(),
                out.len() == i,
                forall|k: int| 0 <= k < i ==> *(#[trigger] out[k]) == e[build_order(e)[k]].texture,
                kept == kept_count(e, i as nat),
                kept <= i,
            decreases order.len() - i,
        {
            let at: usize = order[i];
            proof {
                self.lemma_entry(at as int);
                assert(build_order(e)[i as int] == self.keys[at as int]@);
            }
            out.push(&self.textures[at]);
            if self.kept[at] {
                kept = kept + 1;
            }
            i = i + 1;
        }
        (out, kept)
    }

    /// What is said of the dictionary that was written.
    pub fn report(&self, path: &str, textures: usize, bytes: usize, kept: usize) -> (out: String)
        ensures
            out@ == "Wrote "@ + path@ + " with "@ + decimal(textures as nat) + " texture(s) ("@ + decimal(
                bytes as nat,
            ) + " bytes): "@ + decimal(self.added_count()) + " added, "@ + decimal(
                self.replaced_count(),
            ) + " replaced, "@ + decimal(kept as nat) + " kept"@,
    {
        let mut out = String::from_str("Wrote ");
        out.append(path);
        out.append(" with ");
        out.append(decimal_of(textures as u64).as_str());
        out.append(" texture(s) (");
        out.append(decimal_of(bytes as u64).as_str());
        out.append(" bytes): ");
        out.append(decimal_of(self.added as u64).as_str());
        out.append(" added, ");
        out.append(decimal_of(self.replaced as u64).as_str());
        out.append(" replaced, ");
        out.append(decimal_of(kept as u64).as_str());
        out.append(" kept");
        out
    }
}

// ── Files ───────────────────────────────────────────────────────────────────

/// Reads the textures of a dictionary; `what` names the file.
pub fn read_dictionary(what: &str, data: &[u8]) -> (r: Result<Vec<Pixels>, String>)
    ensures
        match r {
            Ok(list) => pixels_in(data@) == Ok::<Seq<PixelView>, Seq<char>>(pixel_views(list@)),
            Err(e) => pixels_in(data@) is Err && e@ == "failed to parse YTD "@ + what@ + ": "@ + pixels_in(
                data@,
            )->Err_0,
        },
{
    match read_pixels(data) {
        Ok(list) => Ok(list),
        Err(reason) => {
            let mut e = String::from_str("failed to parse YTD ");
            e.append(what);
            e.append(": ");
            e.append(reason.as_str());
            Err(e)
        },
    }
}

/// The textures in a file of the given kind, or what is wrong with the file.
pub open spec fn textures_in(data: Seq<u8>, source: TextureSource) -> Result<
    Seq<PixelView>,
    Seq<char>,
> {
    match source {
        TextureSource::Dictionary => pixels_in(data),
        TextureSource::Drawables(kind) => embedded_in(data, kind),
    }
}

/// Reads the textures of a file of the given kind; `what` names the file.
pub fn read_source(what: &str, data: &[u8], source: TextureSource) -> (r: Result<
    Vec<Pixels>,
    String,
>)
    ensures
        match r {
            Ok(list) => textures_in(data@, source) == Ok::<Seq<PixelView>, Seq<char>>(
                pixel_views(list@),
            ),
            Err(e) => textures_in(data@, source) is Err && e@ == (if source
                == TextureSource::Dictionary {
                "failed to parse YTD "@
            } else {
                "failed to parse "@
            }) + what@ + ": "@ + textures_in(data@, source)->Err_0,
        },
{
    let kind = match source {
        TextureSource::Dictionary => return read_dictionary(what, data),
        TextureSource::Drawables(kind) => kind,
    };
    match read_embedded(data, kind) {
        Ok(list) => Ok(list),
        Err(reason) => {
            let mut e = String::from_str("failed to parse ");
            e.append(what);
            e.append(": ");
            e.append(reason.as_str());
            Err(e)
        },
    }
}

/// A texture under the name of the file that it comes from.
pub open spec fn renamed(p: PixelView, stem: Seq<char>) -> PixelView {
    PixelView { name: stem, name_hash: joaat(lowercase(stem)), ..p }
}

/// Reads the texture in the DDS file at `path`, which is named after the
/// file's stem.
pub fn read_dds(path: &str, stem: &str, data: &[u8]) -> (r: Result<Pixels, String>)
    ensures
        match r {
            Ok(p) => dds_in(data@) is Ok && p@ == renamed(dds_in(data@)->Ok_0, stem@),
            Err(e) => dds_in(data@) is Err && e@ == path@ + ": "@ + dds_in(data@)->Err_0,
        },
{
    match parse_dds(data) {
        Ok(p) => Ok(
            Pixels {
                name: stem.to_owned(),
                name_hash: rage_joaat(to_lowercase(stem).as_str()),
                width: p.width,
                height: p.height,
                depth: p.depth,
                format: p.format,
                format_name: p.format_name,
                levels: p.levels,
                stride: p.stride,
                data: p.data,
            },
        ),
        Err(reason) => {
            let mut e = path.to_owned();
            e.append(": ");
            e.append(reason.as_str());
            Err(e)
        },
    }
}

/// What a build does with an input.
#[derive(Debug, Clone, Copy, PartialEq, Eq, Structural)]
pub enum BuildInput {
    /// Store it as it is.
    Dds,
    /// Encode it.
    Image,
}

/// Decides what a build does with the file at `path`: a DDS file is stored, an
/// image is encoded, and anything else is refused.
pub fn build_input(path: &str, extension: &Option<String>, images: &Vec<String>) -> (r: Result<
    BuildInput,
    String,
>)
    ensures
        ({
            let ext = match *extension {
                Some(e) => Some(e@),
                None => None,
            };
            match r {
                Ok(BuildInput::Dds) => has_one(ext, seq!["dds"@]),
                Ok(BuildInput::Image) => !has_one(ext, seq!["dds"@]) && has_one(ext, texts(images@)),
                Err(e) => {
                    &&& !has_one(ext, seq!["dds"@])
                    &&& !has_one(ext, texts(images@))
                    &&& e@ == path@ + ": not a DDS or image file"@
                },
            }
        }),
{
    let mut dds: Vec<String> = Vec::new();
    dds.push(String::from_str("dds"));
    assert(texts(dds@) =~= seq!["dds"@]);
    if has_extension(extension, &dds) {
        Ok(BuildInput::Dds)
    } else if has_extension(extension, images) {
        Ok(BuildInput::Image)
    } else {
        let mut e = path.to_owned();
        e.append(": not a DDS or image file");
        Err(e)
    }
}

/// The textures of a dictionary that is being built, in dictionary order.
pub open spec fn build_pixels(entries: Map<Seq<char>, BuildEntry<Pixels>>) -> Seq<PixelView> {
    build_order(entries).map_values(|k: Seq<char>| entries[k].texture@)
}

/// A dictionary that was built.
#[derive(Debug)]
pub struct Dictionary {
    pub bytes: Vec<u8>,
    pub textures: usize,
    /// How many textures came with the dictionary that was started from.
    pub kept: usize,
}

/// Makes the file of a dictionary that is being built, from which its textures
/// are read back.
pub fn build_dictionary(build: &DictionaryBuild<Pixels>) -> (r: Result<Dictionary, String>)
    requires
        build.wf(),
    ensures
        match r {
            Ok(d) => {
                &&& dictionary_file(build_pixels(build.entries())) == Ok::<Seq<u8>, Seq<char>>(d.bytes@)
                &&& d.textures == build_order(build.entries()).len()
                &&& d.kept == kept_count(build.entries(), d.textures as nat)
                &&& comes_back(build_pixels(build.entries()), d.bytes@) ==> pixels_in(d.bytes@)
                    == Ok::<Seq<PixelView>, Seq<char>>(all_read_back(build_pixels(build.entries())))
            },
            Err(e) => dictionary_file(build_pixels(build.entries())) == Err::<Seq<u8>, Seq<char>>(e@),
        },
{
    let (list, kept) = build.finish();
    assert(referred_pixels(list@) =~= build_pixels(build.entries()));
    match serialize_ytd(&list) {
        Ok(bytes) => Ok(Dictionary { bytes, textures: list.len(), kept }),
        Err(e) => Err(e),
    }
}

// ── Formats for images ──────────────────────────────────────────────────────

/// A text without the digits it ends with.
pub open spec fn without_digits(s: Seq<char>) -> Seq<char>
    decreases s.len(),
{
    if s.len() > 0 && is_digit(s.last()) {
        without_digits(s.drop_last())
    } else {
        s
    }
}

/// The name is that of a normal map, with or without a number behind it.
pub open spec fn names_normal_map(name: Seq<char>) -> bool {
    let s = without_digits(ascii_lowercase(name));
    ||| "_n"@.is_suffix_of(s)
    ||| "_nrm"@.is_suffix_of(s)
    ||| "_normal"@.is_suffix_of(s)
    ||| "_nm"@.is_suffix_of(s)
    ||| "_bump"@.is_suffix_of(s)
}

/// A pixel, of four bytes each, is not fully opaque.
pub open spec fn has_alpha(rgba: Seq<u8>) -> bool {
    exists|k: int| 0 <= k < rgba.len() / 4 && #[trigger] alpha_of(rgba, k) != 255
}

/// The fourth byte of a pixel.
pub open spec fn alpha_of(rgba: Seq<u8>, k: int) -> u8 {
    rgba[4 * k + 3]
}

/// The format of an image where none is asked for.
pub open spec fn usual_format(name: Seq<char>, rgba: Seq<u8>) -> EncodeFormat {
    if names_normal_map(name) {
        EncodeFormat::Bc5
    } else if has_alpha(rgba) {
        EncodeFormat::Bc3
    } else {
        EncodeFormat::Bc1
    }
}

/// The format that an image is encoded to: the one that is asked for, or the
/// usual one.
pub open spec fn format_for(asked: Option<EncodeFormat>, name: Seq<char>, rgba: Seq<u8>) -> EncodeFormat {
    match asked {
        Some(f) => f,
        None => usual_format(name, rgba),
    }
}

/// `rage_formats::auto_format`: a normal map, by its name, has two channels;
/// an image with a pixel that is not fully opaque has smooth alpha; any other
/// has none.
#[verifier::external_body]
fn auto_format(name: &str, rgba: &[u8]) -> (r: EncodeFormat)
    ensures
        r == usual_format(name@, rgba@),
{
    match rage_formats::auto_format(name, rgba) {
        rage_formats::EncodeFormat::Bc1 => EncodeFormat::Bc1,
        rage_formats::EncodeFormat::Bc3 => EncodeFormat::Bc3,
        rage_formats::EncodeFormat::Bc4 => EncodeFormat::Bc4,
        rage_formats::EncodeFormat::Bc5 => EncodeFormat::Bc5,
        rage_formats::EncodeFormat::Bc7 => EncodeFormat::Bc7,
        rage_formats::EncodeFormat::Rgba8 => EncodeFormat::Rgba8,
    }
}

/// The format that an image of the given name and pixels is encoded to: the
/// one that is asked for, or the usual one.
pub fn image_format(asked: Option<EncodeFormat>, name: &str, rgba: &[u8]) -> (r: EncodeFormat)
    ensures
        r == format_for(asked, name@, rgba@),
{
    match asked {
        Some(f) => f,
        None => auto_format(name, rgba),
    }
}

/// Encodes the picture of an image file as a texture named after the stem of
/// the file.
pub fn encode_file(
    path: &str,
    stem: &str,
    picture: &Picture,
    format: Option<EncodeFormat>,
    mips: Mips,
) -> (r: Result<Pixels, String>)
    ensures
        ({
            let wanted = texture_of(
                stem@,
                picture@,
                format_for(format, stem@, picture.rgba@),
                mips.0,
            );
            match r {
                Ok(t) => wanted == Ok::<PixelView, Seq<char>>(t@) && t.name@ == stem@ && t.width
                    == picture.width && t.height == picture.height,
                Err(e) => wanted is Err && e@ == path@ + ": "@ + wanted->Err_0,
            }
        }),
{
    let format = image_format(format, stem, picture.rgba.as_slice());
    match encode_picture(stem, picture, format, mips.0) {
        Ok(t) => Ok(t),
        Err(reason) => {
            let mut e = String::from_str(path);
            e.append(": ");
            e.append(reason.as_str());
            Err(e)
        },
    }
}

} // verus!
