//! The table of contents of an archive: its files, where each lies, and what
//! it takes to read them.
use vstd::prelude::*;
use vstd::string::*;
use crate::commands::resource::container::{word, word_at};
use crate::formats::{is_wide, wide, TOO_LARGE};
use crate::nesting::MAX_NESTING;
use crate::sections::{short, short_at};
use crate::text::{lowercase, replace, replaced, same, to_lowercase};
use rpf_archive::{GtaKeys, RpfArchive};

verus! {

// ── Files ───────────────────────────────────────────────────────────────────

/// A file of an archive.
#[derive(Debug, Clone, PartialEq, Eq)]
pub struct FileEntry {
    pub name: String,
    /// The lowercase path inside the archive.
    pub path: String,
    pub is_resource: bool,
    /// The number by which the archive finds the file.
    pub entry_index: usize,
}

/// The files that a list refers to.
pub open spec fn referred(list: Seq<&FileEntry>) -> Seq<FileEntry> {
    list.map_values(|f: &FileEntry| *f)
}

/// A path as it is looked up: with slashes, in lowercase.
pub open spec fn lookup_path(path: Seq<char>) -> Seq<char> {
    lowercase(replace(path, '\\', '/'))
}

/// The file has the path, or that name in lowercase.
pub open spec fn goes_by(f: FileEntry, path: Seq<char>) -> bool {
    f.path@ == path || lowercase(f.name@) == path
}

/// `i` is the first file that goes by the path.
pub open spec fn is_found(files: Seq<FileEntry>, path: Seq<char>, i: int) -> bool {
    &&& 0 <= i < files.len()
    &&& goes_by(files[i], path)
    &&& forall|j: int| 0 <= j < i ==> !goes_by(#[trigger] files[j], path)
}

/// The first file that has the given path, or that name, whichever way it is
/// spelled.
pub fn find_file(files: &Vec<&FileEntry>, path: &str) -> (r: Option<usize>)
    ensures
        match r {
            Some(i) => is_found(referred(files@), lookup_path(path@), i as int),
            None => forall|j: int|
                0 <= j < files.len() ==> !goes_by(
                    #[trigger] referred(files@)[j],
                    lookup_path(path@),
                ),
        },
{
    let slashes = replaced(path, '\\', '/');
    let key = to_lowercase(slashes.as_str());
    let mut i: usize = 0;
    while i < files.len()
        invariant
            i <= files.len(),
            key@ == lookup_path(path@),
            forall|j: int| 0 <= j < i ==> !goes_by(#[trigger] referred(files@)[j], key@),
        decreases files.len() - i,
    {
        let f = files[i];
        if same(f.path.as_str(), key.as_str()) || same(
            to_lowercase(f.name.as_str()).as_str(),
            key.as_str(),
        ) {
            assert(goes_by(referred(files@)[i as int], key@));
            return Some(i);
        }
        i = i + 1;
    }
    None
}

// ── Tables of contents ──────────────────────────────────────────────────────

/// The table of contents of an archive, as `rpf_archive` holds it.
#[verifier::external_type_specification]
#[verifier::external_body]
pub struct ExRpfArchive(rpf_archive::RpfArchive);

/// The keys of the game, as `rpf_archive` holds them.
#[verifier::external_type_specification]
#[verifier::external_body]
pub struct ExGtaKeys(rpf_archive::GtaKeys);

/// What an entry of an archive is. An offset counts blocks of 512 bytes in the
/// seventh version, bytes in the others.
#[derive(Debug, Clone, Copy, PartialEq, Eq, Structural)]
pub enum EntryKind {
    Directory { entries_index: u32, entries_count: u32 },
    BinaryFile { file_offset: u32, file_size: u32, uncompressed_size: u32, is_encrypted: bool },
    ResourceFile {
        file_offset: u32,
        file_size: u32,
        system_flags: u32,
        graphics_flags: u32,
        is_encrypted: bool,
    },
}

/// An entry of an archive.
#[derive(Debug)]
pub struct Entry {
    pub name: String,
    pub name_lower: String,
    pub kind: EntryKind,
}

/// What an entry holds.
pub struct EntryView {
    pub name: Seq<char>,
    pub name_lower: Seq<char>,
    pub kind: EntryKind,
}

impl View for Entry {
    type V = EntryView;

    open spec fn view(&self) -> EntryView {
        EntryView { name: self.name@, name_lower: self.name_lower@, kind: self.kind }
    }
}

/// What the entries of a list hold.
pub open spec fn entry_views(list: Seq<Entry>) -> Seq<EntryView> {
    list.map_values(|e: Entry| e@)
}

/// The versions of archives.
#[derive(Debug, Clone, Copy, PartialEq, Eq, Structural)]
pub enum RpfVersion {
    V0,
    V2,
    V3,
    V4,
    V6,
    V7,
    V8,
    Img1,
    Img2,
    Img3,
}

/// What a table of contents holds.
pub struct Toc {
    pub start_offset: usize,
    pub encryption: RpfEncryption,
    pub version: RpfVersion,
    pub entries: Seq<EntryView>,
}

/// What a table of contents holds.
pub uninterp spec fn toc(t: RpfArchive) -> Toc;

/// The keys of the game: the one of the older archives, and those of the
/// newer ones with the tables they are used with.
pub struct Keys {
    pub aes: Seq<u8>,
    pub ng: Seq<Seq<u8>>,
    pub tables: Seq<u32>,
}

/// The keys that are held.
pub uninterp spec fn keys_in(k: GtaKeys) -> Keys;

/// The keys that are held, if there are any.
pub open spec fn keys_given(keys: Option<&GtaKeys>) -> Option<Keys> {
    match keys {
        Some(k) => Some(keys_in(*k)),
        None => None,
    }
}

/// A key of the newer archives is long enough.
pub open spec fn is_key_whole(k: Keys, i: int) -> bool {
    k.ng[i].len() >= 272
}

/// There are enough keys of the newer archives, and each is long enough.
pub open spec fn are_keys_whole(keys: Option<Keys>) -> bool {
    match keys {
        Some(k) => k.ng.len() >= 101 && forall|i: int|
            0 <= i < k.ng.len() ==> #[trigger] is_key_whole(k, i),
        None => true,
    }
}

/// The field `ng_keys` of `rpf_archive::GtaKeys`: how long each key is.
#[verifier::external_body]
fn key_lengths(k: &GtaKeys) -> (r: Vec<usize>)
    ensures
        r.len() == keys_in(*k).ng.len(),
        forall|i: int| 0 <= i < r.len() ==> #[trigger] r[i] == keys_in(*k).ng[i].len(),
{
    k.ng_keys.iter().map(|key| key.len()).collect()
}

fn check_keys(keys: Option<&GtaKeys>) -> (r: bool)
    ensures
        r == are_keys_whole(keys_given(keys)),
{
    let k = match keys {
        Some(k) => k,
        None => return true,
    };
    let lengths = key_lengths(k);
    if lengths.len() < 101 {
        return false;
    }
    let mut i: usize = 0;
    while i < lengths.len()
        invariant
            i <= lengths.len(),
            keys_given(keys) == Some(keys_in(*k)),
            lengths.len() == keys_in(*k).ng.len() >= 101,
            forall|j: int| 0 <= j < lengths.len() ==> #[trigger] lengths[j] == keys_in(*k).ng[j].len(),
            forall|j: int| 0 <= j < i ==> #[trigger] is_key_whole(keys_in(*k), j),
        decreases lengths.len() - i,
    {
        if lengths[i] < 272 {
            assert(!is_key_whole(keys_in(*k), i as int));
            return false;
        }
        i = i + 1;
    }
    true
}

// ── What can be read ────────────────────────────────────────────────────────

/// Entry `i` of an archive of the fourth version is a directory, or its
/// offset, which counts eight bytes, has 32 bits in bytes too.
pub open spec fn is_fourth_offset_small(data: Seq<u8>, i: int) -> bool {
    word(data, 0x808 + 16 * i) >= 0x8000_0000 || word(data, 0x808 + 16 * i) < 0x2000_0000
}

/// All offsets of an archive of the fourth version are small; where the table
/// of contents is cut off, none is read.
pub open spec fn are_fourth_offsets_small(data: Seq<u8>) -> bool {
    let count = word(data, 8);
    data.len() >= 24 && data.len() >= 0x800 + 16 * count ==> forall|i: int|
        0 <= i < count ==> #[trigger] is_fourth_offset_small(data, i)
}

/// The offset of entry `i`, which counts 2048 bytes, has 32 bits in bytes too.
pub open spec fn is_sector_small(data: Seq<u8>, i: int) -> bool {
    word(data, 8 + 32 * i) < 0x20_0000
}

/// All offsets of an archive of sectors are small; where the table of contents
/// is cut off, none is read.
pub open spec fn are_sectors_small(data: Seq<u8>) -> bool {
    let count = word(data, 4);
    data.len() >= 8 + 32 * count ==> forall|i: int|
        0 <= i < count ==> #[trigger] is_sector_small(data, i)
}

/// How many of the bytes from `lo` up to `hi` are zero.
pub open spec fn zeros(data: Seq<u8>, lo: int, hi: int) -> nat
    decreases hi - lo,
{
    if lo >= hi {
        0
    } else {
        zeros(data, lo, hi - 1) + (if data[hi - 1] == 0 {
            1nat
        } else {
            0
        })
    }
}

/// The size of an entry in an archive of the third kind of images.
pub open spec fn image_entry(data: Seq<u8>) -> int {
    if short(data, 16) == 0 {
        16
    } else {
        short(data, 16)
    }
}

/// How many entries of an archive of the third kind of images are read: all,
/// unless their size is less than is read of each.
pub open spec fn image_entries(data: Seq<u8>) -> int {
    let size = image_entry(data) * word(data, 8);
    if size < 16 {
        0
    } else {
        let last = (size - 16) / image_entry(data) + 1;
        if last < word(data, 8) {
            last
        } else {
            word(data, 8) as int
        }
    }
}

/// The entries of an archive of the third kind of images lie inside its table
/// of contents, and there is a name for each, though the last may be empty;
/// where the table is cut off, none is read.
pub open spec fn are_image_names_whole(data: Seq<u8>) -> bool {
    data.len() >= 20 && data.len() >= 20 + word(data, 12) ==> {
        let end = 20 + image_entry(data) * word(data, 8);
        &&& end <= 20 + word(data, 12)
        &&& image_entries(data) <= zeros(data, end, 20 + word(data, 12)) + 1
    }
}

/// The table of contents of an archive can be read.
pub open spec fn is_parsable(data: Seq<u8>) -> bool {
    is_wide() && (data.len() >= 12 ==> {
        &&& word(data, 0) == RPF4_MAGIC ==> are_fourth_offsets_small(data)
        &&& word(data, 0) == IMG2_MAGIC ==> are_sectors_small(data)
        &&& word(data, 0) == IMG3_MAGIC ==> are_image_names_whole(data)
    })
}

/// `RPF4`: an archive of Max Payne 3.
pub const RPF4_MAGIC: u32 = 0x3446_5052;

/// `VER2`: an archive of GTA San Andreas.
pub const IMG2_MAGIC: u32 = 0x3252_4556;

/// The mark of an archive of the third kind of images.
pub const IMG3_MAGIC: u32 = 0xa94e_2a52;

fn check_fourth(data: &[u8]) -> (r: bool)
    requires
        data.len() >= 12,
    ensures
        r == are_fourth_offsets_small(data@),
{
    let count: u64 = word_at(data, 8) as u64;
    if data.len() < 24 || (data.len() as u64) < 0x800 + 16 * count {
        return true;
    }
    let mut i: usize = 0;
    while (i as u64) < count
        invariant
            i <= count,
            count == word(data@, 8),
            data.len() >= 24,
            data.len() >= 0x800 + 16 * count,
            forall|k: int| 0 <= k < i ==> #[trigger] is_fourth_offset_small(data@, k),
        decreases count - i,
    {
        let offset: u32 = word_at(data, 0x808 + 16 * i);
        if offset < 0x8000_0000 && offset >= 0x2000_0000 {
            assert(!is_fourth_offset_small(data@, i as int));
            return false;
        }
        i = i + 1;
    }
    true
}

fn check_sectors(data: &[u8]) -> (r: bool)
    requires
        data.len() >= 12,
    ensures
        r == are_sectors_small(data@),
{
    let count: u64 = word_at(data, 4) as u64;
    if (data.len() as u64) < 8 + 32 * count {
        return true;
    }
    let mut i: usize = 0;
    while (i as u64) < count
        invariant
            i <= count,
            count == word(data@, 4),
            data.len() >= 8 + 32 * count,
            forall|k: int| 0 <= k < i ==> #[trigger] is_sector_small(data@, k),
        decreases count - i,
    {
        if word_at(data, 8 + 32 * i) >= 0x20_0000 {
            assert(!is_sector_small(data@, i as int));
            return false;
        }
        i = i + 1;
    }
    true
}

fn count_zeros(data: &[u8], lo: usize, hi: usize) -> (r: usize)
    requires
        lo <= hi <= data.len(),
    ensures
        r == zeros(data@, lo as int, hi as int),
        r <= hi - lo,
{
    let mut count: usize = 0;
    let mut i: usize = lo;
    while i < hi
        invariant
            lo <= i <= hi <= data.len(),
            count == zeros(data@, lo as int, i as int),
            count <= i - lo,
        decreases hi - i,
    {
        if data[i] == 0 {
            count = count + 1;
        }
        i = i + 1;
    }
    count
}

fn check_image_names(data: &[u8]) -> (r: bool)
    requires
        is_wide(),
        data.len() >= 12,
    ensures
        r == are_image_names_whole(data@),
{
    if data.len() < 20 {
        return true;
    }
    let header: u64 = word_at(data, 12) as u64;
    if (data.len() as u64) < 20 + header {
        return true;
    }
    let count: u64 = word_at(data, 8) as u64;
    let given: u64 = short_at(data, 16);
    let entry: u64 = if given == 0 {
        16
    } else {
        given
    };
    assert(entry * count <= 0xffff * 0xffff_ffff) by (nonlinear_arith)
        requires
            entry <= 0xffff,
            count <= 0xffff_ffff,
    ;
    let size: u64 = entry * count;
    if size > header {
        return false;
    }
    let read: u64 = if size < 16 {
        0
    } else {
        let last: u64 = (size - 16) / entry + 1;
        if last < count {
            last
        } else {
            count
        }
    };
    let names: usize = count_zeros(data, 20 + size as usize, 20 + header as usize);
    read <= names as u64 + 1
}

fn check_parsable(data: &[u8]) -> (r: bool)
    ensures
        r == is_parsable(data@),
{
    if !wide() {
        return false;
    }
    if data.len() < 12 {
        return true;
    }
    let magic: u32 = word_at(data, 0);
    if magic == RPF4_MAGIC {
        check_fourth(data)
    } else if magic == IMG2_MAGIC {
        check_sectors(data)
    } else if magic == IMG3_MAGIC {
        check_image_names(data)
    } else {
        true
    }
}

/// The directories among the entries from `start` on, `count` of them, nest no
/// deeper than `n`.
pub open spec fn is_nesting_low(entries: Seq<EntryView>, start: int, count: int, n: nat) -> bool
    decreases n,
{
    n > 0 && forall|i: int|
        start <= i < start + count && i < entries.len() ==> match (#[trigger] entries[i]).kind {
            EntryKind::Directory { entries_index, entries_count } => is_nesting_low(
                entries,
                entries_index as int,
                entries_count as int,
                (n - 1) as nat,
            ),
            _ => true,
        }
}

/// The directories of an archive nest no deeper than is read; a directory that
/// contains itself nests without end.
pub open spec fn are_directories_low(entries: Seq<EntryView>) -> bool {
    entries.len() > 0 ==> match entries[0].kind {
        EntryKind::Directory { entries_index, entries_count } => is_nesting_low(
            entries,
            entries_index as int,
            entries_count as int,
            MAX_NESTING as nat,
        ),
        _ => true,
    }
}

fn check_nesting(entries: &Vec<Entry>, start: u32, count: u32, n: usize) -> (r: bool)
    ensures
        r == is_nesting_low(entry_views(entries@), start as int, count as int, n as nat),
    decreases n,
{
    if n == 0 {
        return false;
    }
    let ghost all = entry_views(entries@);
    let end: u64 = start as u64 + count as u64;
    let mut i: u64 = start as u64;
    while i < end && i < entries.len() as u64
        invariant
            start <= i <= end,
            end == start + count,
            n > 0,
            all == entry_views(entries@),
            forall|k: int| start <= k < i && k < all.len() ==> match (#[trigger] all[k]).kind {
                EntryKind::Directory { entries_index, entries_count } => is_nesting_low(
                    all,
                    entries_index as int,
                    entries_count as int,
                    (n - 1) as nat,
                ),
                _ => true,
            },
        decreases end - i,
    {
        assert(all[i as int] == entries[i as int]@);
        match entries[i as usize].kind {
            EntryKind::Directory { entries_index, entries_count } => {
                if !check_nesting(entries, entries_index, entries_count, n - 1) {
                    return false;
                }
            },
            _ => {},
        }
        i = i + 1;
    }
    true
}

fn check_directories(entries: &Vec<Entry>) -> (r: bool)
    ensures
        r == are_directories_low(entry_views(entries@)),
{
    if entries.len() == 0 {
        return true;
    }
    assert(entry_views(entries@)[0] == entries[0]@);
    match entries[0].kind {
        EntryKind::Directory { entries_index, entries_count } => check_nesting(
            entries,
            entries_index,
            entries_count,
            MAX_NESTING,
        ),
        _ => true,
    }
}

// ── Archives ────────────────────────────────────────────────────────────────

/// The table of contents that `rpf_archive::RpfArchive::parse` finds in an
/// archive of the given name, with the given keys, or what it says is wrong
/// with the archive.
pub uninterp spec fn parsed_archive(
    data: Seq<u8>,
    name: Seq<char>,
    keys: Option<Keys>,
) -> Result<Toc, Seq<char>>;

/// `rpf_archive::RpfArchive::parse`, whose result depends on its arguments
/// alone. The archive starts where the data does.
#[verifier::external_body]
fn parse_archive(data: &[u8], name: &str, keys: Option<&GtaKeys>) -> (r: Result<RpfArchive, String>)
    requires
        is_parsable(data@),
        are_keys_whole(keys_given(keys)),
    ensures
        match r {
            Ok(t) => parsed_archive(data@, name@, keys_given(keys)) == Ok::<Toc, Seq<char>>(toc(t))
                && toc(t).start_offset == 0,
            Err(e) => parsed_archive(data@, name@, keys_given(keys)) == Err::<Toc, Seq<char>>(e@),
        },
{
    RpfArchive::parse(data, name, keys).map_err(|e| format!("{e:#}"))
}

/// The field `encryption` of `rpf_archive::RpfArchive`: how the archive is
/// encrypted.
#[verifier::external_body]
fn encryption_of(t: &RpfArchive) -> (r: RpfEncryption)
    ensures
        r == toc(*t).encryption,
{
    match t.encryption {
        rpf_archive::RpfEncryption::None => RpfEncryption::Unencrypted,
        rpf_archive::RpfEncryption::Open => RpfEncryption::Open,
        rpf_archive::RpfEncryption::Aes => RpfEncryption::Aes,
        rpf_archive::RpfEncryption::Ng => RpfEncryption::Ng,
        rpf_archive::RpfEncryption::Tfit => RpfEncryption::Tfit,
    }
}

/// The field `version` of `rpf_archive::RpfArchive`: the version of the
/// archive.
#[verifier::external_body]
fn version_of(t: &RpfArchive) -> (r: RpfVersion)
    ensures
        r == toc(*t).version,
{
    match t.version {
        rpf_archive::RpfVersion::V0 => RpfVersion::V0,
        rpf_archive::RpfVersion::V2 => RpfVersion::V2,
        rpf_archive::RpfVersion::V3 => RpfVersion::V3,
        rpf_archive::RpfVersion::V4 => RpfVersion::V4,
        rpf_archive::RpfVersion::V6 => RpfVersion::V6,
        rpf_archive::RpfVersion::V7 => RpfVersion::V7,
        rpf_archive::RpfVersion::V8 => RpfVersion::V8,
        rpf_archive::RpfVersion::Img1 => RpfVersion::Img1,
        rpf_archive::RpfVersion::Img2 => RpfVersion::Img2,
        rpf_archive::RpfVersion::Img3 => RpfVersion::Img3,
    }
}

/// The field `entries` of `rpf_archive::RpfArchive`: the entries of the
/// archive, in order.
#[verifier::external_body]
fn entries_of(t: &RpfArchive) -> (r: Vec<Entry>)
    ensures
        entry_views(r@) == toc(*t).entries,
{
    t.entries.iter().map(|e| Entry { name: e.name.clone(), name_lower: e.name_lower.clone(), kind: match e.kind {
        rpf_archive::RpfEntryKind::Directory { entries_index, entries_count } =>
            EntryKind::Directory { entries_index, entries_count },
        rpf_archive::RpfEntryKind::BinaryFile { file_offset, file_size, uncompressed_size, is_encrypted } =>
            EntryKind::BinaryFile { file_offset, file_size, uncompressed_size, is_encrypted },
        rpf_archive::RpfEntryKind::ResourceFile { file_offset, file_size, system_flags, graphics_flags, is_encrypted } =>
            EntryKind::ResourceFile { file_offset, file_size, system_flags, graphics_flags, is_encrypted },
    } }).collect()
}

/// What a file of an archive is listed with.
pub struct FileView {
    pub name: Seq<char>,
    pub path: Seq<char>,
    pub is_resource: bool,
    pub entry_index: usize,
}

impl View for FileEntry {
    type V = FileView;

    open spec fn view(&self) -> FileView {
        FileView {
            name: self.name@,
            path: self.path@,
            is_resource: self.is_resource,
            entry_index: self.entry_index,
        }
    }
}

/// What the files of a list are listed with.
pub open spec fn file_views(list: Seq<FileEntry>) -> Seq<FileView> {
    list.map_values(|f: FileEntry| f@)
}

/// The files that `rpf_archive::list_all_files` lists of the tree that
/// `rpf_archive::build_directory_tree` makes of some entries.
pub uninterp spec fn listed(entries: Seq<EntryView>) -> Seq<FileView>;

/// `rpf_archive::list_all_files`, of the tree that
/// `rpf_archive::build_directory_tree` makes of the entries of an archive; its
/// result depends on the entries alone. Each file is that of an entry, which
/// is no directory, under its name.
#[verifier::external_body]
fn files_of(t: &RpfArchive) -> (r: Vec<FileEntry>)
    requires
        is_wide(),
        are_directories_low(toc(*t).entries),
    ensures
        file_views(r@) == listed(toc(*t).entries),
        forall|i: int|
            0 <= i < r.len() ==> is_file_of((#[trigger] r[i])@, toc(*t).entries),
{
    let root = rpf_archive::build_directory_tree(&t.entries);
    rpf_archive::list_all_files(&root).into_iter().map(|f| FileEntry {
        name: f.name.clone(), path: f.path.clone(), is_resource: f.is_resource, entry_index: f.entry_index,
    }).collect()
}

/// A file is that of an entry, which is no directory, under its name.
pub open spec fn is_file_of(f: FileView, entries: Seq<EntryView>) -> bool {
    &&& f.entry_index < entries.len()
    &&& f.name == entries[f.entry_index as int].name
    &&& f.is_resource == entries[f.entry_index as int].kind is ResourceFile
    &&& !(entries[f.entry_index as int].kind is Directory)
}

/// How many entries of a list are directories.
pub open spec fn directory_count(entries: Seq<EntryView>) -> nat
    decreases entries.len(),
{
    if entries.len() == 0 {
        0
    } else {
        directory_count(entries.drop_last()) + (if entries.last().kind is Directory {
            1nat
        } else {
            0
        })
    }
}

fn count_directories(entries: &Vec<Entry>) -> (r: usize)
    ensures
        r == directory_count(entry_views(entries@)),
{
    let ghost all = entry_views(entries@);
    let mut count: usize = 0;
    let mut i: usize = 0;
    assert(all.take(0) =~= Seq::empty());
    while i < entries.len()
        invariant
            i <= entries.len(),
            all == entry_views(entries@),
            count == directory_count(all.take(i as int)),
            count <= i,
        decreases entries.len() - i,
    {
        proof {
            assert(all.take(i + 1).drop_last() =~= all.take(i as int));
            assert(all.take(i + 1).last() == entries[i as int]@);
        }
        match entries[i].kind {
            EntryKind::Directory { .. } => {
                count = count + 1;
            },
            _ => {},
        }
        i = i + 1;
    }
    assert(all.take(entries.len() as int) =~= all);
    count
}

/// An archive: its table of contents and its files.
pub struct Archive {
    pub encryption: RpfEncryption,
    pub version: RpfVersion,
    pub entry_count: usize,
    pub dir_count: usize,
    pub entries: Vec<Entry>,
    pub files: Vec<FileEntry>,
    pub table: RpfArchive,
}

/// What is said of an archive whose table of contents cannot be read.
pub const BAD_TABLE: &'static str = "the table of contents of the archive cannot be read";

/// What is said of keys that are cut off.
pub const BAD_KEYS: &'static str = "the keys are not whole";

/// The table of contents of an archive, or what is wrong with the archive.
pub open spec fn archive_in(data: Seq<u8>, name: Seq<char>, keys: Option<Keys>) -> Result<
    Toc,
    Seq<char>,
> {
    if !is_parsable(data) {
        Err(BAD_TABLE@)
    } else if !are_keys_whole(keys) {
        Err(BAD_KEYS@)
    } else {
        match parsed_archive(data, name, keys) {
            Ok(t) => if are_directories_low(t.entries) {
                Ok(t)
            } else {
                Err(BAD_TABLE@)
            },
            Err(e) => Err(e),
        }
    }
}

impl Archive {
    /// The archive holds the files that its table of contents lists, and counts
    /// its entries.
    pub open spec fn wf(self) -> bool {
        let t = toc(self.table);
        &&& self.encryption == t.encryption
        &&& self.version == t.version
        &&& entry_views(self.entries@) == t.entries
        &&& self.entry_count == t.entries.len()
        &&& self.dir_count == directory_count(t.entries)
        &&& file_views(self.files@) == listed(t.entries)
        &&& t.start_offset == 0
        &&& forall|i: int|
            0 <= i < self.files.len() ==> is_file_of((#[trigger] self.files[i])@, t.entries)
    }

    /// Reads the table of contents of an archive of the given name, with the
    /// given keys.
    pub fn from_bytes(data: &[u8], name: &str, keys: Option<&GtaKeys>) -> (r: Result<Archive, String>)
        ensures
            match r {
                Ok(a) => a.wf() && archive_in(data@, name@, keys_given(keys)) == Ok::<
                    Toc,
                    Seq<char>,
                >(toc(a.table)),
                Err(e) => archive_in(data@, name@, keys_given(keys)) == Err::<Toc, Seq<char>>(e@),
            },
    {
        if !check_parsable(data) {
            return Err(BAD_TABLE.to_owned());
        }
        if !check_keys(keys) {
            return Err(BAD_KEYS.to_owned());
        }
        let table = match parse_archive(data, name, keys) {
            Ok(table) => table,
            Err(e) => return Err(e),
        };
        let entries = entries_of(&table);
        if !check_directories(&entries) {
            return Err(BAD_TABLE.to_owned());
        }
        let files = files_of(&table);
        let dir_count: usize = count_directories(&entries);
        assert(entry_views(entries@).len() == entries.len());
        Ok(
            Archive {
                encryption: encryption_of(&table),
                version: version_of(&table),
                entry_count: entries.len(),
                dir_count,
                entries,
                files,
                table,
            },
        )
    }

    /// Refuses an archive whose entries decode to noise without keys.
    pub fn require_keys(&self, keys: Option<&GtaKeys>) -> (r: Result<(), String>)
        ensures
            r is Err <==> keys is None && needs_keys(self.encryption),
            r matches Err(e) ==> e@ == keys_text(self.encryption),
    {
        require_keys(self.encryption, keys.is_some())
    }

    /// The files of the archive, in order.
    pub fn list_files(&self) -> (out: Vec<&FileEntry>)
        ensures
            referred(out@) == self.files@,
    {
        let mut out: Vec<&FileEntry> = Vec::new();
        let mut i: usize = 0;
        assert(referred(out@) =~= self.files@.take(0));
        while i < self.files.len()
            invariant
                i <= self.files.len(),
                referred(out@) == self.files@.take(i as int),
            decreases self.files.len() - i,
        {
            let ghost before = referred(out@);
            out.push(&self.files[i]);
            proof {
                assert(referred(out@) =~= before.push(self.files[i as int]));
                assert(self.files@.take(i + 1) =~= before.push(self.files[i as int]));
            }
            i = i + 1;
        }
        assert(self.files@.take(self.files.len() as int) =~= self.files@);
        out
    }

    /// The first file that has the given path, or that name, whichever way it
    /// is spelled.
    pub fn find_file(&self, path: &str) -> (r: Option<&FileEntry>)
        ensures
            match r {
                Some(f) => exists|i: int|
                    is_found(self.files@, lookup_path(path@), i) && *f == self.files[i],
                None => forall|j: int|
                    0 <= j < self.files.len() ==> !goes_by(
                        #[trigger] self.files[j],
                        lookup_path(path@),
                    ),
            },
    {
        let files = self.list_files();
        match find_file(&files, path) {
            Some(i) => {
                assert(referred(files@)[i as int] == *files[i as int]);
                assert(is_found(self.files@, lookup_path(path@), i as int));
                Some(files[i])
            },
            None => {
                assert forall|j: int| 0 <= j < self.files.len() implies !goes_by(
                    #[trigger] self.files[j],
                    lookup_path(path@),
                ) by {
                    assert(referred(files@)[j] == self.files[j]);
                }
                None
            },
        }
    }

    /// The range of bytes, within an archive of `len` bytes, of a file that is
    /// neither encrypted nor compressed; none where the file does not lie
    /// inside, or is a resource.
    pub fn stored_range(&self, file: &FileEntry, len: usize) -> (r: Option<(usize, usize)>)
        requires
            self.wf(),
            file.entry_index < self.entries.len(),
        ensures
            ({
                match stored_in(self.entries[file.entry_index as int].kind) {
                    Some(entry) => {
                        let start = stored_start(entry, self.version == RpfVersion::V7, 0);
                        let end = start + entry.uncompressed_size;
                        match r {
                            Some(range) => is_plain(entry) && end <= len && range.0 == start
                                && range.1 == end,
                            None => !is_plain(entry) || end > len,
                        }
                    },
                    None => r is None,
                }
            }),
    {
        let entry = match self.entries[file.entry_index].kind {
            EntryKind::BinaryFile { file_offset, file_size, uncompressed_size, is_encrypted } => StoredEntry {
                file_offset,
                file_size,
                uncompressed_size,
                is_encrypted,
            },
            _ => return None,
        };
        let in_blocks: bool = self.version == RpfVersion::V7;
        let offset: u64 = if in_blocks {
            entry.file_offset as u64 * 512
        } else {
            entry.file_offset as u64
        };
        if offset > usize::MAX as u64 {
            return None;
        }
        stored_range(entry, in_blocks, 0, len)
    }

    /// Reads a file of the archive, whose bytes are `data`, with the given keys.
    /// What an archive of the sixth version compresses is not unpacked here.
    pub fn extract(&self, data: &[u8], file: &FileEntry, keys: Option<&GtaKeys>) -> (r: Result<
        Vec<u8>,
        String,
    >)
        requires
            self.wf(),
            file.entry_index < self.entries.len(),
        ensures
            match r {
                Ok(bytes) => file_in(toc(self.table), data@, file.entry_index, keys_given(keys))
                    == Ok::<Seq<u8>, Seq<char>>(bytes@),
                Err(e) => file_in(toc(self.table), data@, file.entry_index, keys_given(keys))
                    == Err::<Seq<u8>, Seq<char>>(e@),
            },
    {
        assert(entry_views(self.entries@)[file.entry_index as int]
            == self.entries[file.entry_index as int]@);
        if !wide() {
            return Err(TOO_LARGE.to_owned());
        }
        if !check_keys(keys) {
            return Err(BAD_KEYS.to_owned());
        }
        let squeezed: bool = match self.entries[file.entry_index].kind {
            EntryKind::BinaryFile { file_size, uncompressed_size, .. } => 0 < file_size && file_size
                < uncompressed_size,
            _ => false,
        };
        if self.version == RpfVersion::V6 && squeezed {
            return Err(NOT_UNPACKED.to_owned());
        }
        extract_entry(&self.table, data, file.entry_index, keys)
    }

    /// What the entry of a file is.
    pub fn entry_kind(&self, file: &FileEntry) -> (r: EntryKind)
        requires
            file.entry_index < self.entries.len(),
        ensures
            r == self.entries[file.entry_index as int].kind,
    {
        self.entries[file.entry_index].kind
    }
}

/// The file that `rpf_archive::RpfArchive::extract_entry` reads, by the number
/// of its entry, from the bytes of an archive, or what it says is wrong.
pub uninterp spec fn extracted(
    t: Toc,
    data: Seq<u8>,
    index: usize,
    keys: Option<Keys>,
) -> Result<Seq<u8>, Seq<char>>;

/// The entry is a file that is compressed.
pub open spec fn is_squeezed(kind: EntryKind) -> bool {
    match kind {
        EntryKind::BinaryFile { file_offset, file_size, uncompressed_size, is_encrypted } => 0
            < file_size < uncompressed_size,
        _ => false,
    }
}

/// `rpf_archive::RpfArchive::extract_entry`, whose result depends on its
/// arguments alone. Archives of the sixth version are compressed in ways of
/// their own, of which nothing is said here.
#[verifier::external_body]
fn extract_entry(t: &RpfArchive, data: &[u8], index: usize, keys: Option<&GtaKeys>) -> (r: Result<
    Vec<u8>,
    String,
>)
    requires
        is_wide(),
        are_keys_whole(keys_given(keys)),
        toc(*t).start_offset == 0,
        index < toc(*t).entries.len(),
        !(toc(*t).version == RpfVersion::V6 && is_squeezed(toc(*t).entries[index as int].kind)),
    ensures
        match r {
            Ok(bytes) => extracted(toc(*t), data@, index, keys_given(keys)) == Ok::<
                Seq<u8>,
                Seq<char>,
            >(bytes@),
            Err(e) => extracted(toc(*t), data@, index, keys_given(keys)) == Err::<
                Seq<u8>,
                Seq<char>,
            >(e@),
        },
{
    t.extract_entry(data, &t.entries[index], keys).map_err(|e| format!("{e:#}"))
}

/// What is said of a file that is not unpacked.
pub const NOT_UNPACKED: &'static str = "the file is compressed as only the sixth version does it";

/// A file of an archive, by the number of its entry, or what is wrong with it.
pub open spec fn file_in(t: Toc, data: Seq<u8>, index: usize, keys: Option<Keys>) -> Result<
    Seq<u8>,
    Seq<char>,
> {
    if !is_wide() {
        Err(TOO_LARGE@)
    } else if !are_keys_whole(keys) {
        Err(BAD_KEYS@)
    } else if t.version == RpfVersion::V6 && is_squeezed(t.entries[index as int].kind) {
        Err(NOT_UNPACKED@)
    } else {
        extracted(t, data, index, keys)
    }
}

/// Where an entry that is no resource says that its file lies.
pub open spec fn stored_in(kind: EntryKind) -> Option<StoredEntry> {
    match kind {
        EntryKind::BinaryFile { file_offset, file_size, uncompressed_size, is_encrypted } => Some(
            StoredEntry { file_offset, file_size, uncompressed_size, is_encrypted },
        ),
        _ => None,
    }
}

// ── Stored entries ──────────────────────────────────────────────────────────

/// Where an archive says that a plain file lies.
#[derive(Debug, Clone, Copy, PartialEq, Eq, Structural)]
pub struct StoredEntry {
    pub file_offset: u32,
    /// 0 where the file is not compressed.
    pub file_size: u32,
    pub uncompressed_size: u32,
    pub is_encrypted: bool,
}

/// Where the file starts: the offset counts blocks of 512 bytes in the seventh
/// version, bytes in the others.
pub open spec fn stored_start(entry: StoredEntry, in_blocks: bool, start_offset: int) -> int {
    start_offset + entry.file_offset * (if in_blocks {
        512int
    } else {
        1
    })
}

/// Its bytes are usable as they lie: neither encrypted nor compressed, and not
/// empty.
pub open spec fn is_plain(entry: StoredEntry) -> bool {
    !entry.is_encrypted && (entry.file_size == 0 || entry.file_size == entry.uncompressed_size)
        && entry.uncompressed_size != 0
}

/// The range of bytes, within an archive of `len` bytes, of a file that is
/// neither encrypted nor compressed; none where the file does not lie inside.
pub fn stored_range(
    entry: StoredEntry,
    in_blocks: bool,
    start_offset: usize,
    len: usize,
) -> (r: Option<(usize, usize)>)
    requires
        stored_start(entry, in_blocks, start_offset as int) <= usize::MAX,
    ensures
        ({
            let start = stored_start(entry, in_blocks, start_offset as int);
            let end = start + entry.uncompressed_size;
            match r {
                Some(range) => is_plain(entry) && end <= len && range.0 == start && range.1 == end,
                None => !is_plain(entry) || end > len,
            }
        }),
{
    if entry.is_encrypted || (entry.file_size != 0 && entry.file_size != entry.uncompressed_size)
        || entry.uncompressed_size == 0 {
        return None;
    }
    let offset: usize = if in_blocks {
        entry.file_offset as usize * 512
    } else {
        entry.file_offset as usize
    };
    let start: usize = start_offset + offset;
    let size: usize = entry.uncompressed_size as usize;
    if start > len || size > len - start {
        return None;
    }
    Some((start, start + size))
}

// ── Keys ────────────────────────────────────────────────────────────────────

/// How an archive is encrypted.
#[derive(Debug, Clone, Copy, PartialEq, Eq, Structural)]
pub enum RpfEncryption {
    Unencrypted,
    Open,
    Aes,
    Ng,
    Tfit,
}

/// Entry names and contents decode to noise without keys.
pub open spec fn needs_keys(encryption: RpfEncryption) -> bool {
    encryption == RpfEncryption::Ng || encryption == RpfEncryption::Aes
}

/// What is said of an archive that needs keys.
pub open spec fn keys_text(encryption: RpfEncryption) -> Seq<char> {
    "archive is "@ + (if encryption == RpfEncryption::Ng {
        "Ng"@
    } else {
        "Aes"@
    }) + "-encrypted \u{2014} pass --exe <GTA5.exe> or set GTAV_PATH"@
}

/// Refuses an archive whose entries decode to noise without keys.
pub fn require_keys(encryption: RpfEncryption, have_keys: bool) -> (r: Result<(), String>)
    ensures
        r is Err <==> !have_keys && needs_keys(encryption),
        r matches Err(e) ==> e@ == keys_text(encryption),
{
    if have_keys {
        return Ok(());
    }
    match encryption {
        RpfEncryption::Ng | RpfEncryption::Aes => {
            let mut out = String::from_str("archive is ");
            if encryption == RpfEncryption::Ng {
                out.append("Ng");
            } else {
                out.append("Aes");
            }
            out.append("-encrypted \u{2014} pass --exe <GTA5.exe> or set GTAV_PATH");
            Err(out)
        },
        _ => Ok(()),
    }
}

} // verus!
