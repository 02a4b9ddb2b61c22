//! What leaves an archive, and where it goes.
use vstd::prelude::*;
use crate::commands::extract::{chosen, counts, missing, steps, Nested, Packed, StepView};
use crate::rpf::{
    directory_count, goes_by, keys_text, lookup_path, needs_keys, stored_start, EntryKind,
    EntryView, FileEntry, RpfEncryption, StoredEntry,
};
use crate::text::{has_text, lowercase, replace};
use crate::utils::glob;

verus! {

/// A path is asked for when nothing in particular is, or when one of the
/// patterns is met by it: one with a star as a whole, another by a part of the
/// path.
pub open spec fn is_asked_for(path: Seq<char>, patterns: Seq<Seq<char>>) -> bool {
    patterns.len() == 0 || exists|k: int|
        0 <= k < patterns.len() && (if (#[trigger] patterns[k]).contains('*') {
            glob(path, patterns[k])
        } else {
            has_text(path, patterns[k])
        })
}

/// A file that is read out of an archive, at whatever depth, is written
/// exactly when there are no patterns or one is met by the very path that it
/// is written to. Every such path lies below the archive's own.
pub proof fn law_files_are_matched_by_where_they_go(
    files: Seq<Packed>,
    prefix: Seq<char>,
    patterns: Seq<Seq<char>>,
    depth: nat,
    i: int,
)
    requires
        0 <= i < steps(files, prefix, patterns, depth).len(),
    ensures
        match steps(files, prefix, patterns, depth)[i] {
            StepView::Extract { id, full, wanted } => {
                &&& wanted == is_asked_for(full, patterns)
                &&& prefix.is_prefix_of(full)
                &&& prefix.len() > 0 ==> (prefix + "/"@).is_prefix_of(full)
            },
            StepView::Failed { full, reason } => prefix.is_prefix_of(full),
            StepView::Unreadable { full, reason } => prefix.is_prefix_of(full),
            StepView::TooDeep { prefix: at } => prefix.is_prefix_of(at),
        },
    decreases files,
{
    let all = steps(files, prefix, patterns, depth);
    if depth <= 16 && files.len() > 0 {
        let front = files.drop_last();
        let before = steps(front, prefix, patterns, depth);
        let file = files[files.len() - 1];
        let full = if prefix.len() == 0 {
            file.path@
        } else {
            prefix + "/"@ + file.path@
        };
        assert(prefix.is_prefix_of(full));
        assert(prefix.len() > 0 ==> (prefix + "/"@).is_prefix_of(full));
        if i < before.len() {
            law_files_are_matched_by_where_they_go(front, prefix, patterns, depth, i);
            assert(all[i] == before[i]);
        } else if ".rpf"@.is_suffix_of(lowercase(file.name@)) {
            if let Nested::Files(inner) = file.nested {
                let more = steps(inner@, full, patterns, depth + 1);
                assert(all == before + more);
                let k = i - before.len();
                assert(all[i] == more[k]);
                law_files_are_matched_by_where_they_go(inner@, full, patterns, depth + 1, k);
                match more[k] {
                    StepView::Extract { id, full: at, wanted } => {
                        lemma_below(prefix, full, at);
                        lemma_below(prefix + "/"@, full, at);
                    },
                    StepView::Failed { full: at, reason } => {
                        lemma_below(prefix, full, at);
                    },
                    StepView::Unreadable { full: at, reason } => {
                        lemma_below(prefix, full, at);
                    },
                    StepView::TooDeep { prefix: at } => {
                        lemma_below(prefix, full, at);
                    },
                }
            }
        }
    }
}

proof fn lemma_below(a: Seq<char>, b: Seq<char>, c: Seq<char>)
    ensures
        a.is_prefix_of(b) && b.is_prefix_of(c) ==> a.is_prefix_of(c),
{
    if a.is_prefix_of(b) && b.is_prefix_of(c) {
        assert(a =~= c.subrange(0, a.len() as int)) by {
            assert(b == c.subrange(0, b.len() as int));
            assert(a == b.subrange(0, a.len() as int));
        }
    }
}

/// What one more file adds to an extraction: a plain file its own extraction,
/// under its number and its archive's path; a nested archive the extraction of
/// what it holds, one level deeper, or what went wrong with it. Past the
/// sixteenth level nothing is read.
pub proof fn law_one_more_file_is_extracted(
    files: Seq<Packed>,
    file: Packed,
    prefix: Seq<char>,
    patterns: Seq<Seq<char>>,
    depth: nat,
)
    ensures
        depth > 16 ==> steps(files, prefix, patterns, depth) == seq![StepView::TooDeep { prefix }],
        depth <= 16 ==> steps(Seq::empty(), prefix, patterns, depth).len() == 0,
        depth <= 16 ==> ({
            let before = steps(files, prefix, patterns, depth);
            let got = steps(files.push(file), prefix, patterns, depth);
            let full = if prefix.len() == 0 {
                file.path@
            } else {
                prefix + "/"@ + file.path@
            };
            if ".rpf"@.is_suffix_of(lowercase(file.name@)) {
                match file.nested {
                    Nested::Nothing => got == before,
                    Nested::Failed(reason) => got == before.push(
                        StepView::Failed { full, reason: reason@ },
                    ),
                    Nested::Unreadable(reason) => got == before.push(
                        StepView::Unreadable { full, reason: reason@ },
                    ),
                    Nested::Files(inner) => got == before + steps(inner@, full, patterns, depth + 1),
                }
            } else {
                got == before.push(
                    StepView::Extract { id: file.id, full, wanted: is_asked_for(full, patterns) },
                )
            }
        }),
{
    assert(files.push(file).drop_last() =~= files);
}

/// What one more file adds to the counts: a plain file counts as one, and as a
/// resource where it is one; a nested archive counts as such, with what it
/// holds where it can be read. Nothing past the sixteenth level counts.
pub proof fn law_one_more_file_is_counted(files: Seq<Packed>, file: Packed, depth: nat)
    ensures
        depth > 16 ==> counts(files, depth).files == 0 && counts(files, depth).resources == 0
            && counts(files, depth).nested == 0,
        counts(Seq::empty(), depth).files == 0,
        counts(Seq::empty(), depth).resources == 0,
        counts(Seq::empty(), depth).nested == 0,
        depth <= 16 ==> ({
            let before = counts(files, depth);
            let got = counts(files.push(file), depth);
            if ".rpf"@.is_suffix_of(lowercase(file.name@)) {
                match file.nested {
                    Nested::Files(inner) => {
                        let more = counts(inner@, depth + 1);
                        &&& got.files == before.files + more.files
                        &&& got.resources == before.resources + more.resources
                        &&& got.nested == before.nested + more.nested + 1
                    },
                    _ => got.files == before.files && got.resources == before.resources && got.nested
                        == before.nested + 1,
                }
            } else {
                &&& got.files == before.files + 1
                &&& got.resources == before.resources + (if file.is_resource {
                    1int
                } else {
                    0
                })
                &&& got.nested == before.nested
            }
        }),
{
    assert(files.push(file).drop_last() =~= files);
}

/// A pattern without wildcards names the first file that goes by it, whatever
/// its case and slashes; any other names those that it matches.
pub open spec fn names(pattern: Seq<char>, files: Seq<FileEntry>, i: int) -> bool {
    if has_text(pattern, "*"@) || has_text(pattern, "?"@) {
        if pattern.contains('*') {
            glob(files[i].path@, pattern)
        } else {
            has_text(files[i].path@, pattern)
        }
    } else {
        exists|j: int|
            0 <= j < files.len() && (#[trigger] files[j]).path@ == files[i].path@ && goes_by(
                files[j],
                lowercase(replace(pattern, '\\', '/')),
            ) && forall|k: int|
                0 <= k < j ==> !goes_by(#[trigger] files[k], lowercase(replace(pattern, '\\', '/')))
    }
}

/// A file is extracted exactly when there are no patterns, or one names it and
/// no file before it has its path. The files keep their order.
pub proof fn law_named_files_are_chosen(
    patterns: Seq<Seq<char>>,
    files: Seq<FileEntry>,
    n: nat,
    i: int,
)
    requires
        0 <= i < n <= files.len(),
    ensures
        chosen(patterns, files, n).contains(i) <==> patterns.len() == 0 || ((exists|k: int|
            0 <= k < patterns.len() && names(#[trigger] patterns[k], files, i)) && forall|j: int|
            0 <= j < i ==> (#[trigger] files[j]).path@ != files[i].path@),
    decreases n,
{
    let before = chosen(patterns, files, (n - 1) as nat);
    let got = chosen(patterns, files, n);
    let taken = patterns.len() == 0 || ((exists|k: int|
        0 <= k < patterns.len() && names(#[trigger] patterns[k], files, i)) && forall|j: int|
        0 <= j < i ==> (#[trigger] files[j]).path@ != files[i].path@);
    assert forall|p: Seq<char>| #[trigger]
        crate::commands::extract::selects(p, files, files[i].path@) == names(p, files, i) by {
        lemma_selects(p, files, i);
    }
    if i < n - 1 {
        law_named_files_are_chosen(patterns, files, (n - 1) as nat, i);
        if before.contains(i) {
            let a = choose|a: int| 0 <= a < before.len() && before[a] == i;
            assert(got[a] == i);
        }
    } else {
        crate::commands::extract::law_each_file_once(patterns, files, (n - 1) as nat);
        assert(!before.contains(i));
        assert(crate::commands::extract::is_chosen(patterns, files, i) == taken) by {
            if exists|k: int| 0 <= k < patterns.len() && names(#[trigger] patterns[k], files, i) {
                let k = choose|k: int|
                    0 <= k < patterns.len() && names(#[trigger] patterns[k], files, i);
                assert(crate::commands::extract::selects(patterns[k], files, files[i].path@));
            }
        }
        if taken {
            assert(got.last() == i);
        }
    }
}

proof fn lemma_selects(p: Seq<char>, files: Seq<FileEntry>, i: int)
    ensures
        crate::commands::extract::selects(p, files, files[i].path@) == names(p, files, i),
{
    let q = lookup_path(p);
    if crate::commands::extract::is_exact(p) {
        if names(p, files, i) {
            let j = choose|j: int|
                0 <= j < files.len() && (#[trigger] files[j]).path@ == files[i].path@ && goes_by(
                    files[j],
                    q,
                ) && forall|k: int| 0 <= k < j ==> !goes_by(#[trigger] files[k], q);
            assert(crate::rpf::is_found(files, q, j));
        }
    }
}

/// A pattern without wildcards that no file goes by is reported, and no other.
pub proof fn law_patterns_without_a_file_are_reported(
    patterns: Seq<Seq<char>>,
    pattern: Seq<char>,
    files: Seq<FileEntry>,
)
    ensures
        missing(Seq::empty(), files).len() == 0,
        missing(patterns.push(pattern), files) == (if !has_text(pattern, "*"@) && !has_text(
            pattern,
            "?"@,
        ) && (forall|j: int|
            0 <= j < files.len() ==> !goes_by(
                #[trigger] files[j],
                lowercase(replace(pattern, '\\', '/')),
            )) {
            missing(patterns, files).push(pattern)
        } else {
            missing(patterns, files)
        }),
{
    assert(patterns.push(pattern).drop_last() =~= patterns);
}

/// A file goes by its path, and by its name in lower case; nothing else.
pub proof fn law_files_go_by_path_and_name(f: FileEntry, path: Seq<char>)
    ensures
        goes_by(f, f.path@),
        goes_by(f, lowercase(f.name@)),
        path != f.path@ && path != lowercase(f.name@) ==> !goes_by(f, path),
{
}

/// The directories of an archive are counted; nothing else counts as one.
pub proof fn law_directories_are_counted(entries: Seq<EntryView>, entry: EntryView)
    ensures
        directory_count(Seq::empty()) == 0,
        directory_count(entries.push(entry)) == directory_count(entries) + (match entry.kind {
            EntryKind::Directory { .. } => 1int,
            EntryKind::BinaryFile { .. } => 0,
            EntryKind::ResourceFile { .. } => 0,
        }),
{
    assert(entries.push(entry).drop_last() =~= entries);
}

/// An archive needs keys exactly when it is encrypted by one of the two
/// ciphers, and is then named by its cipher.
pub proof fn law_encrypted_archives_need_keys(encryption: RpfEncryption)
    ensures
        needs_keys(encryption) <==> encryption == RpfEncryption::Ng || encryption
            == RpfEncryption::Aes,
        needs_keys(encryption) ==> keys_text(encryption) == (if encryption == RpfEncryption::Aes {
            "archive is Aes-encrypted \u{2014} pass --exe <GTA5.exe> or set GTAV_PATH"@
        } else {
            "archive is Ng-encrypted \u{2014} pass --exe <GTA5.exe> or set GTAV_PATH"@
        }),
{
    reveal_strlit("archive is ");
    reveal_strlit("Ng");
    reveal_strlit("Aes");
    reveal_strlit("-encrypted \u{2014} pass --exe <GTA5.exe> or set GTAV_PATH");
    reveal_strlit("archive is Aes-encrypted \u{2014} pass --exe <GTA5.exe> or set GTAV_PATH");
    reveal_strlit("archive is Ng-encrypted \u{2014} pass --exe <GTA5.exe> or set GTAV_PATH");
    assert(keys_text(RpfEncryption::Aes)
        =~= "archive is Aes-encrypted \u{2014} pass --exe <GTA5.exe> or set GTAV_PATH"@);
    assert(keys_text(RpfEncryption::Ng)
        =~= "archive is Ng-encrypted \u{2014} pass --exe <GTA5.exe> or set GTAV_PATH"@);
}

/// A stored file starts at its offset, in blocks of 512 bytes where the archive
/// counts in blocks; two files whose offsets differ by one are a block or a
/// byte apart.
pub proof fn law_stored_files_are_a_block_apart(a: StoredEntry, b: StoredEntry, start: int)
    requires
        b.file_offset == a.file_offset + 1,
    ensures
        stored_start(b, true, start) == stored_start(a, true, start) + 512,
        stored_start(b, false, start) == stored_start(a, false, start) + 1,
        a.file_offset == 0 ==> stored_start(a, true, start) == start && stored_start(a, false, start)
            == start,
{
}

} // verus!
