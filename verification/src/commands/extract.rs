//! `rage extract`: which files leave an archive, and where they go.
use vstd::prelude::*;
use vstd::string::*;
use crate::rpf::{find_file, goes_by, is_found, lookup_path, referred, FileEntry};
use crate::text::{
    contains, decimal, decimal_of, ends_with, has_text, lowercase, same, texts, to_lowercase,
};
use crate::utils::{glob, matches_pattern};

verus! {

/// Archives nested deeper than this are left alone.
pub const MAX_DEPTH: usize = 16;

// ── Selection ───────────────────────────────────────────────────────────────

/// A pattern matches a path.
pub open spec fn pattern_matches(path: Seq<char>, pattern: Seq<char>) -> bool {
    if pattern.contains('*') {
        glob(path, pattern)
    } else {
        has_text(path, pattern)
    }
}

/// A pattern without wildcards names one file.
pub open spec fn is_exact(pattern: Seq<char>) -> bool {
    !has_text(pattern, "*"@) && !has_text(pattern, "?"@)
}

/// The pattern selects the path: it is that of the file the pattern names, or
/// one that the wildcards match.
pub open spec fn selects(pattern: Seq<char>, files: Seq<FileEntry>, path: Seq<char>) -> bool {
    if is_exact(pattern) {
        exists|j: int|
            #[trigger] is_found(files, lookup_path(pattern), j) && files[j].path@ == path
    } else {
        pattern_matches(path, pattern)
    }
}

/// One of the patterns selects the path.
pub open spec fn is_selected(patterns: Seq<Seq<char>>, files: Seq<FileEntry>, path: Seq<char>) -> bool {
    exists|k: int| 0 <= k < patterns.len() && selects(#[trigger] patterns[k], files, path)
}

/// The `i`-th file is extracted: there is no pattern, or one selects its path
/// and no earlier file has the same path.
pub open spec fn is_chosen(patterns: Seq<Seq<char>>, files: Seq<FileEntry>, i: int) -> bool {
    patterns.len() == 0 || (is_selected(patterns, files, files[i].path@) && forall|j: int|
        0 <= j < i ==> (#[trigger] files[j]).path@ != files[i].path@)
}

/// The first `n` files that are extracted, in archive order.
pub open spec fn chosen(patterns: Seq<Seq<char>>, files: Seq<FileEntry>, n: nat) -> Seq<int>
    decreases n,
{
    if n == 0 {
        Seq::empty()
    } else {
        let before = chosen(patterns, files, (n - 1) as nat);
        if is_chosen(patterns, files, n - 1) {
            before.push(n - 1)
        } else {
            before
        }
    }
}

/// The pattern names a file that is not there.
pub open spec fn is_missing(pattern: Seq<char>, files: Seq<FileEntry>) -> bool {
    is_exact(pattern) && forall|j: int|
        0 <= j < files.len() ==> !goes_by(#[trigger] files[j], lookup_path(pattern))
}

/// The patterns that name files that are not there, in order.
pub open spec fn missing(patterns: Seq<Seq<char>>, files: Seq<FileEntry>) -> Seq<Seq<char>>
    decreases patterns.len(),
{
    if patterns.len() == 0 {
        Seq::empty()
    } else {
        let before = missing(patterns.drop_last(), files);
        if is_missing(patterns.last(), files) {
            before.push(patterns.last())
        } else {
            before
        }
    }
}

fn exact(pattern: &str) -> (r: bool)
    ensures
        r == is_exact(pattern@),
{
    !contains(pattern, "*") && !contains(pattern, "?")
}

fn pattern_selects(pattern: &str, files: &Vec<&FileEntry>, path: &str) -> (r: bool)
    ensures
        r == selects(pattern@, referred(files@), path@),
{
    if exact(pattern) {
        let ghost all = referred(files@);
        let ghost p = lookup_path(pattern@);
        match find_file(files, pattern) {
            Some(i) => {
                let r: bool = same(files[i].path.as_str(), path);
                proof {
                    assert(is_found(all, p, i as int));
                    if selects(pattern@, all, path@) {
                        let j = choose|j: int|
                            #[trigger] is_found(all, p, j) && all[j].path@ == path@;
                        if j < i {
                            assert(!goes_by(all[j], p));
                        } else if i < j {
                            assert(!goes_by(all[i as int], p));
                        }
                    }
                }
                r
            },
            None => {
                proof {
                    if selects(pattern@, all, path@) {
                        let j = choose|j: int|
                            #[trigger] is_found(all, p, j) && all[j].path@ == path@;
                        assert(!goes_by(all[j], p));
                    }
                }
                false
            },
        }
    } else {
        matches_pattern(path, pattern)
    }
}

fn selected(patterns: &Vec<String>, files: &Vec<&FileEntry>, path: &str) -> (r: bool)
    ensures
        r == is_selected(texts(patterns@), referred(files@), path@),
{
    let ghost all = texts(patterns@);
    let mut k: usize = 0;
    while k < patterns.len()
        invariant
            k <= patterns.len(),
            all == texts(patterns@),
            forall|j: int| 0 <= j < k ==> !selects(#[trigger] all[j], referred(files@), path@),
        decreases patterns.len() - k,
    {
        if pattern_selects(patterns[k].as_str(), files, path) {
            assert(selects(all[k as int], referred(files@), path@));
            return true;
        }
        k = k + 1;
    }
    false
}

fn is_first_of_path(files: &Vec<&FileEntry>, i: usize) -> (r: bool)
    requires
        i < files.len(),
    ensures
        r == forall|j: int|
            0 <= j < i ==> (#[trigger] referred(files@)[j]).path@ != referred(files@)[i as int].path@,
{
    let mut j: usize = 0;
    while j < i
        invariant
            j <= i < files.len(),
            forall|k: int|
                0 <= k < j ==> (#[trigger] referred(files@)[k]).path@ != referred(
                    files@,
                )[i as int].path@,
        decreases i - j,
    {
        if same(files[j].path.as_str(), files[i].path.as_str()) {
            assert(referred(files@)[j as int].path@ == referred(files@)[i as int].path@);
            return false;
        }
        j = j + 1;
    }
    true
}

/// What the patterns select of an archive.
#[derive(Debug)]
pub struct Selection {
    /// The files to extract, by their place in the listing.
    pub files: Vec<usize>,
    /// The patterns that name files that are not there.
    pub missing: Vec<String>,
}

/// The entries the patterns name, in archive order and each once: every file
/// when there is no pattern; otherwise the union of the matches, an exact path
/// per wildcard-free pattern (missing ones are reported and skipped) and every
/// path a glob matches.
pub fn select(files: &Vec<&FileEntry>, patterns: &Vec<String>) -> (r: Selection)
    ensures
        r.files@.map_values(|i: usize| i as int) == chosen(
            texts(patterns@),
            referred(files@),
            files@.len(),
        ),
        texts(r.missing@) == missing(texts(patterns@), referred(files@)),
{
    let mut out: Vec<usize> = Vec::new();
    let ghost pats = texts(patterns@);
    let ghost all = referred(files@);
    let mut i: usize = 0;
    assert(out@.map_values(|i: usize| i as int) =~= Seq::<int>::empty());
    while i < files.len()
        invariant
            i <= files.len(),
            pats == texts(patterns@),
            all == referred(files@),
            out@.map_values(|i: usize| i as int) == chosen(pats, all, i as nat),
        decreases files.len() - i,
    {
        let ghost before = out@.map_values(|i: usize| i as int);
        if patterns.len() == 0 || (selected(patterns, files, files[i].path.as_str())
            && is_first_of_path(files, i)) {
            out.push(i);
            assert(out@.map_values(|i: usize| i as int) =~= before.push(i as int));
        }
        i = i + 1;
    }
    let mut lost: Vec<String> = Vec::new();
    let mut k: usize = 0;
    assert(pats.take(0) =~= Seq::empty());
    assert(texts(lost@) =~= Seq::empty());
    while k < patterns.len()
        invariant
            k <= patterns.len(),
            pats == texts(patterns@),
            all == referred(files@),
            texts(lost@) == missing(pats.take(k as int), all),
        decreases patterns.len() - k,
    {
        proof {
            assert(pats.take(k + 1).drop_last() =~= pats.take(k as int));
            assert(pats.take(k + 1).last() == patterns[k as int]@);
        }
        let pattern = patterns[k].as_str();
        if exact(pattern) {
            match find_file(files, pattern) {
                Some(j) => {
                    assert(goes_by(all[j as int], lookup_path(pattern@)));
                },
                None => {
                    let ghost before = texts(lost@);
                    lost.push(patterns[k].clone());
                    assert(texts(lost@) =~= before.push(pattern@));
                },
            }
        }
        k = k + 1;
    }
    assert(pats.take(pats.len() as int) =~= pats);
    Selection { files: out, missing: lost }
}

/// Any pattern matches the path, or there are none.
pub open spec fn is_wanted(path: Seq<char>, patterns: Seq<Seq<char>>) -> bool {
    patterns.len() == 0 || exists|k: int|
        0 <= k < patterns.len() && pattern_matches(path, #[trigger] patterns[k])
}

/// True when any pattern matches `path`, or there are none.
pub fn wanted(path: &str, patterns: &Vec<String>) -> (r: bool)
    ensures
        r == is_wanted(path@, texts(patterns@)),
{
    let ghost all = texts(patterns@);
    if patterns.len() == 0 {
        return true;
    }
    let mut k: usize = 0;
    while k < patterns.len()
        invariant
            k <= patterns.len(),
            all == texts(patterns@),
            forall|j: int| 0 <= j < k ==> !pattern_matches(path@, #[trigger] all[j]),
        decreases patterns.len() - k,
    {
        if matches_pattern(path, patterns[k].as_str()) {
            assert(pattern_matches(path@, all[k as int]));
            return true;
        }
        k = k + 1;
    }
    false
}

// ── Nested archives ─────────────────────────────────────────────────────────

/// A file of an archive, with what is inside it where it is an archive itself.
#[derive(Debug)]
pub struct Packed {
    pub name: String,
    /// The path inside its own archive.
    pub path: String,
    pub is_resource: bool,
    /// The number by which the caller finds the file.
    pub id: usize,
    pub nested: Nested,
}

/// What is inside a nested archive.
#[derive(Debug)]
pub enum Nested {
    /// Not an archive.
    Nothing,
    /// The archive cannot be read out of its parent.
    Failed(String),
    /// The archive cannot be parsed.
    Unreadable(String),
    Files(Vec<Packed>),
}

/// How much is in an archive and in those nested in it.
pub struct Counts {
    pub files: nat,
    pub resources: nat,
    pub nested: nat,
}

/// The file is a nested archive.
pub open spec fn is_archive(name: Seq<char>) -> bool {
    ".rpf"@.is_suffix_of(lowercase(name))
}

/// The files that will be written, the resources among them, and the nested
/// archives, down to the deepest level that is entered.
pub open spec fn counts(files: Seq<Packed>, depth: nat) -> Counts
    decreases files,
{
    if depth > MAX_DEPTH || files.len() == 0 {
        Counts { files: 0, resources: 0, nested: 0 }
    } else {
        let before = counts(files.drop_last(), depth);
        let file = files[files.len() - 1];
        if is_archive(file.name@) {
            match file.nested {
                Nested::Files(inner) => {
                    let more = counts(inner@, depth + 1);
                    Counts {
                        files: before.files + more.files,
                        resources: before.resources + more.resources,
                        nested: before.nested + 1 + more.nested,
                    }
                },
                _ => Counts { nested: before.nested + 1, ..before },
            }
        } else {
            Counts {
                files: before.files + 1,
                resources: before.resources + (if file.is_resource {
                    1nat
                } else {
                    0
                }),
                nested: before.nested,
            }
        }
    }
}

/// The number of files of an archive and of those nested in it.
pub open spec fn size(files: Seq<Packed>) -> nat
    decreases files,
{
    if files.len() == 0 {
        0
    } else {
        let file = files[files.len() - 1];
        size(files.drop_last()) + 1 + (match file.nested {
            Nested::Files(inner) => size(inner@),
            _ => 0,
        })
    }
}

proof fn lemma_counts_bounded(files: Seq<Packed>, depth: nat)
    ensures
        counts(files, depth).files + counts(files, depth).nested <= size(files),
        counts(files, depth).resources <= counts(files, depth).files,
    decreases files,
{
    if depth <= MAX_DEPTH && files.len() > 0 {
        lemma_counts_bounded(files.drop_last(), depth);
        let file = files[files.len() - 1];
        if let Nested::Files(inner) = file.nested {
            lemma_counts_bounded(inner@, depth + 1);
        }
    }
}

proof fn lemma_size_of_prefix(files: Seq<Packed>, i: int)
    requires
        0 <= i <= files.len(),
    ensures
        size(files.take(i)) <= size(files),
    decreases files.len() - i,
{
    if i < files.len() {
        lemma_size_of_prefix(files, i + 1);
        assert(files.take(i + 1).drop_last() =~= files.take(i));
    } else {
        assert(files.take(i) =~= files);
    }
}

/// Counts leaf files, resources and nested archives: `(leaf_files, resources,
/// nested)`, where `leaf_files` is the number that will be written.
pub fn count_recursive(files: &Vec<Packed>, depth: usize) -> (r: (usize, usize, usize))
    requires
        size(files@) <= usize::MAX,
    ensures
        r.0 == counts(files@, depth as nat).files,
        r.1 == counts(files@, depth as nat).resources,
        r.2 == counts(files@, depth as nat).nested,
    decreases files@,
{
    if depth > MAX_DEPTH {
        return (0, 0, 0);
    }
    let mut leaves: usize = 0;
    let mut resources: usize = 0;
    let mut nested: usize = 0;
    let mut i: usize = 0;
    assert(files@.take(0) =~= Seq::empty());
    while i < files.len()
        invariant
            i <= files.len(),
            depth <= MAX_DEPTH,
            size(files@) <= usize::MAX,
            leaves == counts(files@.take(i as int), depth as nat).files,
            resources == counts(files@.take(i as int), depth as nat).resources,
            nested == counts(files@.take(i as int), depth as nat).nested,
        decreases files.len() - i,
    {
        let file = &files[i];
        proof {
            let now = files@.take(i + 1);
            assert(now.drop_last() =~= files@.take(i as int));
            assert(now[i as int] == files[i as int]);
            lemma_size_of_prefix(files@, i + 1);
            lemma_counts_bounded(files@.take(i as int), depth as nat);
            lemma_counts_bounded(now, depth as nat);
            assert(decreases_to!(files@ => files@[i as int]));
        }
        if ends_with(to_lowercase(file.name.as_str()).as_str(), ".rpf") {
            nested = nested + 1;
            if let Nested::Files(inner) = &file.nested {
                assert(size(inner@) <= size(files@.take(i + 1)));
                let (f, r, n) = count_recursive(inner, depth + 1);
                leaves = leaves + f;
                resources = resources + r;
                nested = nested + n;
            }
        } else {
            leaves = leaves + 1;
            if file.is_resource {
                resources = resources + 1;
            }
        }
        i = i + 1;
    }
    assert(files@.take(files.len() as int) =~= files@);
    (leaves, resources, nested)
}

/// What is done, in order, to extract everything.
#[derive(Debug)]
pub enum Step {
    /// Read the file out of its archive and, where it is wanted, write it to
    /// `full`.
    Extract { id: usize, full: String, wanted: bool },
    /// A nested archive could not be read out of its parent.
    Failed { full: String, reason: String },
    /// A nested archive could not be parsed.
    Unreadable { full: String, reason: String },
    /// The archive at `prefix` is nested too deep to be entered.
    TooDeep { prefix: String },
}

/// A `Step` with its texts.
pub enum StepView {
    Extract { id: usize, full: Seq<char>, wanted: bool },
    Failed { full: Seq<char>, reason: Seq<char> },
    Unreadable { full: Seq<char>, reason: Seq<char> },
    TooDeep { prefix: Seq<char> },
}

impl View for Step {
    type V = StepView;

    open spec fn view(&self) -> StepView {
        match *self {
            Step::Extract { id, full, wanted } => StepView::Extract { id, full: full@, wanted },
            Step::Failed { full, reason } => StepView::Failed { full: full@, reason: reason@ },
            Step::Unreadable { full, reason } => StepView::Unreadable {
                full: full@,
                reason: reason@,
            },
            Step::TooDeep { prefix } => StepView::TooDeep { prefix: prefix@ },
        }
    }
}

/// The steps of a list, with their texts.
pub open spec fn step_views(list: Seq<Step>) -> Seq<StepView> {
    list.map_values(|s: Step| s@)
}

/// The path of a file within the whole tree: below its archive's own path.
pub open spec fn full_path(prefix: Seq<char>, path: Seq<char>) -> Seq<char> {
    if prefix.len() == 0 {
        path
    } else {
        prefix + "/"@ + path
    }
}

/// What is done, in order, to extract the files of an archive at `prefix` and
/// of those nested in it.
pub open spec fn steps(
    files: Seq<Packed>,
    prefix: Seq<char>,
    patterns: Seq<Seq<char>>,
    depth: nat,
) -> Seq<StepView>
    decreases files,
{
    if depth > MAX_DEPTH {
        seq![StepView::TooDeep { prefix }]
    } else if files.len() == 0 {
        Seq::empty()
    } else {
        let before = steps(files.drop_last(), prefix, patterns, depth);
        let file = files[files.len() - 1];
        let full = full_path(prefix, file.path@);
        if is_archive(file.name@) {
            match file.nested {
                Nested::Files(inner) => before + steps(inner@, full, patterns, depth + 1),
                Nested::Failed(reason) => before.push(StepView::Failed { full, reason: reason@ }),
                Nested::Unreadable(reason) => before.push(
                    StepView::Unreadable { full, reason: reason@ },
                ),
                Nested::Nothing => before,
            }
        } else {
            before.push(
                StepView::Extract { id: file.id, full, wanted: is_wanted(full, patterns) },
            )
        }
    }
}

fn place(prefix: &str, path: &str) -> (out: String)
    ensures
        out@ == full_path(prefix@, path@),
{
    if prefix.is_empty() {
        path.to_owned()
    } else {
        let mut out = prefix.to_owned();
        out.append("/");
        out.append(path);
        out
    }
}

/// Plans the extraction of every file of an archive, descending into nested
/// ones. `prefix` is the path of this archive within the parent tree (empty
/// for the root).
pub fn extract_recursive(
    files: &Vec<Packed>,
    prefix: &str,
    patterns: &Vec<String>,
    depth: usize,
    out: &mut Vec<Step>,
)
    ensures
        step_views(final(out)@) == step_views(old(out)@) + steps(
            files@,
            prefix@,
            texts(patterns@),
            depth as nat,
        ),
    decreases files@,
{
    let ghost pats = texts(patterns@);
    if depth > MAX_DEPTH {
        let ghost before = step_views(out@);
        out.push(Step::TooDeep { prefix: prefix.to_owned() });
        assert(step_views(out@) =~= before + seq![StepView::TooDeep { prefix: prefix@ }]);
        return;
    }
    let mut i: usize = 0;
    assert(files@.take(0) =~= Seq::empty());
    assert(step_views(out@) =~= step_views(old(out)@) + steps(
        files@.take(0),
        prefix@,
        pats,
        depth as nat,
    ));
    while i < files.len()
        invariant
            i <= files.len(),
            depth <= MAX_DEPTH,
            pats == texts(patterns@),
            step_views(out@) == step_views(old(out)@) + steps(
                files@.take(i as int),
                prefix@,
                pats,
                depth as nat,
            ),
        decreases files.len() - i,
    {
        let file = &files[i];
        let ghost had = step_views(old(out)@);
        let ghost before = steps(files@.take(i as int), prefix@, pats, depth as nat);
        let ghost now = files@.take(i + 1);
        proof {
            assert(now.drop_last() =~= files@.take(i as int));
            assert(now[i as int] == files[i as int]);
            assert(decreases_to!(files@ => files@[i as int]));
        }
        let full = place(prefix, file.path.as_str());
        if ends_with(to_lowercase(file.name.as_str()).as_str(), ".rpf") {
            match &file.nested {
                Nested::Files(inner) => {
                    extract_recursive(inner, full.as_str(), patterns, depth + 1, out);
                    assert(step_views(out@) =~= had + steps(now, prefix@, pats, depth as nat));
                },
                Nested::Failed(reason) => {
                    let copy = reason.clone();
                    let ghost done = StepView::Failed { full: full@, reason: reason@ };
                    let ghost so_far = step_views(out@);
                    out.push(Step::Failed { full, reason: copy });
                    assert(step_views(out@) =~= so_far.push(done));
                    assert(step_views(out@) =~= had + steps(now, prefix@, pats, depth as nat));
                },
                Nested::Unreadable(reason) => {
                    let copy = reason.clone();
                    let ghost done = StepView::Unreadable { full: full@, reason: reason@ };
                    let ghost so_far = step_views(out@);
                    out.push(Step::Unreadable { full, reason: copy });
                    assert(step_views(out@) =~= so_far.push(done));
                    assert(step_views(out@) =~= had + steps(now, prefix@, pats, depth as nat));
                },
                Nested::Nothing => {},
            }
        } else {
            let want: bool = wanted(full.as_str(), patterns);
            let ghost done = StepView::Extract { id: file.id, full: full@, wanted: want };
            let ghost so_far = step_views(out@);
            out.push(Step::Extract { id: file.id, full, wanted: want });
            assert(step_views(out@) =~= so_far.push(done));
            assert(step_views(out@) =~= had + steps(now, prefix@, pats, depth as nat));
        }
        i = i + 1;
    }
    assert(files@.take(files.len() as int) =~= files@);
}

// ── What is printed ─────────────────────────────────────────────────────────

/// What is said of an archive before it is extracted.
pub fn contents_line(entries: usize, dirs: usize) -> (out: String)
    requires
        dirs <= entries,
    ensures
        out@ == "Archive contains "@ + decimal(entries as nat) + " entries ("@ + decimal(dirs as nat)
            + " dirs, "@ + decimal((entries - dirs) as nat) + " files)"@,
{
    let mut out = String::from_str("Archive contains ");
    out.append(decimal_of(entries as u64).as_str());
    out.append(" entries (");
    out.append(decimal_of(dirs as u64).as_str());
    out.append(" dirs, ");
    out.append(decimal_of((entries - dirs) as u64).as_str());
    out.append(" files)");
    out
}

// ── Laws ────────────────────────────────────────────────────────────────────

/// The number of files that some steps extract.
pub open spec fn extractions(list: Seq<StepView>) -> nat
    decreases list.len(),
{
    if list.len() == 0 {
        0
    } else {
        extractions(list.drop_last()) + (if list.last() is Extract {
            1nat
        } else {
            0
        })
    }
}

/// Every file that some steps extract is also written.
pub open spec fn all_wanted(list: Seq<StepView>) -> bool {
    forall|i: int|
        0 <= i < list.len() ==> (#[trigger] list[i] matches StepView::Extract { wanted, .. } ==> wanted)
}

proof fn lemma_extractions_append(a: Seq<StepView>, b: Seq<StepView>)
    ensures
        extractions(a + b) == extractions(a) + extractions(b),
    decreases b.len(),
{
    if b.len() == 0 {
        assert(a + b =~= a);
    } else {
        assert((a + b).drop_last() =~= a + b.drop_last());
        lemma_extractions_append(a, b.drop_last());
    }
}

/// The count made before an extraction is the number of files that the
/// extraction then reads, and without patterns every one of them is written.
pub proof fn law_count_is_what_is_extracted(
    files: Seq<Packed>,
    prefix: Seq<char>,
    patterns: Seq<Seq<char>>,
    depth: nat,
)
    ensures
        extractions(steps(files, prefix, patterns, depth)) == counts(files, depth).files,
        patterns.len() == 0 ==> all_wanted(steps(files, prefix, patterns, depth)),
    decreases files,
{
    if depth > MAX_DEPTH {
        let all = steps(files, prefix, patterns, depth);
        assert(all.drop_last() =~= Seq::empty());
        assert(extractions(all.drop_last()) == 0);
    } else if files.len() > 0 {
        let front = files.drop_last();
        let before = steps(front, prefix, patterns, depth);
        let file = files[files.len() - 1];
        let all = steps(files, prefix, patterns, depth);
        law_count_is_what_is_extracted(front, prefix, patterns, depth);
        let full = full_path(prefix, file.path@);
        if is_archive(file.name@) && file.nested is Files {
            let inner = file.nested->Files_0@;
            law_count_is_what_is_extracted(inner, full, patterns, depth + 1);
            lemma_extractions_append(before, steps(inner, full, patterns, depth + 1));
            assert(all =~= before + steps(inner, full, patterns, depth + 1));
        } else if all.len() > before.len() {
            assert(all.drop_last() =~= before);
            assert(extractions(all) == extractions(before) + (if all.last() is Extract {
                1nat
            } else {
                0
            }));
        }
    }
}

/// Naming the same file twice, or by two patterns, extracts it once: the files
/// that are chosen ascend in archive order, so none comes twice.
pub proof fn law_each_file_once(patterns: Seq<Seq<char>>, files: Seq<FileEntry>, n: nat)
    requires
        n <= files.len(),
    ensures
        forall|a: int| 0 <= a < chosen(patterns, files, n).len() ==> 0 <= #[trigger] chosen(
            patterns,
            files,
            n,
        )[a] < n,
        forall|a: int, b: int|
            0 <= a < b < chosen(patterns, files, n).len() ==> #[trigger] chosen(patterns, files, n)[a]
                < #[trigger] chosen(patterns, files, n)[b],
    decreases n,
{
    if n > 0 {
        law_each_file_once(patterns, files, (n - 1) as nat);
        let before = chosen(patterns, files, (n - 1) as nat);
        let now = chosen(patterns, files, n);
        assert forall|a: int| 0 <= a < now.len() implies 0 <= #[trigger] now[a] < n by {
            if a < before.len() {
                assert(now[a] == before[a]);
            }
        }
        assert forall|a: int, b: int| 0 <= a < b < now.len() implies #[trigger] now[a]
            < #[trigger] now[b] by {
            assert(now[a] == before[a]);
            if b < before.len() {
                assert(now[b] == before[b]);
            }
        }
    }
}

} // verus!
