//! Turning `rage plot`'s free-form inputs (loose files, a FiveM resource
//! folder, or an archetype name) into the pieces a plan is drawn from: what
//! is read, in which order, and what is left out.
use std::collections::HashMap;
use vstd::hash_set::StringHashSet;
use vstd::prelude::*;
use vstd::string::*;
use crate::commands::resource::container::{word, word_at, FXAP_MAGIC};
use crate::file_names::{extension, extension_of};
use crate::hash::{joaat, rage_joaat};
use crate::index::model::{location_list, EntryLoc, GameIndex};
use crate::text::{
    ascii_lowercase, contains, decimal, decimal_of, has_text, lowercase, number, number_of, same,
    strip_prefix, texts, to_ascii_lowercase, to_lowercase,
};

verus! {

/// A folder is drawn whole only while it holds fewer drawables than this; at
/// this many it is a whole resource's art, and the caller is asked to name the
/// ones worth drawing instead of waiting for all of them to be parsed.
pub const MAX_FOLDER_DRAWABLES: usize = 200;

/// Whether a folder's drawable count is past the limit. The limit itself is
/// already too many.
pub fn too_many_drawables(drawables: usize) -> (r: bool)
    ensures
        r <==> drawables >= MAX_FOLDER_DRAWABLES,
{
    drawables >= MAX_FOLDER_DRAWABLES
}

// ── What was given ──────────────────────────────────────────────────────────

/// Files named with a `--ymap`/`--ytyp`/`--ybn`/`--ydr` flag. The extension
/// still decides what a file is; what the flag adds is the caller's word that
/// it belongs to the interior, so `--ybn`/`--ydr` files are placed by the
/// .ymap whatever they are called.
#[derive(Debug)]
pub struct Explicit {
    pub ymap: Vec<String>,
    pub ytyp: Vec<String>,
    pub ybn: Vec<String>,
    pub ydr: Vec<String>,
}

impl Default for Explicit {
    fn default() -> (r: Explicit)
        ensures
            r.ymap.len() == 0,
            r.ytyp.len() == 0,
            r.ybn.len() == 0,
            r.ydr.len() == 0,
    {
        Explicit { ymap: Vec::new(), ytyp: Vec::new(), ybn: Vec::new(), ydr: Vec::new() }
    }
}

/// An input, with what the file system says of it.
#[derive(Debug)]
pub struct Input {
    pub text: String,
    pub is_dir: bool,
    pub is_file: bool,
    /// The last component of the path, if it has one.
    pub file_name: Option<String>,
}

/// What an input turned out to be.
#[derive(Debug, Clone, Copy, PartialEq, Eq, Structural)]
pub enum InputKind {
    Folder,
    File,
    /// Meant as a path, but nothing is there.
    Missing,
    Archetype,
}

/// An input reads as a path rather than an archetype name: it has a separator,
/// or the extension of a file that can be drawn.
pub open spec fn reads_as_path(input: Seq<char>) -> bool {
    let ext = ascii_lowercase(extension(input));
    has_text(input, "/"@) || has_text(input, "\\"@) || kind_of_extension(ext) is Some
}

/// The kinds of files that can be drawn.
#[derive(Debug, Clone, Copy, PartialEq, Eq, Structural)]
pub enum FileKind {
    Ynv,
    Ybn,
    Ymap,
    Ytyp,
    Ydr,
    Ydd,
}

/// What a file of the given extension is, if it can be drawn.
pub open spec fn kind_of_extension(ext: Seq<char>) -> Option<FileKind> {
    if ext == "ynv"@ {
        Some(FileKind::Ynv)
    } else if ext == "ybn"@ {
        Some(FileKind::Ybn)
    } else if ext == "ymap"@ {
        Some(FileKind::Ymap)
    } else if ext == "ytyp"@ {
        Some(FileKind::Ytyp)
    } else if ext == "ydr"@ {
        Some(FileKind::Ydr)
    } else if ext == "ydd"@ {
        Some(FileKind::Ydd)
    } else {
        None
    }
}

fn drawn_as(ext: &str) -> (r: Option<FileKind>)
    ensures
        r == kind_of_extension(ext@),
{
    if same(ext, "ynv") {
        Some(FileKind::Ynv)
    } else if same(ext, "ybn") {
        Some(FileKind::Ybn)
    } else if same(ext, "ymap") {
        Some(FileKind::Ymap)
    } else if same(ext, "ytyp") {
        Some(FileKind::Ytyp)
    } else if same(ext, "ydr") {
        Some(FileKind::Ydr)
    } else if same(ext, "ydd") {
        Some(FileKind::Ydd)
    } else {
        None
    }
}

/// True when an input reads as a path rather than an archetype name. A
/// mistyped file name would otherwise be taken for a vanilla interior and cost
/// a full index build before failing with the wrong complaint.
pub fn looks_like_a_path(input: &str) -> (r: bool)
    ensures
        r == reads_as_path(input@),
{
    if contains(input, "/") || contains(input, "\\") {
        return true;
    }
    let ext = to_ascii_lowercase(extension_of(input).as_str());
    drawn_as(ext.as_str()).is_some()
}

/// What an input is.
pub open spec fn input_kind(input: Input) -> InputKind {
    if input.is_dir {
        InputKind::Folder
    } else if input.is_file {
        InputKind::File
    } else if reads_as_path(input.text@) {
        InputKind::Missing
    } else {
        InputKind::Archetype
    }
}

/// Decides what an input is.
pub fn classify(input: &Input) -> (r: InputKind)
    ensures
        r == input_kind(*input),
{
    if input.is_dir {
        InputKind::Folder
    } else if input.is_file {
        InputKind::File
    } else if looks_like_a_path(input.text.as_str()) {
        InputKind::Missing
    } else {
        InputKind::Archetype
    }
}

// ── The order of reading ────────────────────────────────────────────────────

/// One thing to be read. A file named on the command line is an error when it
/// cannot be read; a file found by walking a folder is only reported and
/// skipped.
#[derive(Debug)]
pub enum Job {
    /// `explicit` where the caller declared the file part of the interior.
    File { path: String, explicit: bool },
    Folder { path: String },
    Missing { name: String },
    Archetype { name: String },
}

/// A `Job` with its text.
pub enum JobView {
    File { path: Seq<char>, explicit: bool },
    Folder { path: Seq<char> },
    Missing { name: Seq<char> },
    Archetype { name: Seq<char> },
}

impl View for Job {
    type V = JobView;

    open spec fn view(&self) -> JobView {
        match *self {
            Job::File { path, explicit } => JobView::File { path: path@, explicit },
            Job::Folder { path } => JobView::Folder { path: path@ },
            Job::Missing { name } => JobView::Missing { name: name@ },
            Job::Archetype { name } => JobView::Archetype { name: name@ },
        }
    }
}

/// The jobs of a list, with their texts.
pub open spec fn job_views(list: Seq<Job>) -> Seq<JobView> {
    list.map_values(|j: Job| j@)
}

/// The jobs for files that were flagged.
pub open spec fn flagged_jobs(paths: Seq<Seq<char>>, explicit: bool) -> Seq<JobView> {
    paths.map_values(|p: Seq<char>| JobView::File { path: p, explicit })
}

/// The job for an input.
pub open spec fn input_job(input: Input) -> JobView {
    match input_kind(input) {
        InputKind::Folder => JobView::Folder { path: input.text@ },
        InputKind::File => JobView::File { path: input.text@, explicit: false },
        InputKind::Missing => JobView::Missing { name: input.text@ },
        InputKind::Archetype => JobView::Archetype { name: input.text@ },
    }
}

/// Everything that is read, in order: the flagged files first, so that each
/// claims its path (the same file reached again through a folder or an input
/// is then left alone, rather than drawn twice), then the inputs.
pub open spec fn all_jobs(inputs: Seq<Input>, explicit: Explicit) -> Seq<JobView> {
    flagged_jobs(texts(explicit.ybn@), true) + flagged_jobs(texts(explicit.ydr@), true) + flagged_jobs(
        texts(explicit.ymap@),
        false,
    ) + flagged_jobs(texts(explicit.ytyp@), false) + inputs.map_values(|i: Input| input_job(i))
}

/// What the plan is of: the first input's file or folder name.
pub open spec fn plan_label(inputs: Seq<Input>) -> Seq<char> {
    if inputs.len() == 0 {
        Seq::empty()
    } else {
        let first = inputs[0];
        match (input_kind(first), first.file_name) {
            (InputKind::Folder, Some(name)) => name@,
            (InputKind::File, Some(name)) => name@,
            _ => first.text@,
        }
    }
}

fn add_flagged(paths: &Vec<String>, explicit: bool, out: &mut Vec<Job>)
    ensures
        job_views(final(out)@) == job_views(old(out)@) + flagged_jobs(texts(paths@), explicit),
{
    let ghost want = flagged_jobs(texts(paths@), explicit);
    let ghost had = job_views(out@);
    let mut i: usize = 0;
    assert(had + want.take(0) =~= had);
    while i < paths.len()
        invariant
            i <= paths.len(),
            want == flagged_jobs(texts(paths@), explicit),
            job_views(out@) == had + want.take(i as int),
        decreases paths.len() - i,
    {
        let path = paths[i].clone();
        let ghost next = JobView::File { path: path@, explicit };
        let ghost so_far = job_views(out@);
        out.push(Job::File { path, explicit });
        proof {
            assert(job_views(out@) =~= so_far.push(next));
            assert(want.take(i + 1) =~= want.take(i as int).push(want[i as int]));
            assert(job_views(out@) =~= had + want.take(i + 1));
        }
        i = i + 1;
    }
    assert(want.take(paths.len() as int) =~= want);
}

fn add_input(input: &Input, out: &mut Vec<Job>)
    ensures
        job_views(final(out)@) == job_views(old(out)@).push(input_job(*input)),
{
    let text = input.text.clone();
    let job = match classify(input) {
        InputKind::Folder => Job::Folder { path: text },
        InputKind::File => Job::File { path: text, explicit: false },
        InputKind::Missing => Job::Missing { name: text },
        InputKind::Archetype => Job::Archetype { name: text },
    };
    out.push(job);
    assert(job_views(out@) =~= job_views(old(out)@).push(input_job(*input)));
}

/// Decides what is read, in which order, and what the plan is called.
pub fn resolve(inputs: &Vec<Input>, explicit: &Explicit) -> (r: (String, Vec<Job>))
    ensures
        r.0@ == plan_label(inputs@),
        job_views(r.1@) == all_jobs(inputs@, *explicit),
{
    let mut label = String::new();
    if inputs.len() > 0 {
        let first = &inputs[0];
        label = first.text.clone();
        match (classify(first), &first.file_name) {
            (InputKind::Folder, Some(name)) => {
                label = name.clone();
            },
            (InputKind::File, Some(name)) => {
                label = name.clone();
            },
            _ => {},
        }
    }
    assert(label@ =~= plan_label(inputs@));
    let mut jobs: Vec<Job> = Vec::new();
    assert(job_views(jobs@) =~= Seq::empty());
    add_flagged(&explicit.ybn, true, &mut jobs);
    add_flagged(&explicit.ydr, true, &mut jobs);
    add_flagged(&explicit.ymap, false, &mut jobs);
    add_flagged(&explicit.ytyp, false, &mut jobs);
    let ghost flagged = job_views(jobs@);
    let ghost want = inputs@.map_values(|i: Input| input_job(i));
    let mut i: usize = 0;
    assert(flagged + want.take(0) =~= flagged);
    while i < inputs.len()
        invariant
            i <= inputs.len(),
            want == inputs@.map_values(|i: Input| input_job(i)),
            job_views(jobs@) == flagged + want.take(i as int),
        decreases inputs.len() - i,
    {
        add_input(&inputs[i], &mut jobs);
        proof {
            assert(want.take(i + 1) =~= want.take(i as int).push(want[i as int]));
            assert(job_views(jobs@) =~= flagged + want.take(i + 1));
        }
        i = i + 1;
    }
    assert(want.take(inputs.len() as int) =~= want);
    assert(job_views(jobs@) =~= all_jobs(inputs@, *explicit));
    (label, jobs)
}

// ── Skipped files ───────────────────────────────────────────────────────────

/// Why a file contributed nothing.
#[derive(Debug, Clone, Copy, PartialEq, Eq, Structural)]
pub enum SkipReason {
    /// Wrapped in FiveM's escrow container: the geometry is not readable.
    Escrow,
    /// Could not be read or parsed.
    Unreadable,
}

/// One file that was left out of the plan. Only the counts reach the page, so
/// what is kept is what the grouping needs.
#[derive(Debug)]
pub struct Skipped {
    /// The folder it was found in, when it came from a folder walk; the report
    /// groups by this so a resource with 140 escrowed props costs one line,
    /// not 140.
    pub folder: Option<String>,
    pub reason: SkipReason,
}

/// A `Skipped` with its text.
pub struct SkippedView {
    pub folder: Option<Seq<char>>,
    pub reason: SkipReason,
}

impl View for Skipped {
    type V = SkippedView;

    open spec fn view(&self) -> SkippedView {
        SkippedView {
            folder: match self.folder {
                Some(f) => Some(f@),
                None => None,
            },
            reason: self.reason,
        }
    }
}

impl Skipped {
    /// A file named directly (not found by walking), which was already
    /// reported on its own line.
    pub fn unreadable() -> (r: Skipped)
        ensures
            r@ == (SkippedView { folder: None, reason: SkipReason::Unreadable }),
    {
        Skipped { folder: None, reason: SkipReason::Unreadable }
    }
}

/// The files of a list, with their texts.
pub open spec fn skipped_views(list: Seq<Skipped>) -> Seq<SkippedView> {
    list.map_values(|s: Skipped| s@)
}

/// How many files of a folder were left out for one reason.
#[derive(Debug)]
pub struct SkipGroup {
    pub folder: String,
    pub reason: SkipReason,
    pub count: usize,
}

/// A `SkipGroup` with its text.
pub struct GroupView {
    pub folder: Seq<char>,
    pub reason: SkipReason,
    pub count: nat,
}

impl View for SkipGroup {
    type V = GroupView;

    open spec fn view(&self) -> GroupView {
        GroupView { folder: self.folder@, reason: self.reason, count: self.count as nat }
    }
}

/// The groups of a list, with their texts.
pub open spec fn group_views(list: Seq<SkipGroup>) -> Seq<GroupView> {
    list.map_values(|g: SkipGroup| g@)
}

/// The folder a file is reported under.
pub open spec fn folder_text(s: SkippedView) -> Seq<char> {
    match s.folder {
        Some(f) => f,
        None => Seq::empty(),
    }
}

/// The place of the group for a folder and a reason, the number of groups if
/// there is none.
pub open spec fn group_place(groups: Seq<GroupView>, folder: Seq<char>, reason: SkipReason) -> int
    decreases groups.len(),
{
    if groups.len() == 0 {
        0
    } else if groups[0].folder == folder && groups[0].reason == reason {
        0
    } else {
        1 + group_place(groups.drop_first(), folder, reason)
    }
}

/// The groups with one more file counted, in a group of its own where there
/// is none for its folder and reason.
pub open spec fn with_skip(groups: Seq<GroupView>, s: SkippedView) -> Seq<GroupView> {
    let folder = folder_text(s);
    let i = group_place(groups, folder, s.reason);
    if i < groups.len() {
        groups.update(i, GroupView { count: groups[i].count + 1, ..groups[i] })
    } else {
        groups.push(GroupView { folder, reason: s.reason, count: 1 })
    }
}

/// The files that were left out, by folder and reason, in the order in which
/// each first came up.
pub open spec fn skip_groups(list: Seq<SkippedView>) -> Seq<GroupView>
    decreases list.len(),
{
    if list.len() == 0 {
        Seq::empty()
    } else {
        with_skip(skip_groups(list.drop_last()), list.last())
    }
}

proof fn lemma_group_place(groups: Seq<GroupView>, folder: Seq<char>, reason: SkipReason)
    ensures
        0 <= group_place(groups, folder, reason) <= groups.len(),
    decreases groups.len(),
{
    if groups.len() > 0 {
        lemma_group_place(groups.drop_first(), folder, reason);
    }
}

fn find_group(groups: &Vec<SkipGroup>, folder: &str, reason: SkipReason) -> (i: usize)
    ensures
        i == group_place(group_views(groups@), folder@, reason),
        i <= groups.len(),
{
    let ghost all = group_views(groups@);
    let mut i: usize = 0;
    assert(all.skip(0) =~= all);
    while i < groups.len()
        invariant
            i <= groups.len(),
            all == group_views(groups@),
            group_place(all, folder@, reason) == i + group_place(all.skip(i as int), folder@, reason),
        decreases groups.len() - i,
    {
        assert(all.skip(i as int)[0] == groups[i as int]@);
        assert(all.skip(i as int).drop_first() =~= all.skip(i + 1));
        if same(groups[i].folder.as_str(), folder) && groups[i].reason == reason {
            return i;
        }
        i = i + 1;
    }
    i
}

/// The counts of all groups together.
pub open spec fn total(groups: Seq<GroupView>) -> nat
    decreases groups.len(),
{
    if groups.len() == 0 {
        0
    } else {
        total(groups.drop_last()) + groups.last().count
    }
}

proof fn lemma_total_update(groups: Seq<GroupView>, i: int, g: GroupView)
    requires
        0 <= i < groups.len(),
    ensures
        total(groups.update(i, g)) == total(groups) - groups[i].count + g.count,
        groups[i].count <= total(groups),
    decreases groups.len(),
{
    let now = groups.update(i, g);
    if i == groups.len() - 1 {
        assert(now.drop_last() =~= groups.drop_last());
    } else {
        assert(now.drop_last() =~= groups.drop_last().update(i, g));
        lemma_total_update(groups.drop_last(), i, g);
    }
}

/// Every file that was left out is counted once.
pub proof fn law_every_skip_is_counted(list: Seq<SkippedView>)
    ensures
        total(skip_groups(list)) == list.len(),
    decreases list.len(),
{
    if list.len() > 0 {
        law_every_skip_is_counted(list.drop_last());
        let groups = skip_groups(list.drop_last());
        let s = list.last();
        let i = group_place(groups, folder_text(s), s.reason);
        lemma_group_place(groups, folder_text(s), s.reason);
        if i < groups.len() {
            lemma_total_update(
                groups,
                i,
                GroupView { count: groups[i].count + 1, ..groups[i] },
            );
        } else {
            let now = groups.push(
                GroupView { folder: folder_text(s), reason: s.reason, count: 1 },
            );
            assert(now.drop_last() =~= groups);
        }
    }
}

fn group_skips(list: &Vec<Skipped>, from: usize) -> (groups: Vec<SkipGroup>)
    requires
        from <= list.len(),
    ensures
        group_views(groups@) == skip_groups(skipped_views(list@).skip(from as int)),
{
    let ghost all = skipped_views(list@).skip(from as int);
    let mut groups: Vec<SkipGroup> = Vec::new();
    let mut i: usize = from;
    assert(all.take(0) =~= Seq::empty());
    assert(group_views(groups@) =~= Seq::empty());
    while i < list.len()
        invariant
            from <= i <= list.len(),
            all == skipped_views(list@).skip(from as int),
            group_views(groups@) == skip_groups(all.take(i - from)),
        decreases list.len() - i,
    {
        let s = &list[i];
        let ghost before = group_views(groups@);
        proof {
            assert(all.take(i + 1 - from).drop_last() =~= all.take(i - from));
            assert(all.take(i + 1 - from).last() == s@);
            law_every_skip_is_counted(all.take(i - from));
        }
        let folder = match &s.folder {
            Some(f) => f.clone(),
            None => String::new(),
        };
        assert(folder@ =~= folder_text(s@));
        let at: usize = find_group(&groups, folder.as_str(), s.reason);
        if at < groups.len() {
            proof {
                lemma_total_update(before, at as int, before[at as int]);
                assert(before[at as int] == groups[at as int]@);
            }
            let count: usize = groups[at].count;
            let reason: SkipReason = groups[at].reason;
            let ghost was = groups[at as int]@;
            groups.set(at, SkipGroup { folder, reason, count: count + 1 });
            proof {
                lemma_place_matches(before, folder_text(s@), s@.reason);
                assert(group_views(groups@) =~= before.update(
                    at as int,
                    GroupView { count: was.count + 1, ..was },
                ));
            }
        } else {
            let ghost fresh = GroupView { folder: folder@, reason: s.reason, count: 1 };
            groups.push(SkipGroup { folder, reason: s.reason, count: 1 });
            assert(group_views(groups@) =~= before.push(fresh));
        }
        i = i + 1;
    }
    assert(all.take(list.len() - from) =~= all);
    groups
}

proof fn lemma_place_matches(groups: Seq<GroupView>, folder: Seq<char>, reason: SkipReason)
    requires
        group_place(groups, folder, reason) < groups.len(),
    ensures
        0 <= group_place(groups, folder, reason),
        groups[group_place(groups, folder, reason)].folder == folder,
        groups[group_place(groups, folder, reason)].reason == reason,
    decreases groups.len(),
{
    lemma_group_place(groups, folder, reason);
    if groups.len() > 0 && !(groups[0].folder == folder && groups[0].reason == reason) {
        lemma_place_matches(groups.drop_first(), folder, reason);
    }
}

/// The line about a group.
pub open spec fn group_line(g: GroupView) -> Seq<char> {
    let files = if g.count == 1 {
        "file"@
    } else {
        "files"@
    };
    match g.reason {
        SkipReason::Escrow => "skipping "@ + decimal(g.count) + " escrow-encrypted "@ + files
            + " (FXAP) under "@ + g.folder + "; their geometry cannot be drawn"@,
        SkipReason::Unreadable => "skipping "@ + decimal(g.count) + " unreadable "@ + files
            + " under "@ + g.folder,
    }
}

fn write_group(g: &SkipGroup) -> (out: String)
    ensures
        out@ == group_line(g@),
{
    let files = if g.count == 1 {
        "file"
    } else {
        "files"
    };
    let mut out = String::from_str("skipping ");
    out.append(decimal_of(g.count as u64).as_str());
    match g.reason {
        SkipReason::Escrow => {
            out.append(" escrow-encrypted ");
            out.append(files);
            out.append(" (FXAP) under ");
            out.append(g.folder.as_str());
            out.append("; their geometry cannot be drawn");
        },
        SkipReason::Unreadable => {
            out.append(" unreadable ");
            out.append(files);
            out.append(" under ");
            out.append(g.folder.as_str());
        },
    }
    out
}

/// One line per folder and reason for the files left out from the `from`-th
/// on: a resource whose whole prop library is escrowed should cost one line,
/// not one per file.
pub fn report_skips(list: &Vec<Skipped>, from: usize) -> (out: Vec<String>)
    requires
        from <= list.len(),
    ensures
        texts(out@) == skip_groups(skipped_views(list@).skip(from as int)).map_values(
            |g: GroupView| group_line(g),
        ),
{
    let groups = group_skips(list, from);
    let ghost want = group_views(groups@).map_values(|g: GroupView| group_line(g));
    let mut out: Vec<String> = Vec::new();
    let mut i: usize = 0;
    while i < groups.len()
        invariant
            i <= groups.len(),
            out.len() == i,
            want == group_views(groups@).map_values(|g: GroupView| group_line(g)),
            forall|j: int| 0 <= j < i ==> (#[trigger] out[j])@ == want[j],
        decreases groups.len() - i,
    {
        out.push(write_group(&groups[i]));
        i = i + 1;
    }
    assert(texts(out@) =~= want);
    out
}

// ── Reading files ───────────────────────────────────────────────────────────

/// A mesh file that was read: collision or a drawable dictionary.
#[derive(Debug)]
pub struct Mesh<T> {
    /// What to call it: a file name, or the inner path of an entry inside a
    /// game archive.
    pub name: String,
    /// True when the caller named this very file with `--ybn`/`--ydr`, which
    /// says it belongs to the interior whatever it is called. Carried per
    /// entry rather than looked up by name, so a same-named file picked up by
    /// a folder walk is not mistaken for it.
    pub explicit: bool,
    pub data: T,
}

/// A file on disk, by the parts of its path.
#[derive(Debug)]
pub struct PlotFile {
    /// The path as it is shown.
    pub path: String,
    /// The last component of the path.
    pub name: String,
    pub stem: Option<String>,
    pub extension: String,
    /// The path of the folder as it is shown.
    pub folder: String,
    /// The path as the file system knows it, so the same file reached two
    /// ways is recognised as one.
    pub canonical: String,
}

/// Everything the inputs turned out to hold, in the order it was read.
pub struct PlotSources<T> {
    pub files: Vec<(FileKind, Mesh<T>)>,
    /// The hash of every file's lowercase stem with that stem: how archetype
    /// hashes in an interior get readable names.
    pub names: HashMap<u32, String>,
    /// The files that could not contribute geometry, with why.
    pub skipped: Vec<Skipped>,
    /// Anything the reader had to decide for the caller.
    pub notes: Vec<String>,
    /// The paths that were read.
    pub seen: StringHashSet,
}

/// A file that was read, with its text.
pub struct ReadView<T> {
    pub kind: FileKind,
    pub name: Seq<char>,
    pub explicit: bool,
    pub data: T,
}

/// `PlotSources` as texts.
pub struct SourcesView<T> {
    pub files: Seq<ReadView<T>>,
    pub names: Map<u32, Seq<char>>,
    pub skipped: Seq<SkippedView>,
    pub notes: Seq<Seq<char>>,
    pub seen: Set<Seq<char>>,
}

/// The files of a list, with their texts.
pub open spec fn read_views<T>(list: Seq<(FileKind, Mesh<T>)>) -> Seq<ReadView<T>> {
    list.map_values(
        |f: (FileKind, Mesh<T>)|
            ReadView { kind: f.0, name: f.1.name@, explicit: f.1.explicit, data: f.1.data },
    )
}

/// The names of a map, as texts.
pub open spec fn name_texts(m: Map<u32, String>) -> Map<u32, Seq<char>> {
    m.map_values(|s: String| s@)
}

impl<T> View for PlotSources<T> {
    type V = SourcesView<T>;

    open spec fn view(&self) -> SourcesView<T> {
        SourcesView {
            files: read_views(self.files@),
            names: name_texts(self.names@),
            skipped: skipped_views(self.skipped@),
            notes: texts(self.notes@),
            seen: self.seen@,
        }
    }
}

impl<T> SourcesView<T> {
    /// With the stem of a file remembered.
    pub open spec fn with_name(self, stem: Option<String>) -> SourcesView<T> {
        match stem {
            Some(s) => SourcesView {
                names: self.names.insert(joaat(lowercase(s@)), lowercase(s@)),
                ..self
            },
            None => self,
        }
    }

    /// With a file left out: under its folder, unless the caller named it.
    pub open spec fn with_skip(self, file: PlotFile, reason: SkipReason, strict: bool) -> SourcesView<T> {
        let folder = if strict {
            None
        } else {
            Some(file.folder@)
        };
        SourcesView { skipped: self.skipped.push(SkippedView { folder, reason }), ..self }
    }

    /// With the contents of a file.
    pub open spec fn with_file(self, kind: FileKind, name: Seq<char>, explicit: bool, data: T) -> SourcesView<
        T,
    > {
        SourcesView { files: self.files.push(ReadView { kind, name, explicit, data }), ..self }
    }
}

/// What is to be done with a file.
#[derive(Debug, PartialEq, Eq)]
pub enum Start {
    /// Nothing: it cannot be drawn. A file the caller named is reported.
    Ignore { report: Option<String> },
    /// Nothing: it was read before.
    Again,
    /// Read it and parse it as the given kind.
    Read(FileKind),
}

/// What is said of a file that cannot be drawn.
pub open spec fn ignored_text(name: Seq<char>) -> Seq<char> {
    name + ": not a file `plot` can draw (.ynv .ybn .ymap .ytyp .ydr .ydd); ignored"@
}

/// What is said of a file that the caller named and that is left out.
pub open spec fn skipping_text(name: Seq<char>, why: Seq<char>) -> Seq<char> {
    "skipping "@ + name + ": "@ + why
}

/// The escrow container's magic starts the data.
pub open spec fn is_escrowed(data: Seq<u8>) -> bool {
    data.len() >= 4 && word(data, 0) == FXAP_MAGIC
}

/// Whether the data starts with the magic of the escrow container.
fn is_fxap(data: &[u8]) -> (r: bool)
    ensures
        r == is_escrowed(data@),
{
    data.len() >= 4 && word_at(data, 0) == FXAP_MAGIC
}

/// What was left out, and what is said of it.
pub const ESCROW_REASON: &'static str =
    "FiveM escrow-encrypted (FXAP); its geometry cannot be drawn";

/// A name more, with its text.
pub proof fn lemma_name_texts_insert(m: Map<u32, String>, k: u32, s: String)
    ensures
        name_texts(m.insert(k, s)) == name_texts(m).insert(k, s@),
{
    assert(name_texts(m.insert(k, s)) =~= name_texts(m).insert(k, s@));
}

impl<T> PlotSources<T> {
    /// Nothing yet.
    pub fn new() -> (r: PlotSources<T>)
        ensures
            r@ == (SourcesView::<T> {
                files: Seq::empty(),
                names: Map::empty(),
                skipped: Seq::empty(),
                notes: Seq::empty(),
                seen: Set::empty(),
            }),
    {
        let r = PlotSources {
            files: Vec::new(),
            names: HashMap::new(),
            skipped: Vec::new(),
            notes: Vec::new(),
            seen: StringHashSet::new(),
        };
        assert(read_views(r.files@) =~= Seq::empty());
        assert(name_texts(r.names@) =~= Map::empty());
        assert(skipped_views(r.skipped@) =~= Seq::empty());
        assert(texts(r.notes@) =~= Seq::empty());
        assert(r.seen@ =~= Set::empty());
        r
    }

    /// Remembers the stem of a file as a name.
    pub fn remember_name(&mut self, file: &PlotFile)
        ensures
            final(self)@ == old(self)@.with_name(file.stem),
    {
        if let Some(s) = &file.stem {
            let stem = to_lowercase(s.as_str());
            let hash: u32 = rage_joaat(stem.as_str());
            proof {
                lemma_name_texts_insert(self.names@, hash, stem);
            }
            self.names.insert(hash, stem);
        }
    }

    /// Leaves a file out. Files the caller named are reported one by one;
    /// files found by walking are counted now and reported per folder
    /// afterwards.
    pub fn skip(&mut self, file: &PlotFile, reason: SkipReason, strict: bool, why: &str) -> (report: Option<
        String,
    >)
        ensures
            final(self)@ == old(self)@.with_skip(*file, reason, strict),
            report is Some <==> strict,
            report matches Some(line) ==> line@ == skipping_text(file.name@, why@),
    {
        let ghost before = skipped_views(self.skipped@);
        if strict {
            let mut line = String::from_str("skipping ");
            line.append(file.name.as_str());
            line.append(": ");
            line.append(why);
            self.skipped.push(Skipped { folder: None, reason });
            assert(skipped_views(self.skipped@) =~= before.push(SkippedView { folder: None, reason }));
            Some(line)
        } else {
            let folder = file.folder.clone();
            self.skipped.push(Skipped { folder: Some(folder), reason });
            assert(skipped_views(self.skipped@) =~= before.push(
                SkippedView { folder: Some(folder@), reason },
            ));
            None
        }
    }

    /// Decides whether a file is read: only one that can be drawn, and only
    /// once. `strict` is on for files the caller named.
    pub fn start_file(&mut self, file: &PlotFile, strict: bool) -> (r: Start)
        ensures
            match kind_of_extension(lowercase(file.extension@)) {
                None => {
                    &&& final(self)@ == old(self)@
                    &&& r matches Start::Ignore { report } && (report is Some <==> strict) && (
                    report matches Some(line) ==> line@ == ignored_text(file.name@))
                },
                Some(kind) => if old(self)@.seen.contains(file.canonical@) {
                    r is Again && final(self)@ == old(self)@
                } else {
                    &&& r == Start::Read(kind)
                    &&& final(self)@ == (SourcesView {
                        seen: old(self)@.seen.insert(file.canonical@),
                        ..old(self)@
                    }).with_name(file.stem)
                },
            },
    {
        let ext = to_lowercase(file.extension.as_str());
        match drawn_as(ext.as_str()) {
            None => {
                if strict {
                    let mut line = file.name.clone();
                    line.append(": not a file `plot` can draw (.ynv .ybn .ymap .ytyp .ydr .ydd); ignored");
                    Start::Ignore { report: Some(line) }
                } else {
                    Start::Ignore { report: None }
                }
            },
            Some(kind) => {
                if self.seen.contains(file.canonical.as_str()) {
                    return Start::Again;
                }
                self.seen.insert(file.canonical.clone());
                self.remember_name(file);
                Start::Read(kind)
            },
        }
    }

    /// Takes note that a file could not be read: an error when the caller
    /// named it, else one more file left out.
    pub fn read_failed(&mut self, file: &PlotFile, strict: bool, why: &str) -> (r: Result<(), String>)
        ensures
            r is Err <==> strict,
            r matches Err(e) ==> e@ == "reading "@ + file.path@ + ": "@ + why@,
            final(self)@ == (if strict {
                old(self)@
            } else {
                old(self)@.with_skip(*file, SkipReason::Unreadable, false)
            }),
    {
        if strict {
            let mut e = String::from_str("reading ");
            e.append(file.path.as_str());
            e.append(": ");
            e.append(why);
            return Err(e);
        }
        self.skip(file, SkipReason::Unreadable, false, why);
        Ok(())
    }

    /// Looks at the bytes of a file before they are parsed: an escrow
    /// container is left out, by this tool or any other.
    pub fn check_escrow(&mut self, file: &PlotFile, data: &[u8], strict: bool) -> (r: (bool, Option<String>))
        ensures
            r.0 == is_escrowed(data@),
            r.1 is Some <==> strict && r.0,
            r.1 matches Some(line) ==> line@ == skipping_text(file.name@, ESCROW_REASON@),
            final(self)@ == (if r.0 {
                old(self)@.with_skip(*file, SkipReason::Escrow, strict)
            } else {
                old(self)@
            }),
    {
        if is_fxap(data) {
            let report = self.skip(file, SkipReason::Escrow, strict, ESCROW_REASON);
            (true, report)
        } else {
            (false, None)
        }
    }

    /// Files the contents of a file under its kind. `explicit` is on for the
    /// mesh files that the caller has declared part of the interior.
    pub fn parsed(&mut self, kind: FileKind, file: &PlotFile, explicit: bool, data: T)
        ensures
            final(self)@ == old(self)@.with_file(
                kind,
                file.name@,
                explicit && (kind == FileKind::Ybn || kind == FileKind::Ydr || kind == FileKind::Ydd),
                data,
            ),
    {
        let mesh: bool = match kind {
            FileKind::Ybn | FileKind::Ydr | FileKind::Ydd => true,
            _ => false,
        };
        self.take_file(kind, file.name.as_str(), explicit && mesh, data);
    }

    /// Files the contents of a file of the given name.
    pub fn take_file(&mut self, kind: FileKind, name: &str, explicit: bool, data: T)
        ensures
            final(self)@ == old(self)@.with_file(kind, name@, explicit, data),
    {
        let ghost before = read_views(self.files@);
        self.files.push((kind, Mesh { name: name.to_owned(), explicit, data }));
        assert(read_views(self.files@) =~= before.push(
            ReadView { kind, name: name@, explicit, data },
        ));
    }

    /// Takes note that a file could not be parsed: an error when the caller
    /// named it, else one more file left out.
    pub fn parse_failed(&mut self, file: &PlotFile, strict: bool, why: &str) -> (r: Result<(), String>)
        ensures
            r is Err <==> strict,
            r matches Err(e) ==> e@ == "parsing "@ + file.path@ + ": "@ + why@,
            final(self)@ == (if strict {
                old(self)@
            } else {
                old(self)@.with_skip(*file, SkipReason::Unreadable, false)
            }),
    {
        if strict {
            let mut e = String::from_str("parsing ");
            e.append(file.path.as_str());
            e.append(": ");
            e.append(why);
            return Err(e);
        }
        self.skip(file, SkipReason::Unreadable, false, why);
        Ok(())
    }
}

impl<T> SourcesView<T> {
    /// With the inputs of a vanilla interior complete: the first of several
    /// placements is drawn, and the hash goes by the name that was given.
    pub open spec fn with_archetype(self, hash: u32, name: Seq<char>, placements: nat) -> SourcesView<T> {
        SourcesView {
            names: self.names.insert(hash, lowercase(name)),
            notes: if placements > 1 {
                self.notes.push(decimal(placements) + " placements in the game, drawing the first"@)
            } else {
                self.notes
            },
            ..self
        }
    }
}

impl<T> PlotSources<T> {
    /// Takes note that an entry of the game's archives contributes nothing;
    /// returns the line about it.
    pub fn entry_failed(&mut self, place: &str, why: &str) -> (line: String)
        ensures
            line@ == skipping_text(place@, why@),
            final(self)@ == (SourcesView {
                skipped: old(self)@.skipped.push(
                    SkippedView { folder: None, reason: SkipReason::Unreadable },
                ),
                ..old(self)@
            }),
    {
        let ghost before = skipped_views(self.skipped@);
        self.skipped.push(Skipped::unreadable());
        assert(skipped_views(self.skipped@) =~= before.push(
            SkippedView { folder: None, reason: SkipReason::Unreadable },
        ));
        let mut line = String::from_str("skipping ");
        line.append(place);
        line.append(": ");
        line.append(why);
        line
    }

    /// Takes note that a vanilla interior was read, and of how many
    /// placements of it there are.
    pub fn archetype_read(&mut self, hash: u32, name: &str, placements: usize)
        ensures
            final(self)@ == old(self)@.with_archetype(hash, name@, placements as nat),
    {
        let ghost notes = texts(self.notes@);
        if let Some(note) = placements_note(placements) {
            let ghost text = note@;
            self.notes.push(note);
            assert(texts(self.notes@) =~= notes.push(text));
        }
        let lower = to_lowercase(name);
        proof {
            lemma_name_texts_insert(self.names@, hash, lower);
        }
        self.names.insert(hash, lower);
    }
}

// ── Folders ─────────────────────────────────────────────────────────────────

/// The file holds drawables.
pub open spec fn is_drawable(file: PlotFile) -> bool {
    let ext = lowercase(file.extension@);
    ext == "ydr"@ || ext == "ydd"@
}

/// The number of files that hold drawables.
pub open spec fn drawable_count(files: Seq<PlotFile>) -> nat
    decreases files.len(),
{
    if files.len() == 0 {
        0
    } else {
        drawable_count(files.drop_last()) + (if is_drawable(files.last()) {
            1nat
        } else {
            0
        })
    }
}

/// The places of the files of a folder that are read: all, or all but the
/// drawables.
pub open spec fn read_places(files: Seq<PlotFile>, skip_drawables: bool) -> Seq<int>
    decreases files.len(),
{
    if files.len() == 0 {
        Seq::empty()
    } else {
        let before = read_places(files.drop_last(), skip_drawables);
        if skip_drawables && is_drawable(files.last()) {
            before
        } else {
            before.push(files.len() - 1)
        }
    }
}

/// What is read of a folder.
#[derive(Debug)]
pub struct FolderPlan {
    /// The files to read, by their places.
    pub read: Vec<usize>,
    /// What is said where there are too many drawables.
    pub note: Option<String>,
}

/// What is said of a folder with too many drawables.
pub open spec fn too_many_text(drawables: nat) -> Seq<char> {
    decimal(drawables)
        + " drawables in folder (200 or more are left out);              pass the ones to draw with --ydr"@
}

fn holds_drawables(file: &PlotFile) -> (r: bool)
    ensures
        r == is_drawable(*file),
{
    let ext = to_lowercase(file.extension.as_str());
    same(ext.as_str(), "ydr") || same(ext.as_str(), "ydd")
}

fn count_drawables(files: &Vec<PlotFile>) -> (n: usize)
    ensures
        n == drawable_count(files@),
{
    let mut n: usize = 0;
    let mut i: usize = 0;
    assert(files@.take(0) =~= Seq::empty());
    while i < files.len()
        invariant
            i <= files.len(),
            n == drawable_count(files@.take(i as int)),
            n <= i,
        decreases files.len() - i,
    {
        proof {
            assert(files@.take(i + 1).drop_last() =~= files@.take(i as int));
            assert(files@.take(i + 1).last() == files[i as int]);
        }
        if holds_drawables(&files[i]) {
            n = n + 1;
        }
        i = i + 1;
    }
    assert(files@.take(files.len() as int) =~= files@);
    n
}

/// The sources with the stems of some files remembered.
pub open spec fn with_stems<T>(v: SourcesView<T>, files: Seq<PlotFile>) -> SourcesView<T>
    decreases files.len(),
{
    if files.len() == 0 {
        v
    } else {
        with_stems(v, files.drop_last()).with_name(files.last().stem)
    }
}

/// Walks a FiveM resource folder: every file's stem names an archetype, and
/// every map, type and geometry file it holds joins the plan, but for the
/// drawables where there are too many.
pub fn add_folder<T>(files: &Vec<PlotFile>, src: &mut PlotSources<T>) -> (r: FolderPlan)
    ensures
        final(src)@ == with_stems(old(src)@, files@),
        r.read@.map_values(|i: usize| i as int) == read_places(
            files@,
            drawable_count(files@) >= MAX_FOLDER_DRAWABLES,
        ),
        r.note is Some <==> drawable_count(files@) >= MAX_FOLDER_DRAWABLES,
        r.note matches Some(line) ==> line@ == too_many_text(drawable_count(files@)),
{
    let drawables: usize = count_drawables(files);
    let skip: bool = too_many_drawables(drawables);
    let mut read: Vec<usize> = Vec::new();
    let mut i: usize = 0;
    assert(files@.take(0) =~= Seq::empty());
    assert(read@.map_values(|i: usize| i as int) =~= Seq::<int>::empty());
    while i < files.len()
        invariant
            i <= files.len(),
            src@ == with_stems(old(src)@, files@.take(i as int)),
            read@.map_values(|i: usize| i as int) == read_places(files@.take(i as int), skip),
        decreases files.len() - i,
    {
        let ghost before = read@.map_values(|i: usize| i as int);
        proof {
            assert(files@.take(i + 1).drop_last() =~= files@.take(i as int));
            assert(files@.take(i + 1).last() == files[i as int]);
        }
        src.remember_name(&files[i]);
        if !(skip && holds_drawables(&files[i])) {
            read.push(i);
            assert(read@.map_values(|i: usize| i as int) =~= before.push(i as int));
        }
        i = i + 1;
    }
    assert(files@.take(files.len() as int) =~= files@);
    let mut note: Option<String> = None;
    if skip {
        let mut line = decimal_of(drawables as u64);
        line.append(
            " drawables in folder (200 or more are left out);              pass the ones to draw with --ydr",
        );
        note = Some(line);
    }
    FolderPlan { read, note }
}

// ── Archetypes ──────────────────────────────────────────────────────────────

/// The hash that an archetype's name or `0x` hash stands for.
pub open spec fn archetype_hash(name: Seq<char>) -> Option<u32> {
    if "0x"@.is_prefix_of(name) || "0X"@.is_prefix_of(name) {
        match number(name.skip(2), 16, u32::MAX as nat) {
            Some(n) => Some(n as u32),
            None => None,
        }
    } else {
        Some(joaat(lowercase(name)))
    }
}

/// What is said of a hash that is none.
pub open spec fn bad_hash_text(name: Seq<char>) -> Seq<char> {
    "'"@ + name + "' is not a 32-bit hex hash"@
}

/// The hash that an archetype's name or `0x` hash stands for.
pub fn hash_of_archetype(name: &str) -> (r: Result<u32, String>)
    ensures
        match r {
            Ok(h) => archetype_hash(name@) == Some(h),
            Err(e) => archetype_hash(name@) == None::<u32> && e@ == bad_hash_text(name@),
        },
{
    proof {
        reveal_strlit("0x");
        reveal_strlit("0X");
    }
    let digits = match strip_prefix(name, "0x") {
        Some(d) => Some(d),
        None => strip_prefix(name, "0X"),
    };
    match digits {
        Some(d) => match number_of(d.as_str(), 16, u32::MAX) {
            Some(h) => Ok(h),
            None => {
                let mut e = String::from_str("'");
                e.append(name);
                e.append("' is not a 32-bit hex hash");
                Err(e)
            },
        },
        None => Ok(rage_joaat(to_lowercase(name).as_str())),
    }
}

/// Where the pieces of a vanilla interior lie.
#[derive(Debug)]
pub struct InteriorPlan {
    pub hash: u32,
    /// The type file that declares it.
    pub types: EntryLoc,
    /// The maps that place it, in scan order.
    pub maps: Vec<EntryLoc>,
    /// The collision that shares its name, if there is one.
    pub collision: Option<EntryLoc>,
}

/// Why an archetype cannot be drawn, as it is said.
pub open spec fn archetype_failure(name: Seq<char>, index: Option<GameIndex>) -> Option<Seq<char>> {
    match archetype_hash(name) {
        None => Some(bad_hash_text(name)),
        Some(hash) => match index {
            None => Some(
                "'"@ + name
                    + "' is not a file or folder; resolving a vanilla interior by name needs --exe or GTAV_PATH so the game index can be used"@,
            ),
            Some(i) => if i@.mlo_ytyp.contains_key(hash) {
                None
            } else {
                Some("no interior archetype named '"@ + name + "' in the game index"@)
            },
        },
    }
}

fn no_index_error(name: &str) -> (e: String)
    ensures
        e@ == "'"@ + name@
            + "' is not a file or folder; resolving a vanilla interior by name needs --exe or GTAV_PATH so the game index can be used"@,
{
    let mut e = String::from_str("'");
    e.append(name);
    e.append(
        "' is not a file or folder; resolving a vanilla interior by name needs --exe or GTAV_PATH so the game index can be used",
    );
    e
}

fn no_interior_error(name: &str) -> (e: String)
    ensures
        e@ == "no interior archetype named '"@ + name@ + "' in the game index"@,
{
    let mut e = String::from_str("no interior archetype named '");
    e.append(name);
    e.append("' in the game index");
    e
}

fn copy_locations(list: &Vec<EntryLoc>) -> (out: Vec<EntryLoc>)
    ensures
        location_list(out@) == location_list(list@),
{
    let mut out: Vec<EntryLoc> = Vec::new();
    let mut i: usize = 0;
    while i < list.len()
        invariant
            i <= list.len(),
            out.len() == i,
            forall|j: int| 0 <= j < i ==> (#[trigger] out[j])@ == list[j]@,
        decreases list.len() - i,
    {
        out.push(list[i].copy());
        i = i + 1;
    }
    assert(location_list(out@) =~= location_list(list@));
    out
}

/// The pieces of a vanilla interior, e.g. `v_bahama` or `0x8ae4f2c2`: the game
/// index says which type file declares it, which maps place it and whether a
/// collision shares its name.
pub fn add_archetype(name: &str, index: &Option<GameIndex>) -> (r: Result<InteriorPlan, String>)
    ensures
        match r {
            Err(e) => archetype_failure(name@, *index) == Some(e@),
            Ok(plan) => {
                let i = index->Some_0@;
                let hash = plan.hash;
                &&& archetype_failure(name@, *index) is None
                &&& archetype_hash(name@) == Some(hash)
                &&& plan.types@ == i.mlo_ytyp[hash]
                &&& location_list(plan.maps@) == (if i.mlo_instances.contains_key(hash) {
                    i.mlo_instances[hash]
                } else {
                    Seq::empty()
                })
                &&& plan.collision is Some <==> i.ybn_by_name.contains_key(hash)
                &&& plan.collision matches Some(loc) ==> loc@ == i.ybn_by_name[hash]
            },
        },
{
    let hash: u32 = match hash_of_archetype(name) {
        Ok(h) => h,
        Err(e) => {
            return Err(e);
        },
    };
    match index {
        None => Err(no_index_error(name)),
        Some(i) => match i.mlo_ytyp.get(&hash) {
            None => Err(no_interior_error(name)),
            Some(types) => {
                let maps = match i.mlo_instances.get(&hash) {
                    Some(list) => copy_locations(list),
                    None => Vec::new(),
                };
                proof {
                    if !i.mlo_instances@.contains_key(hash) {
                        assert(location_list(maps@) =~= Seq::empty());
                    }
                }
                let collision = match i.ybn_by_name.get(&hash) {
                    Some(loc) => Some(loc.copy()),
                    None => None,
                };
                Ok(InteriorPlan { hash, types: types.copy(), maps, collision })
            },
        },
    }
}

/// What is said where an interior is placed more than once.
pub fn placements_note(count: usize) -> (r: Option<String>)
    ensures
        r is Some <==> count > 1,
        r matches Some(line) ==> line@ == decimal(count as nat)
            + " placements in the game, drawing the first"@,
{
    if count > 1 {
        let mut line = decimal_of(count as u64);
        line.append(" placements in the game, drawing the first");
        Some(line)
    } else {
        None
    }
}

/// Which placements survive when those in one spot collapse to the last one:
/// a placement goes where `close[i][j]` says of some later `j` that both are
/// in the same spot.
pub open spec fn survives(close: Seq<Vec<bool>>, i: int) -> bool {
    forall|j: int| i < j < close.len() ==> !(#[trigger] close[i][j])
}

/// The number of placements among the first `n` that survive.
pub open spec fn survivors(close: Seq<Vec<bool>>, n: nat) -> nat
    decreases n,
{
    if n == 0 {
        0
    } else {
        survivors(close, (n - 1) as nat) + (if survives(close, n - 1) {
            1nat
        } else {
            0
        })
    }
}

fn stays(close: &Vec<Vec<bool>>, i: usize) -> (r: bool)
    requires
        i < close.len(),
        close[i as int].len() == close.len(),
    ensures
        r == survives(close@, i as int),
{
    let mut j: usize = i + 1;
    while j < close.len()
        invariant
            i < j <= close.len(),
            i < close.len(),
            close[i as int].len() == close.len(),
            forall|k: int| i < k < j ==> !(#[trigger] close[i as int][k]),
        decreases close.len() - j,
    {
        if close[i][j] {
            assert(close@[i as int][j as int]);
            return false;
        }
        j = j + 1;
    }
    true
}

/// Collapses placements that the game itself would only load once. A map
/// overridden by a later archive is read twice and both copies place the
/// interior in the same spot. The last in rank order wins, so what is drawn is
/// what the game would load. Says of each placement whether it is kept, and
/// how many are; `close[i][j]` says whether two placements are in the same
/// spot.
pub fn dedupe_placements(close: &Vec<Vec<bool>>) -> (r: (Vec<bool>, usize))
    requires
        forall|i: int| 0 <= i < close.len() ==> (#[trigger] close[i]).len() == close.len(),
    ensures
        r.0.len() == close.len(),
        forall|i: int| 0 <= i < close.len() ==> #[trigger] r.0[i] == survives(close@, i),
        r.1 == survivors(close@, close@.len()),
{
    let mut keep: Vec<bool> = Vec::new();
    let mut count: usize = 0;
    let mut i: usize = 0;
    while i < close.len()
        invariant
            i <= close.len(),
            keep.len() == i,
            count <= i,
            count == survivors(close@, i as nat),
            forall|i: int| 0 <= i < close.len() ==> (#[trigger] close[i]).len() == close.len(),
            forall|k: int| 0 <= k < i ==> #[trigger] keep[k] == survives(close@, k),
        decreases close.len() - i,
    {
        let stay: bool = stays(close, i);
        if stay {
            count = count + 1;
        }
        keep.push(stay);
        i = i + 1;
    }
    (keep, count)
}

// ── Laws ────────────────────────────────────────────────────────────────────

/// The last placement always survives: collapsing never empties a spot.
pub proof fn law_last_placement_survives(close: Seq<Vec<bool>>)
    requires
        close.len() > 0,
    ensures
        survives(close, close.len() - 1),
        survivors(close, close.len()) >= 1,
{
}

/// A file that was flagged is read before any input, so the input that reaches
/// it again finds it read.
pub proof fn law_flagged_files_come_first(inputs: Seq<Input>, explicit: Explicit)
    ensures
        ({
            let flagged = flagged_jobs(texts(explicit.ybn@), true) + flagged_jobs(
                texts(explicit.ydr@),
                true,
            ) + flagged_jobs(texts(explicit.ymap@), false) + flagged_jobs(
                texts(explicit.ytyp@),
                false,
            );
            all_jobs(inputs, explicit).take(flagged.len() as int) == flagged
        }),
{
    let flagged = flagged_jobs(texts(explicit.ybn@), true) + flagged_jobs(texts(explicit.ydr@), true)
        + flagged_jobs(texts(explicit.ymap@), false) + flagged_jobs(texts(explicit.ytyp@), false);
    assert(all_jobs(inputs, explicit).take(flagged.len() as int) =~= flagged);
}

/// A file that was started stays known whatever else is read, so that no file
/// joins the plan twice.
pub proof fn law_known_files_stay_known<T>(
    src: SourcesView<T>,
    canonical: Seq<char>,
    file: PlotFile,
    kind: FileKind,
    reason: SkipReason,
    flag: bool,
    data: T,
    hash: u32,
    count: nat,
)
    requires
        src.seen.contains(canonical),
    ensures
        src.with_name(file.stem).seen.contains(canonical),
        src.with_skip(file, reason, flag).seen.contains(canonical),
        src.with_file(kind, file.name@, flag, data).seen.contains(canonical),
        src.with_archetype(hash, file.name@, count).seen.contains(canonical),
{
}

} // verus!
