//! `rage index`: rebuilding, inspecting or clearing the cached game index by
//! hand.
use vstd::prelude::*;
use vstd::string::*;
use crate::index::lookup::LEGACY_FILE;
use crate::index::parts::Parts;
use crate::text::{decimal, decimal_of, pad_right, padded_right, texts};

verus! {

/// The arguments of `rage index`.
#[derive(Debug)]
pub struct IndexArgs {
    pub command: IndexCommand,
}

/// What `rage index` does.
#[derive(Debug, Clone, Copy, PartialEq, Eq, Structural)]
pub enum IndexCommand {
    /// Build every part of the index and write it to the cache, even if the
    /// cache is current.
    Build,
    /// Show where the cache for this game build lives and whether each part is
    /// current.
    Info,
    /// Delete the cached index for this game build.
    Clear,
}

/// What there is of a part in the cache.
#[derive(Debug)]
pub enum PartState {
    Missing,
    /// Current; holds the summary of the part.
    Current { size: u64, summary: String },
    Stale { size: u64 },
    /// From another version, or damaged.
    Unreadable { size: u64 },
}

/// What is said of a part in the cache.
pub open spec fn state_text(state: PartState) -> Seq<char> {
    match state {
        PartState::Missing => "not built (built on first use)"@,
        PartState::Current { size, summary } => decimal(size as nat) + " bytes, current: "@ + summary@,
        PartState::Stale { size } => decimal(size as nat)
            + " bytes, stale (the game's archives changed; rebuilt on next use)"@,
        PartState::Unreadable { size } => decimal(size as nat)
            + " bytes, from another version of rage (rebuilt on next use)"@,
    }
}

/// The line about a part in the cache.
pub fn part_line(part: Parts, state: &PartState) -> (out: String)
    ensures
        out@ == pad_right(part.title(), ' ', 10) + " "@ + state_text(*state),
{
    let mut text = String::new();
    match state {
        PartState::Missing => {
            text = String::from_str("not built (built on first use)");
        },
        PartState::Current { size, summary } => {
            text = decimal_of(*size);
            text.append(" bytes, current: ");
            text.append(summary.as_str());
        },
        PartState::Stale { size } => {
            text = decimal_of(*size);
            text.append(" bytes, stale (the game's archives changed; rebuilt on next use)");
        },
        PartState::Unreadable { size } => {
            text = decimal_of(*size);
            text.append(" bytes, from another version of rage (rebuilt on next use)");
        },
    }
    let mut out = padded_right(part.name(), ' ', 10);
    out.append(" ");
    out.append(text.as_str());
    out
}

/// The files that the cache may consist of: one for each part, and the single
/// file of earlier versions.
pub fn cache_files() -> (out: Vec<String>)
    ensures
        texts(out@) == Parts::all().singles().map_values(|p: Parts| p.title() + ".bin"@).push(
            LEGACY_FILE@,
        ),
{
    let parts = Parts::all().each();
    let ghost want = Parts::all().singles().map_values(|p: Parts| p.title() + ".bin"@);
    let mut out: Vec<String> = Vec::new();
    let mut i: usize = 0;
    while i < parts.len()
        invariant
            i <= parts.len(),
            out.len() == i,
            parts@ == Parts::all().singles(),
            want == Parts::all().singles().map_values(|p: Parts| p.title() + ".bin"@),
            forall|j: int| 0 <= j < i ==> (#[trigger] out[j])@ == want[j],
        decreases parts.len() - i,
    {
        out.push(parts[i].file_name());
        i = i + 1;
    }
    assert(texts(out@) =~= want);
    out.push(LEGACY_FILE.to_owned());
    assert(texts(out@) =~= want.push(LEGACY_FILE@));
    out
}

} // verus!
