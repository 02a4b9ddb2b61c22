//! How deep a document nests, told from its bytes alone. Readers that go one
//! call deeper for each level are given shallow documents only.
use vstd::prelude::*;
use crate::commands::resource::container::{word, word_at};

verus! {

/// Documents that nest deeper than this are not read: the stack of a thread, of
/// two megabytes, holds the calls of the XML reader for about three hundred
/// levels.
pub const MAX_NESTING: usize = 256;

// ── XML ─────────────────────────────────────────────────────────────────────

/// Where in an XML text a byte stands.
#[derive(Debug, Clone, Copy, PartialEq, Eq, Structural)]
pub enum Mode {
    Text,
    /// Behind `<`.
    Angle,
    /// Behind `<!`.
    Bang,
    /// Behind `<!-`.
    Dash,
    /// In a comment, behind so many dashes in a row, two at most.
    Comment { dashes: u8 },
    /// In a `<![` section, behind so many brackets in a row, two at most.
    Section { brackets: u8 },
    /// In a processing instruction; right behind a question mark or not.
    Instruction { asked: bool },
    /// In a start tag.
    Tag,
    /// Behind a slash in a start tag.
    Slash,
    /// In an attribute's value, which ends with the given quote.
    Value { quote: u8 },
    /// In an end tag.
    EndTag,
    /// Behind a document type or what is no markup: nothing is read from here.
    Stopped,
}

/// How far an XML text has been looked through: where that is, how many
/// elements are open there and how many were at most.
#[derive(Debug, Clone, Copy, PartialEq, Eq, Structural)]
pub struct Scan {
    pub mode: Mode,
    pub depth: usize,
    pub deepest: usize,
}

/// One element more is open.
pub open spec fn opened(s: Scan) -> Scan {
    let depth = (s.depth + 1) as usize;
    Scan {
        mode: Mode::Text,
        depth,
        deepest: if s.deepest < depth {
            depth
        } else {
            s.deepest
        },
    }
}

/// One byte further.
pub open spec fn step(s: Scan, b: u8) -> Scan {
    match s.mode {
        Mode::Text => if b == 0x3c {
            Scan { mode: Mode::Angle, ..s }
        } else {
            s
        },
        Mode::Angle => if b == 0x21 {
            Scan { mode: Mode::Bang, ..s }
        } else if b == 0x3f {
            Scan { mode: Mode::Instruction { asked: false }, ..s }
        } else if b == 0x2f {
            Scan { mode: Mode::EndTag, ..s }
        } else if b == 0x3e {
            Scan { mode: Mode::Stopped, ..s }
        } else {
            Scan { mode: Mode::Tag, ..s }
        },
        Mode::Bang => if b == 0x2d {
            Scan { mode: Mode::Dash, ..s }
        } else if b == 0x5b {
            Scan { mode: Mode::Section { brackets: 0 }, ..s }
        } else {
            Scan { mode: Mode::Stopped, ..s }
        },
        Mode::Dash => if b == 0x2d {
            Scan { mode: Mode::Comment { dashes: 0 }, ..s }
        } else {
            Scan { mode: Mode::Stopped, ..s }
        },
        Mode::Comment { dashes } => if b == 0x3e && dashes >= 2 {
            Scan { mode: Mode::Text, ..s }
        } else if b != 0x2d {
            Scan { mode: Mode::Comment { dashes: 0 }, ..s }
        } else if dashes >= 1 {
            Scan { mode: Mode::Comment { dashes: 2 }, ..s }
        } else {
            Scan { mode: Mode::Comment { dashes: 1 }, ..s }
        },
        Mode::Section { brackets } => if b == 0x3e && brackets >= 2 {
            Scan { mode: Mode::Text, ..s }
        } else if b != 0x5d {
            Scan { mode: Mode::Section { brackets: 0 }, ..s }
        } else if brackets >= 1 {
            Scan { mode: Mode::Section { brackets: 2 }, ..s }
        } else {
            Scan { mode: Mode::Section { brackets: 1 }, ..s }
        },
        Mode::Instruction { asked } => if b == 0x3e && asked {
            Scan { mode: Mode::Text, ..s }
        } else {
            Scan { mode: Mode::Instruction { asked: b == 0x3f }, ..s }
        },
        Mode::Tag => if b == 0x3e {
            opened(s)
        } else if b == 0x2f {
            Scan { mode: Mode::Slash, ..s }
        } else if b == 0x22 || b == 0x27 {
            Scan { mode: Mode::Value { quote: b }, ..s }
        } else {
            s
        },
        Mode::Slash => if b == 0x3e {
            Scan { mode: Mode::Text, ..s }
        } else {
            Scan { mode: Mode::Stopped, ..s }
        },
        Mode::Value { quote } => if b == quote {
            Scan { mode: Mode::Tag, ..s }
        } else {
            s
        },
        Mode::EndTag => if b == 0x3e {
            Scan {
                mode: Mode::Text,
                depth: if s.depth > 0 {
                    (s.depth - 1) as usize
                } else {
                    0
                },
                ..s
            }
        } else {
            s
        },
        Mode::Stopped => s,
    }
}

/// A text that has been looked through.
pub open spec fn scanned(data: Seq<u8>) -> Scan
    decreases data.len(),
{
    if data.len() == 0 {
        Scan { mode: Mode::Text, depth: 0, deepest: 0 }
    } else {
        step(scanned(data.drop_last()), data.last())
    }
}

/// How many elements of an XML text are open at once, at most.
pub open spec fn xml_nesting(data: Seq<u8>) -> nat {
    scanned(data).deepest as nat
}

fn next(s: Scan, b: u8) -> (r: Scan)
    requires
        s.depth < usize::MAX,
    ensures
        r == step(s, b),
        r.depth <= s.depth + 1,
{
    let mode: Mode = match s.mode {
        Mode::Text => if b == 0x3c {
            Mode::Angle
        } else {
            Mode::Text
        },
        Mode::Angle => if b == 0x21 {
            Mode::Bang
        } else if b == 0x3f {
            Mode::Instruction { asked: false }
        } else if b == 0x2f {
            Mode::EndTag
        } else if b == 0x3e {
            Mode::Stopped
        } else {
            Mode::Tag
        },
        Mode::Bang => if b == 0x2d {
            Mode::Dash
        } else if b == 0x5b {
            Mode::Section { brackets: 0 }
        } else {
            Mode::Stopped
        },
        Mode::Dash => if b == 0x2d {
            Mode::Comment { dashes: 0 }
        } else {
            Mode::Stopped
        },
        Mode::Comment { dashes } => if b == 0x3e && dashes >= 2 {
            Mode::Text
        } else if b != 0x2d {
            Mode::Comment { dashes: 0 }
        } else if dashes >= 1 {
            Mode::Comment { dashes: 2 }
        } else {
            Mode::Comment { dashes: 1 }
        },
        Mode::Section { brackets } => if b == 0x3e && brackets >= 2 {
            Mode::Text
        } else if b != 0x5d {
            Mode::Section { brackets: 0 }
        } else if brackets >= 1 {
            Mode::Section { brackets: 2 }
        } else {
            Mode::Section { brackets: 1 }
        },
        Mode::Instruction { asked } => if b == 0x3e && asked {
            Mode::Text
        } else {
            Mode::Instruction { asked: b == 0x3f }
        },
        Mode::Tag => if b == 0x3e {
            let depth: usize = s.depth + 1;
            let deepest: usize = if s.deepest < depth {
                depth
            } else {
                s.deepest
            };
            return Scan { mode: Mode::Text, depth, deepest };
        } else if b == 0x2f {
            Mode::Slash
        } else if b == 0x22 || b == 0x27 {
            Mode::Value { quote: b }
        } else {
            Mode::Tag
        },
        Mode::Slash => if b == 0x3e {
            Mode::Text
        } else {
            Mode::Stopped
        },
        Mode::Value { quote } => if b == quote {
            Mode::Tag
        } else {
            Mode::Value { quote }
        },
        Mode::EndTag => if b == 0x3e {
            let depth: usize = if s.depth > 0 {
                s.depth - 1
            } else {
                0
            };
            return Scan { mode: Mode::Text, depth, deepest: s.deepest };
        } else {
            Mode::EndTag
        },
        Mode::Stopped => Mode::Stopped,
    };
    Scan { mode, depth: s.depth, deepest: s.deepest }
}

/// Counts how many elements of an XML text are open at once, at most.
pub fn count_xml_nesting(data: &[u8]) -> (r: usize)
    ensures
        r == xml_nesting(data@),
{
    let mut s = Scan { mode: Mode::Text, depth: 0, deepest: 0 };
    let mut i: usize = 0;
    assert(data@.take(0) =~= Seq::empty());
    while i < data.len()
        invariant
            i <= data.len(),
            s == scanned(data@.take(i as int)),
            s.depth <= i,
        decreases data.len() - i,
    {
        proof {
            assert(data@.take(i + 1).drop_last() =~= data@.take(i as int));
            assert(data@.take(i + 1).last() == data[i as int]);
        }
        s = next(s, data[i]);
        i = i + 1;
    }
    assert(data@.take(data.len() as int) =~= data@);
    s.deepest
}

// ── RBF ─────────────────────────────────────────────────────────────────────

/// The data is an RBF document, by its first bytes.
pub open spec fn is_rbf(data: Seq<u8>) -> bool {
    data.len() >= 4 && data[0] == 0x52 && data[1] == 0x42 && data[2] == 0x46 && data[3] == 0x30
}

/// Whether the data is an RBF document, by its first bytes.
pub fn starts_as_rbf(data: &[u8]) -> (r: bool)
    ensures
        r == is_rbf(data@),
{
    data.len() >= 4 && data[0] == 0x52 && data[1] == 0x42 && data[2] == 0x46 && data[3] == 0x30
}

/// A record of an RBF document.
#[derive(Debug, Clone, Copy, PartialEq, Eq, Structural)]
pub enum Record {
    /// None that can be read.
    Stop,
    Close { next: usize },
    Open { next: usize, names: usize },
    Value { next: usize, names: usize },
}

/// A length of 16 bits with a sign, where a negative one counts as none.
pub open spec fn short_length(data: Seq<u8>, at: int) -> int {
    if data[at + 1] >= 128 {
        0
    } else {
        data[at] + 256 * data[at + 1]
    }
}

/// A record whose payload is so many bytes from `at` on.
pub open spec fn payload(data: Seq<u8>, at: int, size: int, names: nat) -> Record {
    if at + size <= data.len() {
        Record::Value { next: (at + size) as usize, names: names as usize }
    } else {
        Record::Stop
    }
}

/// The record of the given type whose payload starts at `at`.
pub open spec fn typed_record(data: Seq<u8>, kind: u8, at: int, names: nat) -> Record {
    if kind == 0x00 {
        if at + 6 <= data.len() {
            Record::Open { next: (at + 6) as usize, names: names as usize }
        } else {
            Record::Stop
        }
    } else if kind == 0x10 || kind == 0x40 {
        payload(data, at, 4, names)
    } else if kind == 0x20 || kind == 0x30 {
        payload(data, at, 0, names)
    } else if kind == 0x50 {
        payload(data, at, 12, names)
    } else if kind == 0x60 && at + 2 <= data.len() {
        payload(data, at + 2, short_length(data, at), names)
    } else {
        Record::Stop
    }
}

/// The record at `pos`, where so many names are known: a tag and a type, with
/// the name where the tag is new, then the payload.
pub open spec fn record_at(data: Seq<u8>, pos: int, names: nat) -> Record {
    let tag = data[pos];
    if tag == 0xff {
        if pos + 2 <= data.len() && data[pos + 1] == 0xff {
            Record::Close { next: (pos + 2) as usize }
        } else {
            Record::Stop
        }
    } else if tag == 0xfd {
        if pos + 6 <= data.len() && data[pos + 1] == 0xff {
            payload(data, pos + 6, word(data, pos + 2) as int, names)
        } else {
            Record::Stop
        }
    } else if pos + 2 > data.len() || tag > names {
        Record::Stop
    } else if tag < names {
        typed_record(data, data[pos + 1], pos + 2, names)
    } else if pos + 4 > data.len() || pos + 4 + short_length(data, pos + 2) > data.len() {
        Record::Stop
    } else {
        typed_record(
            data,
            data[pos + 1],
            pos + 4 + short_length(data, pos + 2),
            names + 1,
        )
    }
}

/// How many structures of an RBF document are open at once, at most, from
/// `pos` on, where so many names are known and so many structures are open.
pub open spec fn nesting_from(data: Seq<u8>, pos: int, names: nat, depth: nat) -> nat
    decreases data.len() - pos,
{
    if !(0 <= pos < data.len() <= usize::MAX) {
        depth
    } else {
        match record_at(data, pos, names) {
            Record::Stop => depth,
            Record::Close { next } => if depth <= 1 || next <= pos {
                depth
            } else {
                let rest = nesting_from(data, next as int, names, (depth - 1) as nat);
                if rest > depth {
                    rest
                } else {
                    depth
                }
            },
            Record::Open { next, names } => if next <= pos {
                depth
            } else {
                nesting_from(data, next as int, names as nat, depth + 1)
            },
            Record::Value { next, names } => if next <= pos {
                depth
            } else {
                nesting_from(data, next as int, names as nat, depth)
            },
        }
    }
}

/// How many structures of an RBF document are open at once, at most.
pub open spec fn rbf_nesting(data: Seq<u8>) -> nat {
    nesting_from(data, 4, 0, 0)
}

fn read_short(data: &[u8], at: usize) -> (r: usize)
    requires
        at + 2 <= data.len(),
    ensures
        r == short_length(data@, at as int),
        r < 0x8000,
{
    if data[at + 1] >= 128 {
        0
    } else {
        data[at] as usize + 256 * (data[at + 1] as usize)
    }
}

fn read_payload(data: &[u8], at: usize, size: usize, names: usize) -> (r: Record)
    requires
        at <= data.len(),
    ensures
        r == payload(data@, at as int, size as int, names as nat),
{
    if size <= data.len() - at {
        Record::Value { next: at + size, names }
    } else {
        Record::Stop
    }
}

fn read_typed(data: &[u8], kind: u8, at: usize, names: usize) -> (r: Record)
    requires
        at <= data.len(),
    ensures
        r == typed_record(data@, kind, at as int, names as nat),
{
    let left: usize = data.len() - at;
    if kind == 0x00 {
        if left >= 6 {
            Record::Open { next: at + 6, names }
        } else {
            Record::Stop
        }
    } else if kind == 0x10 || kind == 0x40 {
        read_payload(data, at, 4, names)
    } else if kind == 0x20 || kind == 0x30 {
        read_payload(data, at, 0, names)
    } else if kind == 0x50 {
        read_payload(data, at, 12, names)
    } else if kind == 0x60 && left >= 2 {
        read_payload(data, at + 2, read_short(data, at), names)
    } else {
        Record::Stop
    }
}

fn read_record(data: &[u8], pos: usize, names: usize) -> (r: Record)
    requires
        pos < data.len(),
        names < usize::MAX,
    ensures
        r == record_at(data@, pos as int, names as nat),
{
    let tag: u8 = data[pos];
    let left: usize = data.len() - pos;
    if tag == 0xff {
        if left >= 2 && data[pos + 1] == 0xff {
            Record::Close { next: pos + 2 }
        } else {
            Record::Stop
        }
    } else if tag == 0xfd {
        if left >= 6 && data[pos + 1] == 0xff {
            let size: u32 = word_at(data, pos + 2);
            read_payload(data, pos + 6, size as usize, names)
        } else {
            Record::Stop
        }
    } else if left < 2 || tag as usize > names {
        Record::Stop
    } else if (tag as usize) < names {
        read_typed(data, data[pos + 1], pos + 2, names)
    } else if left < 4 {
        Record::Stop
    } else {
        let size: usize = read_short(data, pos + 2);
        if size > left - 4 {
            Record::Stop
        } else {
            read_typed(data, data[pos + 1], pos + 4 + size, names + 1)
        }
    }
}

proof fn lemma_names(data: Seq<u8>, pos: int, names: nat)
    requires
        0 <= pos < data.len() <= usize::MAX,
        names <= 256,
    ensures
        match record_at(data, pos, names) {
            Record::Open { next, names } => names <= 256 && pos < next <= data.len(),
            Record::Value { next, names } => names <= 256 && pos < next <= data.len(),
            Record::Close { next } => pos < next <= data.len(),
            Record::Stop => true,
        },
{
}

/// Counts how many structures of an RBF document are open at once, at most.
pub fn count_rbf_nesting(data: &[u8]) -> (r: usize)
    ensures
        r == rbf_nesting(data@),
{
    let mut pos: usize = 4;
    let mut names: usize = 0;
    let mut depth: usize = 0;
    let mut deepest: usize = 0;
    while pos < data.len()
        invariant
            names <= 256,
            depth <= pos,
            deepest <= data.len(),
            ({
                let rest = nesting_from(data@, pos as int, names as nat, depth as nat);
                rbf_nesting(data@) == (if rest > deepest {
                    rest
                } else {
                    deepest as nat
                })
            }),
        ensures
            rbf_nesting(data@) == (if depth > deepest {
                depth
            } else {
                deepest
            }),
        decreases data.len() - pos,
    {
        proof {
            lemma_names(data@, pos as int, names as nat);
        }
        match read_record(data, pos, names) {
            Record::Stop => {
                break;
            },
            Record::Close { next } => {
                if depth <= 1 {
                    break;
                }
                if depth > deepest {
                    deepest = depth;
                }
                depth = depth - 1;
                pos = next;
            },
            Record::Open { next, names: known } => {
                depth = depth + 1;
                names = known;
                pos = next;
            },
            Record::Value { next, names: known } => {
                names = known;
                pos = next;
            },
        }
    }
    if depth > deepest {
        depth
    } else {
        deepest
    }
}

} // verus!
