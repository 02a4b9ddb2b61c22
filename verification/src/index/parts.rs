//! Which parts of the index a command needs.
use vstd::prelude::*;
use vstd::string::*;
use crate::text::{join, join_with, texts};

verus! {

/// Which parts of the index a command needs. Each part is cached in a file
/// of its own, loaded only when asked for and built only when it is missing
/// or stale.
#[derive(Debug, Clone, Copy, PartialEq, Eq, Structural)]
pub struct Parts {
    /// One bit for each part.
    pub bits: u8,
}

impl Parts {
    /// No part at all.
    #[verifier::allow_in_spec]
    pub fn none() -> Parts
        returns
            (Parts { bits: 0 }),
    {
        Parts { bits: 0 }
    }

    /// `ytd_by_name`, `archetype_txd`, `resident_textures`, `parent_txds`.
    #[verifier::allow_in_spec]
    pub fn textures() -> Parts
        returns
            (Parts { bits: 1 }),
    {
        Parts { bits: 1 }
    }

    /// `mlo_ytyp`, `mlo_instances`, `ybn_by_name`.
    #[verifier::allow_in_spec]
    pub fn interiors() -> Parts
        returns
            (Parts { bits: 2 }),
    {
        Parts { bits: 2 }
    }

    /// `drawable_by_name`, `archetype_box`, `archetype_asset`.
    #[verifier::allow_in_spec]
    pub fn models() -> Parts
        returns
            (Parts { bits: 4 }),
    {
        Parts { bits: 4 }
    }

    /// Every part.
    #[verifier::allow_in_spec]
    pub fn all() -> Parts
        returns
            (Parts { bits: 7 }),
    {
        Parts { bits: 7 }
    }

    /// There are no parts but the three.
    pub open spec fn wf(self) -> bool {
        self.bits <= 7
    }

    /// One of the three parts.
    pub open spec fn is_single(self) -> bool {
        self == Parts::textures() || self == Parts::interiors() || self == Parts::models()
    }

    /// `other` is a part or several, and all of them are among these.
    pub open spec fn holds(self, other: Parts) -> bool {
        other.bits != 0 && self.bits & other.bits == other.bits
    }

    /// The single parts among these, in a fixed order.
    pub open spec fn singles(self) -> Seq<Parts> {
        (if self.holds(Parts::textures()) { seq![Parts::textures()] } else { Seq::empty() })
            + (if self.holds(Parts::interiors()) { seq![Parts::interiors()] } else { Seq::empty() })
            + (if self.holds(Parts::models()) { seq![Parts::models()] } else { Seq::empty() })
    }

    /// The name of a single part; anything else is the whole index.
    pub open spec fn title(self) -> Seq<char> {
        if self == Parts::textures() {
            "textures"@
        } else if self == Parts::interiors() {
            "interiors"@
        } else if self == Parts::models() {
            "models"@
        } else {
            "index"@
        }
    }

    pub fn contains(self, other: Parts) -> (r: bool)
        ensures
            r == self.holds(other),
    {
        other.bits != 0 && self.bits & other.bits == other.bits
    }

    pub fn is_empty(self) -> (r: bool)
        ensures
            r == (self == Parts::none()),
    {
        self.bits == 0
    }

    /// Each single part in `self`, in a fixed order.
    pub fn each(self) -> (out: Vec<Parts>)
        ensures
            out@ == self.singles(),
    {
        let mut out: Vec<Parts> = Vec::new();
        if self.contains(Parts::textures()) {
            out.push(Parts::textures());
        }
        if self.contains(Parts::interiors()) {
            out.push(Parts::interiors());
        }
        if self.contains(Parts::models()) {
            out.push(Parts::models());
        }
        assert(out@ =~= self.singles());
        out
    }

    pub fn name(self) -> (out: &'static str)
        ensures
            out@ == self.title(),
    {
        if self == Parts::textures() {
            "textures"
        } else if self == Parts::interiors() {
            "interiors"
        } else if self == Parts::models() {
            "models"
        } else {
            "index"
        }
    }

    /// The cache file a single part is stored in.
    pub fn file_name(self) -> (out: String)
        ensures
            out@ == self.title() + ".bin"@,
    {
        let mut out = String::from_str(self.name());
        out.append(".bin");
        out
    }

    /// `"textures, models"`.
    pub fn describe(self) -> (out: String)
        ensures
            out@ == join(self.singles().map_values(|p: Parts| p.title()), ", "@),
    {
        let parts = self.each();
        let mut names: Vec<String> = Vec::new();
        let mut i: usize = 0;
        while i < parts.len()
            invariant
                i <= parts.len(),
                names.len() == i,
                forall|j: int| 0 <= j < i ==> (#[trigger] names[j])@ == parts[j].title(),
            decreases parts.len() - i,
        {
            names.push(String::from_str(parts[i].name()));
            i = i + 1;
        }
        assert(texts(names@) =~= self.singles().map_values(|p: Parts| p.title()));
        join_with(&names, ", ")
    }

    /// Adds `other` to these parts.
    pub fn add(&mut self, other: Parts)
        ensures
            final(self).bits == old(self).bits | other.bits,
    {
        self.bits = self.bits | other.bits;
    }
}

impl Default for Parts {
    fn default() -> (r: Parts)
        ensures
            r == Parts::none(),
    {
        Parts::none()
    }
}

impl std::ops::BitOr for Parts {
    type Output = Parts;

    fn bitor(self, other: Parts) -> (r: Parts) {
        Parts { bits: self.bits | other.bits }
    }
}

impl vstd::std_specs::ops::BitOrSpecImpl for Parts {
    open spec fn obeys_bitor_spec() -> bool {
        true
    }

    open spec fn bitor_req(self, other: Parts) -> bool {
        true
    }

    open spec fn bitor_spec(self, other: Parts) -> Parts {
        Parts { bits: self.bits | other.bits }
    }
}

/// Some selections, joined.
pub open spec fn joined(list: Seq<Parts>) -> Parts
    decreases list.len(),
{
    if list.len() == 0 {
        Parts::none()
    } else {
        Parts { bits: joined(list.drop_last()).bits | list.last().bits }
    }
}

/// The single parts of a selection are those that it holds and no others, each
/// once, in the order of all parts; joined, they are the selection again. There
/// are none of an empty selection only, and three of the whole.
pub proof fn law_single_parts_make_up_a_selection(p: Parts)
    requires
        p.wf(),
    ensures
        joined(p.singles()) == p,
        forall|x: Parts| #[trigger] p.singles().contains(x) <==> x.is_single() && p.holds(x),
        forall|i: int, j: int|
            0 <= i < j < p.singles().len() ==> (#[trigger] p.singles()[i]).bits < (
            #[trigger] p.singles()[j]).bits,
        p.singles().len() == 0 <==> p == Parts::none(),
        Parts::all().singles() == seq![Parts::textures(), Parts::interiors(), Parts::models()],
{
    let x = p.bits;
    assert(x <= 7 ==> (if x & 1 == 1 { 1u8 } else { 0u8 }) | (if x & 2 == 2 { 2u8 } else { 0u8 }) | (
    if x & 4 == 4 { 4u8 } else { 0u8 }) == x) by (bit_vector);
    assert(7u8 & 1 == 1 && 7u8 & 2 == 2 && 7u8 & 4 == 4) by (bit_vector);
    assert(0u8 | 1 == 1 && 0u8 | 2 == 2 && 0u8 | 4 == 4 && 1u8 | 2 == 3 && 1u8 | 4 == 5 && 2u8 | 4 == 6
        && 3u8 | 4 == 7 && 1u8 | 0 == 1 && 2u8 | 0 == 2 && 3u8 | 0 == 3 && 0u8 | 0 == 0) by (bit_vector);
    let t = Parts::textures();
    let i = Parts::interiors();
    let m = Parts::models();
    let s = p.singles();
    let none: Seq<Parts> = Seq::empty();
    let first = if p.holds(t) { none.push(t) } else { none };
    let second = if p.holds(i) { first.push(i) } else { first };
    let third = if p.holds(m) { second.push(m) } else { second };
    assert(s =~= third);
    assert(Parts::all().singles() =~= seq![t, i, m]);
    lemma_joined(none, t);
    lemma_joined(first, i);
    lemma_joined(second, m);
    if p.holds(t) {
        assert(s[0] == t);
    }
    if p.holds(i) {
        assert(s[first.len() as int] == i);
    }
    if p.holds(m) {
        assert(s[second.len() as int] == m);
    }
}

proof fn lemma_joined(list: Seq<Parts>, last: Parts)
    ensures
        joined(list.push(last)) == (Parts { bits: joined(list).bits | last.bits }),
{
    assert(list.push(last).drop_last() =~= list);
}

/// Joining two selections holds exactly the single parts that either holds, and
/// no others come in.
pub proof fn law_parts_combine(a: Parts, b: Parts, single: Parts)
    requires
        single.is_single(),
    ensures
        (Parts { bits: a.bits | b.bits }).holds(single) <==> a.holds(single) || b.holds(single),
        !a.holds(Parts::none()),
        Parts::all().holds(single),
        !Parts::none().holds(single),
        a.wf() && b.wf() ==> (Parts { bits: a.bits | b.bits }).wf(),
{
    let x = a.bits;
    let y = b.bits;
    let s = single.bits;
    assert(x <= 7 && y <= 7 ==> x | y <= 7) by (bit_vector);
    assert((x | y) & s == s <==> x & s == s || y & s == s) by (bit_vector)
        requires
            s == 1 || s == 2 || s == 4,
    ;
    assert(7u8 & s == s) by (bit_vector)
        requires
            s == 1 || s == 2 || s == 4,
    ;
    assert(0u8 & s != s) by (bit_vector)
        requires
            s == 1 || s == 2 || s == 4,
    ;
}

} // verus!
