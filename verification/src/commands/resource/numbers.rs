//! Numbers and points that arrive as text, already rounded for display.
use vstd::prelude::*;
use vstd::string::*;

verus! {

/// A fractional number as it is shown, and as JSON writes it.
#[derive(Debug, Clone, PartialEq, Eq)]
pub struct Number {
    pub shown: String,
    pub json: String,
}

/// A point in space.
#[derive(Debug, Clone, PartialEq, Eq)]
pub struct Point {
    pub x: Number,
    pub y: Number,
    pub z: Number,
}

/// A box.
#[derive(Debug, Clone, PartialEq, Eq)]
pub struct Extents {
    pub min: Point,
    pub max: Point,
}

impl Number {
    /// The texts.
    pub open spec fn texts(self) -> (Seq<char>, Seq<char>) {
        (self.shown@, self.json@)
    }

    /// A copy of this number.
    pub fn copy(&self) -> (out: Number)
        ensures
            out.texts() == self.texts(),
    {
        Number { shown: self.shown.clone(), json: self.json.clone() }
    }
}

impl Point {
    /// The texts of the coordinates.
    pub open spec fn texts(self) -> Seq<(Seq<char>, Seq<char>)> {
        seq![self.x.texts(), self.y.texts(), self.z.texts()]
    }

    /// A copy of this point.
    pub fn copy(&self) -> (out: Point)
        ensures
            out.texts() == self.texts(),
    {
        let out = Point { x: self.x.copy(), y: self.y.copy(), z: self.z.copy() };
        assert(out.texts() =~= self.texts());
        out
    }

    /// The coordinates in parentheses.
    pub open spec fn text(self) -> Seq<char> {
        "("@ + self.x.shown@ + ", "@ + self.y.shown@ + ", "@ + self.z.shown@ + ")"@
    }

    /// The coordinates in parentheses.
    pub fn show(&self) -> (out: String)
        ensures
            out@ == self.text(),
    {
        let mut out = String::from_str("(");
        out.append(self.x.shown.as_str());
        out.append(", ");
        out.append(self.y.shown.as_str());
        out.append(", ");
        out.append(self.z.shown.as_str());
        out.append(")");
        out
    }

    /// The coordinates as a JSON array.
    pub open spec fn as_json(self) -> Seq<char> {
        "["@ + self.x.json@ + ","@ + self.y.json@ + ","@ + self.z.json@ + "]"@
    }

    /// The coordinates as a JSON array.
    pub fn json(&self) -> (out: String)
        ensures
            out@ == self.as_json(),
    {
        let mut out = String::from_str("[");
        out.append(self.x.json.as_str());
        out.append(",");
        out.append(self.y.json.as_str());
        out.append(",");
        out.append(self.z.json.as_str());
        out.append("]");
        out
    }
}

impl Extents {
    /// The texts of the corners.
    pub open spec fn texts(self) -> (Seq<(Seq<char>, Seq<char>)>, Seq<(Seq<char>, Seq<char>)>) {
        (self.min.texts(), self.max.texts())
    }

    /// A copy of this box.
    pub fn copy(&self) -> (out: Extents)
        ensures
            out.texts() == self.texts(),
    {
        Extents { min: self.min.copy(), max: self.max.copy() }
    }

    /// The corners, `min..max`.
    pub open spec fn text(self) -> Seq<char> {
        self.min.text() + ".."@ + self.max.text()
    }

    /// The corners, `min..max`.
    pub fn show(&self) -> (out: String)
        ensures
            out@ == self.text(),
    {
        let mut out = self.min.show();
        out.append("..");
        out.append(self.max.show().as_str());
        out
    }

    /// The corners as a JSON array.
    pub open spec fn as_json(self) -> Seq<char> {
        "["@ + self.min.as_json() + ","@ + self.max.as_json() + "]"@
    }

    /// The corners as a JSON array.
    pub fn json(&self) -> (out: String)
        ensures
            out@ == self.as_json(),
    {
        let mut out = String::from_str("[");
        out.append(self.min.json().as_str());
        out.append(",");
        out.append(self.max.json().as_str());
        out.append("]");
        out
    }
}

/// How many of `len` items are shown under a limit, where 0 is no limit.
pub open spec fn shown_count(len: nat, limit: nat) -> nat {
    if limit == 0 || limit > len {
        len
    } else {
        limit
    }
}

/// How many of `len` items are shown under a limit, where 0 is no limit.
pub fn count_shown(len: usize, limit: usize) -> (r: usize)
    ensures
        r == shown_count(len as nat, limit as nat),
        r <= len,
{
    if limit == 0 || limit > len {
        len
    } else {
        limit
    }
}

} // verus!
