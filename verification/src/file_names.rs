//! The parts of a file's name.
use vstd::prelude::*;
use vstd::string::*;
use crate::text::{chars_of, text_of};

verus! {

/// `c` parts the components of a path.
pub open spec fn is_separator(c: char) -> bool {
    c == '/' || c == '\\'
}

/// What stands behind the last separator of a path.
pub open spec fn base_name(s: Seq<char>) -> Seq<char>
    decreases s.len(),
{
    if s.len() == 0 {
        s
    } else if is_separator(s.last()) {
        Seq::empty()
    } else {
        base_name(s.drop_last()).push(s.last())
    }
}

/// What stands before the last dot of a name; the whole name where it has
/// none.
pub open spec fn before_dot(s: Seq<char>) -> Seq<char> {
    match last_dot(s) {
        Some(i) => s.take(i),
        None => s,
    }
}

/// The place of the last dot of a name.
pub open spec fn last_dot(s: Seq<char>) -> Option<int>
    decreases s.len(),
{
    if s.len() == 0 {
        None
    } else if s.last() == '.' {
        Some(s.len() - 1)
    } else {
        last_dot(s.drop_last())
    }
}

/// The name of a file without its folders and its extension.
pub open spec fn stem(s: Seq<char>) -> Seq<char> {
    before_dot(base_name(s))
}

/// The extension of a file's name, without the dot; empty where it has none.
pub open spec fn extension(s: Seq<char>) -> Seq<char> {
    let base = base_name(s);
    match last_dot(base) {
        Some(i) => base.skip(i + 1),
        None => Seq::empty(),
    }
}

/// Where the base name of a path starts.
fn base_start(v: &Vec<char>) -> (start: usize)
    ensures
        start <= v.len(),
        v@.skip(start as int) == base_name(v@),
{
    let mut i: usize = v.len();
    assert(v@.take(v.len() as int) =~= v@);
    assert(v@.skip(v.len() as int) =~= Seq::empty());
    assert(base_name(v@) + Seq::empty() =~= base_name(v@));
    while i > 0
        invariant
            i <= v.len(),
            base_name(v@) == base_name(v@.take(i as int)) + v@.skip(i as int),
        decreases i,
    {
        assert(v@.take(i as int).last() == v[i - 1]);
        if v[i - 1] == '/' || v[i - 1] == '\\' {
            assert(Seq::empty() + v@.skip(i as int) =~= v@.skip(i as int));
            return i;
        }
        proof {
            let front = v@.take(i - 1);
            assert(v@.take(i as int).drop_last() =~= front);
            assert(base_name(front).push(v[i - 1]) + v@.skip(i as int) =~= base_name(front)
                + v@.skip(i - 1));
        }
        i = i - 1;
    }
    assert(v@.take(0) =~= Seq::empty());
    assert(Seq::empty() + v@.skip(0) =~= v@.skip(0));
    0
}

/// The place of the last dot of a name at or after `start`.
fn dot_place(v: &Vec<char>, start: usize) -> (r: Option<usize>)
    requires
        start <= v.len(),
    ensures
        match r {
            Some(i) => start <= i < v.len() && last_dot(v@.skip(start as int)) == Some(i - start),
            None => last_dot(v@.skip(start as int)) == None::<int>,
        },
{
    let ghost s = v@.skip(start as int);
    let mut i: usize = v.len();
    assert(s.take(s.len() as int) =~= s);
    while i > start
        invariant
            start <= i <= v.len(),
            s == v@.skip(start as int),
            last_dot(s) == last_dot(s.take(i - start)),
        decreases i,
    {
        let ghost front = s.take(i - start);
        assert(front.last() == v[i - 1]);
        if v[i - 1] == '.' {
            return Some(i - 1);
        }
        assert(front.drop_last() =~= s.take(i - 1 - start));
        i = i - 1;
    }
    None
}

/// The name of a file without its folders and its extension.
pub fn file_stem(name: &str) -> (out: String)
    ensures
        out@ == stem(name@),
{
    let v = chars_of(name);
    let start: usize = base_start(&v);
    match dot_place(&v, start) {
        Some(i) => {
            let out = text_of(&v, start, i);
            assert(out@ =~= base_name(v@).take(i - start));
            out
        },
        None => {
            let out = text_of(&v, start, v.len());
            assert(out@ =~= base_name(v@));
            out
        },
    }
}

/// The extension of a file's name, without the dot; empty where it has none.
pub fn extension_of(name: &str) -> (out: String)
    ensures
        out@ == extension(name@),
{
    let v = chars_of(name);
    let start: usize = base_start(&v);
    match dot_place(&v, start) {
        Some(i) => {
            let out = text_of(&v, i + 1, v.len());
            assert(out@ =~= base_name(v@).skip(i - start + 1));
            out
        },
        None => String::new(),
    }
}

/// What stands before the last dot of a name; the whole name where it has
/// none.
pub fn without_extension(name: &str) -> (out: String)
    ensures
        out@ == before_dot(name@),
{
    let v = chars_of(name);
    assert(v@.skip(0) =~= v@);
    match dot_place(&v, 0) {
        Some(i) => {
            let out = text_of(&v, 0, i);
            assert(out@ =~= v@.take(i as int));
            out
        },
        None => name.to_owned(),
    }
}

} // verus!
