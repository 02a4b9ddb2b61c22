//! Texts that are made of lists, one piece for each item.
use vstd::prelude::*;
use vstd::string::*;
use crate::text::{texts, unlines};

verus! {

/// Writes the items of a list.
pub trait Writes<T> {
    /// What is written for an item, the `i`-th of its list.
    spec fn text_of(&self, i: nat, item: &T) -> Seq<char>;

    /// Writes an item, the `i`-th of its list.
    fn write(&self, i: usize, item: &T) -> (out: String)
        ensures
            out@ == self.text_of(i as nat, item),
    ;
}

/// What is written for each item of a list.
pub open spec fn written<T, W: Writes<T>>(w: W, list: Seq<T>) -> Seq<Seq<char>> {
    Seq::new(list.len(), |i: int| w.text_of(i as nat, &list[i]))
}

/// Writes each item of a list.
pub fn write_each<T, W: Writes<T>>(w: &W, list: &Vec<T>) -> (out: Vec<String>)
    ensures
        texts(out@) == written(*w, list@),
{
    let mut out: Vec<String> = Vec::new();
    let mut i: usize = 0;
    while i < list.len()
        invariant
            i <= list.len(),
            out.len() == i,
            forall|j: int| 0 <= j < i ==> (#[trigger] out[j])@ == w.text_of(j as nat, &list[j]),
        decreases list.len() - i,
    {
        out.push(w.write(i, &list[i]));
        i = i + 1;
    }
    assert(texts(out@) =~= written(*w, list@));
    out
}

/// Writes the first `count` items of a list.
pub fn write_first<T, W: Writes<T>>(w: &W, list: &Vec<T>, count: usize) -> (out: Vec<String>)
    requires
        count <= list.len(),
    ensures
        texts(out@) == written(*w, list@.take(count as int)),
{
    let mut out: Vec<String> = Vec::new();
    let mut i: usize = 0;
    while i < count
        invariant
            i <= count <= list.len(),
            out.len() == i,
            forall|j: int| 0 <= j < i ==> (#[trigger] out[j])@ == w.text_of(j as nat, &list[j]),
        decreases count - i,
    {
        out.push(w.write(i, &list[i]));
        i = i + 1;
    }
    assert(texts(out@) =~= written(*w, list@.take(count as int)));
    out
}

/// The lines of a list, each with its end.
pub fn unlines_of(list: &Vec<String>) -> (out: String)
    ensures
        out@ == unlines(texts(list@)),
{
    let ghost all = texts(list@);
    let mut out = String::new();
    let mut i: usize = 0;
    assert(all.take(0) =~= Seq::empty());
    while i < list.len()
        invariant
            i <= list.len(),
            all == texts(list@),
            out@ == unlines(all.take(i as int)),
        decreases list.len() - i,
    {
        proof {
            assert(all.take(i + 1).drop_last() =~= all.take(i as int));
            assert(all.take(i + 1).last() == list[i as int]@);
        }
        let ghost before = out@;
        out.append(list[i].as_str());
        out.push('\n');
        assert(out@ =~= before + list[i as int]@ + seq!['\n']);
        i = i + 1;
    }
    assert(all.take(all.len() as int) =~= all);
    out
}

} // verus!
