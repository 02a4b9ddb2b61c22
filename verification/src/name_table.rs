//! The table that hashes are turned back into names with.
use vstd::prelude::*;
use vstd::string::*;
use crate::hash::joaat;
use crate::names::is_name_line;
use crate::text::{hex_digits_upper, hex_upper_of, lines, lowercase, texts, to_lowercase, trim};

use rage_formats::NameTable;

verus! {

/// The table of names of `rage_formats`.
#[verifier::external_type_specification]
#[verifier::external_body]
pub struct ExNameTable(rage_formats::NameTable);

/// The names that a table holds, by their hashes.
pub uninterp spec fn table(t: NameTable) -> Map<u32, Seq<char>>;

/// `NameTable::get`: the name of a hash, if the table holds one.
#[verifier::external_body]
pub(crate) fn name_of(t: &NameTable, hash: u32) -> (r: Option<String>)
    ensures
        match r {
            Some(name) => table(*t).contains_key(hash) && table(*t)[hash] == name@,
            None => !table(*t).contains_key(hash),
        },
{
    t.get(hash).map(str::to_string)
}

/// The names with one more under its hash; the first name of a hash stays.
pub open spec fn with_name(m: Map<u32, Seq<char>>, name: Seq<char>) -> Map<u32, Seq<char>> {
    if m.contains_key(joaat(name)) {
        m
    } else {
        m.insert(joaat(name), name)
    }
}

/// The names with those of the lines of a list.
pub open spec fn with_name_lines(m: Map<u32, Seq<char>>, list: Seq<Seq<char>>) -> Map<
    u32,
    Seq<char>,
>
    decreases list.len(),
{
    if list.len() == 0 {
        m
    } else {
        let before = with_name_lines(m, list.drop_last());
        if is_name_line(list.last()) {
            with_name(before, trim(list.last()))
        } else {
            before
        }
    }
}

/// `NameTable::add`: files a name under its hash, unless that hash has one.
#[verifier::external_body]
fn add_name(t: &mut NameTable, name: &str)
    ensures
        table(*final(t)) == with_name(table(*old(t)), name@),
{
    t.add(name);
}

/// `NameTable::add_list`: files the name of every line of a text, trimmed, in
/// order; blank lines and those that start with `#` are passed over.
#[verifier::external_body]
fn add_name_list(t: &mut NameTable, text: &str)
    ensures
        table(*final(t)) == with_name_lines(table(*old(t)), lines(text@)),
{
    t.add_list(text);
}

/// What a hash without a name is shown as.
pub open spec fn placeholder(hash: u32) -> Seq<char> {
    if hash == 0 {
        "0"@
    } else {
        "hash_"@ + hex_digits_upper(hash as nat, 8)
    }
}

/// The name of a hash, or its placeholder.
pub open spec fn resolved(m: Map<u32, Seq<char>>, hash: u32) -> Seq<char> {
    if m.contains_key(hash) {
        m[hash]
    } else {
        placeholder(hash)
    }
}

/// The name of a hash, or its placeholder.
pub fn resolve(t: &NameTable, hash: u32) -> (out: String)
    ensures
        out@ == resolved(table(*t), hash),
{
    match name_of(t, hash) {
        Some(name) => name,
        None => if hash == 0 {
            String::from_str("0")
        } else {
            let mut out = String::from_str("hash_");
            out.append(hex_upper_of(hash, 8).as_str());
            out
        },
    }
}

/// The names with each stem, as spelled and in lowercase.
pub open spec fn with_stems(m: Map<u32, Seq<char>>, stems: Seq<Seq<char>>) -> Map<u32, Seq<char>>
    decreases stems.len(),
{
    if stems.len() == 0 {
        m
    } else {
        with_name(
            with_name(with_stems(m, stems.drop_last()), stems.last()),
            lowercase(stems.last()),
        )
    }
}

/// The names with those of each of some lists, in order.
pub open spec fn with_lists(m: Map<u32, Seq<char>>, lists: Seq<Seq<char>>) -> Map<u32, Seq<char>>
    decreases lists.len(),
{
    if lists.len() == 0 {
        m
    } else {
        with_name_lines(with_lists(m, lists.drop_last()), lines(lists.last()))
    }
}

/// Adds the stems of the files next to the one being inspected, in both the
/// spelling on disk and lowercase: map names keep their case, archetype names
/// are hashed lowercase.
pub fn add_siblings(t: &mut NameTable, stems: &Vec<String>)
    ensures
        table(*final(t)) == with_stems(table(*old(t)), texts(stems@)),
{
    let ghost all = texts(stems@);
    let mut i: usize = 0;
    assert(all.take(0) =~= Seq::empty());
    while i < stems.len()
        invariant
            i <= stems.len(),
            all == texts(stems@),
            table(*t) == with_stems(table(*old(t)), all.take(i as int)),
        decreases stems.len() - i,
    {
        proof {
            assert(all.take(i + 1).drop_last() =~= all.take(i as int));
            assert(all.take(i + 1).last() == stems[i as int]@);
        }
        add_name(t, stems[i].as_str());
        add_name(t, to_lowercase(stems[i].as_str()).as_str());
        i = i + 1;
    }
    assert(all.take(all.len() as int) =~= all);
}

/// Fills a table that holds the built-in names with those of the given lists
/// (the harvested one, then any others) and the stems of the files next to the
/// one being inspected. Earlier names win.
pub fn load(t: &mut NameTable, lists: &Vec<String>, siblings: &Vec<String>)
    ensures
        table(*final(t)) == with_stems(with_lists(table(*old(t)), texts(lists@)), texts(siblings@)),
{
    let ghost all = texts(lists@);
    let mut i: usize = 0;
    assert(all.take(0) =~= Seq::empty());
    while i < lists.len()
        invariant
            i <= lists.len(),
            all == texts(lists@),
            table(*t) == with_lists(table(*old(t)), all.take(i as int)),
        decreases lists.len() - i,
    {
        proof {
            assert(all.take(i + 1).drop_last() =~= all.take(i as int));
            assert(all.take(i + 1).last() == lists[i as int]@);
        }
        add_name_list(t, lists[i].as_str());
        i = i + 1;
    }
    assert(all.take(all.len() as int) =~= all);
    add_siblings(t, siblings);
}

proof fn lemma_lines_keep(m: Map<u32, Seq<char>>, list: Seq<Seq<char>>, hash: u32)
    requires
        m.contains_key(hash),
    ensures
        with_name_lines(m, list).contains_key(hash),
        with_name_lines(m, list)[hash] == m[hash],
    decreases list.len(),
{
    if list.len() > 0 {
        lemma_lines_keep(m, list.drop_last(), hash);
    }
}

proof fn lemma_lists_keep(m: Map<u32, Seq<char>>, lists: Seq<Seq<char>>, hash: u32)
    requires
        m.contains_key(hash),
    ensures
        with_lists(m, lists).contains_key(hash),
        with_lists(m, lists)[hash] == m[hash],
    decreases lists.len(),
{
    if lists.len() > 0 {
        lemma_lists_keep(m, lists.drop_last(), hash);
        lemma_lines_keep(with_lists(m, lists.drop_last()), lines(lists.last()), hash);
    }
}

proof fn lemma_stems_keep(m: Map<u32, Seq<char>>, stems: Seq<Seq<char>>, hash: u32)
    requires
        m.contains_key(hash),
    ensures
        with_stems(m, stems).contains_key(hash),
        with_stems(m, stems)[hash] == m[hash],
    decreases stems.len(),
{
    if stems.len() > 0 {
        lemma_stems_keep(m, stems.drop_last(), hash);
    }
}

/// Loading only adds: a hash that has a name keeps it, whatever the lists and
/// the neighbouring files say.
pub proof fn law_loading_keeps_names(
    m: Map<u32, Seq<char>>,
    lists: Seq<Seq<char>>,
    stems: Seq<Seq<char>>,
    hash: u32,
)
    requires
        m.contains_key(hash),
    ensures
        with_stems(with_lists(m, lists), stems).contains_key(hash),
        with_stems(with_lists(m, lists), stems)[hash] == m[hash],
{
    lemma_lists_keep(m, lists, hash);
    lemma_stems_keep(with_lists(m, lists), stems, hash);
}

/// A neighbouring file's stem resolves: after loading, its hash has a name.
pub proof fn law_siblings_resolve(m: Map<u32, Seq<char>>, stems: Seq<Seq<char>>, i: int)
    requires
        0 <= i < stems.len(),
    ensures
        with_stems(m, stems).contains_key(joaat(stems[i])),
        with_stems(m, stems).contains_key(joaat(lowercase(stems[i]))),
    decreases stems.len(),
{
    if i < stems.len() - 1 {
        law_siblings_resolve(m, stems.drop_last(), i);
    }
}

} // verus!
