//! Name lists: the header that says where their names come from, and the
//! names themselves, one per line.
use vstd::hash_set::StringHashSet;
use vstd::prelude::*;
use vstd::string::*;
use crate::order::{
    lemma_text_chains, lemma_text_comparable, lemma_text_same, stable_order, text_not_after,
};
use crate::text::{
    chars_of, decimal, decimal_of, is_line, lemma_decimal, lemma_lines_of_unlines,
    lemma_number_of_decimal, lemma_trim_of_indented, lemma_trim_of_trimmed, lines, lines_of, number,
    number_of, starts_with, strip_prefix, texts, trim, trimmed, unlines, white_space,
};

pub use crate::calendar::today;

verus! {

// ── The header ──────────────────────────────────────────────────────────────

/// What a list on disk says about itself, from its `#` header: where the
/// names came from and the newest game build any of them is known to
/// cover.
#[derive(Debug, Clone, PartialEq)]
pub struct ListHeader {
    /// One line per contribution, oldest first.
    pub sources: Vec<String>,
    /// The game build the list covers, when any source stated one.
    pub build: Option<u32>,
}

/// A `ListHeader` as texts.
#[verifier::ext_equal]
pub struct Header {
    pub sources: Seq<Seq<char>>,
    pub build: Option<u32>,
}

impl View for ListHeader {
    type V = Header;

    open spec fn view(&self) -> Header {
        Header { sources: texts(self.sources@), build: self.build }
    }
}

/// A line that may stand in the header: a blank one, or one that starts with
/// `#`.
pub open spec fn is_header_line(line: Seq<char>) -> bool {
    trim(line).len() == 0 || "#"@.is_prefix_of(line)
}

/// The lines up to the first that may not stand in the header.
pub open spec fn header_lines(list: Seq<Seq<char>>) -> Seq<Seq<char>>
    decreases list.len(),
{
    if list.len() == 0 || !is_header_line(list[0]) {
        Seq::empty()
    } else {
        seq![list[0]] + header_lines(list.drop_first())
    }
}

impl Header {
    /// Nothing stated.
    pub open spec fn unknown() -> Header {
        Header { sources: Seq::empty(), build: None }
    }

    /// The header with what one of its lines says.
    pub open spec fn with_line(self, line: Seq<char>) -> Header {
        if "# source:"@.is_prefix_of(line) {
            Header {
                sources: self.sources.push(trim(line.skip("# source:"@.len() as int))),
                ..self
            }
        } else if "# Names harvested from the game's own files"@.is_prefix_of(line) {
            Header {
                sources: self.sources.push(
                    "harvest by an earlier rage (game build not recorded)"@,
                ),
                ..self
            }
        } else if "# build:"@.is_prefix_of(line) {
            Header {
                build: match number(trim(line.skip("# build:"@.len() as int)), 10, u32::MAX as nat) {
                    Some(n) => Some(n as u32),
                    None => None,
                },
                ..self
            }
        } else {
            self
        }
    }

    /// What the lines of a header say.
    pub open spec fn of_lines(list: Seq<Seq<char>>) -> Header
        decreases list.len(),
    {
        if list.len() == 0 {
            Header::unknown()
        } else {
            Header::of_lines(list.drop_last()).with_line(list.last())
        }
    }

    /// What the header of a text says.
    pub open spec fn of_text(text: Seq<char>) -> Header {
        Header::of_lines(header_lines(lines(text)))
    }

    /// The header's own lines.
    pub open spec fn as_lines(self) -> Seq<Seq<char>> {
        seq!["# Names for `rage`: one per line, hashed with JOAAT when loaded."@] + source_lines(
            self.sources,
        ) + build_lines(self.build)
    }

    /// One line saying what the list covers.
    pub open spec fn covers(self) -> Seq<char> {
        match self.build {
            Some(b) => "covers game build "@ + decimal(b as nat),
            None => if self.sources.len() == 0 {
                "of unknown origin"@
            } else {
                "of unstated game build (a `names harvest` records the game's build; `names fetch --build N` states a downloaded list's)"@
            },
        }
    }

    /// The header with one more contribution; the build only moves forward.
    pub open spec fn with_source(self, source: Seq<char>, build: Option<u32>) -> Header {
        Header {
            sources: self.sources.push(source),
            build: match (self.build, build) {
                (Some(a), Some(b)) => Some(if a >= b { a } else { b }),
                (Some(a), None) => Some(a),
                (None, b) => b,
            },
        }
    }
}

/// The lines that name the sources.
pub open spec fn source_lines(sources: Seq<Seq<char>>) -> Seq<Seq<char>> {
    sources.map_values(|s: Seq<char>| "# source: "@ + s)
}

/// The line that states the build, if one is stated.
pub open spec fn build_lines(build: Option<u32>) -> Seq<Seq<char>> {
    match build {
        Some(b) => seq!["# build: "@ + decimal(b as nat)],
        None => Seq::empty(),
    }
}

impl ListHeader {
    /// The header lines of `text` (`# source: ...`, `# build: N`).
    pub fn parse(text: &str) -> (r: ListHeader)
        ensures
            r@ == Header::of_text(text@),
    {
        let list = lines_of(text);
        let ghost all = lines(text@);
        let mut header = ListHeader { sources: Vec::new(), build: None };
        assert(texts(header.sources@) =~= Seq::empty());
        let ghost mut done: Seq<Seq<char>> = Seq::empty();
        let mut i: usize = 0;
        assert(all.skip(0) =~= all);
        assert(done + header_lines(all) =~= header_lines(all));
        while i < list.len()
            invariant
                i <= list.len(),
                all == texts(list@),
                header@ == Header::of_lines(done),
                header_lines(all) == done + header_lines(all.skip(i as int)),
                header_lines(all) == header_lines(lines(text@)),
            decreases list.len() - i,
        {
            let line = list[i].as_str();
            proof {
                assert(all.skip(i as int)[0] == line@);
                assert(all.skip(i as int).drop_first() =~= all.skip(i + 1));
            }
            let blank: bool = trimmed(line).as_str().is_empty();
            if !blank && !starts_with(line, "#") {
                assert(done + Seq::empty() =~= done);
                return header;
            }
            header.take_line(line);
            proof {
                let now = done.push(line@);
                assert(now.drop_last() =~= done);
                assert(done + (seq![line@] + header_lines(all.skip(i + 1))) =~= now + header_lines(
                    all.skip(i + 1),
                ));
                done = now;
            }
            i = i + 1;
        }
        assert(done + Seq::empty() =~= done);
        header
    }

    /// Takes what one line of the header says.
    fn take_line(&mut self, line: &str)
        ensures
            final(self)@ == old(self)@.with_line(line@),
    {
        let ghost had = texts(self.sources@);
        if let Some(source) = strip_prefix(line, "# source:") {
            let source = trimmed(source.as_str());
            self.sources.push(source);
            assert(texts(self.sources@) =~= had.push(source@));
        } else if starts_with(line, "# Names harvested from the game's own files") {
            let source = String::from_str("harvest by an earlier rage (game build not recorded)");
            self.sources.push(source);
            assert(texts(self.sources@) =~= had.push(source@));
        } else if let Some(build) = strip_prefix(line, "# build:") {
            self.build = number_of(trimmed(build.as_str()).as_str(), 10, u32::MAX);
        }
    }

    /// Records one more contribution; the build only ever moves forward.
    pub fn add_source(&mut self, source: String, build: Option<u32>)
        ensures
            final(self)@ == old(self)@.with_source(source@, build),
    {
        let ghost had = texts(self.sources@);
        self.sources.push(source);
        assert(texts(self.sources@) =~= had.push(source@));
        self.build = match (self.build, build) {
            (Some(a), Some(b)) => if a >= b {
                Some(a)
            } else {
                Some(b)
            },
            (Some(a), None) => Some(a),
            (None, b) => b,
        };
    }

    /// The header as written at the top of the list.
    pub fn render(&self) -> (out: String)
        ensures
            out@ == unlines(self@.as_lines()),
    {
        let mut out = String::from_str(
            "# Names for `rage`: one per line, hashed with JOAAT when loaded.",
        );
        out.push('\n');
        let ghost title = seq![
            "# Names for `rage`: one per line, hashed with JOAAT when loaded."@,
        ];
        let ghost all = texts(self.sources@);
        proof {
            assert(title.drop_last() =~= Seq::empty());
            assert(unlines(title.drop_last()) =~= Seq::empty());
            assert(out@ =~= unlines(title.drop_last()) + title.last() + seq!['\n']);
            assert(source_lines(all.take(0)) =~= Seq::empty());
            assert(title + source_lines(all.take(0)) =~= title);
        }
        let mut i: usize = 0;
        while i < self.sources.len()
            invariant
                i <= self.sources.len(),
                all == texts(self.sources@),
                out@ == unlines(title + source_lines(all.take(i as int))),
            decreases self.sources.len() - i,
        {
            let ghost before = title + source_lines(all.take(i as int));
            out.append("# source: ");
            out.append(self.sources[i].as_str());
            out.push('\n');
            proof {
                let line = "# source: "@ + all[i as int];
                let now = title + source_lines(all.take(i + 1));
                assert(now.drop_last() =~= before);
                assert(now.last() == line);
                assert(out@ =~= unlines(before) + line + seq!['\n']);
            }
            i = i + 1;
        }
        let ghost before = title + source_lines(all);
        assert(all.take(all.len() as int) =~= all);
        if let Some(b) = self.build {
            out.append("# build: ");
            out.append(decimal_of(b as u64).as_str());
            out.push('\n');
            proof {
                let line = "# build: "@ + decimal(b as nat);
                let now = before + build_lines(self.build);
                assert(now.drop_last() =~= before);
                assert(now.last() == line);
                assert(out@ =~= unlines(before) + line + seq!['\n']);
            }
        } else {
            assert(before + build_lines(self.build) =~= before);
        }
        out
    }

    /// One line saying what the list covers, for `names info` and the
    /// note under an inspection that left hashes unresolved.
    pub fn coverage(&self) -> (out: String)
        ensures
            out@ == self@.covers(),
    {
        match self.build {
            Some(b) => {
                let mut out = String::from_str("covers game build ");
                out.append(decimal_of(b as u64).as_str());
                out
            },
            None => if self.sources.len() == 0 {
                String::from_str("of unknown origin")
            } else {
                String::from_str(
                    "of unstated game build (a `names harvest` records the game's build; `names fetch --build N` states a downloaded list's)",
                )
            },
        }
    }
}

impl Default for ListHeader {
    fn default() -> (r: ListHeader)
        ensures
            r@ == Header::unknown(),
    {
        let r = ListHeader { sources: Vec::new(), build: None };
        assert(texts(r.sources@) =~= Seq::empty());
        r
    }
}

// ── Sets of names ───────────────────────────────────────────────────────────

/// A set of names.
pub struct NameSet {
    seen: StringHashSet,
    names: Vec<String>,
}

impl View for NameSet {
    type V = Set<Seq<char>>;

    closed spec fn view(&self) -> Set<Seq<char>> {
        self.seen@
    }
}

/// `list` holds the texts of `set`, each once, in dictionary order.
pub open spec fn lists_in_order(list: Seq<Seq<char>>, set: Set<Seq<char>>) -> bool {
    &&& forall|i: int, j: int|
        0 <= i < j < list.len() ==> text_not_after(#[trigger] list[i], #[trigger] list[j])
            && list[i] != list[j]
    &&& forall|s: Seq<char>| set.contains(s) <==> #[trigger] list.contains(s)
}

/// The texts of `set` in dictionary order.
pub open spec fn in_order(set: Set<Seq<char>>) -> Seq<Seq<char>> {
    choose|list: Seq<Seq<char>>| lists_in_order(list, set)
}

/// A set of texts has one dictionary order.
pub proof fn lemma_in_order(list: Seq<Seq<char>>, set: Set<Seq<char>>)
    requires
        lists_in_order(list, set),
    ensures
        in_order(set) == list,
{
    lemma_same_order(list, in_order(set), set);
}

proof fn lemma_same_order(a: Seq<Seq<char>>, b: Seq<Seq<char>>, set: Set<Seq<char>>)
    requires
        lists_in_order(a, set),
        lists_in_order(b, set),
    ensures
        a == b,
    decreases a.len(),
{
    if a.len() == 0 {
        if b.len() > 0 {
            assert(b.contains(b[0]));
            assert(a.contains(b[0]));
        }
        assert(a =~= b);
    } else {
        assert(a.contains(a[0]));
        assert(b.contains(a[0]));
        let j = choose|j: int| 0 <= j < b.len() && b[j] == a[0];
        assert(b.contains(b[0]));
        assert(a.contains(b[0]));
        let i = choose|i: int| 0 <= i < a.len() && a[i] == b[0];
        if i != 0 && j != 0 {
            assert(text_not_after(a[0], a[i]));
            assert(text_not_after(b[0], b[j]));
            lemma_text_same(a[0], b[0]);
        }
        assert(a[0] == b[0]);
        let rest = set.remove(a[0]);
        lemma_rest_in_order(a, set);
        lemma_rest_in_order(b, set);
        lemma_same_order(a.drop_first(), b.drop_first(), rest);
        assert(a =~= seq![a[0]] + a.drop_first());
        assert(b =~= seq![b[0]] + b.drop_first());
    }
}

proof fn lemma_rest_in_order(list: Seq<Seq<char>>, set: Set<Seq<char>>)
    requires
        lists_in_order(list, set),
        list.len() > 0,
    ensures
        lists_in_order(list.drop_first(), set.remove(list[0])),
{
    let rest = list.drop_first();
    assert forall|s: Seq<char>| set.remove(list[0]).contains(s) <==> #[trigger] rest.contains(s) by {
        assert(set.contains(s) <==> list.contains(s));
        if rest.contains(s) {
            let i = choose|i: int| 0 <= i < rest.len() && rest[i] == s;
            assert(list[i + 1] == s);
            assert(list[0] != list[i + 1]);
        }
        if list.contains(s) && s != list[0] {
            let i = choose|i: int| 0 <= i < list.len() && list[i] == s;
            assert(rest[i - 1] == s);
        }
    }
    assert forall|i: int, j: int| 0 <= i < j < rest.len() implies text_not_after(
        #[trigger] rest[i],
        #[trigger] rest[j],
    ) && rest[i] != rest[j] by {
        assert(text_not_after(list[i + 1], list[j + 1]));
    }
}

/// The texts of a list at the given places.
pub open spec fn picked(names: Seq<String>, order: Seq<usize>) -> Seq<Seq<char>> {
    order.map_values(|i: usize| names[i as int]@)
}

/// The places of distinct texts in dictionary order.
pub fn text_order(names: &Vec<String>) -> (order: Vec<usize>)
    requires
        texts(names@).no_duplicates(),
    ensures
        forall|k: int| 0 <= k < order.len() ==> #[trigger] order[k] < names.len(),
        picked(names@, order@) == in_order(texts(names@).to_set()),
{
    let mut keys: Vec<Vec<char>> = Vec::new();
    let mut i: usize = 0;
    while i < names.len()
        invariant
            i <= names.len(),
            keys.len() == i,
            forall|j: int| 0 <= j < i ==> (#[trigger] keys[j])@ == names[j]@,
        decreases names.len() - i,
    {
        keys.push(chars_of(names[i].as_str()));
        i = i + 1;
    }
    let order = stable_order(&keys);
    proof {
        let all = texts(names@);
        let list = picked(names@, order@);
        assert forall|a: int, b: int| 0 <= a < b < list.len() implies text_not_after(
            #[trigger] list[a],
            #[trigger] list[b],
        ) && list[a] != list[b] by {
            assert(crate::order::precedes(keys@, order[a], order[b]));
            assert(keys[order[a] as int]@ == all[order[a] as int]);
            assert(keys[order[b] as int]@ == all[order[b] as int]);
            if order[a] == order[b] {
                assert(order[a] < order[b]);
            }
            assert(all[order[a] as int] != all[order[b] as int]);
        }
        assert forall|s: Seq<char>| all.to_set().contains(s) <==> #[trigger] list.contains(s) by {
            if all.contains(s) {
                let x = choose|x: int| 0 <= x < all.len() && all[x] == s;
                assert(order@.contains(x as usize));
                let y = choose|y: int| 0 <= y < order.len() && order[y] == x as usize;
                assert(list[y] == s);
            }
            if list.contains(s) {
                let y = choose|y: int| 0 <= y < list.len() && list[y] == s;
                assert(all[order[y] as int] == s);
            }
        }
        lemma_in_order(list, all.to_set());
    }
    order
}

impl NameSet {
    /// Each name is listed once.
    pub closed spec fn wf(&self) -> bool {
        &&& texts(self.names@).no_duplicates()
        &&& forall|s: Seq<char>| self.seen@.contains(s) <==> #[trigger] texts(self.names@).contains(s)
    }

    /// No names.
    pub fn new() -> (r: NameSet)
        ensures
            r.wf(),
            r@ == Set::<Seq<char>>::empty(),
    {
        NameSet { seen: StringHashSet::new(), names: Vec::new() }
    }

    /// Puts a name in.
    pub fn insert(&mut self, name: &str)
        requires
            old(self).wf(),
        ensures
            final(self).wf(),
            final(self)@ == old(self)@.insert(name@),
    {
        if self.seen.contains(name) {
            assert(self.seen@ =~= self.seen@.insert(name@));
            return;
        }
        let ghost before = texts(self.names@);
        let owned = name.to_owned();
        self.seen.insert(name.to_owned());
        self.names.push(owned);
        proof {
            let now = texts(self.names@);
            assert(now =~= before.push(name@));
            assert(!before.contains(name@));
            assert forall|s: Seq<char>| self.seen@.contains(s) <==> #[trigger] now.contains(s) by {
                assert(now[before.len() as int] == name@);
                if before.contains(s) {
                    let i = choose|i: int| 0 <= i < before.len() && before[i] == s;
                    assert(now[i] == s);
                }
                if now.contains(s) && s != name@ {
                    let i = choose|i: int| 0 <= i < now.len() && now[i] == s;
                    assert(before[i] == s);
                }
            }
        }
    }

    /// Whether a name is in the set.
    pub fn contains(&self, name: &str) -> (r: bool)
        ensures
            r == self@.contains(name@),
    {
        self.seen.contains(name)
    }

    /// The number of names.
    pub fn len(&self) -> (r: usize)
        requires
            self.wf(),
        ensures
            r == self@.len(),
            self@.finite(),
    {
        proof {
            assert(texts(self.names@).to_set() =~= self.seen@);
            vstd::seq_lib::seq_to_set_is_finite(texts(self.names@));
        }
        self.seen.len()
    }

    /// The names in dictionary order.
    pub fn sorted(&self) -> (out: Vec<String>)
        requires
            self.wf(),
        ensures
            texts(out@) == in_order(self@),
    {
        let order = text_order(&self.names);
        let mut out: Vec<String> = Vec::new();
        let mut j: usize = 0;
        while j < order.len()
            invariant
                j <= order.len(),
                forall|k: int| 0 <= k < order.len() ==> #[trigger] order[k] < self.names.len(),
                out.len() == j,
                forall|k: int| 0 <= k < j ==> (#[trigger] out[k])@ == self.names[order[k] as int]@,
            decreases order.len() - j,
        {
            out.push(self.names[order[j]].clone());
            j = j + 1;
        }
        assert(texts(out@) =~= picked(self.names@, order@));
        assert(texts(self.names@).to_set() =~= self@);
        out
    }
}

// ── Whole lists ─────────────────────────────────────────────────────────────

/// A line of a list that holds a name.
pub open spec fn is_name_line(line: Seq<char>) -> bool {
    trim(line).len() > 0 && !"#"@.is_prefix_of(trim(line))
}

/// The names of the lines of a list.
pub open spec fn names_of_lines(list: Seq<Seq<char>>) -> Set<Seq<char>>
    decreases list.len(),
{
    if list.len() == 0 {
        Set::empty()
    } else {
        let before = names_of_lines(list.drop_last());
        if is_name_line(list.last()) {
            before.insert(trim(list.last()))
        } else {
            before
        }
    }
}

/// The header and the names of a list.
pub fn read_list(text: &str) -> (r: (ListHeader, NameSet))
    ensures
        r.0@ == Header::of_text(text@),
        r.1.wf(),
        r.1@ == names_of_lines(lines(text@)),
{
    let header = ListHeader::parse(text);
    let list = lines_of(text);
    let ghost all = lines(text@);
    let mut names = NameSet::new();
    let mut i: usize = 0;
    assert(all.take(0) =~= Seq::empty());
    while i < list.len()
        invariant
            i <= list.len(),
            all == texts(list@),
            names.wf(),
            names@ == names_of_lines(all.take(i as int)),
        decreases list.len() - i,
    {
        let name = trimmed(list[i].as_str());
        proof {
            assert(all.take(i + 1).drop_last() =~= all.take(i as int));
            assert(all.take(i + 1).last() == list[i as int]@);
        }
        if !name.as_str().is_empty() && !starts_with(name.as_str(), "#") {
            names.insert(name.as_str());
        }
        i = i + 1;
    }
    assert(all.take(all.len() as int) =~= all);
    (header, names)
}

/// A list with its header, as it is written: the names in dictionary order,
/// one per line.
pub fn write_list(header: &ListHeader, names: &NameSet) -> (out: String)
    requires
        names.wf(),
    ensures
        out@ == unlines(header@.as_lines() + in_order(names@)),
{
    let mut out = header.render();
    let list = names.sorted();
    let ghost head = header@.as_lines();
    let ghost all = texts(list@);
    let mut i: usize = 0;
    assert(head + all.take(0) =~= head);
    while i < list.len()
        invariant
            i <= list.len(),
            all == texts(list@),
            out@ == unlines(head + all.take(i as int)),
        decreases list.len() - i,
    {
        let ghost before = head + all.take(i as int);
        out.append(list[i].as_str());
        out.push('\n');
        proof {
            let now = head + all.take(i + 1);
            assert(now.drop_last() =~= before);
            assert(now.last() == all[i as int]);
            assert(out@ =~= unlines(before) + all[i as int] + seq!['\n']);
        }
        i = i + 1;
    }
    assert(all.take(all.len() as int) =~= all);
    out
}

// ── Where the list is ───────────────────────────────────────────────────────

/// Where the harvested list lives: where `RAGE_NAMES` points, else the list in
/// the configuration folder, if there is one.
pub fn harvest_path(rage_names: Option<String>, configured: Option<String>) -> (r: Option<String>)
    ensures
        r == (if rage_names is Some {
            rage_names
        } else {
            configured
        }),
{
    match rage_names {
        Some(p) => Some(p),
        None => configured,
    }
}

// ── Laws ────────────────────────────────────────────────────────────────────

/// A source that can stand on a header line of its own: no line feed, no
/// white space around it.
pub open spec fn is_source(s: Seq<char>) -> bool {
    &&& forall|i: int| 0 <= i < s.len() ==> #[trigger] s[i] != '\n'
    &&& s.len() > 0 ==> !white_space(s[0]) && !white_space(s.last())
}

/// Every source can stand on a header line of its own.
pub open spec fn header_fits(h: Header) -> bool {
    forall|i: int| 0 <= i < h.sources.len() ==> is_source(#[trigger] h.sources[i])
}

/// A text whose first line does not belong to the header.
pub open spec fn header_ends(rest: Seq<char>) -> bool {
    lines(rest).len() == 0 || !is_header_line(lines(rest)[0])
}

proof fn lemma_header_lines_append(a: Seq<Seq<char>>, b: Seq<Seq<char>>)
    requires
        forall|i: int| 0 <= i < a.len() ==> is_header_line(#[trigger] a[i]),
        b.len() == 0 || !is_header_line(b[0]),
    ensures
        header_lines(a + b) == a,
    decreases a.len(),
{
    if a.len() == 0 {
        assert(a + b =~= b);
        assert(header_lines(b) =~= a);
    } else {
        let t = a.drop_first();
        assert((a + b).drop_first() =~= t + b);
        assert forall|i: int| 0 <= i < t.len() implies is_header_line(#[trigger] t[i]) by {
            assert(t[i] == a[i + 1]);
        }
        assert(is_header_line(a[0]));
        lemma_header_lines_append(t, b);
        assert(seq![a[0]] + t =~= a);
    }
}

proof fn lemma_title_line(h: Header)
    ensures
        h.with_line("# Names for `rage`: one per line, hashed with JOAAT when loaded."@) == h,
        is_header_line("# Names for `rage`: one per line, hashed with JOAAT when loaded."@),
        is_line("# Names for `rage`: one per line, hashed with JOAAT when loaded."@),
{
    reveal_strlit("# Names for `rage`: one per line, hashed with JOAAT when loaded.");
    reveal_strlit("# source:");
    reveal_strlit("# Names harvested from the game's own files");
    reveal_strlit("# build:");
    reveal_strlit("#");
    let t = "# Names for `rage`: one per line, hashed with JOAAT when loaded."@;
    if "# source:"@.is_prefix_of(t) {
        assert(t.subrange(0, 9)[2] == "# source:"@[2]);
    }
    if "# Names harvested from the game's own files"@.is_prefix_of(t) {
        assert(t.subrange(0, 43)[8] == "# Names harvested from the game's own files"@[8]);
    }
    if "# build:"@.is_prefix_of(t) {
        assert(t.subrange(0, 8)[2] == "# build:"@[2]);
    }
    assert("#"@ =~= t.subrange(0, 1));
}

proof fn lemma_source_line(h: Header, s: Seq<char>)
    requires
        is_source(s),
    ensures
        h.with_line("# source: "@ + s) == (Header { sources: h.sources.push(s), ..h }),
        is_header_line("# source: "@ + s),
        is_line("# source: "@ + s),
{
    reveal_strlit("# source: ");
    reveal_strlit("# source:");
    reveal_strlit("#");
    let line = "# source: "@ + s;
    assert("# source:"@ =~= line.subrange(0, 9));
    assert(line.skip(9) =~= seq![' '] + s);
    lemma_trim_of_indented(s);
    assert("#"@ =~= line.subrange(0, 1));
    assert forall|i: int| 0 <= i < line.len() implies #[trigger] line[i] != '\n' by {
        if i >= 10 {
            assert(line[i] == s[i - 10]);
        }
    }
    if s.len() > 0 {
        assert(line.last() == s.last());
    }
}

proof fn lemma_build_line(h: Header, b: u32)
    ensures
        h.with_line("# build: "@ + decimal(b as nat)) == (Header { build: Some(b), ..h }),
        is_header_line("# build: "@ + decimal(b as nat)),
        is_line("# build: "@ + decimal(b as nat)),
{
    reveal_strlit("# build: ");
    reveal_strlit("# build:");
    reveal_strlit("# source:");
    reveal_strlit("# Names harvested from the game's own files");
    reveal_strlit("#");
    let digits = decimal(b as nat);
    let line = "# build: "@ + digits;
    lemma_decimal(b as nat);
    lemma_number_of_decimal(b as nat, u32::MAX as nat);
    assert("# build:"@ =~= line.subrange(0, 8));
    assert(line.skip(8) =~= seq![' '] + digits);
    assert(crate::text::is_digit(digits[0]));
    assert(crate::text::is_digit(digits[digits.len() - 1]));
    lemma_trim_of_indented(digits);
    if "# source:"@.is_prefix_of(line) {
        assert(line.subrange(0, 9)[2] == "# source:"@[2]);
    }
    if "# Names harvested from the game's own files"@.is_prefix_of(line) {
        assert(line.subrange(0, 43)[2] == "# Names harvested from the game's own files"@[2]);
    }
    assert("#"@ =~= line.subrange(0, 1));
    assert forall|i: int| 0 <= i < line.len() implies #[trigger] line[i] != '\n' by {
        if i >= 9 {
            assert(crate::text::is_digit(digits[i - 9]));
        }
    }
    assert(line.last() == digits[digits.len() - 1]);
}

proof fn lemma_of_sources(h: Header, n: int)
    requires
        header_fits(h),
        0 <= n <= h.sources.len(),
    ensures
        Header::of_lines(
            seq!["# Names for `rage`: one per line, hashed with JOAAT when loaded."@]
                + source_lines(h.sources.take(n)),
        ) == (Header { sources: h.sources.take(n), build: None }),
    decreases n,
{
    let title = "# Names for `rage`: one per line, hashed with JOAAT when loaded."@;
    let list = seq![title] + source_lines(h.sources.take(n));
    if n == 0 {
        assert(list =~= seq![title]);
        assert(list.drop_last() =~= Seq::empty());
        assert(Header::of_lines(list.drop_last()) == Header::unknown());
        assert(list.last() == title);
        lemma_title_line(Header::unknown());
        assert(h.sources.take(0) =~= Seq::empty());
    } else {
        lemma_of_sources(h, n - 1);
        assert(list.drop_last() =~= seq![title] + source_lines(h.sources.take(n - 1)));
        let s = h.sources[n - 1];
        assert(list.last() == "# source: "@ + s);
        assert(is_source(s));
        lemma_source_line(Header { sources: h.sources.take(n - 1), build: None }, s);
        assert(h.sources.take(n) =~= h.sources.take(n - 1).push(s));
    }
}

proof fn lemma_as_lines(h: Header)
    requires
        header_fits(h),
    ensures
        Header::of_lines(h.as_lines()) == h,
        forall|i: int|
            0 <= i < h.as_lines().len() ==> is_line(#[trigger] h.as_lines()[i]) && is_header_line(
                h.as_lines()[i],
            ),
{
    let title = "# Names for `rage`: one per line, hashed with JOAAT when loaded."@;
    let top = seq![title] + source_lines(h.sources);
    lemma_of_sources(h, h.sources.len() as int);
    assert(h.sources.take(h.sources.len() as int) =~= h.sources);
    lemma_title_line(h);
    let all = h.as_lines();
    match h.build {
        Some(b) => {
            assert(all.drop_last() =~= top);
            assert(all.last() == "# build: "@ + decimal(b as nat));
            lemma_build_line(Header { sources: h.sources, build: None }, b);
        },
        None => {
            assert(all =~= top);
        },
    }
    assert forall|i: int| 0 <= i < all.len() implies is_line(#[trigger] all[i]) && is_header_line(
        all[i],
    ) by {
        if i == 0 {
            assert(all[0] == title);
        } else if i <= h.sources.len() {
            assert(all[i] == "# source: "@ + h.sources[i - 1]);
            lemma_source_line(h, h.sources[i - 1]);
        }
    }
}

/// A header reads back from what it is written as, whatever follows it that
/// is no header line.
pub proof fn law_header_round_trip(h: Header, rest: Seq<char>)
    requires
        header_fits(h),
        header_ends(rest),
    ensures
        Header::of_text(unlines(h.as_lines()) + rest) == h,
{
    lemma_as_lines(h);
    lemma_lines_of_unlines(h.as_lines(), rest);
    lemma_header_lines_append(h.as_lines(), lines(rest));
}

/// Recording a contribution keeps every earlier source, and the build only
/// moves forward.
pub proof fn law_build_only_moves_forward(h: Header, source: Seq<char>, build: Option<u32>)
    ensures
        h.with_source(source, build).sources.drop_last() == h.sources,
        h.with_source(source, build).sources.last() == source,
        h.build is Some ==> h.with_source(source, build).build is Some && h.with_source(
            source,
            build,
        ).build->Some_0 >= h.build->Some_0,
        build is Some ==> h.with_source(source, build).build is Some && h.with_source(
            source,
            build,
        ).build->Some_0 >= build->Some_0,
{
    assert(h.with_source(source, build).sources.drop_last() =~= h.sources);
}

/// A name that can stand on a line of its own: not empty, no line feed, no
/// white space around it, no `#` before it.
pub open spec fn is_name(s: Seq<char>) -> bool {
    s.len() > 0 && is_source(s) && s[0] != '#'
}

proof fn lemma_names_of_lines(head: Seq<Seq<char>>, list: Seq<Seq<char>>)
    requires
        forall|i: int| 0 <= i < head.len() ==> is_header_line(#[trigger] head[i]),
        forall|i: int| 0 <= i < list.len() ==> is_name(#[trigger] list[i]),
    ensures
        forall|s: Seq<char>| names_of_lines(head + list).contains(s) <==> #[trigger] list.contains(s),
    decreases head.len() + list.len(),
{
    let all = head + list;
    if list.len() > 0 {
        let front = list.drop_last();
        assert(all.drop_last() =~= head + front);
        assert forall|i: int| 0 <= i < front.len() implies is_name(#[trigger] front[i]) by {
            assert(front[i] == list[i]);
        }
        lemma_names_of_lines(head, front);
        let last = list[list.len() - 1];
        assert(all.last() == last);
        assert(is_name(last));
        lemma_trim_of_trimmed(last);
        assert(is_name_line(last)) by {
            reveal_strlit("#");
            if "#"@.is_prefix_of(last) {
                assert(last.subrange(0, 1)[0] == '#');
            }
        }
        assert forall|s: Seq<char>| names_of_lines(all).contains(s) <==> #[trigger] list.contains(
            s,
        ) by {
            assert(front.contains(s) <==> names_of_lines(head + front).contains(s));
            if front.contains(s) {
                let i = choose|i: int| 0 <= i < front.len() && front[i] == s;
                assert(list[i] == s);
            }
            if list.contains(s) && s != last {
                let i = choose|i: int| 0 <= i < list.len() && list[i] == s;
                assert(front[i] == s);
            }
            assert(list[list.len() - 1] == last);
        }
    } else if head.len() > 0 {
        let front = head.drop_last();
        assert(all.drop_last() =~= front + list);
        assert forall|i: int| 0 <= i < front.len() implies is_header_line(#[trigger] front[i]) by {
            assert(front[i] == head[i]);
        }
        lemma_names_of_lines(front, list);
        let last = head[head.len() - 1];
        assert(all.last() == last);
        assert(is_header_line(last));
        lemma_header_line_names_nothing(last);
        assert forall|s: Seq<char>| names_of_lines(all).contains(s) <==> #[trigger] list.contains(
            s,
        ) by {
            assert(names_of_lines(front + list).contains(s) <==> list.contains(s));
        }
    } else {
        assert forall|s: Seq<char>| names_of_lines(all).contains(s) <==> #[trigger] list.contains(
            s,
        ) by {
        }
    }
}

proof fn lemma_trim_keeps_start(s: Seq<char>)
    requires
        s.len() > 0,
        !white_space(s[0]),
    ensures
        crate::text::trim_end(s).len() > 0,
        crate::text::trim_end(s)[0] == s[0],
    decreases s.len(),
{
    if white_space(s.last()) {
        lemma_trim_keeps_start(s.drop_last());
    }
}

proof fn lemma_header_line_names_nothing(line: Seq<char>)
    requires
        is_header_line(line),
    ensures
        !is_name_line(line),
{
    reveal_strlit("#");
    if trim(line).len() > 0 {
        assert(line.subrange(0, 1)[0] == '#');
        assert(crate::text::trim_start(line) == line);
        lemma_trim_keeps_start(line);
        assert("#"@ =~= trim(line).subrange(0, 1));
    }
}

/// A finite set of texts can be listed in dictionary order.
proof fn lemma_order_exists(set: Set<Seq<char>>)
    requires
        set.finite(),
    ensures
        lists_in_order(in_order(set), set),
    decreases set.len(),
{
    if set.is_empty() {
        let none = Seq::<Seq<char>>::empty();
        assert(lists_in_order(none, set));
    } else {
        let first = lemma_first_text(set);
        let rest = in_order(set.remove(first));
        lemma_order_exists(set.remove(first));
        let list = seq![first] + rest;
        assert forall|i: int, j: int| 0 <= i < j < list.len() implies text_not_after(
            #[trigger] list[i],
            #[trigger] list[j],
        ) && list[i] != list[j] by {
            assert(list[j] == rest[j - 1]);
            assert(rest.contains(rest[j - 1]));
            assert(set.remove(first).contains(list[j]));
            if i > 0 {
                assert(list[i] == rest[i - 1]);
            }
        }
        assert forall|s: Seq<char>| set.contains(s) <==> #[trigger] list.contains(s) by {
            if set.contains(s) && s != first {
                assert(set.remove(first).contains(s));
                let k = choose|k: int| 0 <= k < rest.len() && rest[k] == s;
                assert(rest.contains(s));
                assert(list[k + 1] == s);
            }
            if s == first {
                assert(list[0] == s);
            }
            if list.contains(s) && s != first {
                let k = choose|k: int| 0 <= k < list.len() && list[k] == s;
                assert(rest[k - 1] == s);
                assert(rest.contains(s));
            }
        }
        assert(lists_in_order(list, set));
    }
}

/// A finite set of texts that is not empty has a first one.
proof fn lemma_first_text(set: Set<Seq<char>>) -> (first: Seq<char>)
    requires
        set.finite(),
        !set.is_empty(),
    ensures
        set.contains(first),
        forall|s: Seq<char>| #[trigger] set.contains(s) ==> text_not_after(first, s),
    decreases set.len(),
{
    let x = set.choose();
    let others = set.remove(x);
    if others.is_empty() {
        assert forall|s: Seq<char>| #[trigger] set.contains(s) implies text_not_after(x, s) by {
            if s != x {
                assert(others.contains(s));
            }
            lemma_text_comparable(x, x);
        }
        x
    } else {
        let y = lemma_first_text(others);
        lemma_text_comparable(x, y);
        if text_not_after(x, y) {
            assert forall|s: Seq<char>| #[trigger] set.contains(s) implies text_not_after(x, s) by {
                if s != x {
                    assert(others.contains(s));
                    lemma_text_chains(x, y, s);
                } else {
                    lemma_text_comparable(x, x);
                }
            }
            x
        } else {
            assert forall|s: Seq<char>| #[trigger] set.contains(s) implies text_not_after(y, s) by {
                if s != x {
                    assert(others.contains(s));
                }
            }
            y
        }
    }
}

/// A list that was written and read back has the same header and the same
/// names.
pub proof fn law_list_round_trip(h: Header, set: Set<Seq<char>>)
    requires
        header_fits(h),
        set.finite(),
        forall|s: Seq<char>| #[trigger] set.contains(s) ==> is_name(s),
    ensures
        Header::of_text(unlines(h.as_lines() + in_order(set))) == h,
        names_of_lines(lines(unlines(h.as_lines() + in_order(set)))) == set,
{
    let list = in_order(set);
    lemma_order_exists(set);
    assert forall|i: int| 0 <= i < list.len() implies is_name(#[trigger] list[i]) by {
        assert(list.contains(list[i]));
        assert(set.contains(list[i]));
    }
    let head = h.as_lines();
    let all = head + list;
    lemma_as_lines(h);
    assert forall|i: int| 0 <= i < all.len() implies is_line(#[trigger] all[i]) by {
        if i < head.len() {
            assert(is_line(head[i]));
        } else {
            assert(all[i] == list[i - head.len()]);
            assert(is_name(list[i - head.len()]));
        }
    }
    lemma_lines_of_unlines(all, Seq::empty());
    assert(unlines(all) + Seq::empty() =~= unlines(all));
    assert(all + Seq::<Seq<char>>::empty() =~= all);
    if list.len() > 0 {
        let first = list[0];
        assert(is_name(first));
        lemma_trim_of_trimmed(first);
        assert(!is_header_line(first)) by {
            reveal_strlit("#");
            if "#"@.is_prefix_of(first) {
                assert(first.subrange(0, 1)[0] == '#');
            }
        }
    }
    lemma_header_lines_append(head, list);
    assert forall|i: int| 0 <= i < head.len() implies is_header_line(#[trigger] head[i]) by {
        assert(is_line(head[i]) && is_header_line(head[i]));
    }
    lemma_names_of_lines(head, list);
    assert(names_of_lines(all) =~= set) by {
        assert forall|s: Seq<char>| names_of_lines(all).contains(s) <==> set.contains(s) by {
            assert(list.contains(s) <==> set.contains(s));
        }
    }
}

} // verus!
