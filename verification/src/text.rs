//! Text as sequences of characters: searching, splitting, trimming and
//! writing numbers.
use vstd::prelude::*;
use vstd::string::*;
use vstd::utf8::{decode_utf8, valid_utf8};

verus! {

/// `String::push` appends one character.
pub assume_specification[ String::push ](s: &mut String, c: char)
    ensures
        final(s)@ == old(s)@.push(c),
;

/// The views of a list of strings.
pub open spec fn texts(list: Seq<String>) -> Seq<Seq<char>> {
    list.map_values(|s: String| s@)
}

/// What `str::to_lowercase` makes of a text (the Unicode lowercase mapping).
pub uninterp spec fn lowercase(s: Seq<char>) -> Seq<char>;

/// `str::to_lowercase`, whose result depends on the text alone; what the
/// Unicode mapping does to a given text is not spelled out here.
#[verifier::external_body]
pub(crate) fn to_lowercase(s: &str) -> (res: String)
    ensures
        res@ == lowercase(s@),
{
    s.to_lowercase()
}

/// `String::from_utf8` makes a text of bytes exactly when they are UTF-8, and
/// the text is the one they encode.
#[verifier::external_body]
pub(crate) fn text_from_utf8(bytes: &[u8]) -> (r: Option<String>)
    ensures
        match r {
            Some(s) => valid_utf8(bytes@) && s@ == decode_utf8(bytes@),
            None => !valid_utf8(bytes@),
        },
{
    String::from_utf8(bytes.to_vec()).ok()
}

/// The characters of `s`.
pub fn chars_of(s: &str) -> (out: Vec<char>)
    ensures
        out@ == s@,
{
    let mut out: Vec<char> = Vec::new();
    for c in it: s.chars()
        invariant
            out@ == it.seq().take(it.index()),
            it.seq() == s@,
    {
        out.push(c);
    }
    out
}

/// The text made of the characters `v[from..to]`.
pub fn text_of(v: &Vec<char>, from: usize, to: usize) -> (out: String)
    requires
        from <= to <= v.len(),
    ensures
        out@ == v@.subrange(from as int, to as int),
{
    let mut out = String::new();
    let mut i: usize = from;
    while i < to
        invariant
            from <= i <= to <= v.len(),
            out@ == v@.subrange(from as int, i as int),
        decreases to - i,
    {
        out.push(v[i]);
        i = i + 1;
    }
    out
}

/// A copy of a list of texts.
pub fn copy_texts(list: &Vec<String>) -> (out: Vec<String>)
    ensures
        texts(out@) == texts(list@),
{
    let mut out: Vec<String> = Vec::new();
    let mut i: usize = 0;
    while i < list.len()
        invariant
            i <= list.len(),
            out.len() == i,
            forall|j: int| 0 <= j < i ==> (#[trigger] out[j])@ == list[j]@,
        decreases list.len() - i,
    {
        out.push(list[i].clone());
        i = i + 1;
    }
    assert(texts(out@) =~= texts(list@));
    out
}

/// Whether two texts are the same.
pub fn same(a: &str, b: &str) -> (r: bool)
    ensures
        r == (a@ == b@),
{
    let a = chars_of(a);
    let b = chars_of(b);
    same_chars(&a, &b)
}

/// Whether two character lists are the same.
pub fn same_chars(a: &Vec<char>, b: &Vec<char>) -> (r: bool)
    ensures
        r == (a@ == b@),
{
    if a.len() != b.len() {
        return false;
    }
    let mut i: usize = 0;
    while i < a.len()
        invariant
            a.len() == b.len(),
            i <= a.len(),
            forall|j: int| 0 <= j < i ==> a[j] == b[j],
        decreases a.len() - i,
    {
        if a[i] != b[i] {
            return false;
        }
        i = i + 1;
    }
    assert(a@ =~= b@);
    true
}

// ── Searching ───────────────────────────────────────────────────────────────

/// `needle` stands in `hay` at position `i`.
pub open spec fn occurs_at(hay: Seq<char>, needle: Seq<char>, i: int) -> bool {
    &&& 0 <= i
    &&& i + needle.len() <= hay.len()
    &&& hay.subrange(i, i + needle.len()) == needle
}

/// `needle` stands somewhere in `hay`.
pub open spec fn has_text(hay: Seq<char>, needle: Seq<char>) -> bool {
    exists|i: int| occurs_at(hay, needle, i)
}

/// The first position at or after `from` at which `needle` stands in `hay`.
pub open spec fn find_from(hay: Seq<char>, needle: Seq<char>, from: int) -> Option<int>
    decreases hay.len() + 1 - from,
{
    if from + needle.len() > hay.len() {
        None
    } else if occurs_at(hay, needle, from) {
        Some(from)
    } else {
        find_from(hay, needle, from + 1)
    }
}

/// `find_from` finds an occurrence exactly when there is one, and the first.
pub proof fn lemma_find_from(hay: Seq<char>, needle: Seq<char>, from: int)
    requires
        0 <= from,
    ensures
        match find_from(hay, needle, from) {
            Some(i) => from <= i && occurs_at(hay, needle, i) && forall|j: int|
                from <= j < i ==> !occurs_at(hay, needle, j),
            None => forall|j: int| from <= j ==> !occurs_at(hay, needle, j),
        },
    decreases hay.len() + 1 - from,
{
    if from + needle.len() > hay.len() {
    } else if occurs_at(hay, needle, from) {
    } else {
        lemma_find_from(hay, needle, from + 1);
    }
}

/// Whether `needle` stands in `hay` at position `i`.
pub fn is_at(hay: &Vec<char>, needle: &Vec<char>, i: usize) -> (r: bool)
    requires
        i <= hay.len(),
    ensures
        r == occurs_at(hay@, needle@, i as int),
{
    if needle.len() > hay.len() - i {
        return false;
    }
    let mut j: usize = 0;
    while j < needle.len()
        invariant
            i + needle.len() <= hay.len(),
            j <= needle.len(),
            forall|k: int| 0 <= k < j ==> hay[i + k] == needle[k],
        decreases needle.len() - j,
    {
        if hay[i + j] != needle[j] {
            proof {
                if occurs_at(hay@, needle@, i as int) {
                    assert(hay@.subrange(i as int, i + needle.len())[j as int] == hay[i + j]);
                }
            }
            return false;
        }
        j = j + 1;
    }
    assert(hay@.subrange(i as int, i + needle.len()) =~= needle@);
    true
}

/// The first position at or after `from` at which `needle` stands in `hay`.
pub fn find(hay: &Vec<char>, needle: &Vec<char>, from: usize) -> (r: Option<usize>)
    requires
        from <= hay.len(),
    ensures
        match r {
            Some(i) => find_from(hay@, needle@, from as int) == Some(i as int) && from <= i && i
                + needle.len() <= hay.len(),
            None => find_from(hay@, needle@, from as int) == None::<int>,
        },
{
    let mut i: usize = from;
    while needle.len() <= hay.len() - i
        invariant
            from <= i <= hay.len(),
            find_from(hay@, needle@, from as int) == find_from(hay@, needle@, i as int),
        decreases hay.len() - i,
    {
        if is_at(hay, needle, i) {
            return Some(i);
        }
        assert(i < hay.len()) by {
            if i == hay.len() {
                assert(hay@.subrange(i as int, i as int) =~= needle@);
            }
        }
        i = i + 1;
    }
    None
}

/// Whether `needle` stands somewhere in `hay`.
pub fn contains(hay: &str, needle: &str) -> (r: bool)
    ensures
        r == has_text(hay@, needle@),
{
    let h = chars_of(hay);
    let n = chars_of(needle);
    let found = find(&h, &n, 0);
    proof {
        lemma_find_from(h@, n@, 0);
    }
    found.is_some()
}

/// Whether `s` starts with `prefix`.
pub fn starts_with(s: &str, prefix: &str) -> (r: bool)
    ensures
        r == prefix@.is_prefix_of(s@),
{
    let h = chars_of(s);
    let n = chars_of(prefix);
    is_at(&h, &n, 0)
}

/// Whether `s` ends with `suffix`.
pub fn ends_with(s: &str, suffix: &str) -> (r: bool)
    ensures
        r == suffix@.is_suffix_of(s@),
{
    let h = chars_of(s);
    let n = chars_of(suffix);
    if n.len() > h.len() {
        return false;
    }
    is_at(&h, &n, h.len() - n.len())
}

/// What follows `prefix` in `s`, when `s` starts with it.
pub fn strip_prefix(s: &str, prefix: &str) -> (r: Option<String>)
    ensures
        match r {
            Some(rest) => prefix@.is_prefix_of(s@) && rest@ == s@.skip(prefix@.len() as int),
            None => !prefix@.is_prefix_of(s@),
        },
{
    let h = chars_of(s);
    let n = chars_of(prefix);
    if is_at(&h, &n, 0) {
        let rest = text_of(&h, n.len(), h.len());
        assert(rest@ =~= s@.skip(prefix@.len() as int));
        Some(rest)
    } else {
        None
    }
}

/// The position of the first `c` in `s`, or the length of `s`.
pub open spec fn position(s: Seq<char>, c: char) -> int
    decreases s.len(),
{
    if s.len() == 0 || s[0] == c {
        0
    } else {
        1 + position(s.drop_first(), c)
    }
}

/// `position` is the first place at which `c` stands, if any.
pub proof fn lemma_position(s: Seq<char>, c: char)
    ensures
        0 <= position(s, c) <= s.len(),
        position(s, c) < s.len() ==> s[position(s, c)] == c,
        forall|j: int| 0 <= j < position(s, c) ==> s[j] != c,
        position(s, c) < s.len() <==> s.contains(c),
    decreases s.len(),
{
    if s.len() == 0 || s[0] == c {
    } else {
        let t = s.drop_first();
        lemma_position(t, c);
        assert forall|j: int| 0 <= j < position(s, c) implies s[j] != c by {
            if j > 0 {
                assert(t[j - 1] == s[j]);
            }
        }
        if position(s, c) < s.len() {
            assert(t[position(t, c)] == s[position(s, c)]);
        } else {
            assert(forall|j: int| 0 <= j < s.len() ==> s[j] != c);
        }
    }
}

/// A place with no `c` before it that holds `c`, or is the end, is
/// `position`.
pub proof fn lemma_position_is(s: Seq<char>, c: char, i: int)
    requires
        0 <= i <= s.len(),
        i < s.len() ==> s[i] == c,
        forall|j: int| 0 <= j < i ==> s[j] != c,
    ensures
        position(s, c) == i,
{
    lemma_position(s, c);
    let p = position(s, c);
    if p < i {
        assert(s[p] != c);
    } else if i < p {
        assert(s[i] != c);
    }
}

/// The position of the first `c` in `v` at or after `from`, or the length.
pub fn position_of(v: &Vec<char>, c: char, from: usize) -> (i: usize)
    requires
        from <= v.len(),
    ensures
        from <= i <= v.len(),
        i - from == position(v@.skip(from as int), c),
        i < v.len() ==> v[i as int] == c,
        forall|j: int| from <= j < i ==> v[j] != c,
{
    let mut i: usize = from;
    while i < v.len() && v[i] != c
        invariant
            from <= i <= v.len(),
            forall|j: int| from <= j < i ==> v[j] != c,
        decreases v.len() - i,
    {
        i = i + 1;
    }
    proof {
        let s = v@.skip(from as int);
        assert forall|j: int| 0 <= j < i - from implies s[j] != c by {
            assert(s[j] == v[from + j]);
        }
        lemma_position_is(s, c, i - from);
    }
    i
}

// ── Splitting ───────────────────────────────────────────────────────────────

/// The stretches of `s` between the `c`s: one more than there are `c`s.
pub open spec fn split(s: Seq<char>, c: char) -> Seq<Seq<char>>
    decreases s.len(),
    via split_decreases
{
    let i = position(s, c);
    if i >= s.len() {
        seq![s]
    } else {
        seq![s.take(i)] + split(s.skip(i + 1), c)
    }
}

#[via_fn]
proof fn split_decreases(s: Seq<char>, c: char) {
    lemma_position(s, c);
}

/// The stretches of `s` between the `c`s.
pub fn split_on(s: &str, c: char) -> (out: Vec<String>)
    ensures
        texts(out@) == split(s@, c),
        out.len() > 0,
{
    let v = chars_of(s);
    let mut out: Vec<String> = Vec::new();
    let mut start: usize = 0;
    assert(v@.skip(0) =~= s@);
    assert(texts(out@) + split(s@, c) =~= split(s@, c));
    loop
        invariant_except_break
            v@ == s@,
            start <= v.len(),
            split(s@, c) == texts(out@) + split(v@.skip(start as int), c),
        ensures
            texts(out@) == split(s@, c),
            out.len() > 0,
        decreases v.len() - start,
    {
        let end: usize = position_of(&v, c, start);
        let piece = text_of(&v, start, end);
        let ghost before = texts(out@);
        let ghost rest = v@.skip(start as int);
        out.push(piece);
        assert(texts(out@) =~= before.push(piece@));
        if end == v.len() {
            assert(piece@ =~= rest);
            assert(before + seq![rest] =~= texts(out@));
            break;
        }
        proof {
            assert(piece@ =~= rest.take(end - start));
            assert(rest.skip(end - start + 1) =~= v@.skip(end + 1));
            assert(before + (seq![piece@] + split(v@.skip(end + 1), c)) =~= texts(out@) + split(
                v@.skip(end + 1),
                c,
            ));
        }
        start = end + 1;
    }
    out
}

/// `s` without the carriage return it ends with, if it does.
pub open spec fn strip_cr(s: Seq<char>) -> Seq<char> {
    if s.len() > 0 && s.last() == '\r' {
        s.drop_last()
    } else {
        s
    }
}

/// The lines of `s`: each ended by a line feed, with or without a carriage
/// return before it, or by the end of a text that does not end in one.
pub open spec fn lines(s: Seq<char>) -> Seq<Seq<char>>
    decreases s.len(),
    via lines_decreases
{
    let i = position(s, '\n');
    if s.len() == 0 {
        Seq::empty()
    } else if i >= s.len() {
        seq![s]
    } else {
        seq![strip_cr(s.take(i))] + lines(s.skip(i + 1))
    }
}

#[via_fn]
proof fn lines_decreases(s: Seq<char>) {
    lemma_position(s, '\n');
}

/// The lines of `s`.
pub fn lines_of(s: &str) -> (out: Vec<String>)
    ensures
        texts(out@) == lines(s@),
{
    let v = chars_of(s);
    let mut out: Vec<String> = Vec::new();
    let mut start: usize = 0;
    assert(v@.skip(0) =~= s@);
    assert(texts(out@) + lines(s@) =~= lines(s@));
    while start < v.len()
        invariant
            v@ == s@,
            start <= v.len(),
            lines(s@) == texts(out@) + lines(v@.skip(start as int)),
        decreases v.len() - start,
    {
        let end: usize = position_of(&v, '\n', start);
        let ghost before = texts(out@);
        let ghost rest = v@.skip(start as int);
        if end == v.len() {
            let piece = text_of(&v, start, end);
            out.push(piece);
            proof {
                assert(texts(out@) =~= before.push(piece@));
                assert(piece@ =~= rest);
                assert(v@.skip(end as int) =~= Seq::empty());
                assert(before + seq![rest] =~= texts(out@) + lines(v@.skip(end as int)));
            }
            start = end;
        } else {
            let stop: usize = if end > start && v[end - 1] == '\r' {
                end - 1
            } else {
                end
            };
            let piece = text_of(&v, start, stop);
            out.push(piece);
            proof {
                assert(texts(out@) =~= before.push(piece@));
                assert(piece@ =~= strip_cr(rest.take(end - start)));
                assert(rest.skip(end - start + 1) =~= v@.skip(end + 1));
                assert(before + (seq![piece@] + lines(v@.skip(end + 1))) =~= texts(out@) + lines(
                    v@.skip(end + 1),
                ));
            }
            start = end + 1;
        }
    }
    proof {
        assert(v@.skip(start as int) =~= Seq::empty());
        assert(texts(out@) + Seq::empty() =~= texts(out@));
    }
    out
}

// ── Trimming ────────────────────────────────────────────────────────────────

/// The characters with the Unicode property White_Space.
pub open spec fn white_space(c: char) -> bool {
    ||| '\u{9}' <= c <= '\u{d}'
    ||| c == ' '
    ||| c == '\u{85}'
    ||| c == '\u{a0}'
    ||| c == '\u{1680}'
    ||| '\u{2000}' <= c <= '\u{200a}'
    ||| c == '\u{2028}'
    ||| c == '\u{2029}'
    ||| c == '\u{202f}'
    ||| c == '\u{205f}'
    ||| c == '\u{3000}'
}

/// Whether `c` is white space.
pub fn is_white_space(c: char) -> (r: bool)
    ensures
        r == white_space(c),
{
    ('\u{9}' <= c && c <= '\u{d}') || c == ' ' || c == '\u{85}' || c == '\u{a0}' || c
        == '\u{1680}' || ('\u{2000}' <= c && c <= '\u{200a}') || c == '\u{2028}' || c
        == '\u{2029}' || c == '\u{202f}' || c == '\u{205f}' || c == '\u{3000}'
}

/// `s` without the white space it starts with.
pub open spec fn trim_start(s: Seq<char>) -> Seq<char>
    decreases s.len(),
{
    if s.len() > 0 && white_space(s[0]) {
        trim_start(s.drop_first())
    } else {
        s
    }
}

/// `s` without the white space it ends with.
pub open spec fn trim_end(s: Seq<char>) -> Seq<char>
    decreases s.len(),
{
    if s.len() > 0 && white_space(s.last()) {
        trim_end(s.drop_last())
    } else {
        s
    }
}

/// `s` without the white space around it.
pub open spec fn trim(s: Seq<char>) -> Seq<char> {
    trim_end(trim_start(s))
}

/// `s` without the white space around it.
pub fn trimmed(s: &str) -> (out: String)
    ensures
        out@ == trim(s@),
{
    let v = chars_of(s);
    let mut from: usize = 0;
    assert(v@.skip(0) =~= v@);
    while from < v.len() && is_white_space(v[from])
        invariant
            from <= v.len(),
            trim_start(v@) == trim_start(v@.skip(from as int)),
        decreases v.len() - from,
    {
        assert(v@.skip(from as int).drop_first() =~= v@.skip(from + 1));
        from = from + 1;
    }
    let ghost rest = v@.skip(from as int);
    let mut to: usize = v.len();
    assert(v@.subrange(from as int, to as int) =~= rest);
    while to > from && is_white_space(v[to - 1])
        invariant
            from <= to <= v.len(),
            trim_end(rest) == trim_end(v@.subrange(from as int, to as int)),
        decreases to,
    {
        assert(v@.subrange(from as int, to as int).drop_last() =~= v@.subrange(
            from as int,
            to - 1,
        ));
        to = to - 1;
    }
    text_of(&v, from, to)
}

// ── Numbers ─────────────────────────────────────────────────────────────────

/// The character of a decimal or lowercase hexadecimal digit.
pub open spec fn digit_char(d: nat) -> char {
    if d < 10 {
        ('0' as int + d) as char
    } else {
        ('a' as int + d - 10) as char
    }
}

/// The character of a hexadecimal digit, uppercase.
pub open spec fn digit_char_upper(d: nat) -> char {
    if d < 10 {
        ('0' as int + d) as char
    } else {
        ('A' as int + d - 10) as char
    }
}

/// `n` in decimal.
pub open spec fn decimal(n: nat) -> Seq<char>
    decreases n,
{
    if n < 10 {
        seq![digit_char(n)]
    } else {
        decimal(n / 10).push(digit_char(n % 10))
    }
}

/// The last `width` lowercase hexadecimal digits of `n`.
pub open spec fn hex_digits(n: nat, width: nat) -> Seq<char>
    decreases width,
{
    if width == 0 {
        Seq::empty()
    } else {
        hex_digits(n / 16, (width - 1) as nat).push(digit_char(n % 16))
    }
}

/// The last `width` uppercase hexadecimal digits of `n`.
pub open spec fn hex_digits_upper(n: nat, width: nat) -> Seq<char>
    decreases width,
{
    if width == 0 {
        Seq::empty()
    } else {
        hex_digits_upper(n / 16, (width - 1) as nat).push(digit_char_upper(n % 16))
    }
}

/// The character of a digit below sixteen.
pub fn digit(d: u8) -> (c: char)
    requires
        d < 16,
    ensures
        c == digit_char(d as nat),
{
    if d < 10 {
        (48 + d) as char
    } else {
        (87 + d) as char
    }
}

/// The character of a digit below sixteen, uppercase.
pub fn digit_upper(d: u8) -> (c: char)
    requires
        d < 16,
    ensures
        c == digit_char_upper(d as nat),
{
    if d < 10 {
        (48 + d) as char
    } else {
        (55 + d) as char
    }
}

/// `n` in decimal.
pub fn decimal_of(n: u64) -> (out: String)
    ensures
        out@ == decimal(n as nat),
    decreases n,
{
    if n < 10 {
        let mut out = String::new();
        out.push(digit(n as u8));
        assert(out@ =~= seq![digit_char(n as nat)]);
        out
    } else {
        let mut out = decimal_of(n / 10);
        out.push(digit((n % 10) as u8));
        out
    }
}

/// The last `width` lowercase hexadecimal digits of `n`.
pub fn hex_of(n: u32, width: u32) -> (out: String)
    ensures
        out@ == hex_digits(n as nat, width as nat),
    decreases width,
{
    if width == 0 {
        String::new()
    } else {
        let mut out = hex_of(n / 16, width - 1);
        out.push(digit((n % 16) as u8));
        out
    }
}

/// The last `width` uppercase hexadecimal digits of `n`.
pub fn hex_upper_of(n: u32, width: u32) -> (out: String)
    ensures
        out@ == hex_digits_upper(n as nat, width as nat),
    decreases width,
{
    if width == 0 {
        String::new()
    } else {
        let mut out = hex_upper_of(n / 16, width - 1);
        out.push(digit_upper((n % 16) as u8));
        out
    }
}

/// `c` is a decimal digit.
pub open spec fn is_digit(c: char) -> bool {
    '0' <= c <= '9'
}

/// `c` is a hexadecimal digit in either case.
pub open spec fn is_hex_digit(c: char) -> bool {
    is_digit(c) || 'a' <= c <= 'f' || 'A' <= c <= 'F'
}

/// The value of a hexadecimal digit.
pub open spec fn digit_value(c: char) -> nat {
    if is_digit(c) {
        (c as int - '0' as int) as nat
    } else if 'a' <= c <= 'f' {
        (c as int - 'a' as int + 10) as nat
    } else {
        (c as int - 'A' as int + 10) as nat
    }
}

/// Every character of `s` is a digit of the given base (ten or sixteen).
pub open spec fn all_digits(s: Seq<char>, base: nat) -> bool {
    forall|i: int|
        0 <= i < s.len() ==> is_hex_digit(#[trigger] s[i]) && digit_value(s[i]) < base
}

/// The number that the digits `s` write.
pub open spec fn digits_value(s: Seq<char>, base: nat) -> nat
    decreases s.len(),
{
    if s.len() == 0 {
        0
    } else {
        digits_value(s.drop_last(), base) * base + digit_value(s.last())
    }
}

/// `s` without the plus sign it starts with, if it does.
pub open spec fn strip_plus(s: Seq<char>) -> Seq<char> {
    if s.len() > 0 && s[0] == '+' {
        s.drop_first()
    } else {
        s
    }
}

/// The number that `s` writes: an optional plus sign, then digits only, not
/// above `max`.
pub open spec fn number(s: Seq<char>, base: nat, max: nat) -> Option<nat> {
    let digits = strip_plus(s);
    if digits.len() > 0 && all_digits(digits, base) && digits_value(digits, base) <= max {
        Some(digits_value(digits, base))
    } else {
        None
    }
}

/// More digits never make a smaller number.
proof fn lemma_digits_value_grows(s: Seq<char>, base: nat, n: int)
    requires
        0 <= n <= s.len(),
        base >= 1,
    ensures
        digits_value(s.take(n), base) <= digits_value(s, base),
    decreases s.len() - n,
{
    if n == s.len() {
        assert(s.take(n) =~= s);
    } else {
        lemma_digits_value_grows(s, base, n + 1);
        let longer = s.take(n + 1);
        assert(longer.drop_last() =~= s.take(n));
        let v = digits_value(s.take(n), base);
        assert(v <= v * base) by (nonlinear_arith)
            requires
                base >= 1,
        ;
    }
}

/// The value of `c` as a digit of the base, if it is one.
pub fn value_of_digit(c: char, base: u32) -> (r: Option<u32>)
    requires
        2 <= base <= 16,
    ensures
        match r {
            Some(d) => is_hex_digit(c) && digit_value(c) == d && d < base,
            None => !(is_hex_digit(c) && digit_value(c) < base),
        },
{
    let d: u32 = if '0' <= c && c <= '9' {
        c as u32 - 48
    } else if 'a' <= c && c <= 'f' {
        c as u32 - 87
    } else if 'A' <= c && c <= 'F' {
        c as u32 - 55
    } else {
        return None;
    };
    if d < base {
        Some(d)
    } else {
        None
    }
}

/// The number that `s` writes in the given base, when it is one not above
/// `max`.
pub fn number_of(s: &str, base: u32, max: u32) -> (r: Option<u32>)
    requires
        2 <= base <= 16,
    ensures
        match r {
            Some(n) => number(s@, base as nat, max as nat) == Some(n as nat),
            None => number(s@, base as nat, max as nat) == None::<nat>,
        },
{
    let v = chars_of(s);
    let from: usize = if v.len() > 0 && v[0] == '+' {
        1
    } else {
        0
    };
    let ghost digits = strip_plus(s@);
    assert(digits =~= v@.skip(from as int));
    if from == v.len() {
        return None;
    }
    let mut value: u64 = 0;
    let mut i: usize = from;
    assert(digits.take(0) =~= Seq::empty());
    while i < v.len()
        invariant
            from <= i <= v.len(),
            2 <= base <= 16,
            v@ == s@,
            digits == strip_plus(s@),
            digits == v@.skip(from as int),
            digits.len() > 0,
            value == digits_value(digits.take(i - from), base as nat),
            value <= max,
            forall|j: int|
                0 <= j < i - from ==> is_hex_digit(#[trigger] digits[j]) && digit_value(digits[j])
                    < base,
        decreases v.len() - i,
    {
        assert(digits[i - from] == v[i as int]);
        match value_of_digit(v[i], base) {
            None => {
                assert(!all_digits(digits, base as nat));
                return None;
            },
            Some(d) => {
                assert(value * base <= 0xffff_ffff * 16) by (nonlinear_arith)
                    requires
                        value <= 0xffff_ffff,
                        base <= 16,
                ;
                let next: u64 = value * (base as u64) + d as u64;
                proof {
                    let longer = digits.take(i - from + 1);
                    assert(longer.drop_last() =~= digits.take(i - from));
                    assert(longer.last() == v[i as int]);
                    assert(next == digits_value(longer, base as nat));
                    lemma_digits_value_grows(digits, base as nat, i - from + 1);
                }
                if next > max as u64 {
                    return None;
                }
                value = next;
            },
        }
        i = i + 1;
    }
    assert(digits.take(v.len() - from) =~= digits);
    Some(value as u32)
}

// ── Joining ─────────────────────────────────────────────────────────────────

/// The uppercase hexadecimal digits of `n`, without leading zeros.
pub open spec fn hex_upper(n: nat) -> Seq<char>
    decreases n,
{
    if n < 16 {
        seq![digit_char_upper(n)]
    } else {
        hex_upper(n / 16).push(digit_char_upper(n % 16))
    }
}

/// The uppercase hexadecimal digits of `n`, without leading zeros.
pub fn hex_upper_short(n: u32) -> (out: String)
    ensures
        out@ == hex_upper(n as nat),
    decreases n,
{
    let last: char = digit_upper((n % 16) as u8);
    if n < 16 {
        let mut out = String::new();
        out.push(last);
        assert(out@ =~= hex_upper(n as nat));
        out
    } else {
        let mut out = hex_upper_short(n / 16);
        out.push(last);
        out
    }
}

/// The decimal digits of `n`, behind a minus sign where it is negative.
pub open spec fn signed_decimal(n: int) -> Seq<char> {
    if n < 0 {
        "-"@ + decimal((-n) as nat)
    } else {
        decimal(n as nat)
    }
}

/// The decimal digits of `n`, behind a minus sign where it is negative.
pub fn signed_of(n: i32) -> (out: String)
    ensures
        out@ == signed_decimal(n as int),
{
    if n < 0 {
        let mut out = String::from_str("-");
        out.append(decimal_of((-(n as i64)) as u64).as_str());
        out
    } else {
        decimal_of(n as u64)
    }
}

/// The lowercase form of an ASCII letter; any other character itself.
pub open spec fn ascii_lower(c: char) -> char {
    if 'A' <= c <= 'Z' {
        (c as int + 32) as char
    } else {
        c
    }
}

/// `s` with its ASCII letters in lowercase.
pub open spec fn ascii_lowercase(s: Seq<char>) -> Seq<char> {
    s.map_values(|c: char| ascii_lower(c))
}

/// `s` with its ASCII letters in lowercase.
pub fn to_ascii_lowercase(s: &str) -> (out: String)
    ensures
        out@ == ascii_lowercase(s@),
{
    let v = chars_of(s);
    let mut out = String::new();
    let mut i: usize = 0;
    let ghost want = ascii_lowercase(s@);
    assert(want.take(0) =~= Seq::empty());
    while i < v.len()
        invariant
            i <= v.len(),
            v@ == s@,
            want == ascii_lowercase(s@),
            out@ == want.take(i as int),
        decreases v.len() - i,
    {
        let c: char = v[i];
        let low: char = if 'A' <= c && c <= 'Z' {
            ((c as u8) + 32) as char
        } else {
            c
        };
        out.push(low);
        assert(want.take(i + 1) =~= want.take(i as int).push(want[i as int]));
        i = i + 1;
    }
    assert(want.take(v.len() as int) =~= want);
    out
}

/// `true` or `false` as text.
pub open spec fn bool_text(b: bool) -> Seq<char> {
    if b {
        "true"@
    } else {
        "false"@
    }
}

/// `true` or `false` as text.
pub fn bool_of(b: bool) -> (out: &'static str)
    ensures
        out@ == bool_text(b),
{
    if b {
        "true"
    } else {
        "false"
    }
}

/// The texts of `parts` with `sep` between them.
pub open spec fn join(parts: Seq<Seq<char>>, sep: Seq<char>) -> Seq<char>
    decreases parts.len(),
{
    if parts.len() == 0 {
        Seq::empty()
    } else if parts.len() == 1 {
        parts[0]
    } else {
        join(parts.drop_last(), sep) + sep + parts.last()
    }
}

/// The texts of `parts` with `sep` between them.
pub fn join_with(parts: &Vec<String>, sep: &str) -> (out: String)
    ensures
        out@ == join(texts(parts@), sep@),
{
    let mut out = String::new();
    let mut i: usize = 0;
    let ghost all = texts(parts@);
    assert(all.take(0) =~= Seq::empty());
    while i < parts.len()
        invariant
            i <= parts.len(),
            all == texts(parts@),
            out@ == join(all.take(i as int), sep@),
        decreases parts.len() - i,
    {
        if i > 0 {
            out.append(sep);
        }
        out.append(parts[i].as_str());
        proof {
            assert(all.take(i + 1).drop_last() =~= all.take(i as int));
            assert(all.take(i + 1).last() == parts[i as int]@);
            if i == 0 {
                assert(out@ =~= all.take(1)[0]);
            }
        }
        i = i + 1;
    }
    assert(all.take(parts.len() as int) =~= all);
    out
}

/// `s` with every `from` made a `to`.
pub open spec fn replace(s: Seq<char>, from: char, to: char) -> Seq<char> {
    s.map_values(|c: char| if c == from { to } else { c })
}

/// `s` with every `from` made a `to`.
pub fn replaced(s: &str, from: char, to: char) -> (out: String)
    ensures
        out@ == replace(s@, from, to),
{
    let v = chars_of(s);
    let mut out = String::new();
    let mut i: usize = 0;
    while i < v.len()
        invariant
            i <= v.len(),
            v@ == s@,
            out@ == replace(s@.take(i as int), from, to),
        decreases v.len() - i,
    {
        let c: char = v[i];
        out.push(if c == from { to } else { c });
        assert(replace(s@.take(i + 1), from, to) =~= replace(s@.take(i as int), from, to).push(
            if c == from { to } else { c },
        ));
        i = i + 1;
    }
    assert(s@.take(v.len() as int) =~= s@);
    out
}

// ── Lines put together ──────────────────────────────────────────────────────

/// The lines `list`, each ended by a line feed.
pub open spec fn unlines(list: Seq<Seq<char>>) -> Seq<char>
    decreases list.len(),
{
    if list.len() == 0 {
        Seq::empty()
    } else {
        unlines(list.drop_last()) + list.last() + seq!['\n']
    }
}

/// A text that can stand as a line: it holds no line feed and does not end in
/// a carriage return.
pub open spec fn is_line(s: Seq<char>) -> bool {
    &&& forall|i: int| 0 <= i < s.len() ==> #[trigger] s[i] != '\n'
    &&& s.len() > 0 ==> s.last() != '\r'
}

/// The first line of a text is what stands before its first line feed.
pub proof fn lemma_first_line(line: Seq<char>, rest: Seq<char>)
    requires
        is_line(line),
    ensures
        lines(line + seq!['\n'] + rest) == seq![line] + lines(rest),
{
    let s = line + seq!['\n'] + rest;
    assert(s[line.len() as int] == '\n');
    lemma_position_is(s, '\n', line.len() as int);
    assert(s.take(line.len() as int) =~= line);
    assert(s.skip(line.len() as int + 1) =~= rest);
}

/// The lines that were put together come apart again, before whatever
/// follows.
pub proof fn lemma_lines_of_unlines(list: Seq<Seq<char>>, rest: Seq<char>)
    requires
        forall|i: int| 0 <= i < list.len() ==> is_line(#[trigger] list[i]),
    ensures
        lines(unlines(list) + rest) == list + lines(rest),
    decreases list.len(),
{
    if list.len() == 0 {
        assert(unlines(list) + rest =~= rest);
        assert(list + lines(rest) =~= lines(rest));
    } else {
        let front = list.drop_last();
        let last = list.last();
        let tail = last + seq!['\n'] + rest;
        assert(unlines(list) + rest =~= unlines(front) + tail);
        assert forall|i: int| 0 <= i < front.len() implies is_line(#[trigger] front[i]) by {
            assert(front[i] == list[i]);
        }
        lemma_lines_of_unlines(front, tail);
        assert(is_line(list[list.len() - 1]));
        lemma_first_line(last, rest);
        assert(front + (seq![last] + lines(rest)) =~= list + lines(rest));
    }
}

// ── Facts about trimming ────────────────────────────────────────────────────

/// A text without white space at either end is its own trimmed form.
pub proof fn lemma_trim_of_trimmed(s: Seq<char>)
    requires
        s.len() > 0 ==> !white_space(s[0]) && !white_space(s.last()),
    ensures
        trim(s) == s,
{
}

/// White space before a trimmed text does not count.
pub proof fn lemma_trim_of_indented(s: Seq<char>)
    requires
        s.len() > 0 ==> !white_space(s[0]) && !white_space(s.last()),
    ensures
        trim(seq![' '] + s) == s,
{
    let t = seq![' '] + s;
    assert(t.drop_first() =~= s);
    assert(trim_start(t) == trim_start(s));
    lemma_trim_of_trimmed(s);
}

// ── Facts about decimal numbers ─────────────────────────────────────────────

/// The digits of a decimal number are digits, and write that number.
pub proof fn lemma_decimal(n: nat)
    ensures
        decimal(n).len() > 0,
        all_digits(decimal(n), 10),
        digits_value(decimal(n), 10) == n,
        forall|i: int| 0 <= i < decimal(n).len() ==> is_digit(#[trigger] decimal(n)[i]),
    decreases n,
{
    if n < 10 {
        assert(decimal(n).drop_last() =~= Seq::empty());
        assert(digits_value(decimal(n).drop_last(), 10) == 0);
        assert(decimal(n).last() == digit_char(n));
        assert(digit_value(digit_char(n)) == n);
    } else {
        lemma_decimal(n / 10);
        let front = decimal(n / 10);
        let d = digit_char(n % 10);
        assert(decimal(n).drop_last() =~= front);
        assert(digit_value(d) == n % 10);
        assert forall|i: int| 0 <= i < decimal(n).len() implies is_digit(#[trigger] decimal(n)[i]) by {
            if i < front.len() {
                assert(decimal(n)[i] == front[i]);
            }
        }
    }
}

/// A decimal number reads back from what it is written as.
pub proof fn lemma_number_of_decimal(n: nat, max: nat)
    requires
        n <= max,
    ensures
        number(decimal(n), 10, max) == Some(n),
{
    lemma_decimal(n);
    assert(is_digit(decimal(n)[0]));
}

// ── Padding ─────────────────────────────────────────────────────────────────

/// The number of texts of `width` hexadecimal digits.
pub open spec fn hex_range(width: nat) -> nat
    decreases width,
{
    if width == 0 {
        1
    } else {
        16 * hex_range((width - 1) as nat)
    }
}

/// Hexadecimal digits say the number that they were written for.
pub proof fn lemma_hex_digits(n: nat, width: nat)
    requires
        n < hex_range(width),
    ensures
        hex_digits_upper(n, width).len() == width,
        all_digits(hex_digits_upper(n, width), 16),
        digits_value(hex_digits_upper(n, width), 16) == n,
        forall|i: int| 0 <= i < width ==> is_hex_digit(#[trigger] hex_digits_upper(n, width)[i]),
    decreases width,
{
    if width > 0 {
        let front = hex_digits_upper(n / 16, (width - 1) as nat);
        let last = digit_char_upper(n % 16);
        lemma_hex_digits(n / 16, (width - 1) as nat);
        assert(hex_digits_upper(n, width).drop_last() =~= front);
        assert(digit_value(last) == n % 16);
    }
}

/// `n` copies of a character.
pub open spec fn run_of(c: char, n: nat) -> Seq<char> {
    Seq::new(n, |i: int| c)
}

/// `s` with as many `c` before it as it is shorter than `width`.
pub open spec fn pad_left(s: Seq<char>, c: char, width: nat) -> Seq<char> {
    if s.len() >= width {
        s
    } else {
        run_of(c, (width - s.len()) as nat) + s
    }
}

/// `s` with as many `c` behind it as it is shorter than `width`.
pub open spec fn pad_right(s: Seq<char>, c: char, width: nat) -> Seq<char> {
    if s.len() >= width {
        s
    } else {
        s + run_of(c, (width - s.len()) as nat)
    }
}

/// `s` with as many `c` before it as it is shorter than `width`.
pub fn padded_left(s: &str, c: char, width: usize) -> (out: String)
    ensures
        out@ == pad_left(s@, c, width as nat),
{
    let n: usize = s.unicode_len();
    let mut out = String::new();
    let mut i: usize = n;
    while i < width
        invariant
            n <= i,
            i <= width || i == n,
            out@ == run_of(c, (i - n) as nat),
        decreases width - i,
    {
        out.push(c);
        assert(out@ =~= run_of(c, (i + 1 - n) as nat));
        i = i + 1;
    }
    out.append(s);
    assert(out@ =~= pad_left(s@, c, width as nat));
    out
}

/// `s` with as many `c` behind it as it is shorter than `width`.
pub fn padded_right(s: &str, c: char, width: usize) -> (out: String)
    ensures
        out@ == pad_right(s@, c, width as nat),
{
    let n: usize = s.unicode_len();
    let mut out = String::from_str(s);
    let mut i: usize = n;
    assert(out@ =~= s@ + run_of(c, 0));
    while i < width
        invariant
            n == s@.len(),
            n <= i,
            i <= width || i == n,
            out@ == s@ + run_of(c, (i - n) as nat),
        decreases width - i,
    {
        out.push(c);
        assert(out@ =~= s@ + run_of(c, (i + 1 - n) as nat));
        i = i + 1;
    }
    assert(out@ =~= pad_right(s@, c, width as nat));
    out
}

} // verus!
