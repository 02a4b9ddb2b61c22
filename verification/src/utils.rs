//! Glob patterns, JSON strings and the numbers of the command line.
use vstd::prelude::*;
use vstd::string::*;
use crate::text::{
    all_digits, chars_of, contains, digit_char, digit_value, digits_value, find, find_from, has_text,
    hex_digits, hex_of, hex_range, is_at, join, join_with, lemma_find_from, lemma_position, occurs_at,
    position, split, split_on, texts, trim, trimmed,
};

verus! {

/// `pattern` matches the whole of `s`: a star stands for any run of
/// characters, also none, every other character for itself.
pub open spec fn glob(s: Seq<char>, pattern: Seq<char>) -> bool
    decreases pattern.len(), s.len(),
{
    if pattern.len() == 0 {
        s.len() == 0
    } else if pattern[0] == '*' {
        glob(s, pattern.drop_first()) || (s.len() > 0 && glob(s.drop_first(), pattern))
    } else {
        s.len() > 0 && s[0] == pattern[0] && glob(s.drop_first(), pattern.drop_first())
    }
}

/// `pattern` matches what is left of `s` without some of its start.
spec fn behind_star(s: Seq<char>, pattern: Seq<char>) -> bool {
    exists|k: int| 0 <= k <= s.len() && #[trigger] glob(s.skip(k), pattern)
}

/// A star swallows some of the start, whatever follows it.
proof fn lemma_star(s: Seq<char>, p: Seq<char>)
    requires
        p.len() > 0,
        p[0] == '*',
    ensures
        glob(s, p) == behind_star(s, p.drop_first()),
    decreases s.len(),
{
    let q = p.drop_first();
    assert(s.skip(0) =~= s);
    if glob(s, q) {
        assert(glob(s.skip(0), q));
    }
    if s.len() > 0 {
        let t = s.drop_first();
        lemma_star(t, p);
        if behind_star(t, q) {
            let k = choose|k: int| 0 <= k <= t.len() && #[trigger] glob(t.skip(k), q);
            assert(t.skip(k) =~= s.skip(k + 1));
            assert(glob(s.skip(k + 1), q));
        }
        if behind_star(s, q) {
            let k = choose|k: int| 0 <= k <= s.len() && #[trigger] glob(s.skip(k), q);
            if k > 0 {
                assert(t.skip(k - 1) =~= s.skip(k));
                assert(glob(t.skip(k - 1), q));
            }
        }
    } else if behind_star(s, q) {
        let k = choose|k: int| 0 <= k <= s.len() && #[trigger] glob(s.skip(k), q);
        assert(s.skip(k) =~= s);
    }
}

/// A stretch without stars stands for itself, then a star follows or the end.
proof fn lemma_stretch(s: Seq<char>, p: Seq<char>)
    ensures
        ({
            let i = position(p, '*');
            let n = i as int;
            if i >= p.len() {
                glob(s, p) == (s == p)
            } else {
                glob(s, p) == (p.take(i).is_prefix_of(s) && behind_star(s.skip(n), p.skip(i + 1)))
            }
        }),
    decreases p.len(),
{
    lemma_position(p, '*');
    let i = position(p, '*');
    if p.len() == 0 {
        if s.len() == 0 {
            assert(s =~= p);
        }
    } else if p[0] == '*' {
        lemma_star(s, p);
        assert(p.skip(1) =~= p.drop_first());
        assert(s.skip(0) =~= s);
        assert(s.subrange(0, 0) =~= p.take(0));
    } else {
        let q = p.drop_first();
        lemma_position(q, '*');
        assert(i == position(q, '*') + 1);
        if s.len() > 0 {
            let t = s.drop_first();
            lemma_stretch(t, q);
            if i >= p.len() {
                if s == p {
                    assert(t =~= q);
                }
                if s[0] == p[0] && t == q {
                    assert(s =~= seq![s[0]] + t);
                    assert(p =~= seq![p[0]] + q);
                }
            } else {
                assert(p.skip(i + 1) =~= q.skip(i));
                assert(p.take(i) =~= seq![p[0]] + q.take(i - 1));
                if i <= s.len() {
                    assert(s.skip(i) =~= t.skip(i - 1));
                    assert(s.subrange(0, i) =~= seq![s[0]] + t.subrange(0, i - 1));
                    assert(seq![s[0]] + t.subrange(0, i - 1) == seq![p[0]] + q.take(i - 1) <==> s[0]
                        == p[0] && t.subrange(0, i - 1) == q.take(i - 1)) by {
                        if seq![s[0]] + t.subrange(0, i - 1) == seq![p[0]] + q.take(i - 1) {
                            assert((seq![s[0]] + t.subrange(0, i - 1))[0] == (seq![p[0]] + q.take(
                                i - 1,
                            ))[0]);
                            assert(t.subrange(0, i - 1) =~= (seq![s[0]] + t.subrange(
                                0,
                                i - 1,
                            )).drop_first());
                            assert(q.take(i - 1) =~= (seq![p[0]] + q.take(i - 1)).drop_first());
                        }
                    }
                }
            }
        } else if i >= p.len() {
            assert(s != p);
        }
    }
}

/// Once a star may swallow a start, a longer text matches too.
proof fn lemma_longer(s: Seq<char>, d: int, p: Seq<char>)
    requires
        0 <= d <= s.len(),
        behind_star(s.skip(d), p),
    ensures
        behind_star(s, p),
{
    let t = s.skip(d);
    let k = choose|k: int| 0 <= k <= t.len() && #[trigger] glob(t.skip(k), p);
    assert(t.skip(k) =~= s.skip(d + k));
    assert(glob(s.skip(d + k), p));
}

/// Behind a star, taking the next stretch where it first stands loses no
/// match.
proof fn lemma_first_is_enough(s: Seq<char>, from: int, p: Seq<char>)
    requires
        0 <= from <= s.len(),
        position(p, '*') < p.len(),
    ensures
        ({
            let i = position(p, '*');
            behind_star(s.skip(from), p) == (match find_from(s, p.take(i), from) {
                Some(at) => behind_star(s.skip(at + i), p.skip(i + 1)),
                None => false,
            })
        }),
{
    lemma_position(p, '*');
    let n = position(p, '*');
    let first = p.take(n);
    let tail = p.skip(n + 1);
    let t = s.skip(from);
    lemma_find_from(s, first, from);
    if behind_star(t, p) {
        let k = choose|k: int| 0 <= k <= t.len() && #[trigger] glob(t.skip(k), p);
        let u = t.skip(k);
        lemma_stretch(u, p);
        assert(s.subrange(from + k, from + k + n) =~= u.subrange(0, n));
        assert(occurs_at(s, first, from + k));
        let at = find_from(s, first, from)->Some_0;
        assert(u.skip(n) =~= s.skip(at + n).skip(from + k - at));
        lemma_longer(s.skip(at + n), from + k - at, tail);
    }
    if find_from(s, first, from) is Some {
        let at = find_from(s, first, from)->Some_0;
        if behind_star(s.skip(at + n), tail) {
            let u = t.skip(at - from);
            assert(u =~= s.skip(at));
            assert(u.subrange(0, n) =~= s.subrange(at, at + n));
            assert(u.skip(n) =~= s.skip(at + n));
            lemma_stretch(u, p);
            assert(glob(t.skip(at - from), p));
        }
    }
}

/// Behind a star, the last stretch stands at the end.
proof fn lemma_last_is_suffix(s: Seq<char>, p: Seq<char>)
    requires
        position(p, '*') >= p.len(),
    ensures
        behind_star(s, p) == p.is_suffix_of(s),
{
    if behind_star(s, p) {
        let k = choose|k: int| 0 <= k <= s.len() && #[trigger] glob(s.skip(k), p);
        lemma_stretch(s.skip(k), p);
        assert(s.subrange(s.len() - p.len(), s.len() as int) =~= s.skip(k));
    }
    if p.is_suffix_of(s) {
        let k = s.len() - p.len();
        assert(s.skip(k) =~= s.subrange(k, s.len() as int));
        lemma_stretch(s.skip(k), p);
        assert(glob(s.skip(k), p));
    }
}

/// The stretches of a pattern: the first, and those behind its first star.
proof fn lemma_split_front(p: Seq<char>, parts: Seq<Seq<char>>)
    requires
        parts == split(p, '*'),
    ensures
        parts.len() > 0,
        parts[0] == p.take(position(p, '*')),
        parts.len() == 1 <==> position(p, '*') >= p.len(),
        parts.len() > 1 ==> parts.drop_first() == split(p.skip(position(p, '*') + 1), '*'),
{
    lemma_position(p, '*');
    let i = position(p, '*');
    if i >= p.len() {
        assert(p.take(i) =~= p);
    } else {
        let rest = split(p.skip(i + 1), '*');
        assert(rest.len() > 0);
        assert(parts.drop_first() =~= rest);
    }
}

/// Glob-like match: `*` matches any run of characters (including `/`); a
/// pattern without `*` is a substring match.
pub fn matches_pattern(path: &str, pattern: &str) -> (r: bool)
    ensures
        r == (if pattern@.contains('*') {
            glob(path@, pattern@)
        } else {
            has_text(path@, pattern@)
        }),
{
    let parts = split_on(pattern, '*');
    let ghost all = split(pattern@, '*');
    proof {
        lemma_position(pattern@, '*');
        lemma_split_front(pattern@, all);
        assert(all.len() == parts.len());
    }
    if parts.len() == 1 {
        return contains(path, pattern);
    }
    let v = chars_of(path);
    let first = chars_of(parts[0].as_str());
    proof {
        assert(all[0] == first@);
        lemma_stretch(path@, pattern@);
        assert(first@.is_prefix_of(path@) == occurs_at(path@, first@, 0));
    }
    if !is_at(&v, &first, 0) {
        return false;
    }
    let mut pos: usize = first.len();
    let mut n: usize = 1;
    let ghost mut rest: Seq<char> = pattern@.skip(position(pattern@, '*') + 1);
    assert(all.skip(1) =~= all.drop_first());
    while n < parts.len() - 1
        invariant
            1 <= n <= parts.len() - 1,
            v@ == path@,
            all == texts(parts@),
            pos <= v.len(),
            split(rest, '*') == all.skip(n as int),
            pattern@.contains('*'),
            glob(path@, pattern@) == behind_star(v@.skip(pos as int), rest),
        decreases parts.len() - n,
    {
        let part = chars_of(parts[n].as_str());
        proof {
            lemma_split_front(rest, all.skip(n as int));
            lemma_first_is_enough(v@, pos as int, rest);
            lemma_position(rest, '*');
            assert(all.skip(n as int)[0] == part@);
            assert(all.skip(n as int).drop_first() =~= all.skip(n + 1));
        }
        match find(&v, &part, pos) {
            Some(i) => {
                pos = i + part.len();
                proof {
                    rest = rest.skip(position(rest, '*') + 1);
                }
            },
            None => {
                return false;
            },
        }
        n = n + 1;
    }
    let last = chars_of(parts[parts.len() - 1].as_str());
    proof {
        let end = all.skip(n as int);
        assert(end[0] == last@);
        lemma_split_front(rest, end);
        lemma_position(rest, '*');
        assert(rest.take(position(rest, '*')) =~= rest);
        lemma_last_is_suffix(v@.skip(pos as int), rest);
    }
    if last.len() > v.len() - pos {
        return false;
    }
    let at: usize = v.len() - last.len();
    assert(v@.skip(pos as int).subrange(at - pos, v.len() - pos) =~= v@.subrange(
        at as int,
        v.len() as int,
    ));
    is_at(&v, &last, at)
}

// ── JSON strings ────────────────────────────────────────────────────────────

/// A character as it stands in a JSON string.
pub open spec fn json_char(c: char) -> Seq<char> {
    if c == '"' {
        seq!['\\', '"']
    } else if c == '\\' {
        seq!['\\', '\\']
    } else if c == '\n' {
        seq!['\\', 'n']
    } else if c == '\r' {
        seq!['\\', 'r']
    } else if c == '\t' {
        seq!['\\', 't']
    } else if (c as u32) < 0x20 {
        seq!['\\', 'u'] + hex_digits(c as nat, 4)
    } else {
        seq![c]
    }
}

/// The characters of `s` as they stand in a JSON string.
pub open spec fn json_chars(s: Seq<char>) -> Seq<char>
    decreases s.len(),
{
    if s.len() == 0 {
        Seq::empty()
    } else {
        json_chars(s.drop_last()) + json_char(s.last())
    }
}

/// `s` as a JSON string literal.
pub open spec fn json_text(s: Seq<char>) -> Seq<char> {
    seq!['"'] + json_chars(s) + seq!['"']
}

fn push_json_char(out: &mut String, c: char)
    ensures
        final(out)@ == old(out)@ + json_char(c),
{
    if c == '"' || c == '\\' {
        out.push('\\');
        out.push(c);
    } else if c == '\n' {
        out.push('\\');
        out.push('n');
    } else if c == '\r' {
        out.push('\\');
        out.push('r');
    } else if c == '\t' {
        out.push('\\');
        out.push('t');
    } else if (c as u32) < 0x20 {
        out.push('\\');
        out.push('u');
        out.append(hex_of(c as u32, 4).as_str());
    } else {
        out.push(c);
    }
    assert(out@ =~= old(out)@ + json_char(c));
}

/// Quotes and escapes `s` as a JSON string literal.
pub fn json_string(s: &str) -> (out: String)
    ensures
        out@ == json_text(s@),
{
    let v = chars_of(s);
    let mut out = String::new();
    out.push('"');
    let mut i: usize = 0;
    assert(s@.take(0) =~= Seq::empty());
    assert(out@ =~= seq!['"'] + json_chars(s@.take(0)));
    while i < v.len()
        invariant
            i <= v.len(),
            v@ == s@,
            out@ == seq!['"'] + json_chars(s@.take(i as int)),
        decreases v.len() - i,
    {
        push_json_char(&mut out, v[i]);
        proof {
            let more = s@.take(i + 1);
            assert(more.drop_last() =~= s@.take(i as int));
            assert(more.last() == v[i as int]);
            assert(out@ =~= seq!['"'] + json_chars(more));
        }
        i = i + 1;
    }
    assert(s@.take(v.len() as int) =~= s@);
    out.push('"');
    assert(out@ =~= json_text(s@));
    out
}

/// Inside a JSON string stands no bare quote and no control character: every
/// character below a space is escaped, and every quote has a backslash before
/// it.
pub proof fn law_json_string_is_escaped(s: Seq<char>, i: int)
    requires
        0 <= i < json_chars(s).len(),
    ensures
        json_chars(s)[i] as u32 >= 0x20,
        json_chars(s)[i] == '"' ==> i > 0 && json_chars(s)[i - 1] == '\\',
    decreases s.len(),
{
    let front = json_chars(s.drop_last());
    let c = s.last();
    if i < front.len() {
        law_json_string_is_escaped(s.drop_last(), i);
    } else {
        let piece = json_char(c);
        let j = i - front.len();
        assert(json_chars(s)[i] == piece[j]);
        if (c as u32) < 0x20 && c != '\n' && c != '\r' && c != '\t' {
            lemma_hex_is_plain(c as nat, 4, j - 2);
        }
        if piece[j] == '"' {
            assert(j == 1);
            assert(json_chars(s)[i - 1] == piece[0]);
        }
    }
}

proof fn lemma_hex_is_plain(n: nat, width: nat, i: int)
    ensures
        hex_digits(n, width).len() == width,
        0 <= i < width ==> hex_digits(n, width)[i] as u32 >= 0x30 && hex_digits(n, width)[i] != '"'
            && hex_digits(n, width)[i] != '\\',
    decreases width,
{
    if width > 0 {
        lemma_hex_is_plain(n / 16, (width - 1) as nat, i);
    }
}

/// What a character behind a backslash in a JSON string stands for.
pub open spec fn short_escape(c: char) -> Option<char> {
    if c == '"' || c == '\\' || c == '/' {
        Some(c)
    } else if c == 'n' {
        Some('\n')
    } else if c == 'r' {
        Some('\r')
    } else if c == 't' {
        Some('\t')
    } else if c == 'b' {
        Some('\u{8}')
    } else if c == 'f' {
        Some('\u{c}')
    } else {
        None
    }
}

/// The character is the one of the given number.
pub open spec fn is_char(c: char, n: nat) -> bool {
    c as nat == n
}

/// The character of the given number, if there is one.
pub open spec fn char_of(n: nat) -> Option<char> {
    if n < 0x80 {
        Some((n as u8) as char)
    } else if exists|c: char| is_char(c, n) {
        Some(choose|c: char| is_char(c, n))
    } else {
        None
    }
}

/// A text with one character more before it, if there is one.
pub open spec fn preceded(c: char, rest: Option<Seq<char>>) -> Option<Seq<char>> {
    match rest {
        Some(s) => Some(seq![c] + s),
        None => None,
    }
}

/// What a JSON reader makes of a string literal behind its first quote: the
/// text, if the literal ends where `t` does and is well-formed.
pub open spec fn json_read(t: Seq<char>) -> Option<Seq<char>>
    decreases t.len(),
{
    if t.len() == 0 || (t[0] as u32) < 0x20 {
        None
    } else if t[0] == '"' {
        if t.len() == 1 {
            Some(Seq::empty())
        } else {
            None
        }
    } else if t[0] != '\\' {
        preceded(t[0], json_read(t.skip(1)))
    } else if t.len() < 2 {
        None
    } else if t[1] == 'u' {
        if t.len() >= 6 && all_digits(t.subrange(2, 6), 16) {
            match char_of(digits_value(t.subrange(2, 6), 16)) {
                Some(c) => preceded(c, json_read(t.skip(6))),
                None => None,
            }
        } else {
            None
        }
    } else {
        match short_escape(t[1]) {
            Some(c) => preceded(c, json_read(t.skip(2))),
            None => None,
        }
    }
}

/// A text with another before it, if there is one.
spec fn led(s: Seq<char>, rest: Option<Seq<char>>) -> Option<Seq<char>> {
    match rest {
        Some(r) => Some(s + r),
        None => None,
    }
}

proof fn lemma_lower_hex(n: nat, width: nat)
    requires
        n < hex_range(width),
    ensures
        hex_digits(n, width).len() == width,
        all_digits(hex_digits(n, width), 16),
        digits_value(hex_digits(n, width), 16) == n,
    decreases width,
{
    if width > 0 {
        let front = hex_digits(n / 16, (width - 1) as nat);
        let last = digit_char(n % 16);
        lemma_lower_hex(n / 16, (width - 1) as nat);
        assert(hex_digits(n, width).drop_last() =~= front);
        assert(digit_value(last) == n % 16);
    }
}

proof fn lemma_read_char(c: char, rest: Seq<char>)
    ensures
        json_read(json_char(c) + rest) == preceded(c, json_read(rest)),
{
    let t = json_char(c) + rest;
    if c == '"' || c == '\\' || c == '\n' || c == '\r' || c == '\t' {
        assert(t.skip(2) =~= rest);
    } else if (c as u32) < 0x20 {
        let digits = hex_digits(c as nat, 4);
        reveal_with_fuel(hex_range, 5);
        lemma_lower_hex(c as nat, 4);
        assert(t.subrange(2, 6) =~= digits);
        assert(t.skip(6) =~= rest);
        assert(char_of(c as nat) == Some(c));
    } else {
        assert(t.skip(1) =~= rest);
    }
}

proof fn lemma_read_chars(s: Seq<char>, rest: Seq<char>)
    ensures
        json_read(json_chars(s) + rest) == led(s, json_read(rest)),
    decreases s.len(),
{
    if s.len() == 0 {
        assert(json_chars(s) + rest =~= rest);
        if let Some(r) = json_read(rest) {
            assert(s + r =~= r);
        }
    } else {
        let front = s.drop_last();
        let c = s.last();
        assert(json_chars(s) + rest =~= json_chars(front) + (json_char(c) + rest));
        lemma_read_chars(front, json_char(c) + rest);
        lemma_read_char(c, rest);
        if let Some(r) = json_read(rest) {
            assert(front + (seq![c] + r) =~= s + r);
        }
    }
}

/// A JSON string is one literal that reads back as the text, so that two
/// texts never share a literal.
pub proof fn law_json_string_reads_back(s: Seq<char>, other: Seq<char>)
    ensures
        json_text(s)[0] == '"',
        json_read(json_text(s).skip(1)) == Some(s),
        json_text(s) == json_text(other) ==> s == other,
{
    let end = seq!['"'];
    assert(json_text(s).skip(1) =~= json_chars(s) + end);
    assert(json_text(other).skip(1) =~= json_chars(other) + end);
    lemma_read_chars(s, end);
    lemma_read_chars(other, end);
    assert(json_read(end) == Some(Seq::<char>::empty()));
    assert(s + Seq::<char>::empty() =~= s);
    assert(other + Seq::<char>::empty() =~= other);
}

// ── Numbers on the command line ─────────────────────────────────────────────

/// The texts between commas, without the white space around them.
pub open spec fn fields(s: Seq<char>) -> Seq<Seq<char>> {
    split(s, ',').map_values(|f: Seq<char>| trim(f))
}

fn fields_of(s: &str) -> (out: Vec<String>)
    ensures
        texts(out@) == fields(s@),
        out.len() > 0,
{
    let parts = split_on(s, ',');
    let mut out: Vec<String> = Vec::new();
    let mut i: usize = 0;
    while i < parts.len()
        invariant
            i <= parts.len(),
            out.len() == i,
            forall|k: int| 0 <= k < i ==> (#[trigger] out[k])@ == trim(parts[k]@),
        decreases parts.len() - i,
    {
        out.push(trimmed(parts[i].as_str()));
        i = i + 1;
    }
    assert(texts(out@) =~= texts(parts@).map_values(|f: Seq<char>| trim(f)));
    out
}

/// What is said of a text that is not the numbers asked for.
pub open spec fn not_numbers(wanted: Seq<char>, s: Seq<char>) -> Seq<char> {
    "expected "@ + wanted + ", got '"@ + s + "'"@
}

fn say_not_numbers(wanted: &str, s: &str) -> (out: String)
    ensures
        out@ == not_numbers(wanted@, s@),
{
    let mut out = String::from_str("expected ");
    out.append(wanted);
    out.append(", got '");
    out.append(s);
    out.append("'");
    out
}

/// What is said of a text that is no pair of numbers.
pub fn not_a_pair(s: &str) -> (out: String)
    ensures
        out@ == not_numbers("two comma-separated numbers"@, s@),
{
    say_not_numbers("two comma-separated numbers", s)
}

/// What is said of a text that is no box.
pub fn not_a_quad(s: &str) -> (out: String)
    ensures
        out@ == not_numbers("four comma-separated numbers"@, s@),
{
    say_not_numbers("four comma-separated numbers", s)
}

/// What is said of a text that is no marker.
pub fn not_a_marker(s: &str) -> (out: String)
    ensures
        out@ == "expected x,y,label; got '"@ + s@ + "'"@,
{
    let mut out = String::from_str("expected x,y,label; got '");
    out.append(s);
    out.append("'");
    out
}

/// The two numbers of `"X,Y"` as texts: a world position, a cell index, a
/// band.
pub fn parse_pair(s: &str) -> (r: Result<(String, String), String>)
    ensures
        match r {
            Ok((a, b)) => fields(s@) == seq![a@, b@],
            Err(e) => fields(s@).len() != 2 && e@ == not_numbers("two comma-separated numbers"@, s@),
        },
{
    let mut list = fields_of(s);
    let ghost all = fields(s@);
    if list.len() != 2 {
        assert(texts(list@).len() == list@.len());
        return Err(not_a_pair(s));
    }
    assert(texts(list@)[0] == list[0]@ && texts(list@)[1] == list[1]@);
    match (list.pop(), list.pop()) {
        (Some(b), Some(a)) => {
            assert(all =~= seq![a@, b@]);
            Ok((a, b))
        },
        _ => Err(not_a_pair(s)),
    }
}

/// The four numbers of `"X0,Y0,X1,Y1"` as texts: a world-space box.
pub fn parse_quad(s: &str) -> (r: Result<Vec<String>, String>)
    ensures
        match r {
            Ok(list) => texts(list@) == fields(s@) && list.len() == 4,
            Err(e) => fields(s@).len() != 4 && e@ == not_numbers("four comma-separated numbers"@, s@),
        },
{
    let list = fields_of(s);
    assert(texts(list@).len() == list@.len());
    if list.len() == 4 {
        Ok(list)
    } else {
        Err(not_a_quad(s))
    }
}

/// A marker on a plan, with its coordinates as texts.
#[derive(Debug)]
pub struct MarkerText {
    pub x: String,
    pub y: String,
    pub label: String,
}

/// The parts of `"X,Y,LABEL"`, a map marker; the label may be empty, may be
/// left out and may contain commas.
pub fn parse_marker(s: &str) -> (r: Result<MarkerText, String>)
    ensures
        match r {
            Ok(m) => {
                let parts = split(s@, ',');
                &&& parts.len() >= 2
                &&& m.x@ == trim(parts[0])
                &&& m.y@ == trim(parts[1])
                &&& m.label@ == join(parts.skip(2), ","@)
            },
            Err(e) => split(s@, ',').len() < 2 && e@ == "expected x,y,label; got '"@ + s@ + "'"@,
        },
{
    let parts = split_on(s, ',');
    let ghost all = split(s@, ',');
    assert(texts(parts@).len() == parts@.len());
    if parts.len() < 2 {
        return Err(not_a_marker(s));
    }
    assert(texts(parts@)[0] == parts[0]@ && texts(parts@)[1] == parts[1]@);
    let mut rest: Vec<String> = Vec::new();
    let mut i: usize = 2;
    while i < parts.len()
        invariant
            2 <= i <= parts.len(),
            all == texts(parts@),
            rest.len() == i - 2,
            forall|k: int| 0 <= k < i - 2 ==> (#[trigger] rest[k])@ == parts[k + 2]@,
        decreases parts.len() - i,
    {
        rest.push(parts[i].clone());
        i = i + 1;
    }
    assert(texts(rest@) =~= all.skip(2));
    Ok(
        MarkerText {
            x: trimmed(parts[0].as_str()),
            y: trimmed(parts[1].as_str()),
            label: join_with(&rest, ","),
        },
    )
}

} // verus!
