//! How texts are taken apart and put together.
use vstd::prelude::*;
use crate::file_names::{base_name, before_dot, extension, last_dot, stem};
use crate::json_text::{array, quoted, quoted_char, quoted_chars};
use crate::text::{
    ascii_lowercase, decimal, digit_value, digits_value, find_from, has_text, hex_digits,
    hex_digits_upper, hex_upper, is_hex_digit, join, lines, number, occurs_at, pad_left, pad_right,
    position, replace, signed_decimal, split, strip_plus, trim, trim_end, trim_start, unlines,
    white_space,
};
use crate::utils::{fields, glob, json_char, json_chars, json_text, not_numbers, short_escape};

verus! {

/// The text holds the part, with something before it and something behind.
pub open spec fn says(text: Seq<char>, part: Seq<char>) -> bool {
    exists|a: Seq<char>, b: Seq<char>| #[trigger] (a + part + b) == text
}

proof fn lemma_says_more(x: Seq<char>, y: Seq<char>, part: Seq<char>)
    ensures
        says(x, part) || says(y, part) ==> says(x + y, part),
{
    if says(x, part) {
        let (a, b) = choose|a: Seq<char>, b: Seq<char>| #[trigger] (a + part + b) == x;
        assert(a + part + (b + y) =~= x + y);
    } else if says(y, part) {
        let (a, b) = choose|a: Seq<char>, b: Seq<char>| #[trigger] (a + part + b) == y;
        assert((x + a) + part + b =~= x + y);
    }
}

proof fn lemma_says_itself(x: Seq<char>, part: Seq<char>)
    ensures
        says(part, part),
        says(x + part, part),
{
    let none = Seq::<char>::empty();
    assert(none + part + none =~= part);
    assert(x + part + none =~= x + part);
}

/// A text that is put together of pieces says what each piece says, and what
/// two or three neighbours say together.
pub proof fn lemma_says()
    ensures
        forall|x: Seq<char>, y: Seq<char>, part: Seq<char>|
            (says(x, part) || says(y, part)) ==> #[trigger] says(x + y, part),
        forall|part: Seq<char>| #[trigger] says(part, part),
        forall|x: Seq<char>, a: Seq<char>, b: Seq<char>| #[trigger] says(x + a + b, a + b),
        forall|x: Seq<char>, a: Seq<char>, b: Seq<char>, c: Seq<char>| #[trigger]
            says(x + a + b + c, a + b + c),
{
    assert forall|x: Seq<char>, y: Seq<char>, part: Seq<char>|
        says(x, part) || says(y, part) implies #[trigger] says(x + y, part) by {
        lemma_says_more(x, y, part);
    }
    assert forall|part: Seq<char>| #[trigger] says(part, part) by {
        lemma_says_itself(part, part);
    }
    assert forall|x: Seq<char>, a: Seq<char>, b: Seq<char>| #[trigger] says(x + a + b, a + b) by {
        lemma_says_itself(x, a + b);
        assert(x + (a + b) =~= x + a + b);
    }
    assert forall|x: Seq<char>, a: Seq<char>, b: Seq<char>, c: Seq<char>| #[trigger]
        says(x + a + b + c, a + b + c) by {
        lemma_says_itself(x, a + b + c);
        assert(x + (a + b + c) =~= x + a + b + c);
    }
}

/// A text is found in another exactly when the other is made of it, with
/// something before and something behind.
pub proof fn law_found_text_is_a_part(hay: Seq<char>, needle: Seq<char>)
    ensures
        has_text(hay, needle) <==> says(hay, needle),
{
    if has_text(hay, needle) {
        let i = choose|i: int| crate::text::occurs_at(hay, needle, i);
        assert(hay.take(i) + needle + hay.skip(i + needle.len()) =~= hay) by {
            assert(hay.subrange(i, i + needle.len()) == needle);
            assert forall|k: int| i <= k < i + needle.len() implies needle[k - i] == hay[k] by {
                assert(hay.subrange(i, i + needle.len())[k - i] == hay[k]);
            }
        }
    }
    if says(hay, needle) {
        let (a, b) = choose|a: Seq<char>, b: Seq<char>| #[trigger] (a + needle + b) == hay;
        assert(hay.subrange(a.len() as int, (a.len() + needle.len()) as int) =~= needle);
        assert(crate::text::occurs_at(hay, needle, a.len() as int));
    }
}

/// A search finds the first place at or behind the one it starts from.
pub proof fn law_search_finds_the_first_place(hay: Seq<char>, needle: Seq<char>, from: int)
    requires
        0 <= from <= hay.len(),
    ensures
        match find_from(hay, needle, from) {
            Some(i) => from <= i && i + needle.len() <= hay.len() && hay.subrange(
                i,
                i + needle.len(),
            ) == needle && forall|j: int| from <= j < i ==> !occurs_at(hay, needle, j),
            None => forall|j: int| from <= j ==> !occurs_at(hay, needle, j),
        },
    decreases hay.len() - from,
{
    if from + needle.len() <= hay.len() && !occurs_at(hay, needle, from) {
        if from < hay.len() {
            law_search_finds_the_first_place(hay, needle, from + 1);
        } else {
            assert(hay.subrange(from, from + needle.len()) =~= needle);
        }
    }
}

/// The place of a character is the first that has it, or the length.
pub proof fn law_position_is_the_first(s: Seq<char>, c: char)
    ensures
        0 <= position(s, c) <= s.len(),
        position(s, c) < s.len() ==> s[position(s, c)] == c,
        forall|i: int| 0 <= i < position(s, c) ==> #[trigger] s[i] != c,
    decreases s.len(),
{
    if s.len() > 0 && s[0] != c {
        let rest = s.drop_first();
        law_position_is_the_first(rest, c);
        assert forall|i: int| 0 <= i < position(s, c) implies #[trigger] s[i] != c by {
            if i > 0 {
                assert(rest[i - 1] == s[i]);
            }
        }
    }
}

/// Splitting takes a text apart at every separator: the first part ends before
/// the first one, the rest is split on its own; a text without one is a part.
pub proof fn law_split_at_the_first_separator(a: Seq<char>, c: char, b: Seq<char>)
    requires
        forall|i: int| 0 <= i < a.len() ==> #[trigger] a[i] != c,
    ensures
        split(a, c) == seq![a],
        split(a + seq![c] + b, c) == seq![a] + split(b, c),
{
    law_position_is_the_first(a, c);
    let all = a + seq![c] + b;
    law_position_is_the_first(all, c);
    let i = position(all, c);
    assert(all[a.len() as int] == c);
    assert(i <= a.len());
    if i < a.len() {
        assert(all[i] == a[i]);
    }
    assert(all.take(i) =~= a);
    assert(all.skip(i + 1) =~= b);
}

/// The lines of a text end before each line feed, and before a carriage return
/// that stands there; the last needs none, and nothing behind the last line
/// feed is no line.
pub proof fn law_lines_end_at_line_feeds(a: Seq<char>, b: Seq<char>)
    requires
        forall|i: int| 0 <= i < a.len() ==> #[trigger] a[i] != '\n',
    ensures
        lines(Seq::empty()).len() == 0,
        a.len() > 0 ==> lines(a) == seq![a],
        lines(a + seq!['\n'] + b) == seq![
            if a.len() > 0 && a.last() == '\r' {
                a.drop_last()
            } else {
                a
            },
        ] + lines(b),
{
    law_position_is_the_first(a, '\n');
    let all = a + seq!['\n'] + b;
    law_position_is_the_first(all, '\n');
    let i = position(all, '\n');
    assert(all[a.len() as int] == '\n');
    if i < a.len() {
        assert(all[i] == a[i]);
    }
    assert(all.take(i) =~= a);
    assert(all.skip(i + 1) =~= b);
}

/// Trimming takes white space off both ends, all of it and nothing else.
pub proof fn law_trimming_takes_white_space_off(s: Seq<char>)
    ensures
        exists|a: Seq<char>, b: Seq<char>| #[trigger]
            (a + trim(s) + b) == s && (forall|i: int|
                0 <= i < a.len() ==> white_space(#[trigger] a[i])) && (forall|i: int|
                0 <= i < b.len() ==> white_space(#[trigger] b[i])),
        trim(s).len() > 0 ==> !white_space(trim(s)[0]) && !white_space(trim(s).last()),
{
    lemma_trim_start(s);
    let t = trim_start(s);
    lemma_trim_end(t);
    let a = choose|a: Seq<char>| #[trigger] (a + t) == s && forall|i: int|
        0 <= i < a.len() ==> white_space(#[trigger] a[i]);
    let b = choose|b: Seq<char>| #[trigger] (trim_end(t) + b) == t && forall|i: int|
        0 <= i < b.len() ==> white_space(#[trigger] b[i]);
    assert(a + trim(s) + b =~= a + (trim(s) + b));
    if trim(s).len() > 0 {
        assert(t[0] == trim(s)[0]);
    }
}

proof fn lemma_trim_start(s: Seq<char>)
    ensures
        exists|a: Seq<char>| #[trigger] (a + trim_start(s)) == s && forall|i: int|
            0 <= i < a.len() ==> white_space(#[trigger] a[i]),
        trim_start(s).len() > 0 ==> !white_space(trim_start(s)[0]),
    decreases s.len(),
{
    if s.len() > 0 && white_space(s[0]) {
        let rest = s.drop_first();
        lemma_trim_start(rest);
        let a = choose|a: Seq<char>| #[trigger] (a + trim_start(rest)) == rest && forall|i: int|
            0 <= i < a.len() ==> white_space(#[trigger] a[i]);
        let b = seq![s[0]] + a;
        assert(b + trim_start(s) =~= s) by {
            assert(s =~= seq![s[0]] + rest);
        }
        assert forall|i: int| 0 <= i < b.len() implies white_space(#[trigger] b[i]) by {
            if i > 0 {
                assert(b[i] == a[i - 1]);
            }
        }
    } else {
        let none = Seq::<char>::empty();
        assert(none + trim_start(s) =~= s);
    }
}

proof fn lemma_trim_end(s: Seq<char>)
    ensures
        exists|b: Seq<char>| #[trigger] (trim_end(s) + b) == s && forall|i: int|
            0 <= i < b.len() ==> white_space(#[trigger] b[i]),
        trim_end(s).len() > 0 ==> !white_space(trim_end(s).last()),
    decreases s.len(),
{
    if s.len() > 0 && white_space(s.last()) {
        let front = s.drop_last();
        lemma_trim_end(front);
        let b = choose|b: Seq<char>| #[trigger] (trim_end(front) + b) == front && forall|i: int|
            0 <= i < b.len() ==> white_space(#[trigger] b[i]);
        let c = b.push(s.last());
        assert(trim_end(s) + c =~= s) by {
            assert(s =~= front.push(s.last()));
        }
        assert forall|i: int| 0 <= i < c.len() implies white_space(#[trigger] c[i]) by {
            if i < b.len() {
                assert(c[i] == b[i]);
            }
        }
    } else {
        let none = Seq::<char>::empty();
        assert(trim_end(s) + none =~= s);
    }
}

/// White space is what the standard calls so.
pub proof fn law_white_space(c: char)
    ensures
        white_space(c) <==> c == '\t' || c == '\n' || c == '\u{b}' || c == '\u{c}' || c == '\r' || c
            == ' ' || c == '\u{85}' || c == '\u{a0}' || c == '\u{1680}' || (0x2000 <= c as u32
            && c as u32 <= 0x200a) || c == '\u{2028}' || c == '\u{2029}' || c == '\u{202f}' || c
            == '\u{205f}' || c == '\u{3000}',
{
}

/// Numbers are written digit by digit, and a written one is worth itself.
pub proof fn law_numbers_are_written(n: nat)
    ensures
        digits_value(decimal(n), 10) == n,
        forall|i: int| 0 <= i < decimal(n).len() ==> '0' <= #[trigger] decimal(n)[i] <= '9',
        n > 0 ==> decimal(n)[0] != '0',
        signed_decimal(n as int) == decimal(n),
        n > 0 ==> signed_decimal(-(n as int)) == seq!['-'] + decimal(n),
    decreases n,
{
    reveal_strlit("-");
    assert("-"@ =~= seq!['-']);
    if n >= 10 {
        law_numbers_are_written(n / 10);
        assert(decimal(n).drop_last() =~= decimal(n / 10));
        assert(decimal(n)[0] == decimal(n / 10)[0]) by {
            assert(decimal(n / 10).len() > 0) by {
                reveal_with_fuel(decimal, 2);
            }
        }
        assert forall|i: int| 0 <= i < decimal(n).len() implies '0' <= #[trigger] decimal(n)[i]
            <= '9' by {
            if i < decimal(n / 10).len() {
                assert(decimal(n)[i] == decimal(n / 10)[i]);
            }
        }
    } else {
        assert(decimal(n).drop_last() =~= Seq::empty());
        assert(digits_value(decimal(n).drop_last(), 10) == 0);
    }
}

/// Hexadecimal digits come in a fixed width, or as few as there are; both are
/// worth the number, in lower and in upper case.
pub proof fn law_hashes_are_written(n: nat, width: nat)
    ensures
        hex_digits(n, width).len() == width,
        hex_digits_upper(n, width).len() == width,
        n < crate::text::hex_range(width) ==> digits_value(hex_digits(n, width), 16) == n
            && digits_value(hex_digits_upper(n, width), 16) == n,
        digits_value(hex_upper(n), 16) == n,
        forall|i: int|
            0 <= i < width ==> {
                let c = #[trigger] hex_digits(n, width)[i];
                '0' <= c <= '9' || 'a' <= c <= 'f'
            },
        forall|i: int|
            0 <= i < width ==> {
                let c = #[trigger] hex_digits_upper(n, width)[i];
                '0' <= c <= '9' || 'A' <= c <= 'F'
            },
    decreases width, n,
{
    if width > 0 {
        law_hashes_are_written(n / 16, (width - 1) as nat);
        let a = hex_digits(n, width);
        let b = hex_digits_upper(n, width);
        assert(a.drop_last() =~= hex_digits(n / 16, (width - 1) as nat));
        assert(b.drop_last() =~= hex_digits_upper(n / 16, (width - 1) as nat));
        assert forall|i: int| 0 <= i < width implies ({
            let c = #[trigger] a[i];
            '0' <= c <= '9' || 'a' <= c <= 'f'
        }) by {
            if i < width - 1 {
                assert(a[i] == a.drop_last()[i]);
            }
        }
        assert forall|i: int| 0 <= i < width implies ({
            let c = #[trigger] b[i];
            '0' <= c <= '9' || 'A' <= c <= 'F'
        }) by {
            if i < width - 1 {
                assert(b[i] == b.drop_last()[i]);
            }
        }
    }
    lemma_hex_upper(n);
}

proof fn lemma_hex_upper(n: nat)
    ensures
        digits_value(hex_upper(n), 16) == n,
    decreases n,
{
    let s = hex_upper(n);
    if n >= 16 {
        lemma_hex_upper(n / 16);
        assert(s.drop_last() =~= hex_upper(n / 16));
    } else {
        assert(s.drop_last() =~= Seq::empty());
        assert(digits_value(s.drop_last(), 16) == 0);
    }
}

/// A number is read with one plus before it at most, digits of the base alone,
/// at least one, and up to the limit.
pub proof fn law_numbers_are_read(s: Seq<char>, base: nat, max: nat)
    ensures
        ({
            let d = strip_plus(s);
            let sound = d.len() > 0 && forall|i: int|
                0 <= i < d.len() ==> is_hex_digit(#[trigger] d[i]) && digit_value(d[i]) < base;
            match number(s, base, max) {
                Some(n) => sound && n == digits_value(d, base) && n <= max,
                None => !sound || digits_value(d, base) > max,
            }
        }),
        s.len() > 0 && s[0] == '+' ==> strip_plus(s) == s.drop_first(),
        s.len() == 0 || s[0] != '+' ==> strip_plus(s) == s,
        forall|c: char|
            '0' <= c <= '9' ==> is_hex_digit(c) && #[trigger] digit_value(c) == c as int - 0x30,
        forall|c: char|
            'a' <= c <= 'f' ==> is_hex_digit(c) && #[trigger] digit_value(c) == c as int - 0x61 + 10,
        forall|c: char|
            'A' <= c <= 'F' ==> is_hex_digit(c) && #[trigger] digit_value(c) == c as int - 0x41 + 10,
        forall|t: Seq<char>, c: char| #[trigger]
            digits_value(t.push(c), base) == digits_value(t, base) * base + digit_value(c),
{
    assert forall|t: Seq<char>, c: char| #[trigger]
        digits_value(t.push(c), base) == digits_value(t, base) * base + digit_value(c) by {
        assert(t.push(c).drop_last() =~= t);
    }
}

/// Letters of the plain alphabet change their case, and nothing else changes.
pub proof fn law_plain_lower_case(s: Seq<char>, i: int)
    requires
        0 <= i < s.len(),
    ensures
        ascii_lowercase(s).len() == s.len(),
        'A' <= s[i] <= 'Z' ==> ascii_lowercase(s)[i] as int == s[i] as int + 32,
        !('A' <= s[i] <= 'Z') ==> ascii_lowercase(s)[i] == s[i],
{
}

/// A character is replaced wherever it stands; the others stay.
pub proof fn law_replacing(s: Seq<char>, from: char, to: char, i: int)
    requires
        0 <= i < s.len(),
    ensures
        replace(s, from, to).len() == s.len(),
        s[i] == from ==> replace(s, from, to)[i] == to,
        s[i] != from ==> replace(s, from, to)[i] == s[i],
{
}

/// Parts are joined with the separator between two, not before the first and
/// not behind the last; lines each end in a line feed.
pub proof fn law_joining(parts: Seq<Seq<char>>, part: Seq<char>, sep: Seq<char>)
    ensures
        join(Seq::empty(), sep).len() == 0,
        join(seq![part], sep) == part,
        parts.len() > 0 ==> join(parts.push(part), sep) == join(parts, sep) + sep + part,
        unlines(Seq::empty()).len() == 0,
        unlines(parts.push(part)) == unlines(parts) + part + seq!['\n'],
        array(parts) == seq!['['] + join(parts, seq![',']) + seq![']'],
{
    assert(parts.push(part).drop_last() =~= parts);
    reveal_strlit("[");
    reveal_strlit("]");
    reveal_strlit(",");
    assert("["@ =~= seq!['[']);
    assert("]"@ =~= seq![']']);
    assert(","@ =~= seq![',']);
}

/// A text is padded up to a width, on the side that is named, and never cut.
pub proof fn law_padding(s: Seq<char>, c: char, width: nat)
    ensures
        s.is_suffix_of(pad_left(s, c, width)),
        s.is_prefix_of(pad_right(s, c, width)),
        pad_left(s, c, width).len() == pad_right(s, c, width).len(),
        pad_left(s, c, width).len() == (if s.len() < width {
            width
        } else {
            s.len()
        }),
        forall|i: int| 0 <= i < pad_left(s, c, width).len() - s.len() ==> #[trigger] pad_left(s, c, width)[i] == c,
        forall|i: int|
            s.len() <= i < pad_right(s, c, width).len() ==> #[trigger] pad_right(s, c, width)[i] == c,
{
    assert(s =~= pad_left(s, c, width).subrange(
        pad_left(s, c, width).len() - s.len(),
        pad_left(s, c, width).len() as int,
    ));
    assert(s =~= pad_right(s, c, width).subrange(0, s.len() as int));
}

// ── File names ──────────────────────────────────────────────────────────────

/// The name of a file is what follows the last slash of either kind.
pub proof fn law_base_name_follows_the_last_slash(s: Seq<char>)
    ensures
        base_name(s).is_suffix_of(s),
        forall|i: int|
            0 <= i < base_name(s).len() ==> #[trigger] base_name(s)[i] != '/' && base_name(s)[i] != '\\',
        base_name(s).len() < s.len() ==> {
            let c = s[s.len() - base_name(s).len() - 1];
            c == '/' || c == '\\'
        },
    decreases s.len(),
{
    if s.len() > 0 && s.last() != '/' && s.last() != '\\' {
        let front = s.drop_last();
        law_base_name_follows_the_last_slash(front);
        let b = base_name(front);
        assert(base_name(s) =~= s.subrange(s.len() - base_name(s).len(), s.len() as int)) by {
            assert(b == front.subrange(front.len() - b.len(), front.len() as int));
            assert forall|i: int| 0 <= i < b.len() implies b[i] == s[front.len() - b.len() + i] by {
                assert(front.subrange(front.len() - b.len(), front.len() as int)[i] == front[front.len()
                    - b.len() + i]);
            }
        }
        assert forall|i: int| 0 <= i < base_name(s).len() implies #[trigger] base_name(s)[i] != '/'
            && base_name(s)[i] != '\\' by {
            if i < b.len() {
                assert(base_name(s)[i] == b[i]);
            }
        }
    } else {
        assert(base_name(s) =~= s.subrange(s.len() - base_name(s).len(), s.len() as int));
    }
}

proof fn lemma_last_dot(s: Seq<char>)
    ensures
        match last_dot(s) {
            Some(i) => 0 <= i < s.len() && s[i] == '.' && forall|j: int|
                i < j < s.len() ==> #[trigger] s[j] != '.',
            None => forall|j: int| 0 <= j < s.len() ==> #[trigger] s[j] != '.',
        },
    decreases s.len(),
{
    if s.len() > 0 && s.last() != '.' {
        let front = s.drop_last();
        lemma_last_dot(front);
        match last_dot(s) {
            Some(i) => {
                assert(front[i] == s[i]);
                assert forall|j: int| i < j < s.len() implies #[trigger] s[j] != '.' by {
                    if j < front.len() {
                        assert(front[j] == s[j]);
                    }
                }
            },
            None => {
                assert forall|j: int| 0 <= j < s.len() implies #[trigger] s[j] != '.' by {
                    if j < front.len() {
                        assert(front[j] == s[j]);
                    }
                }
            },
        }
    }
}

/// A name is its stem, a dot and its extension, which has no dot; a name
/// without a dot is a stem alone.
pub proof fn law_stem_and_extension(s: Seq<char>)
    ensures
        base_name(s).contains('.') ==> base_name(s) == stem(s) + seq!['.'] + extension(s),
        !base_name(s).contains('.') ==> stem(s) == base_name(s) && extension(s).len() == 0,
        !extension(s).contains('.'),
        s.contains('.') ==> exists|e: Seq<char>|
            s == #[trigger] (before_dot(s) + seq!['.'] + e) && !e.contains('.'),
        !s.contains('.') ==> before_dot(s) == s,
{
    let base = base_name(s);
    lemma_last_dot(base);
    lemma_last_dot(s);
    match last_dot(base) {
        Some(i) => {
            assert(base =~= base.take(i) + seq!['.'] + base.skip(i + 1));
            let e = base.skip(i + 1);
            assert forall|j: int| 0 <= j < e.len() implies e[j] != '.' by {
                assert(e[j] == base[i + 1 + j]);
            }
        },
        None => {},
    }
    match last_dot(s) {
        Some(i) => {
            let e = s.skip(i + 1);
            assert(s =~= before_dot(s) + seq!['.'] + e);
            assert forall|j: int| 0 <= j < e.len() implies e[j] != '.' by {
                assert(e[j] == s[i + 1 + j]);
            }
        },
        None => {},
    }
}

// ── Patterns ────────────────────────────────────────────────────────────────

/// A pattern matches letter by letter; a star matches any run, none included.
pub proof fn law_patterns(s: Seq<char>, p: Seq<char>, c: char)
    ensures
        glob(s, Seq::empty()) <==> s.len() == 0,
        c != '*' ==> (glob(s, seq![c] + p) <==> s.len() > 0 && s[0] == c && glob(s.drop_first(), p)),
        glob(s, seq!['*'] + p) <==> exists|k: int| 0 <= k <= s.len() && #[trigger] glob(s.skip(k), p),
    decreases s.len(),
{
    let q = seq![c] + p;
    assert(q.drop_first() =~= p);
    let star = seq!['*'] + p;
    assert(star.drop_first() =~= p);
    assert(star[0] == '*');
    assert(s.skip(0) =~= s);
    assert(glob(s, star) == (glob(s, p) || (s.len() > 0 && glob(s.drop_first(), star))));
    if glob(s, p) {
        assert(glob(s.skip(0), p));
    }
    if s.len() == 0 && exists|k: int| 0 <= k <= s.len() && #[trigger] glob(s.skip(k), p) {
        let k = choose|k: int| 0 <= k <= s.len() && #[trigger] glob(s.skip(k), p);
        assert(k == 0);
    }
    if s.len() > 0 {
        let t = s.drop_first();
        law_patterns(t, p, c);
        if exists|k: int| 0 <= k <= t.len() && #[trigger] glob(t.skip(k), p) {
            let k = choose|k: int| 0 <= k <= t.len() && #[trigger] glob(t.skip(k), p);
            assert(t.skip(k) =~= s.skip(k + 1));
        }
        if exists|k: int| 0 <= k <= s.len() && #[trigger] glob(s.skip(k), p) {
            let k = choose|k: int| 0 <= k <= s.len() && #[trigger] glob(s.skip(k), p);
            if k > 0 {
                assert(t.skip(k - 1) =~= s.skip(k));
            }
        }
    }
}

// ── Quoting ─────────────────────────────────────────────────────────────────

/// A text is quoted character by character between two quotes; quotes,
/// backslashes and control characters are escaped, the usual ones shortly.
pub proof fn law_quoting(s: Seq<char>, c: char)
    ensures
        quoted(s) == seq!['"'] + quoted_chars(s) + seq!['"'],
        json_text(s) == seq!['"'] + json_chars(s) + seq!['"'],
        quoted_chars(Seq::empty()).len() == 0,
        json_chars(Seq::empty()).len() == 0,
        quoted_chars(s.push(c)) == quoted_chars(s) + quoted_char(c),
        json_chars(s.push(c)) == json_chars(s) + json_char(c),
        c as u32 >= 0x20 && c != '"' && c != '\\' ==> quoted_char(c) == seq![c] && json_char(c) == seq![c],
        quoted_char('"') == seq!['\\', '"'] && json_char('"') == seq!['\\', '"'],
        quoted_char('\\') == seq!['\\', '\\'] && json_char('\\') == seq!['\\', '\\'],
        quoted_char('\n') == seq!['\\', 'n'] && json_char('\n') == seq!['\\', 'n'],
        quoted_char('\r') == seq!['\\', 'r'] && json_char('\r') == seq!['\\', 'r'],
        quoted_char('\t') == seq!['\\', 't'] && json_char('\t') == seq!['\\', 't'],
        quoted_char('\u{8}') == seq!['\\', 'b'],
        quoted_char('\u{c}') == seq!['\\', 'f'],
        (c as u32) < 0x20 && c != '\n' && c != '\r' && c != '\t' ==> json_char(c) == seq!['\\', 'u']
            + hex_digits(c as nat, 4),
        (c as u32) < 0x20 && c != '\n' && c != '\r' && c != '\t' && c != '\u{8}' && c != '\u{c}'
            ==> quoted_char(c) == seq!['\\', 'u'] + hex_digits(c as nat, 4),
        short_escape('n') == Some('\n') && short_escape('r') == Some('\r') && short_escape('t') == Some(
            '\t',
        ) && short_escape('b') == Some('\u{8}') && short_escape('f') == Some('\u{c}')
            && short_escape('/') == Some('/') && short_escape('"') == Some('"') && short_escape('\\')
            == Some('\\'),
{
    assert(s.push(c).drop_last() =~= s);
}

/// The fields of a list are its parts between commas, trimmed.
pub proof fn law_fields_are_trimmed(s: Seq<char>, i: int)
    requires
        0 <= i < split(s, ',').len(),
    ensures
        fields(s).len() == split(s, ',').len(),
        fields(s)[i] == trim(split(s, ',')[i]),
        forall|wanted: Seq<char>| #[trigger]
            not_numbers(wanted, s) == "expected "@ + wanted + ", got '"@ + s + "'"@,
{
}

} // verus!
