//! Little-endian numbers, texts and lists as bytes, and reading them back
//! from the front of a byte sequence.
use vstd::prelude::*;
use vstd::utf8::{decode_utf8, encode_utf8, valid_utf8};
use crate::text::text_from_utf8;

verus! {

/// Why a part's cache file is not read.
#[derive(Debug, Clone, Copy, PartialEq, Eq, Structural)]
pub enum IndexError {
    /// The file ends where a number should stand.
    TruncatedNumber,
    /// The file ends inside a text.
    TruncatedText,
    /// A text is not UTF-8.
    BadText,
    /// The file is no index file.
    BadMagic,
    /// The file was written in another format version.
    UnsupportedVersion { version: u32 },
    /// The file holds another part.
    OtherPart { stored: u32, expected: u8 },
    /// No single part was asked for.
    NotSinglePart { bits: u8 },
    /// The file goes on after the part ends.
    TrailingBytes { count: usize },
}

/// What reading from the front of a byte sequence gives: a value and the
/// bytes after it, or an error.
pub type Read<V> = Result<(V, Seq<u8>), IndexError>;

/// Two stretches and what follows them, taken from the front.
pub proof fn lemma_join2(a: Seq<u8>, b: Seq<u8>, rest: Seq<u8>)
    ensures
        a + b + rest == a + (b + rest),
{
    assert(a + b + rest =~= a + (b + rest));
}

/// Three stretches and what follows them, taken from the front.
pub proof fn lemma_join3(a: Seq<u8>, b: Seq<u8>, c: Seq<u8>, rest: Seq<u8>)
    ensures
        a + b + c + rest == a + (b + (c + rest)),
{
    assert(a + b + c + rest =~= a + (b + (c + rest)));
}

/// Four stretches and what follows them, taken from the front.
pub proof fn lemma_join4(a: Seq<u8>, b: Seq<u8>, c: Seq<u8>, d: Seq<u8>, rest: Seq<u8>)
    ensures
        a + b + c + d + rest == a + (b + (c + (d + rest))),
{
    assert(a + b + c + d + rest =~= a + (b + (c + (d + rest))));
}

/// Nothing follows.
pub proof fn lemma_join_end(a: Seq<u8>)
    ensures
        a + Seq::<u8>::empty() == a,
{
    assert(a + Seq::<u8>::empty() =~= a);
}

// ── Numbers ─────────────────────────────────────────────────────────────────

/// A 32-bit number, least significant byte first.
pub open spec fn le32(n: u32) -> Seq<u8> {
    seq![
        (n % 256) as u8,
        (n / 256 % 256) as u8,
        (n / 65536 % 256) as u8,
        (n / 16777216) as u8,
    ]
}

/// A 64-bit number, least significant byte first.
pub open spec fn le64(n: u64) -> Seq<u8> {
    le32((n % 0x1_0000_0000) as u32) + le32((n / 0x1_0000_0000) as u32)
}

/// The number that four bytes make.
pub open spec fn from_le32(b: Seq<u8>) -> u32 {
    (b[0] + 256 * b[1] + 65536 * b[2] + 16777216 * b[3]) as u32
}

pub open spec fn read_u32(s: Seq<u8>) -> Read<u32> {
    if s.len() < 4 {
        Err(IndexError::TruncatedNumber)
    } else {
        Ok((from_le32(s), s.skip(4)))
    }
}

pub open spec fn read_u64(s: Seq<u8>) -> Read<u64> {
    match read_u32(s) {
        Err(e) => Err(e),
        Ok((low, rest)) => match read_u32(rest) {
            Err(e) => Err(e),
            Ok((high, rest)) => Ok(((low + high * 0x1_0000_0000) as u64, rest)),
        },
    }
}

/// A number reads back from its bytes.
pub proof fn lemma_read_u32(n: u32, rest: Seq<u8>)
    ensures
        read_u32(le32(n) + rest) == Ok::<(u32, Seq<u8>), IndexError>((n, rest)),
{
    let s = le32(n) + rest;
    assert(s.skip(4) =~= rest);
    assert(n % 256 + 256 * (n / 256 % 256) + 65536 * (n / 65536 % 256) + 16777216 * (n / 16777216)
        == n);
}

/// A 64-bit number reads back from its bytes.
pub proof fn lemma_read_u64(n: u64, rest: Seq<u8>)
    ensures
        read_u64(le64(n) + rest) == Ok::<(u64, Seq<u8>), IndexError>((n, rest)),
{
    let low = (n % 0x1_0000_0000) as u32;
    let high = (n / 0x1_0000_0000) as u32;
    lemma_join2(le32(low), le32(high), rest);
    lemma_read_u32(low, le32(high) + rest);
    lemma_read_u32(high, rest);
}

/// More bytes behind a number stay behind it.
pub proof fn lemma_read_u32_extends(s: Seq<u8>, more: Seq<u8>)
    requires
        read_u32(s) is Ok,
    ensures
        read_u32(s + more) == Ok::<(u32, Seq<u8>), IndexError>(
            (read_u32(s)->Ok_0.0, read_u32(s)->Ok_0.1 + more),
        ),
{
    assert((s + more).skip(4) =~= s.skip(4) + more);
}

/// Appends a 32-bit number.
pub fn write_u32(buf: &mut Vec<u8>, n: u32)
    ensures
        final(buf)@ == old(buf)@ + le32(n),
{
    buf.push((n % 256) as u8);
    buf.push((n / 256 % 256) as u8);
    buf.push((n / 65536 % 256) as u8);
    buf.push((n / 16777216) as u8);
    assert(buf@ =~= old(buf)@ + le32(n));
}

/// Appends a 64-bit number.
pub fn write_u64(buf: &mut Vec<u8>, n: u64)
    ensures
        final(buf)@ == old(buf)@ + le64(n),
{
    write_u32(buf, (n % 0x1_0000_0000) as u32);
    write_u32(buf, (n / 0x1_0000_0000) as u32);
    assert(buf@ =~= old(buf)@ + le64(n));
}

// ── Texts ───────────────────────────────────────────────────────────────────

/// A text: the number of its bytes, then the bytes.
pub open spec fn text_bytes(s: Seq<char>) -> Seq<u8> {
    le32(encode_utf8(s).len() as u32) + encode_utf8(s)
}

pub open spec fn read_text(s: Seq<u8>) -> Read<Seq<char>> {
    match read_u32(s) {
        Err(e) => Err(e),
        Ok((len, rest)) => if rest.len() < len {
            Err(IndexError::TruncatedText)
        } else if !valid_utf8(rest.take(len as int)) {
            Err(IndexError::BadText)
        } else {
            Ok((decode_utf8(rest.take(len as int)), rest.skip(len as int)))
        },
    }
}

/// The number of bytes of a text fits the space it is written in.
pub open spec fn text_fits(s: Seq<char>) -> bool {
    encode_utf8(s).len() <= u32::MAX
}

/// A text reads back from its bytes.
pub proof fn lemma_read_text(s: Seq<char>, rest: Seq<u8>)
    requires
        text_fits(s),
    ensures
        read_text(text_bytes(s) + rest) == Ok::<(Seq<char>, Seq<u8>), IndexError>((s, rest)),
{
    let body = encode_utf8(s);
    lemma_join2(le32(body.len() as u32), body, rest);
    lemma_read_u32(body.len() as u32, body + rest);
    assert((body + rest).take(body.len() as int) =~= body);
    assert((body + rest).skip(body.len() as int) =~= rest);
    vstd::utf8::encode_utf8_valid_utf8(s);
    vstd::utf8::encode_utf8_decode_utf8(s);
}

/// More bytes behind a text stay behind it.
pub proof fn lemma_read_text_extends(s: Seq<u8>, more: Seq<u8>)
    requires
        read_text(s) is Ok,
    ensures
        read_text(s + more) == Ok::<(Seq<char>, Seq<u8>), IndexError>(
            (read_text(s)->Ok_0.0, read_text(s)->Ok_0.1 + more),
        ),
{
    lemma_read_u32_extends(s, more);
    let len = read_u32(s)->Ok_0.0 as int;
    let rest = read_u32(s)->Ok_0.1;
    assert((rest + more).take(len) =~= rest.take(len));
    assert((rest + more).skip(len) =~= rest.skip(len) + more);
}

/// Appends a text.
pub fn write_str(buf: &mut Vec<u8>, s: &str)
    ensures
        final(buf)@ == old(buf)@ + text_bytes(s@),
{
    let bytes = s.as_bytes();
    write_u32(buf, bytes.len() as u32);
    buf.extend_from_slice(bytes);
    assert(buf@ =~= old(buf)@ + text_bytes(s@));
}

// ── Lists ───────────────────────────────────────────────────────────────────

/// The bytes of each value of a list, one after the other.
pub open spec fn list_bytes<V>(list: Seq<V>, bytes: spec_fn(V) -> Seq<u8>) -> Seq<u8>
    decreases list.len(),
{
    if list.len() == 0 {
        Seq::empty()
    } else {
        list_bytes(list.drop_last(), bytes) + bytes(list.last())
    }
}

/// Reads `n` values, each with `read`.
pub open spec fn read_list<V>(s: Seq<u8>, n: nat, read: spec_fn(Seq<u8>) -> Read<V>) -> Read<Seq<V>>
    decreases n,
{
    if n == 0 {
        Ok((Seq::empty(), s))
    } else {
        match read_list(s, (n - 1) as nat, read) {
            Err(e) => Err(e),
            Ok((list, rest)) => match read(rest) {
                Err(e) => Err(e),
                Ok((v, rest)) => Ok((list.push(v), rest)),
            },
        }
    }
}

/// A list reads back from its bytes when each of its values does.
pub proof fn lemma_read_list<V>(
    list: Seq<V>,
    bytes: spec_fn(V) -> Seq<u8>,
    read: spec_fn(Seq<u8>) -> Read<V>,
    rest: Seq<u8>,
)
    requires
        forall|i: int, r: Seq<u8>|
            0 <= i < list.len() ==> #[trigger] read(bytes(list[i]) + r) == Ok::<
                (V, Seq<u8>),
                IndexError,
            >((list[i], r)),
    ensures
        read_list(list_bytes(list, bytes) + rest, list.len(), read) == Ok::<
            (Seq<V>, Seq<u8>),
            IndexError,
        >((list, rest)),
    decreases list.len(),
{
    if list.len() == 0 {
        assert(list_bytes(list, bytes) + rest =~= rest);
        assert(list =~= Seq::empty());
    } else {
        let front = list.drop_last();
        let last = bytes(list.last()) + rest;
        assert(list_bytes(list, bytes) + rest =~= list_bytes(front, bytes) + last);
        assert forall|i: int, r: Seq<u8>| 0 <= i < front.len() implies #[trigger] read(
            bytes(front[i]) + r,
        ) == Ok::<(V, Seq<u8>), IndexError>((front[i], r)) by {
            assert(front[i] == list[i]);
        }
        lemma_read_list(front, bytes, read, last);
        assert(read(bytes(list[list.len() - 1]) + rest) == Ok::<(V, Seq<u8>), IndexError>(
            (list.last(), rest),
        ));
        assert(front.push(list.last()) =~= list);
    }
}

/// More bytes behind a list stay behind it, when that is so of its values.
pub proof fn lemma_read_list_extends<V>(
    s: Seq<u8>,
    n: nat,
    read: spec_fn(Seq<u8>) -> Read<V>,
    more: Seq<u8>,
)
    requires
        read_list(s, n, read) is Ok,
        forall|x: Seq<u8>|
            (#[trigger] read(x)) is Ok ==> read(x + more) == Ok::<(V, Seq<u8>), IndexError>(
                (read(x)->Ok_0.0, read(x)->Ok_0.1 + more),
            ),
    ensures
        read_list(s + more, n, read) == Ok::<(Seq<V>, Seq<u8>), IndexError>(
            (read_list(s, n, read)->Ok_0.0, read_list(s, n, read)->Ok_0.1 + more),
        ),
    decreases n,
{
    if n > 0 {
        lemma_read_list_extends(s, (n - 1) as nat, read, more);
        let rest = read_list(s, (n - 1) as nat, read)->Ok_0.1;
        assert(read(rest) is Ok);
    }
}

/// A list that fails at one of its values fails as a whole.
pub proof fn lemma_read_list_fails<V>(
    s: Seq<u8>,
    m: nat,
    n: nat,
    read: spec_fn(Seq<u8>) -> Read<V>,
)
    requires
        m <= n,
        read_list(s, m, read) is Err,
    ensures
        read_list(s, n, read) is Err,
        read_list(s, n, read)->Err_0 == read_list(s, m, read)->Err_0,
    decreases n,
{
    if m < n {
        lemma_read_list_fails(s, m, (n - 1) as nat, read);
    }
}

// ── Maps ────────────────────────────────────────────────────────────────────

/// The entries of a map for the given keys.
pub open spec fn keyed<V>(m: Map<u32, V>, keys: Seq<u32>) -> Seq<(u32, V)> {
    keys.map_values(|k: u32| (k, m[k]))
}

/// The entries of a map in ascending order of their keys.
pub open spec fn entries<V>(m: Map<u32, V>) -> Seq<(u32, V)> {
    keyed(m, crate::order::ascending(m.dom()))
}

/// The map that a list of entries makes; the last entry of a key wins.
pub open spec fn map_of<V>(list: Seq<(u32, V)>) -> Map<u32, V>
    decreases list.len(),
{
    if list.len() == 0 {
        Map::empty()
    } else {
        map_of(list.drop_last()).insert(list.last().0, list.last().1)
    }
}

/// The number of entries of a map, then the entries.
pub open spec fn map_bytes<V>(m: Map<u32, V>, bytes: spec_fn((u32, V)) -> Seq<u8>) -> Seq<u8> {
    le32(m.dom().len() as u32) + list_bytes(entries(m), bytes)
}

pub open spec fn read_map<V>(s: Seq<u8>, read: spec_fn(Seq<u8>) -> Read<(u32, V)>) -> Read<
    Map<u32, V>,
> {
    match read_u32(s) {
        Err(e) => Err(e),
        Ok((n, rest)) => match read_list(rest, n as nat, read) {
            Err(e) => Err(e),
            Ok((list, rest)) => Ok((map_of(list), rest)),
        },
    }
}

/// A map with an entry for every key of an ascending list.
proof fn lemma_map_of_entries<V>(m: Map<u32, V>, keys: Seq<u32>)
    requires
        forall|i: int, j: int|
            0 <= i < j < keys.len() ==> #[trigger] keys[i] < #[trigger] keys[j],
    ensures
        forall|k: u32|
            #[trigger] map_of(keyed(m, keys)).contains_key(k) <==> keys.contains(k),
        forall|k: u32| keys.contains(k) ==> #[trigger] map_of(keyed(m, keys))[k] == m[k],
    decreases keys.len(),
{
    let list = keyed(m, keys);
    if keys.len() > 0 {
        let front = keys.drop_last();
        lemma_map_of_entries(m, front);
        assert(list.drop_last() =~= keyed(m, front));
        assert forall|k: u32| keys.contains(k) <==> front.contains(k) || k == keys.last() by {
            if keys.contains(k) {
                let i = choose|i: int| 0 <= i < keys.len() && keys[i] == k;
                if i < keys.len() - 1 {
                    assert(front[i] == k);
                }
            }
            if front.contains(k) {
                let i = choose|i: int| 0 <= i < front.len() && front[i] == k;
                assert(keys[i] == k);
            }
        }
        let made = map_of(list);
        assert(list.last() == (keys.last(), m[keys.last()]));
        assert(made == map_of(keyed(m, front)).insert(keys.last(), m[keys.last()]));
        assert forall|k: u32| #[trigger] made.contains_key(k) <==> keys.contains(k) by {
            assert(map_of(keyed(m, front)).contains_key(k) <==> front.contains(k));
        }
        assert forall|k: u32| keys.contains(k) implies #[trigger] made[k] == m[k] by {
            if k != keys.last() {
                assert(front.contains(k));
                assert(map_of(keyed(m, front))[k] == m[k]);
            }
        }
    } else {
        assert(list.len() == 0);
    }
}

/// A map is what its entries make.
pub proof fn lemma_entries<V>(m: Map<u32, V>)
    requires
        m.dom().finite(),
    ensures
        map_of(entries(m)) == m,
        entries(m).len() == m.dom().len(),
        forall|i: int|
            0 <= i < entries(m).len() ==> m.contains_key((#[trigger] entries(m)[i]).0) && entries(
                m,
            )[i].1 == m[entries(m)[i].0],
{
    crate::order::lemma_ascending_exists(m.dom());
    let keys = crate::order::ascending(m.dom());
    lemma_map_of_entries(m, keys);
    assert forall|i: int| 0 <= i < entries(m).len() implies m.contains_key(
        (#[trigger] entries(m)[i]).0,
    ) by {
        assert(keys.contains(keys[i]));
    }
    assert(map_of(entries(m)) =~= m) by {
        assert forall|k: u32| map_of(entries(m)).contains_key(k) <==> m.contains_key(k) by {
            assert(keys.contains(k) <==> m.dom().contains(k));
        }
        assert forall|k: u32| m.contains_key(k) implies map_of(entries(m))[k] == m[k] by {
            assert(keys.contains(k));
        }
    }
}

/// A map reads back from its bytes when each of its entries does.
pub proof fn lemma_read_map<V>(
    m: Map<u32, V>,
    bytes: spec_fn((u32, V)) -> Seq<u8>,
    read: spec_fn(Seq<u8>) -> Read<(u32, V)>,
    rest: Seq<u8>,
)
    requires
        m.dom().finite(),
        m.dom().len() <= u32::MAX,
        forall|k: u32, r: Seq<u8>|
            m.contains_key(k) ==> #[trigger] read(bytes((k, m[k])) + r) == Ok::<
                ((u32, V), Seq<u8>),
                IndexError,
            >(((k, m[k]), r)),
    ensures
        read_map(map_bytes(m, bytes) + rest, read) == Ok::<(Map<u32, V>, Seq<u8>), IndexError>(
            (m, rest),
        ),
{
    lemma_entries(m);
    let n = m.dom().len() as u32;
    let list = entries(m);
    let body = list_bytes(list, bytes) + rest;
    lemma_join2(le32(n), list_bytes(list, bytes), rest);
    lemma_read_u32(n, body);
    assert forall|i: int, r: Seq<u8>| 0 <= i < list.len() implies #[trigger] read(
        bytes(list[i]) + r,
    ) == Ok::<((u32, V), Seq<u8>), IndexError>((list[i], r)) by {
        let k = list[i].0;
        assert(m.contains_key(k));
        assert(list[i] == (k, m[k]));
        assert(read(bytes((k, m[k])) + r) == Ok::<((u32, V), Seq<u8>), IndexError>(
            ((k, m[k]), r),
        ));
    }
    lemma_read_list(list, bytes, read, rest);
}

/// More bytes behind a map stay behind it, when that is so of its entries.
pub proof fn lemma_read_map_extends<V>(
    s: Seq<u8>,
    read: spec_fn(Seq<u8>) -> Read<(u32, V)>,
    more: Seq<u8>,
)
    requires
        read_map(s, read) is Ok,
        forall|x: Seq<u8>|
            (#[trigger] read(x)) is Ok ==> read(x + more) == Ok::<((u32, V), Seq<u8>), IndexError>(
                (read(x)->Ok_0.0, read(x)->Ok_0.1 + more),
            ),
    ensures
        read_map(s + more, read) == Ok::<(Map<u32, V>, Seq<u8>), IndexError>(
            (read_map(s, read)->Ok_0.0, read_map(s, read)->Ok_0.1 + more),
        ),
{
    lemma_read_u32_extends(s, more);
    let n = read_u32(s)->Ok_0.0;
    let rest = read_u32(s)->Ok_0.1;
    lemma_read_list_extends(rest, n as nat, read, more);
}

// ── Reading ─────────────────────────────────────────────────────────────────

/// A place in a byte sequence that is being read.
pub struct Cursor<'a> {
    pub data: &'a [u8],
    pub pos: usize,
}

impl<'a> Cursor<'a> {
    /// The place is inside the bytes.
    pub open spec fn wf(self) -> bool {
        self.pos <= self.data@.len()
    }

    /// The bytes that are still to be read.
    pub open spec fn rest(self) -> Seq<u8> {
        self.data@.skip(self.pos as int)
    }

    /// Reads a 32-bit number.
    pub fn u32(&mut self) -> (r: Result<u32, IndexError>)
        requires
            old(self).wf(),
        ensures
            final(self).wf(),
            final(self).data == old(self).data,
            match r {
                Ok(n) => read_u32(old(self).rest()) == Ok::<(u32, Seq<u8>), IndexError>(
                    (n, final(self).rest()),
                ),
                Err(e) => final(self).pos == old(self).pos && read_u32(old(self).rest()) == Err::<
                    (u32, Seq<u8>),
                    IndexError,
                >(e),
            },
    {
        if self.data.len() - self.pos < 4 {
            return Err(IndexError::TruncatedNumber);
        }
        let p: usize = self.pos;
        let n: u32 = self.data[p] as u32 + 256 * (self.data[p + 1] as u32) + 65536 * (self.data[p
            + 2] as u32) + 16777216 * (self.data[p + 3] as u32);
        self.pos = p + 4;
        assert(self.rest() =~= old(self).rest().skip(4));
        Ok(n)
    }

    /// Reads a 64-bit number.
    pub fn u64(&mut self) -> (r: Result<u64, IndexError>)
        requires
            old(self).wf(),
        ensures
            final(self).wf(),
            final(self).data == old(self).data,
            match r {
                Ok(n) => read_u64(old(self).rest()) == Ok::<(u64, Seq<u8>), IndexError>(
                    (n, final(self).rest()),
                ),
                Err(e) => {
                    &&& read_u64(old(self).rest()) == Err::<(u64, Seq<u8>), IndexError>(e)
                    &&& final(self).pos == old(self).pos + (if old(self).rest().len() < 4 {
                        0int
                    } else {
                        4
                    })
                },
            },
    {
        let low: u32 = match self.u32() {
            Ok(n) => n,
            Err(e) => return Err(e),
        };
        let high: u32 = match self.u32() {
            Ok(n) => n,
            Err(e) => return Err(e),
        };
        Ok(low as u64 + (high as u64) * 0x1_0000_0000)
    }

    /// Reads a text.
    pub fn string(&mut self) -> (r: Result<String, IndexError>)
        requires
            old(self).wf(),
        ensures
            final(self).wf(),
            final(self).data == old(self).data,
            match r {
                Ok(s) => read_text(old(self).rest()) == Ok::<(Seq<char>, Seq<u8>), IndexError>(
                    (s@, final(self).rest()),
                ),
                Err(e) => {
                    &&& read_text(old(self).rest()) == Err::<(Seq<char>, Seq<u8>), IndexError>(e)
                    &&& final(self).pos == old(self).pos + (match read_u32(old(self).rest()) {
                        Err(_) => 0int,
                        Ok((n, rest)) => if rest.len() < n {
                            4
                        } else {
                            4 + n
                        },
                    })
                },
            },
    {
        let n: u32 = match self.u32() {
            Ok(n) => n,
            Err(e) => return Err(e),
        };
        let ghost rest = self.rest();
        let left: usize = self.data.len() - self.pos;
        if left < n as usize {
            return Err(IndexError::TruncatedText);
        }
        let len: usize = n as usize;
        let mut bytes: Vec<u8> = Vec::new();
        let start: usize = self.pos;
        let mut i: usize = 0;
        while i < len
            invariant
                i <= len,
                start == self.pos,
                start + len <= self.data.len(),
                rest == self.data@.skip(start as int),
                bytes@ == rest.take(i as int),
            decreases len - i,
        {
            bytes.push(self.data[start + i]);
            assert(rest.take(i + 1) =~= rest.take(i as int).push(rest[i as int]));
            i = i + 1;
        }
        self.pos = start + len;
        assert(self.rest() =~= rest.skip(len as int));
        match text_from_utf8(bytes.as_slice()) {
            Some(s) => Ok(s),
            None => Err(IndexError::BadText),
        }
    }
}

} // verus!
