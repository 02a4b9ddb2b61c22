//! A fingerprint of the game's archives, by which a cache is known to be
//! stale.
use vstd::prelude::*;
use vstd::utf8::encode_utf8;
use crate::index::bytes::{from_le32, le64, lemma_join2, write_u64};
use crate::index::load_order::normal_path;
use crate::text::{replaced, to_lowercase};

verus! {

/// What a cache is fingerprinted by: an archive's path below the game's
/// folder, its size, and when it was last changed.
#[derive(Debug, Clone, PartialEq, Eq)]
pub struct ArchiveStamp {
    pub path: String,
    pub size: u64,
    pub modified: u64,
}

/// An `ArchiveStamp` with the path normalized.
pub struct Stamp {
    pub path: Seq<char>,
    pub size: u64,
    pub modified: u64,
}

impl View for ArchiveStamp {
    type V = Stamp;

    open spec fn view(&self) -> Stamp {
        Stamp { path: normal_path(self.path@), size: self.size, modified: self.modified }
    }
}

/// The stamps of a list of archives.
pub open spec fn stamps(list: Seq<ArchiveStamp>) -> Seq<Stamp> {
    list.map_values(|s: ArchiveStamp| s@)
}

/// What goes into the fingerprint of one archive: its path and a zero byte,
/// its size, its time.
pub open spec fn stamp_bytes(s: Stamp) -> Seq<u8> {
    encode_utf8(s.path) + seq![0u8] + le64(s.size) + le64(s.modified)
}

/// What goes into the fingerprint of all archives, one after the other.
pub open spec fn stamps_bytes(list: Seq<Stamp>) -> Seq<u8>
    decreases list.len(),
{
    if list.len() == 0 {
        Seq::empty()
    } else {
        stamps_bytes(list.drop_last()) + stamp_bytes(list.last())
    }
}

/// The SHA-256 digest of some bytes.
pub uninterp spec fn sha256(data: Seq<u8>) -> Seq<u8>;

/// `sha2::Sha256::digest`, whose result depends on the bytes alone and is 32
/// bytes long.
#[verifier::external_body]
fn sha256_digest(data: &[u8]) -> (r: Vec<u8>)
    ensures
        r@ == sha256(data@),
        r.len() == 32,
{
    <sha2::Sha256 as sha2::Digest>::digest(data).to_vec()
}

/// The first eight bytes of a digest, as a number.
pub open spec fn first_word(digest: Seq<u8>) -> u64 {
    (from_le32(digest) + from_le32(digest.skip(4)) * 0x1_0000_0000) as u64
}

/// The first eight bytes of a digest, as a number.
pub fn first_word_of(digest: &Vec<u8>) -> (r: u64)
    requires
        digest.len() >= 8,
    ensures
        r == first_word(digest@),
{
    let low: u32 = digest[0] as u32 + 256 * (digest[1] as u32) + 65536 * (digest[2] as u32) + 16777216
        * (digest[3] as u32);
    let high: u32 = digest[4] as u32 + 256 * (digest[5] as u32) + 65536 * (digest[6] as u32)
        + 16777216 * (digest[7] as u32);
    assert(high == from_le32(digest@.skip(4)));
    low as u64 + (high as u64) * 0x1_0000_0000
}

/// What goes into the fingerprint of the listed archives.
pub fn fingerprint_input(archives: &Vec<ArchiveStamp>) -> (buf: Vec<u8>)
    ensures
        buf@ == stamps_bytes(stamps(archives@)),
{
    let ghost all = stamps(archives@);
    let mut buf: Vec<u8> = Vec::new();
    let mut i: usize = 0;
    assert(all.take(0) =~= Seq::empty());
    while i < archives.len()
        invariant
            i <= archives.len(),
            all == stamps(archives@),
            buf@ == stamps_bytes(all.take(i as int)),
        decreases archives.len() - i,
    {
        let ghost before = buf@;
        let lower = to_lowercase(archives[i].path.as_str());
        let path = replaced(lower.as_str(), '\\', '/');
        let bytes = path.as_str().as_bytes();
        buf.extend_from_slice(bytes);
        buf.push(0);
        write_u64(&mut buf, archives[i].size);
        write_u64(&mut buf, archives[i].modified);
        proof {
            assert(all.take(i + 1).drop_last() =~= all.take(i as int));
            assert(all.take(i + 1).last() == archives[i as int]@);
            assert(buf@ =~= before + stamp_bytes(archives[i as int]@));
        }
        i = i + 1;
    }
    assert(all.take(archives.len() as int) =~= all);
    buf
}

/// A hash of the path, size and modification time of every archive. A cache
/// written under another fingerprint is rebuilt, so an updated, added or
/// removed archive is picked up.
pub fn archives_fingerprint(archives: &Vec<ArchiveStamp>) -> (r: u64)
    ensures
        r == first_word(sha256(stamps_bytes(stamps(archives@)))),
{
    let input = fingerprint_input(archives);
    let digest = sha256_digest(input.as_slice());
    first_word_of(&digest)
}

// ── Laws ────────────────────────────────────────────────────────────────────

/// The bytes of the path hold no zero.
pub open spec fn path_has_no_zero(s: Stamp) -> bool {
    forall|i: int| 0 <= i < encode_utf8(s.path).len() ==> #[trigger] encode_utf8(s.path)[i] != 0
}

/// The last archive of a list, read from the back of the bytes: the fixed
/// part is the last 17 bytes, and the path is what stands before them.
proof fn lemma_front(list: Seq<Stamp>)
    requires
        list.len() > 0,
    ensures
        stamps_bytes(list) == stamp_bytes(list[0]) + stamps_bytes(list.drop_first()),
    decreases list.len(),
{
    if list.len() == 1 {
        assert(list.drop_last() =~= Seq::empty());
        assert(list.drop_first() =~= Seq::empty());
        assert(stamps_bytes(list.drop_last()) + stamp_bytes(list.last()) =~= stamp_bytes(list[0])
            + stamps_bytes(list.drop_first()));
    } else {
        let front = list.drop_last();
        lemma_front(front);
        let rest = list.drop_first();
        assert(rest.drop_last() =~= front.drop_first());
        assert(rest.last() == list.last());
        lemma_join2(
            stamp_bytes(list[0]),
            stamps_bytes(front.drop_first()),
            stamp_bytes(list.last()),
        );
    }
}

/// Bytes that start with two paths, each ended by its first zero, start with
/// the same path.
proof fn lemma_same_path(a: Seq<u8>, x: Seq<u8>, b: Seq<u8>, y: Seq<u8>)
    requires
        a + seq![0u8] + x == b + seq![0u8] + y,
        forall|i: int| 0 <= i < a.len() ==> #[trigger] a[i] != 0,
        forall|i: int| 0 <= i < b.len() ==> #[trigger] b[i] != 0,
    ensures
        a == b,
        x == y,
{
    let s = a + seq![0u8] + x;
    let t = b + seq![0u8] + y;
    assert(s[a.len() as int] == 0);
    assert(t[b.len() as int] == 0);
    if a.len() < b.len() {
        assert(t[a.len() as int] == b[a.len() as int]);
    } else if b.len() < a.len() {
        assert(s[b.len() as int] == a[b.len() as int]);
    }
    assert(a =~= s.take(a.len() as int));
    assert(b =~= t.take(b.len() as int));
    assert(x =~= s.skip(a.len() as int + 1));
    assert(y =~= t.skip(b.len() as int + 1));
}

/// A size and a time are read back from the 16 bytes they make.
proof fn lemma_same_numbers(m: u64, n: u64, p: u64, q: u64, x: Seq<u8>, y: Seq<u8>)
    requires
        le64(m) + le64(n) + x == le64(p) + le64(q) + y,
    ensures
        m == p,
        n == q,
        x == y,
{
    let s = le64(m) + le64(n) + x;
    crate::index::bytes::lemma_read_u64(m, le64(n) + x);
    crate::index::bytes::lemma_read_u64(n, x);
    crate::index::bytes::lemma_read_u64(p, le64(q) + y);
    crate::index::bytes::lemma_read_u64(q, y);
    lemma_join2(le64(m), le64(n), x);
    lemma_join2(le64(p), le64(q), y);
}

/// What goes into a fingerprint follows every archive: two lists give the same
/// bytes only when they list the same archives with the same sizes and times,
/// in the same order.
pub proof fn law_fingerprint_input_follows_every_archive(a: Seq<Stamp>, b: Seq<Stamp>)
    requires
        forall|i: int| 0 <= i < a.len() ==> path_has_no_zero(#[trigger] a[i]),
        forall|i: int| 0 <= i < b.len() ==> path_has_no_zero(#[trigger] b[i]),
        stamps_bytes(a) == stamps_bytes(b),
    ensures
        a == b,
    decreases a.len(),
{
    if a.len() > 0 && b.len() > 0 {
        lemma_front(a);
        lemma_front(b);
        let x = stamps_bytes(a.drop_first());
        let y = stamps_bytes(b.drop_first());
        let pa = encode_utf8(a[0].path);
        let pb = encode_utf8(b[0].path);
        let na = le64(a[0].size) + le64(a[0].modified) + x;
        let nb = le64(b[0].size) + le64(b[0].modified) + y;
        assert(stamp_bytes(a[0]) + x == pa + seq![0u8] + na) by {
            crate::index::bytes::lemma_join3(pa + seq![0u8], le64(a[0].size), le64(a[0].modified), x);
            lemma_join2(le64(a[0].size), le64(a[0].modified), x);
        }
        assert(stamp_bytes(b[0]) + y == pb + seq![0u8] + nb) by {
            crate::index::bytes::lemma_join3(pb + seq![0u8], le64(b[0].size), le64(b[0].modified), y);
            lemma_join2(le64(b[0].size), le64(b[0].modified), y);
        }
        assert(path_has_no_zero(a[0]) && path_has_no_zero(b[0]));
        lemma_same_path(pa, na, pb, nb);
        lemma_same_numbers(
            a[0].size,
            a[0].modified,
            b[0].size,
            b[0].modified,
            x,
            y,
        );
        vstd::utf8::encode_utf8_decode_utf8(a[0].path);
        vstd::utf8::encode_utf8_decode_utf8(b[0].path);
        let ra = a.drop_first();
        let rb = b.drop_first();
        assert forall|i: int| 0 <= i < ra.len() implies path_has_no_zero(#[trigger] ra[i]) by {
            assert(ra[i] == a[i + 1]);
        }
        assert forall|i: int| 0 <= i < rb.len() implies path_has_no_zero(#[trigger] rb[i]) by {
            assert(rb[i] == b[i + 1]);
        }
        law_fingerprint_input_follows_every_archive(ra, rb);
        assert(a =~= seq![a[0]] + ra);
        assert(b =~= seq![b[0]] + rb);
    } else if a.len() > 0 {
        lemma_front(a);
        assert(stamp_bytes(a[0]).len() >= 17);
    } else if b.len() > 0 {
        lemma_front(b);
        assert(stamp_bytes(b[0]).len() >= 17);
    } else {
        assert(a =~= b);
    }
}

} // verus!
