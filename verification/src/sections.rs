//! The sections of a resource, by the addresses that it uses.
use vstd::prelude::*;
use crate::commands::resource::container::{word, word_at};

verus! {

/// The eight bytes from `at` on, as a number.
pub open spec fn long(data: Seq<u8>, at: int) -> u64 {
    (word(data, at) + 0x1_0000_0000 * word(data, at + 4)) as u64
}

/// The eight bytes from `at` on, as a number.
pub(crate) fn long_at(data: &[u8], at: usize) -> (r: u64)
    requires
        at + 8 <= data.len(),
    ensures
        r == long(data@, at as int),
{
    word_at(data, at) as u64 + 0x1_0000_0000 * (word_at(data, at + 4) as u64)
}

/// The sections of a resource.
pub struct Sections {
    pub system: Vec<u8>,
    pub graphics: Vec<u8>,
}

/// What a distance comes to as a size of this machine.
pub open spec fn as_size(n: int) -> int {
    n % (usize::MAX + 1)
}

/// The stretch of so many bytes at an address, if a section holds it: addresses
/// with the bits of 0x60000000 lie in the graphics section, else those with
/// the bits of 0x50000000 in the system section.
pub open spec fn at_address(system: Seq<u8>, graphics: Seq<u8>, address: u64, len: int) -> Option<
    Seq<u8>,
> {
    if address & 0x6000_0000 == 0x6000_0000 {
        let at = as_size(address - 0x6000_0000);
        if at + len <= graphics.len() {
            Some(graphics.subrange(at, at + len))
        } else {
            None
        }
    } else if address & 0x5000_0000 == 0x5000_0000 {
        let at = as_size(address - 0x5000_0000);
        if at + len <= system.len() {
            Some(system.subrange(at, at + len))
        } else {
            None
        }
    } else {
        None
    }
}

impl Sections {
    /// The stretch of so many bytes at an address, if a section holds it.
    pub(crate) fn find(&self, address: u64, len: u64) -> (r: Option<Vec<u8>>)
        ensures
            match r {
                Some(bytes) => bytes.len() == len && at_address(
                    self.system@,
                    self.graphics@,
                    address,
                    len as int,
                ) == Some(bytes@),
                None => at_address(self.system@, self.graphics@, address, len as int) is None,
            },
    {
        proof {
            assert(address & 0x6000_0000 == 0x6000_0000 ==> address >= 0x6000_0000) by (bit_vector);
            assert(address & 0x5000_0000 == 0x5000_0000 ==> address >= 0x5000_0000) by (bit_vector);
        }
        if address & 0x6000_0000 == 0x6000_0000 {
            stretch(&self.graphics, size_of(address - 0x6000_0000), len)
        } else if address & 0x5000_0000 == 0x5000_0000 {
            stretch(&self.system, size_of(address - 0x5000_0000), len)
        } else {
            None
        }
    }
}

fn size_of(n: u64) -> (r: usize)
    ensures
        r == as_size(n as int),
{
    let max: u64 = usize::MAX as u64;
    if n <= max {
        return n as usize;
    }
    (n % (max + 1)) as usize
}

fn stretch(section: &Vec<u8>, at: usize, len: u64) -> (r: Option<Vec<u8>>)
    ensures
        match r {
            Some(bytes) => at + len <= section.len() && bytes@ == section@.subrange(at as int, at + len),
            None => at + len > section.len(),
        },
{
    if at > section.len() || len > (section.len() - at) as u64 {
        return None;
    }
    let end: usize = at + len as usize;
    let mut out: Vec<u8> = Vec::new();
    let mut i: usize = at;
    assert(out@ =~= section@.subrange(at as int, at as int));
    while i < end
        invariant
            at <= i <= end <= section.len(),
            out@ == section@.subrange(at as int, i as int),
        decreases end - i,
    {
        out.push(section[i]);
        i = i + 1;
        assert(out@ =~= section@.subrange(at as int, i as int));
    }
    Some(out)
}

// ── Texture dictionaries ────────────────────────────────────────────────────

/// The two bytes from `at` on, as a number.
pub open spec fn short(data: Seq<u8>, at: int) -> int {
    data[at] + 256 * data[at + 1]
}

pub(crate) fn short_at(data: &[u8], at: usize) -> (r: u64)
    requires
        at + 2 <= data.len(),
    ensures
        r == short(data@, at as int),
{
    data[at] as u64 + 256 * (data[at + 1] as u64)
}

/// The size of a texture with all its levels, each a quarter of the one
/// before, can be counted.
pub open spec fn is_texture_countable(system: Seq<u8>, graphics: Seq<u8>, address: u64) -> bool {
    match at_address(system, graphics, address, 0x90) {
        None => true,
        Some(raw) => 2 * short(raw, 0x52) * short(raw, 0x56) <= usize::MAX,
    }
}

/// The address of a texture, in a list of addresses.
pub open spec fn address_in(list: Seq<u8>, k: int) -> u64 {
    long(list, 8 * k)
}

/// The sizes of the first `n` textures of a list of addresses can be counted.
pub open spec fn are_all_countable(system: Seq<u8>, graphics: Seq<u8>, list: Seq<u8>, n: int) -> bool {
    forall|k: int|
        0 <= k < n ==> is_texture_countable(system, graphics, #[trigger] address_in(list, k))
}

/// The sizes of the textures of a dictionary can be counted: it names so many
/// textures, by a list of their addresses.
pub open spec fn are_textures_countable(system: Seq<u8>, graphics: Seq<u8>) -> bool {
    system.len() >= 0x40 ==> match at_address(
        system,
        graphics,
        long(system, 0x30),
        8 * short(system, 0x38),
    ) {
        None => true,
        Some(list) => are_all_countable(system, graphics, list, short(system, 0x38)),
    }
}

/// Sizes of 64 bits count every texture.
pub(crate) proof fn lemma_textures_countable(system: Seq<u8>, graphics: Seq<u8>)
    requires
        usize::MAX == 0xffff_ffff_ffff_ffff,
    ensures
        are_textures_countable(system, graphics),
{
    assert forall|list: Seq<u8>, k: int| is_texture_countable(
        system,
        graphics,
        #[trigger] address_in(list, k),
    ) by {
        match at_address(system, graphics, address_in(list, k), 0x90) {
            None => {},
            Some(raw) => {
                let height = short(raw, 0x52);
                let stride = short(raw, 0x56);
                assert(2 * height * stride <= 2 * 0xffff * 0xffff) by (nonlinear_arith)
                    requires
                        0 <= height <= 0xffff,
                        0 <= stride <= 0xffff,
                ;
            },
        }
    }
}

impl Sections {
    fn can_count_texture(&self, address: u64) -> (r: bool)
        ensures
            r == is_texture_countable(self.system@, self.graphics@, address),
    {
        match self.find(address, 0x90) {
            None => true,
            Some(raw) => {
                let height: u64 = short_at(raw.as_slice(), 0x52);
                let stride: u64 = short_at(raw.as_slice(), 0x56);
                assert(2 * height * stride <= 2 * 0xffff * 0xffff) by (nonlinear_arith)
                    requires
                        height <= 0xffff,
                        stride <= 0xffff,
                ;
                2 * height * stride <= usize::MAX as u64
            },
        }
    }

    fn can_count_all(&self, list: &Vec<u8>, count: u64) -> (r: bool)
        requires
            count <= 0xffff,
            list.len() == 8 * count,
        ensures
            r == are_all_countable(self.system@, self.graphics@, list@, count as int),
    {
        let mut k: u64 = 0;
        while k < count
            invariant
                k <= count <= 0xffff,
                list.len() == 8 * count,
                are_all_countable(self.system@, self.graphics@, list@, k as int),
            decreases count - k,
        {
            let at: usize = 8 * k as usize;
            let address: u64 = long_at(list.as_slice(), at);
            assert(address == address_in(list@, k as int));
            if !self.can_count_texture(address) {
                return false;
            }
            k = k + 1;
        }
        true
    }

    /// Whether the sizes of the textures of a dictionary can be counted.
    pub(crate) fn can_count_textures(&self) -> (r: bool)
        ensures
            r == are_textures_countable(self.system@, self.graphics@),
    {
        if self.system.len() < 0x40 {
            return true;
        }
        let count: u64 = short_at(self.system.as_slice(), 0x38);
        match self.find(long_at(self.system.as_slice(), 0x30), 8 * count) {
            None => true,
            Some(list) => self.can_count_all(&list, count),
        }
    }
}

} // verus!
