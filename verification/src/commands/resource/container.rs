//! What the first bytes of a file say it is.
use vstd::prelude::*;
use vstd::string::*;
use crate::index::bytes::from_le32;
use crate::text::{decimal, decimal_of, hex_digits_upper, hex_upper_of};

verus! {

/// `RSC7`: a resource.
pub const RSC7_MAGIC: u32 = 0x3743_5352;

/// `RSC8`: a resource of the later generation.
pub const RSC8_MAGIC: u32 = 0x3843_5352;

/// `FXAP`: the header Cfx.re asset escrow puts on encrypted stream files.
pub const FXAP_MAGIC: u32 = 0x5041_5846;

/// The 16-byte RSC7 header plus what could be learnt about the body.
#[derive(Debug, Clone, Copy, PartialEq, Eq, Structural)]
pub struct Rsc7Header {
    pub version: u32,
    pub system_flags: u32,
    pub graphics_flags: u32,
    pub system_size: usize,
    pub graphics_size: usize,
    /// Body is deflated (false when it is stored raw).
    pub compressed: bool,
    /// Size of the body as read, in bytes.
    pub body_len: usize,
}

/// The self-describing containers of metadata.
#[derive(Debug, Clone, Copy, PartialEq, Eq, Structural)]
pub enum MetaContainer {
    Pso,
    Rbf,
    Meta,
    Xml,
}

/// What the first bytes say the file is.
#[derive(Debug, Clone, Copy, PartialEq, Eq, Structural)]
pub enum Container {
    Rsc7(Rsc7Header),
    /// PSO, RBF or XML metadata, with no RSC7 header to report.
    Meta(MetaContainer),
}

/// Why a file is not read.
#[derive(Debug)]
pub enum ResourceError {
    TooShort { len: usize },
    Escrowed,
    Gen9 { magic: u32 },
    NotRsc7 { magic: u32 },
    /// Neither a resource nor metadata.
    NotAResource { magic: u32 },
    /// The sections are larger than this machine can address.
    TooLarge,
    /// The body cannot be unpacked.
    Unpack { reason: String },
}

/// A `ResourceError` with its text.
pub enum Fault {
    TooShort { len: usize },
    Escrowed,
    Gen9 { magic: u32 },
    NotRsc7 { magic: u32 },
    NotAResource { magic: u32 },
    TooLarge,
    Unpack { reason: Seq<char> },
}

impl View for ResourceError {
    type V = Fault;

    open spec fn view(&self) -> Fault {
        match *self {
            ResourceError::TooShort { len } => Fault::TooShort { len },
            ResourceError::Escrowed => Fault::Escrowed,
            ResourceError::Gen9 { magic } => Fault::Gen9 { magic },
            ResourceError::NotRsc7 { magic } => Fault::NotRsc7 { magic },
            ResourceError::NotAResource { magic } => Fault::NotAResource { magic },
            ResourceError::TooLarge => Fault::TooLarge,
            ResourceError::Unpack { reason } => Fault::Unpack { reason: reason@ },
        }
    }
}

impl Fault {
    /// What is said of the error.
    pub open spec fn text(self) -> Seq<char> {
        match self {
            Fault::TooShort { len } => "file is "@ + decimal(len as nat)
                + " bytes; an RSC7 header needs 16"@,
            Fault::Escrowed =>
                "FiveM escrow-encrypted asset (magic 'FXAP'); only the server that bought it can decrypt it"@,
            Fault::Gen9 { magic } => "Gen9 RSC8 resources are not supported (magic 0x"@
                + hex_digits_upper(magic as nat, 8) + ")"@,
            Fault::NotRsc7 { magic } => "not an RSC7 resource (magic 0x"@ + hex_digits_upper(
                magic as nat,
                8,
            ) + ", expected 0x37435352)"@,
            Fault::NotAResource { magic } => "not an RSC7 resource (magic 0x"@ + hex_digits_upper(
                magic as nat,
                8,
            ) + ", expected 0x37435352), nor a PSO, RBF or XML file"@,
            Fault::TooLarge => "the sections of the resource are too large for this machine"@,
            Fault::Unpack { reason } => reason,
        }
    }
}

impl ResourceError {
    /// What is said of the error.
    pub fn message(&self) -> (out: String)
        ensures
            out@ == self@.text(),
    {
        match self {
            ResourceError::TooShort { len } => {
                let mut out = String::from_str("file is ");
                out.append(decimal_of(*len as u64).as_str());
                out.append(" bytes; an RSC7 header needs 16");
                out
            },
            ResourceError::Escrowed => String::from_str(
                "FiveM escrow-encrypted asset (magic 'FXAP'); only the server that bought it can decrypt it",
            ),
            ResourceError::Gen9 { magic } => {
                let mut out = String::from_str("Gen9 RSC8 resources are not supported (magic 0x");
                out.append(hex_upper_of(*magic, 8).as_str());
                out.append(")");
                out
            },
            ResourceError::NotRsc7 { magic } => {
                let mut out = String::from_str("not an RSC7 resource (magic 0x");
                out.append(hex_upper_of(*magic, 8).as_str());
                out.append(", expected 0x37435352)");
                out
            },
            ResourceError::NotAResource { magic } => {
                let mut out = String::from_str("not an RSC7 resource (magic 0x");
                out.append(hex_upper_of(*magic, 8).as_str());
                out.append(", expected 0x37435352), nor a PSO, RBF or XML file");
                out
            },
            ResourceError::TooLarge => String::from_str(
                "the sections of the resource are too large for this machine",
            ),
            ResourceError::Unpack { reason } => reason.clone(),
        }
    }
}

// ── Sizes and versions ──────────────────────────────────────────────────────

/// The number of pages, of the smallest size, that a flag word counts.
pub open spec fn pages(flags: u32) -> int {
    ((flags >> 27) & 1) + 2 * ((flags >> 26) & 1) + 4 * ((flags >> 25) & 1) + 8 * ((flags >> 24) & 1)
        + 16 * ((flags >> 17) & 0x7f) + 32 * ((flags >> 11) & 0x3f) + 64 * ((flags >> 7) & 0xf) + 128
        * ((flags >> 5) & 3) + 256 * ((flags >> 4) & 1)
}

/// The size of the section that a flag word describes: its pages, each of 512
/// bytes doubled as often as the low four bits say.
pub open spec fn section_size(flags: u32) -> int {
    (512u64 << ((flags & 0xf) as u64)) * pages(flags)
}

/// The sizes of both sections of a resource, together, can be counted.
pub open spec fn sections_fit(data: Seq<u8>) -> bool {
    section_size(word(data, 8)) + section_size(word(data, 12)) <= usize::MAX
}

/// The size of the section that a flag word describes.
fn size_of_section(flags: u32) -> (r: u64)
    ensures
        r == section_size(flags),
        r <= 0x1_0000_0000_0000,
{
    proof {
        lemma_section_size(flags);
    }
    let pages: u64 = (((flags >> 27) & 1) + 2 * ((flags >> 26) & 1) + 4 * ((flags >> 25) & 1) + 8 * ((
    flags >> 24) & 1) + 16 * ((flags >> 17) & 0x7f) + 32 * ((flags >> 11) & 0x3f) + 64 * ((flags >> 7)
        & 0xf) + 128 * ((flags >> 5) & 3) + 256 * ((flags >> 4) & 1)) as u64;
    (512u64 << ((flags & 0xf) as u64)) * pages
}

/// The version that the top four bits of the two flag words encode.
pub open spec fn flags_version(system: u32, graphics: u32) -> u32 {
    (((system >> 28) & 0xf) << 4) | ((graphics >> 28) & 0xf)
}

/// The version that the two flag words encode.
pub(crate) fn version_from_flags(system: u32, graphics: u32) -> (r: u32)
    ensures
        r == flags_version(system, graphics),
{
    (((system >> 28) & 0xf) << 4) | ((graphics >> 28) & 0xf)
}

proof fn lemma_section_size(flags: u32)
    ensures
        0 <= section_size(flags) <= 0x1_0000_0000_0000,
        0 <= pages(flags) <= 0x10000,
        flags >> 27 & 1 <= 1,
        flags >> 26 & 1 <= 1,
        flags >> 25 & 1 <= 1,
        flags >> 24 & 1 <= 1,
        flags >> 17 & 0x7f <= 0x7f,
        flags >> 11 & 0x3f <= 0x3f,
        flags >> 7 & 0xf <= 0xf,
        flags >> 5 & 3 <= 3,
        flags >> 4 & 1 <= 1,
        flags & 0xf <= 15,
{
    assert(flags >> 27 & 1 <= 1 && flags >> 26 & 1 <= 1 && flags >> 25 & 1 <= 1 && flags >> 24 & 1
        <= 1 && flags >> 17 & 0x7f <= 0x7f && flags >> 11 & 0x3f <= 0x3f && flags >> 7 & 0xf <= 0xf
        && flags >> 5 & 3 <= 3 && flags >> 4 & 1 <= 1) by (bit_vector);
    let low: u32 = flags & 0xf;
    let k: u64 = low as u64;
    assert(flags & 0xf <= 15) by (bit_vector);
    assert(512u64 << k <= 0x100_0000u64) by (bit_vector)
        requires
            k <= 15u64,
    ;
    let p = pages(flags);
    let base = 512u64 << k;
    assert(0 <= p <= 0x10000);
    assert(0 <= base * p <= 0x100_0000 * 0x10000) by (nonlinear_arith)
        requires
            0 <= p <= 0x10000,
            0 <= base <= 0x100_0000,
    ;
}

/// Sizes of 64 bits count every resource.
pub(crate) proof fn lemma_countable(data: Seq<u8>)
    requires
        usize::MAX == 0xffff_ffff_ffff_ffff,
    ensures
        is_countable(data),
{
    lemma_section_size(word(data, 8));
    lemma_section_size(word(data, 12));
}

// ── The body ────────────────────────────────────────────────────────────────

/// The system and the graphics section that `rage_formats::prepare_rsc7`
/// unpacks a resource to, or what it says is wrong with the resource.
pub uninterp spec fn unpacked(data: Seq<u8>) -> Result<(Seq<u8>, Seq<u8>), Seq<char>>;

/// `rage_formats::prepare_rsc7`, whose result depends on the file's bytes
/// alone: the two sections, inflated where the body is deflated, or the
/// error as text.
#[verifier::external_body]
pub(crate) fn prepare_rsc7(data: &[u8]) -> (r: Result<(Vec<u8>, Vec<u8>), String>)
    requires
        is_countable(data@),
    ensures
        match r {
            Ok((system, graphics)) => unpacked(data@) == Ok::<(Seq<u8>, Seq<u8>), Seq<char>>(
                (system@, graphics@),
            ),
            Err(e) => unpacked(data@) == Err::<(Seq<u8>, Seq<u8>), Seq<char>>(e@),
        },
{
    rage_formats::prepare_rsc7(data).map_err(|e| format!("{e:#}"))
}

/// The system section of a resource, or what is wrong with it.
pub open spec fn system_section(data: Seq<u8>) -> Result<Seq<u8>, Seq<char>> {
    match unpacked(data) {
        Ok((system, graphics)) => Ok(system),
        Err(e) => Err(e),
    }
}

// ── Headers ─────────────────────────────────────────────────────────────────

/// The four bytes from `at` on, as a number.
pub open spec fn word(data: Seq<u8>, at: int) -> u32 {
    from_le32(data.skip(at))
}

/// The four bytes from `at` on, as a number.
pub(crate) fn word_at(data: &[u8], at: usize) -> (r: u32)
    requires
        at + 4 <= data.len(),
    ensures
        r == word(data@, at as int),
{
    data[at] as u32 + 256 * (data[at + 1] as u32) + 65536 * (data[at + 2] as u32) + 16777216 * (
    data[at + 3] as u32)
}

/// The sizes that the header of a resource gives can be counted; where there
/// is no whole header, there is nothing to count.
pub open spec fn is_countable(data: Seq<u8>) -> bool {
    data.len() >= 16 ==> sections_fit(data)
}

/// Whether the sizes that the header of a resource gives can be counted.
pub(crate) fn can_count(data: &[u8]) -> (r: bool)
    ensures
        r == is_countable(data@),
{
    if data.len() < 16 {
        return true;
    }
    let sizes: u64 = size_of_section(word_at(data, 8)) + size_of_section(word_at(data, 12));
    sizes <= usize::MAX as u64
}

/// The header of a resource with the given system section: the body is
/// deflated unless it is long enough for both sections and starts with the
/// system section.
pub open spec fn header_with(data: Seq<u8>, system: Seq<u8>) -> Rsc7Header {
    let system_flags = word(data, 8);
    let graphics_flags = word(data, 12);
    let system_size = section_size(system_flags);
    let graphics_size = section_size(graphics_flags);
    let body = data.skip(16);
    Rsc7Header {
        version: word(data, 4),
        system_flags,
        graphics_flags,
        system_size: system_size as usize,
        graphics_size: graphics_size as usize,
        compressed: !(body.len() >= system_size + graphics_size && body.take(system_size) == system),
        body_len: body.len() as usize,
    }
}

/// The header of a resource, or why it has none.
pub open spec fn header_of(data: Seq<u8>) -> Result<Rsc7Header, Fault> {
    let magic = word(data, 0);
    if data.len() < 16 {
        Err(Fault::TooShort { len: data.len() as usize })
    } else if magic == FXAP_MAGIC {
        Err(Fault::Escrowed)
    } else if magic == RSC8_MAGIC {
        Err(Fault::Gen9 { magic })
    } else if magic != RSC7_MAGIC {
        Err(Fault::NotRsc7 { magic })
    } else if !sections_fit(data) {
        Err(Fault::TooLarge)
    } else {
        match system_section(data) {
            Ok(system) => Ok(header_with(data, system)),
            Err(reason) => Err(Fault::Unpack { reason }),
        }
    }
}

/// Whether `data` holds exactly `part` from `at` on, up to `at + len`.
fn holds_at(data: &[u8], at: usize, len: usize, part: &Vec<u8>) -> (r: bool)
    requires
        at + len <= data.len(),
    ensures
        r == (data@.subrange(at as int, at + len) == part@),
{
    let ghost here = data@.subrange(at as int, at + len);
    if len != part.len() {
        return false;
    }
    let mut i: usize = 0;
    while i < len
        invariant
            i <= len == part.len(),
            at + len <= data.len(),
            here == data@.subrange(at as int, at + len),
            forall|j: int| 0 <= j < i ==> #[trigger] here[j] == part[j],
        decreases len - i,
    {
        if data[at + i] != part[i] {
            assert(here[i as int] != part[i as int]);
            return false;
        }
        assert(here[i as int] == part[i as int]);
        i = i + 1;
    }
    assert(here =~= part@);
    true
}

/// The header of a resource whose system section is the given bytes.
pub fn read_header(data: &[u8], system: &Vec<u8>) -> (r: Rsc7Header)
    requires
        data.len() >= 16,
        sections_fit(data@),
    ensures
        r == header_with(data@, system@),
{
    let system_flags: u32 = word_at(data, 8);
    let graphics_flags: u32 = word_at(data, 12);
    proof {
        lemma_section_size(system_flags);
        lemma_section_size(graphics_flags);
    }
    let system_size: usize = size_of_section(system_flags) as usize;
    let graphics_size: usize = size_of_section(graphics_flags) as usize;
    let body_len: usize = data.len() - 16;
    let stored: bool = body_len >= system_size + graphics_size && holds_at(
        data,
        16,
        system_size,
        system,
    );
    proof {
        if body_len >= system_size + graphics_size {
            assert(data@.subrange(16, 16 + system_size) =~= data@.skip(16).take(system_size as int));
        }
    }
    Rsc7Header {
        version: word_at(data, 4),
        system_flags,
        graphics_flags,
        system_size,
        graphics_size,
        compressed: !stored,
        body_len,
    }
}

/// Reads the header of a resource.
pub fn parse_header(data: &[u8]) -> (r: Result<Rsc7Header, ResourceError>)
    ensures
        match r {
            Ok(h) => header_of(data@) == Ok::<Rsc7Header, Fault>(h),
            Err(e) => header_of(data@) == Err::<Rsc7Header, Fault>(e@),
        },
{
    if data.len() < 16 {
        return Err(ResourceError::TooShort { len: data.len() });
    }
    let magic: u32 = word_at(data, 0);
    if magic == FXAP_MAGIC {
        return Err(ResourceError::Escrowed);
    }
    if magic == RSC8_MAGIC {
        return Err(ResourceError::Gen9 { magic });
    }
    if magic != RSC7_MAGIC {
        return Err(ResourceError::NotRsc7 { magic });
    }
    if !can_count(data) {
        return Err(ResourceError::TooLarge);
    }
    match prepare_rsc7(data) {
        Ok((system, _)) => Ok(read_header(data, &system)),
        Err(reason) => Err(ResourceError::Unpack { reason }),
    }
}

// ── Detection ───────────────────────────────────────────────────────────────

/// A byte that may stand before the first `<` of an XML text: white space, or
/// one of a byte order mark.
pub open spec fn is_xml_filler(b: u8) -> bool {
    b == 0x20 || b == 0x09 || b == 0x0a || b == 0x0c || b == 0x0d || b == 0xef || b == 0xbb || b
        == 0xbf
}

/// The first of the 64 first bytes that is no filler is `<`.
pub open spec fn starts_as_xml(data: Seq<u8>) -> bool {
    exists|i: int|
        0 <= i < data.len() && i < 64 && #[trigger] data[i] == 0x3c && forall|j: int|
            0 <= j < i ==> is_xml_filler(#[trigger] data[j])
}

/// The container of metadata, by the first bytes: `PSIN`, `RBF0`, `RSC7`, or
/// the start of an XML text.
pub open spec fn meta_container(data: Seq<u8>) -> Option<MetaContainer> {
    if data.len() >= 4 && data.take(4) == seq![0x50u8, 0x53u8, 0x49u8, 0x4eu8] {
        Some(MetaContainer::Pso)
    } else if data.len() >= 4 && data.take(4) == seq![0x52u8, 0x42u8, 0x46u8, 0x30u8] {
        Some(MetaContainer::Rbf)
    } else if data.len() >= 4 && word(data, 0) == RSC7_MAGIC {
        Some(MetaContainer::Meta)
    } else if starts_as_xml(data) {
        Some(MetaContainer::Xml)
    } else {
        None
    }
}

/// `rage_formats::MetaContainer::detect`: the container of metadata, by the
/// first bytes.
#[verifier::external_body]
pub(crate) fn detect_meta(data: &[u8]) -> (r: Option<MetaContainer>)
    ensures
        r == meta_container(data@),
{
    match rage_formats::MetaContainer::detect(data)? {
        rage_formats::MetaContainer::Pso => Some(MetaContainer::Pso),
        rage_formats::MetaContainer::Rbf => Some(MetaContainer::Rbf),
        rage_formats::MetaContainer::Meta => Some(MetaContainer::Meta),
        rage_formats::MetaContainer::Xml => Some(MetaContainer::Xml),
    }
}

/// What a file is, or why it is not read.
pub open spec fn container_of(data: Seq<u8>) -> Result<Container, Fault> {
    let magic = word(data, 0);
    if data.len() < 4 {
        Err(Fault::TooShort { len: data.len() as usize })
    } else if magic == FXAP_MAGIC {
        Err(Fault::Escrowed)
    } else if magic == RSC8_MAGIC {
        Err(Fault::Gen9 { magic })
    } else if magic == RSC7_MAGIC {
        match header_of(data) {
            Ok(h) => Ok(Container::Rsc7(h)),
            Err(e) => Err(e),
        }
    } else {
        match meta_container(data) {
            Some(kind) => Ok(Container::Meta(kind)),
            None => Err(Fault::NotAResource { magic }),
        }
    }
}

/// Recognises the container. An escrowed or Gen9 file is an error that says
/// which; so is anything that is none of RSC7, PSO, RBF or XML.
pub fn detect(data: &[u8]) -> (r: Result<Container, ResourceError>)
    ensures
        match r {
            Ok(c) => container_of(data@) == Ok::<Container, Fault>(c),
            Err(e) => container_of(data@) == Err::<Container, Fault>(e@),
        },
{
    if data.len() < 4 {
        return Err(ResourceError::TooShort { len: data.len() });
    }
    let magic: u32 = word_at(data, 0);
    if magic == FXAP_MAGIC {
        return Err(ResourceError::Escrowed);
    }
    if magic == RSC8_MAGIC {
        return Err(ResourceError::Gen9 { magic });
    }
    if magic == RSC7_MAGIC {
        return match parse_header(data) {
            Ok(h) => Ok(Container::Rsc7(h)),
            Err(e) => Err(e),
        };
    }
    match detect_meta(data) {
        Some(MetaContainer::Meta) | None => Err(ResourceError::NotAResource { magic }),
        Some(other) => Ok(Container::Meta(other)),
    }
}

/// The name of a container of metadata.
pub open spec fn container_name(kind: MetaContainer) -> Seq<char> {
    match kind {
        MetaContainer::Pso => "PSO"@,
        MetaContainer::Rbf => "RBF"@,
        MetaContainer::Meta => "RSC7 Meta"@,
        MetaContainer::Xml => "XML"@,
    }
}

impl MetaContainer {
    /// The name of the container.
    pub fn name(&self) -> (out: &'static str)
        ensures
            out@ == container_name(*self),
    {
        match self {
            MetaContainer::Pso => "PSO",
            MetaContainer::Rbf => "RBF",
            MetaContainer::Meta => "RSC7 Meta",
            MetaContainer::Xml => "XML",
        }
    }
}

/// A file is never recognised as both: metadata in an RSC7 container counts as
/// a resource.
pub proof fn law_rsc7_is_a_resource(data: Seq<u8>)
    ensures
        !(container_of(data) matches Ok(Container::Meta(MetaContainer::Meta))),
        data.len() >= 16 && word(data, 0) == RSC7_MAGIC && sections_fit(data) && system_section(data) is Ok ==> container_of(
            data,
        ) is Ok,
{
}

} // verus!
