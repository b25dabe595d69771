//! Reading an MMV file image back into its header, tables of contents and
//! blocks, each block keyed by its offset in the file.
use vstd::prelude::*;
use vstd::utf8::{decode_utf8, valid_utf8};
use crate::bytes::{cstr, get32, get64, get_u32, get_u64};
use crate::codec::cstr_text;
use crate::ident::{is_valid_blk_offset, is_valid_cluster_id, is_valid_indom, is_valid_item, valid_cluster_id, valid_indom, valid_item};

verus! {

/// Length of the header.
pub const HDR_LEN: u64 = 40;
/// Length of a table-of-contents block.
pub const TOC_BLOCK_LEN: u64 = 16;
/// Length of an instance domain block.
pub const INDOM_BLOCK_LEN: u64 = 32;
/// Length of a value block.
pub const VALUE_BLOCK_LEN: u64 = 32;
/// Length of a string block.
pub const STRING_BLOCK_LEN: u64 = 256;
/// Length of an instance block in a version 1 file.
pub const INSTANCE_BLOCK_LEN_MMV1: u64 = 80;
/// Length of a metric block in a version 1 file.
pub const METRIC_BLOCK_LEN_MMV1: u64 = 104;
/// Length of an instance block in a version 2 file.
pub const INSTANCE_BLOCK_LEN_MMV2: u64 = 24;
/// Length of a metric block in a version 2 file.
pub const METRIC_BLOCK_LEN_MMV2: u64 = 48;
/// Room for a name held inside a version 1 block, its NUL included.
pub const METRIC_NAME_MAX_LEN: u64 = 64;

/// Section code of instance domains.
pub const INDOM_TOC_CODE: u32 = 1;
/// Section code of instances.
pub const INSTANCE_TOC_CODE: u32 = 2;
/// Section code of metrics.
pub const METRIC_TOC_CODE: u32 = 3;
/// Section code of values.
pub const VALUES_TOC_CODE: u32 = 4;
/// Section code of strings.
pub const STRINGS_TOC_CODE: u32 = 5;

/// Why an image is not a readable MMV file.
#[derive(PartialEq, Eq, Structural, Clone, Copy, Debug)]
pub enum MMVDumpError {
    /// The first four bytes are not `MMV\0`.
    InvalidMagic,
    /// A version other than 1 and 2.
    InvalidVersion(u32),
    /// The two generation numbers differ: the file is being written.
    GenerationMismatch,
    /// A table-of-contents count outside [2, 5].
    TocCountOutOfRange(u32),
    /// A section code above 5.
    InvalidTocType(u32),
    /// A section offset of 0.
    InvalidSectionOffset(u64),
    /// A cluster id beyond 12 bits.
    InvalidClusterId(u32),
    /// Non-zero pad bytes in a block.
    InvalidPad(u32),
    /// A name or string that is not UTF-8.
    Utf8Error,
    /// A name or string block at this offset without its NUL.
    Unterminated(u64),
    /// The image ends before this offset, which a block needs.
    Truncated(u64),
    /// No metric section.
    MetricTocAbsent,
    /// No value section.
    ValueTocAbsent,
}

/// Format version.
#[derive(PartialEq, Eq, Structural, Clone, Copy, Debug)]
pub enum Version {
    /// names inside blocks
    V1,
    /// names in the string section
    V2,
}

impl Version {
    /// The version's number.
    pub open spec fn spec_code(self) -> u32 {
        match self {
            Version::V1 => 1,
            Version::V2 => 2,
        }
    }

    /// The version's number.
    pub fn code(self) -> (r: u32)
        ensures
            r == self.spec_code(),
    {
        match self {
            Version::V1 => 1,
            Version::V2 => 2,
        }
    }

    /// The version numbered `x`, if there is one.
    pub fn from_u32(x: u32) -> (r: Option<Version>)
        ensures
            r is Some <==> (x == 1 || x == 2),
            r matches Some(v) ==> v.spec_code() == x,
    {
        match x {
            1 => Some(Version::V1),
            2 => Some(Version::V2),
            _ => None,
        }
    }

    /// Length of an instance block.
    pub open spec fn spec_instance_len(self) -> u64 {
        match self {
            Version::V1 => 80,
            Version::V2 => 24,
        }
    }

    /// Length of a metric block.
    pub open spec fn spec_metric_len(self) -> u64 {
        match self {
            Version::V1 => 104,
            Version::V2 => 48,
        }
    }

    /// Length of an instance block.
    pub fn instance_len(self) -> (r: u64)
        ensures
            r == self.spec_instance_len(),
    {
        match self {
            Version::V1 => INSTANCE_BLOCK_LEN_MMV1,
            Version::V2 => INSTANCE_BLOCK_LEN_MMV2,
        }
    }

    /// Length of a metric block.
    pub fn metric_len(self) -> (r: u64)
        ensures
            r == self.spec_metric_len(),
    {
        match self {
            Version::V1 => METRIC_BLOCK_LEN_MMV1,
            Version::V2 => METRIC_BLOCK_LEN_MMV2,
        }
    }
}

/// The file header.
#[derive(Clone, Copy, Debug)]
pub struct Header {
    pub magic: [u8; 4],
    pub version: Version,
    pub gen1: i64,
    pub gen2: i64,
    pub toc_count: u32,
    pub flags: u32,
    pub pid: i32,
    pub cluster_id: u32,
}

/// The header that an image starts with, or the first fault in it.
pub open spec fn header_of(f: Seq<u8>) -> Result<Header, MMVDumpError> {
    if f.len() < 40 {
        Err(MMVDumpError::Truncated(40))
    } else if !(f[0] == 77 && f[1] == 77 && f[2] == 86 && f[3] == 0) {
        Err(MMVDumpError::InvalidMagic)
    } else if get32(f, 4) != 1 && get32(f, 4) != 2 {
        Err(MMVDumpError::InvalidVersion(get32(f, 4)))
    } else if get64(f, 8) != get64(f, 16) {
        Err(MMVDumpError::GenerationMismatch)
    } else if get32(f, 24) > 5 || get32(f, 24) < 2 {
        Err(MMVDumpError::TocCountOutOfRange(get32(f, 24)))
    } else if !valid_cluster_id(get32(f, 36)) {
        Err(MMVDumpError::InvalidClusterId(get32(f, 36)))
    } else {
        Ok(
            Header {
                magic: [77u8, 77u8, 86u8, 0u8],
                version: if get32(f, 4) == 1 {
                    Version::V1
                } else {
                    Version::V2
                },
                gen1: get64(f, 8) as i64,
                gen2: get64(f, 16) as i64,
                toc_count: get32(f, 24),
                flags: get32(f, 28),
                pid: get32(f, 32) as i32,
                cluster_id: get32(f, 36),
            },
        )
    }
}

impl Header {
    /// Reads the header at the start of `f`.
    pub fn from_bytes(f: &[u8]) -> (r: Result<Header, MMVDumpError>)
        ensures
            r == header_of(f@),
    {
        if f.len() < 40 {
            return Err(MMVDumpError::Truncated(HDR_LEN));
        }
        if !(f[0] == 77 && f[1] == 77 && f[2] == 86 && f[3] == 0) {
            return Err(MMVDumpError::InvalidMagic);
        }
        let version = get_u32(f, 4);
        let mmv_ver = match Version::from_u32(version) {
            Some(v) => v,
            None => {
                return Err(MMVDumpError::InvalidVersion(version));
            },
        };
        let gen1 = get_u64(f, 8);
        let gen2 = get_u64(f, 16);
        if gen1 != gen2 {
            return Err(MMVDumpError::GenerationMismatch);
        }
        let toc_count = get_u32(f, 24);
        if toc_count > 5 || toc_count < 2 {
            return Err(MMVDumpError::TocCountOutOfRange(toc_count));
        }
        let flags = get_u32(f, 28);
        let pid = get_u32(f, 32) as i32;
        let cluster_id = get_u32(f, 36);
        if !is_valid_cluster_id(cluster_id) {
            return Err(MMVDumpError::InvalidClusterId(cluster_id));
        }
        Ok(
            Header {
                magic: [77u8, 77u8, 86u8, 0u8],
                version: mmv_ver,
                gen1: gen1 as i64,
                gen2: gen2 as i64,
                toc_count,
                flags,
                pid,
                cluster_id,
            },
        )
    }

    pub fn magic(&self) -> (r: [u8; 4])
        ensures
            r == self.magic,
    {
        self.magic
    }

    pub fn version(&self) -> (r: Version)
        ensures
            r == self.version,
    {
        self.version
    }

    pub fn gen1(&self) -> (r: i64)
        ensures
            r == self.gen1,
    {
        self.gen1
    }

    pub fn gen2(&self) -> (r: i64)
        ensures
            r == self.gen2,
    {
        self.gen2
    }

    pub fn toc_count(&self) -> (r: u32)
        ensures
            r == self.toc_count,
    {
        self.toc_count
    }

    pub fn flags(&self) -> (r: u32)
        ensures
            r == self.flags,
    {
        self.flags
    }

    pub fn pid(&self) -> (r: i32)
        ensures
            r == self.pid,
    {
        self.pid
    }

    pub fn cluster_id(&self) -> (r: u32)
        ensures
            r == self.cluster_id,
    {
        self.cluster_id
    }
}

/// A table-of-contents block, with its place among the tables.
#[derive(PartialEq, Eq, Structural, Clone, Copy, Debug)]
pub struct TocBlk {
    pub _toc_index: u32,
    pub _mmv_offset: u64,
    pub sec: u32,
    pub entries: u32,
    pub sec_offset: u64,
}

/// The `i`th table of contents, or its fault.
pub open spec fn toc_of(f: Seq<u8>, i: u32) -> Result<TocBlk, MMVDumpError> {
    let off = 40 + 16 * i;
    if f.len() < off + 16 {
        Err(MMVDumpError::Truncated((off + 16) as u64))
    } else if get32(f, off) > 5 {
        Err(MMVDumpError::InvalidTocType(get32(f, off)))
    } else if get64(f, off + 8) == 0 {
        Err(MMVDumpError::InvalidSectionOffset(0))
    } else {
        Ok(
            TocBlk {
                _toc_index: i,
                _mmv_offset: off as u64,
                sec: get32(f, off),
                entries: get32(f, off + 4),
                sec_offset: get64(f, off + 8),
            },
        )
    }
}

impl TocBlk {
    /// Reads the `i`th table of contents (of at most five).
    pub fn from_bytes(f: &[u8], i: u32) -> (r: Result<TocBlk, MMVDumpError>)
        requires
            i < 5,
        ensures
            r == toc_of(f@, i),
    {
        let off: u64 = HDR_LEN + TOC_BLOCK_LEN * (i as u64);
        if (f.len() as u64) < off + 16 {
            return Err(MMVDumpError::Truncated(off + 16));
        }
        let o = off as usize;
        let sec = get_u32(f, o);
        if sec > 5 {
            return Err(MMVDumpError::InvalidTocType(sec));
        }
        let entries = get_u32(f, o + 4);
        let sec_offset = get_u64(f, o + 8);
        if !is_valid_blk_offset(sec_offset) {
            return Err(MMVDumpError::InvalidSectionOffset(sec_offset));
        }
        Ok(TocBlk { _toc_index: i, _mmv_offset: off, sec, entries, sec_offset })
    }

    pub fn _toc_index(&self) -> (r: u32)
        ensures
            r == self._toc_index,
    {
        self._toc_index
    }

    pub fn _mmv_offset(&self) -> (r: u64)
        ensures
            r == self._mmv_offset,
    {
        self._mmv_offset
    }

    pub fn sec(&self) -> (r: u32)
        ensures
            r == self.sec,
    {
        self.sec
    }

    pub fn entries(&self) -> (r: u32)
        ensures
            r == self.entries,
    {
        self.entries
    }

    pub fn sec_offset(&self) -> (r: u64)
        ensures
            r == self.sec_offset,
    {
        self.sec_offset
    }
}

/// `Some(x)` for a non-zero offset, `None` for 0.
pub open spec fn nonzero(x: u64) -> Option<u64> {
    if x != 0 {
        Some(x)
    } else {
        None
    }
}

fn nonzero_of(x: u64) -> (r: Option<u64>)
    ensures
        r == nonzero(x),
{
    if is_valid_blk_offset(x) {
        Some(x)
    } else {
        None
    }
}

/// A value block.
#[derive(PartialEq, Eq, Structural, Clone, Copy, Debug)]
pub struct ValueBlk {
    pub value: u64,
    pub string_offset: Option<u64>,
    pub metric_offset: Option<u64>,
    pub instance_offset: Option<u64>,
}

/// The value block at `off`.
pub open spec fn value_blk_of(f: Seq<u8>, off: int) -> Result<ValueBlk, MMVDumpError> {
    if f.len() < off + 32 {
        Err(MMVDumpError::Truncated((off + 32) as u64))
    } else {
        Ok(
            ValueBlk {
                value: get64(f, off),
                string_offset: nonzero(get64(f, off + 8)),
                metric_offset: nonzero(get64(f, off + 16)),
                instance_offset: nonzero(get64(f, off + 24)),
            },
        )
    }
}

impl ValueBlk {
    /// Reads the value block at `off`.
    pub fn from_bytes(f: &[u8], off: u64) -> (r: Result<ValueBlk, MMVDumpError>)
        requires
            off + 32 <= u64::MAX,
        ensures
            r == value_blk_of(f@, off as int),
    {
        if (f.len() as u64) < off + 32 {
            return Err(MMVDumpError::Truncated(off + 32));
        }
        let o = off as usize;
        Ok(
            ValueBlk {
                value: get_u64(f, o),
                string_offset: nonzero_of(get_u64(f, o + 8)),
                metric_offset: nonzero_of(get_u64(f, o + 16)),
                instance_offset: nonzero_of(get_u64(f, o + 24)),
            },
        )
    }

    pub fn value(&self) -> (r: u64)
        ensures
            r == self.value,
    {
        self.value
    }

    pub fn string_offset(&self) -> (r: Option<u64>)
        ensures
            r == self.string_offset,
    {
        self.string_offset
    }

    pub fn metric_offset(&self) -> (r: Option<u64>)
        ensures
            r == self.metric_offset,
    {
        self.metric_offset
    }

    pub fn instance_offset(&self) -> (r: Option<u64>)
        ensures
            r == self.instance_offset,
    {
        self.instance_offset
    }
}

/// An instance domain block.
#[derive(PartialEq, Eq, Structural, Clone, Copy, Debug)]
pub struct IndomBlk {
    pub indom: Option<u32>,
    pub instances: u32,
    pub instances_offset: Option<u64>,
    pub short_help_offset: Option<u64>,
    pub long_help_offset: Option<u64>,
}

/// `Some(x)` for a valid instance domain id.
pub open spec fn indom_opt(x: u32) -> Option<u32> {
    if valid_indom(x) {
        Some(x)
    } else {
        None
    }
}

/// `Some(x)` for a valid item.
pub open spec fn item_opt(x: u32) -> Option<u32> {
    if valid_item(x) {
        Some(x)
    } else {
        None
    }
}

/// The instance domain block at `off`.
pub open spec fn indom_blk_of(f: Seq<u8>, off: int) -> Result<IndomBlk, MMVDumpError> {
    if f.len() < off + 32 {
        Err(MMVDumpError::Truncated((off + 32) as u64))
    } else {
        Ok(
            IndomBlk {
                indom: indom_opt(get32(f, off)),
                instances: get32(f, off + 4),
                instances_offset: nonzero(get64(f, off + 8)),
                short_help_offset: nonzero(get64(f, off + 16)),
                long_help_offset: nonzero(get64(f, off + 24)),
            },
        )
    }
}

impl IndomBlk {
    /// Reads the instance domain block at `off`.
    pub fn from_bytes(f: &[u8], off: u64) -> (r: Result<IndomBlk, MMVDumpError>)
        requires
            off + 32 <= u64::MAX,
        ensures
            r == indom_blk_of(f@, off as int),
    {
        if (f.len() as u64) < off + 32 {
            return Err(MMVDumpError::Truncated(off + 32));
        }
        let o = off as usize;
        let indom = get_u32(f, o);
        Ok(
            IndomBlk {
                indom: if is_valid_indom(indom) {
                    Some(indom)
                } else {
                    None
                },
                instances: get_u32(f, o + 4),
                instances_offset: nonzero_of(get_u64(f, o + 8)),
                short_help_offset: nonzero_of(get_u64(f, o + 16)),
                long_help_offset: nonzero_of(get_u64(f, o + 24)),
            },
        )
    }

    pub fn indom(&self) -> (r: Option<u32>)
        ensures
            r == self.indom,
    {
        self.indom
    }

    pub fn instances(&self) -> (r: u32)
        ensures
            r == self.instances,
    {
        self.instances
    }

    pub fn instances_offset(&self) -> (r: Option<u64>)
        ensures
            r == self.instances_offset,
    {
        self.instances_offset
    }

    pub fn short_help_offset(&self) -> (r: Option<u64>)
        ensures
            r == self.short_help_offset,
    {
        self.short_help_offset
    }

    pub fn long_help_offset(&self) -> (r: Option<u64>)
        ensures
            r == self.long_help_offset,
    {
        self.long_help_offset
    }
}

/// A name held in a block (version 1) or in the string section (version 2).
pub enum VersionSpecificString {
    /// the name itself
    String(String),
    /// offset of the string block that holds it
    Offset(u64),
}

/// What a `VersionSpecificString` holds.
pub enum NameView {
    Text(Seq<char>),
    Offset(u64),
}

impl View for VersionSpecificString {
    type V = NameView;

    open spec fn view(&self) -> NameView {
        match self {
            VersionSpecificString::String(s) => NameView::Text(s@),
            VersionSpecificString::Offset(o) => NameView::Offset(*o),
        }
    }
}

/// The text of the NUL-terminated name in the `n` bytes at `off`, if it is
/// UTF-8.
pub open spec fn text_at(f: Seq<u8>, off: int, n: int) -> Result<Seq<char>, MMVDumpError> {
    let b = cstr(f.subrange(off, off + n));
    if !f.subrange(off, off + n).contains(0) {
        Err(MMVDumpError::Unterminated(off as u64))
    } else if valid_utf8(b) {
        Ok(decode_utf8(b))
    } else {
        Err(MMVDumpError::Utf8Error)
    }
}

fn text_in(f: &[u8], off: usize, n: usize) -> (r: Result<String, MMVDumpError>)
    requires
        off + n <= f@.len(),
    ensures
        r matches Ok(s) ==> text_at(f@, off as int, n as int) == Ok::<Seq<char>, MMVDumpError>(s@),
        r matches Err(e) ==> text_at(f@, off as int, n as int) == Err::<Seq<char>, MMVDumpError>(e),
{
    let len = crate::bytes::cstr_len(f, off, n);
    if len == n {
        proof {
            let w = f@.subrange(off as int, off + n);
            if w.contains(0) {
                let j = choose|j: int| 0 <= j < w.len() && w[j] == 0;
                assert(w[j] != 0);
            }
        }
        return Err(MMVDumpError::Unterminated(off as u64));
    }
    assert(f@.subrange(off as int, off + n)[len as int] == 0);
    let w = crate::bytes::copy_bytes(f, off, n);
    match cstr_text(w.as_slice()) {
        Some(s) => Ok(s),
        None => Err(MMVDumpError::Utf8Error),
    }
}

/// The name at `off` of a block of the given version: 64 bytes inline in
/// version 1, an 8-byte offset in version 2.
pub open spec fn name_at(f: Seq<u8>, off: int, ver: Version) -> Result<NameView, MMVDumpError> {
    match ver {
        Version::V1 => match text_at(f, off, 64) {
            Ok(t) => Ok(NameView::Text(t)),
            Err(e) => Err(e),
        },
        Version::V2 => Ok(NameView::Offset(get64(f, off))),
    }
}

fn name_in(f: &[u8], off: usize, ver: Version) -> (r: Result<VersionSpecificString, MMVDumpError>)
    requires
        off + (if ver == Version::V1 { 64int } else { 8int }) <= f@.len(),
    ensures
        r matches Ok(s) ==> name_at(f@, off as int, ver) == Ok::<NameView, MMVDumpError>(s@),
        r matches Err(e) ==> name_at(f@, off as int, ver) == Err::<NameView, MMVDumpError>(e),
{
    match ver {
        Version::V1 => match text_in(f, off, 64) {
            Ok(s) => Ok(VersionSpecificString::String(s)),
            Err(e) => Err(e),
        },
        Version::V2 => Ok(VersionSpecificString::Offset(get_u64(f, off))),
    }
}

/// A metric block.
pub struct MetricBlk {
    pub name: VersionSpecificString,
    pub item: Option<u32>,
    pub typ: u32,
    pub sem: u32,
    pub unit: u32,
    pub indom: Option<u32>,
    pub pad: u32,
    pub short_help_offset: Option<u64>,
    pub long_help_offset: Option<u64>,
}

/// What a metric block holds.
pub struct MetricBlkView {
    pub name: NameView,
    pub item: Option<u32>,
    pub typ: u32,
    pub sem: u32,
    pub unit: u32,
    pub indom: Option<u32>,
    pub pad: u32,
    pub short_help_offset: Option<u64>,
    pub long_help_offset: Option<u64>,
}

impl View for MetricBlk {
    type V = MetricBlkView;

    open spec fn view(&self) -> MetricBlkView {
        MetricBlkView {
            name: self.name@,
            item: self.item,
            typ: self.typ,
            sem: self.sem,
            unit: self.unit,
            indom: self.indom,
            pad: self.pad,
            short_help_offset: self.short_help_offset,
            long_help_offset: self.long_help_offset,
        }
    }
}

/// The metric block at `off` of a file of version `ver`.
pub open spec fn metric_blk_of(f: Seq<u8>, off: int, ver: Version) -> Result<MetricBlkView, MMVDumpError> {
    let n: int = if ver == Version::V1 { 64 } else { 8 };
    if f.len() < off + ver.spec_metric_len() {
        Err(MMVDumpError::Truncated((off + ver.spec_metric_len()) as u64))
    } else {
        match name_at(f, off, ver) {
            Err(e) => Err(e),
            Ok(name) => if get32(f, off + n + 20) != 0 {
                Err(MMVDumpError::InvalidPad(get32(f, off + n + 20)))
            } else {
                Ok(
                    MetricBlkView {
                        name,
                        item: item_opt(get32(f, off + n)),
                        typ: get32(f, off + n + 4),
                        sem: get32(f, off + n + 8),
                        unit: get32(f, off + n + 12),
                        indom: indom_opt(get32(f, off + n + 16)),
                        pad: 0,
                        short_help_offset: nonzero(get64(f, off + n + 24)),
                        long_help_offset: nonzero(get64(f, off + n + 32)),
                    },
                )
            },
        }
    }
}

impl MetricBlk {
    /// Reads the metric block at `off` of a file of version `ver`.
    pub fn from_bytes(f: &[u8], off: u64, ver: Version) -> (r: Result<MetricBlk, MMVDumpError>)
        requires
            off + ver.spec_metric_len() <= u64::MAX,
        ensures
            r matches Ok(b) ==> metric_blk_of(f@, off as int, ver) == Ok::<MetricBlkView, MMVDumpError>(b@),
            r matches Err(e) ==> metric_blk_of(f@, off as int, ver) == Err::<MetricBlkView, MMVDumpError>(e),
    {
        let len = ver.metric_len();
        if (f.len() as u64) < off + len {
            return Err(MMVDumpError::Truncated(off + len));
        }
        let o = off as usize;
        let n: usize = match ver {
            Version::V1 => 64,
            Version::V2 => 8,
        };
        let name = match name_in(f, o, ver) {
            Ok(s) => s,
            Err(e) => {
                return Err(e);
            },
        };
        let item = get_u32(f, o + n);
        let typ = get_u32(f, o + n + 4);
        let sem = get_u32(f, o + n + 8);
        let unit = get_u32(f, o + n + 12);
        let indom = get_u32(f, o + n + 16);
        let pad = get_u32(f, o + n + 20);
        if pad != 0 {
            return Err(MMVDumpError::InvalidPad(pad));
        }
        let short_help_offset = get_u64(f, o + n + 24);
        let long_help_offset = get_u64(f, o + n + 32);
        Ok(
            MetricBlk {
                name,
                item: if is_valid_item(item) {
                    Some(item)
                } else {
                    None
                },
                typ,
                sem,
                unit,
                indom: if is_valid_indom(indom) {
                    Some(indom)
                } else {
                    None
                },
                pad,
                short_help_offset: nonzero_of(short_help_offset),
                long_help_offset: nonzero_of(long_help_offset),
            },
        )
    }

    pub fn name(&self) -> (r: &VersionSpecificString)
        ensures
            r@ == self.name@,
    {
        &self.name
    }

    pub fn item(&self) -> (r: Option<u32>)
        ensures
            r == self.item,
    {
        self.item
    }

    pub fn typ(&self) -> (r: u32)
        ensures
            r == self.typ,
    {
        self.typ
    }

    pub fn sem(&self) -> (r: u32)
        ensures
            r == self.sem,
    {
        self.sem
    }

    pub fn unit(&self) -> (r: u32)
        ensures
            r == self.unit,
    {
        self.unit
    }

    pub fn indom(&self) -> (r: Option<u32>)
        ensures
            r == self.indom,
    {
        self.indom
    }

    pub fn pad(&self) -> (r: u32)
        ensures
            r == self.pad,
    {
        self.pad
    }

    pub fn short_help_offset(&self) -> (r: Option<u64>)
        ensures
            r == self.short_help_offset,
    {
        self.short_help_offset
    }

    pub fn long_help_offset(&self) -> (r: Option<u64>)
        ensures
            r == self.long_help_offset,
    {
        self.long_help_offset
    }
}

/// An instance block.
pub struct InstanceBlk {
    pub indom_offset: Option<u64>,
    pub pad: u32,
    pub internal_id: i32,
    pub external_id: VersionSpecificString,
}

/// What an instance block holds.
pub struct InstanceBlkView {
    pub indom_offset: Option<u64>,
    pub pad: u32,
    pub internal_id: i32,
    pub external_id: NameView,
}

impl View for InstanceBlk {
    type V = InstanceBlkView;

    open spec fn view(&self) -> InstanceBlkView {
        InstanceBlkView {
            indom_offset: self.indom_offset,
            pad: self.pad,
            internal_id: self.internal_id,
            external_id: self.external_id@,
        }
    }
}

/// The instance block at `off` of a file of version `ver`.
pub open spec fn instance_blk_of(f: Seq<u8>, off: int, ver: Version) -> Result<InstanceBlkView, MMVDumpError> {
    if f.len() < off + ver.spec_instance_len() {
        Err(MMVDumpError::Truncated((off + ver.spec_instance_len()) as u64))
    } else if get32(f, off + 8) != 0 {
        Err(MMVDumpError::InvalidPad(get32(f, off + 8)))
    } else {
        match name_at(f, off + 16, ver) {
            Err(e) => Err(e),
            Ok(name) => Ok(
                InstanceBlkView {
                    indom_offset: nonzero(get64(f, off)),
                    pad: 0,
                    internal_id: get32(f, off + 12) as i32,
                    external_id: name,
                },
            ),
        }
    }
}

impl InstanceBlk {
    /// Reads the instance block at `off` of a file of version `ver`.
    pub fn from_bytes(f: &[u8], off: u64, ver: Version) -> (r: Result<InstanceBlk, MMVDumpError>)
        requires
            off + ver.spec_instance_len() <= u64::MAX,
        ensures
            r matches Ok(b) ==> instance_blk_of(f@, off as int, ver) == Ok::<InstanceBlkView, MMVDumpError>(b@),
            r matches Err(e) ==> instance_blk_of(f@, off as int, ver) == Err::<InstanceBlkView, MMVDumpError>(e),
    {
        let len = ver.instance_len();
        if (f.len() as u64) < off + len {
            return Err(MMVDumpError::Truncated(off + len));
        }
        let o = off as usize;
        let indom_offset = get_u64(f, o);
        let pad = get_u32(f, o + 8);
        if pad != 0 {
            return Err(MMVDumpError::InvalidPad(pad));
        }
        let internal_id = get_u32(f, o + 12) as i32;
        let external_id = match name_in(f, o + 16, ver) {
            Ok(s) => s,
            Err(e) => {
                return Err(e);
            },
        };
        Ok(InstanceBlk { indom_offset: nonzero_of(indom_offset), pad, internal_id, external_id })
    }

    pub fn indom_offset(&self) -> (r: Option<u64>)
        ensures
            r == self.indom_offset,
    {
        self.indom_offset
    }

    pub fn pad(&self) -> (r: u32)
        ensures
            r == self.pad,
    {
        self.pad
    }

    pub fn internal_id(&self) -> (r: i32)
        ensures
            r == self.internal_id,
    {
        self.internal_id
    }

    pub fn external_id(&self) -> (r: &VersionSpecificString)
        ensures
            r@ == self.external_id@,
    {
        &self.external_id
    }
}

/// A string block.
pub struct StringBlk {
    pub string: String,
}

/// The string block at `off`.
pub open spec fn string_blk_of(f: Seq<u8>, off: int) -> Result<Seq<char>, MMVDumpError> {
    if f.len() < off + 256 {
        Err(MMVDumpError::Truncated((off + 256) as u64))
    } else {
        text_at(f, off, 256)
    }
}

impl StringBlk {
    /// Reads the string block at `off`.
    pub fn from_bytes(f: &[u8], off: u64) -> (r: Result<StringBlk, MMVDumpError>)
        requires
            off + 256 <= u64::MAX,
        ensures
            r matches Ok(b) ==> string_blk_of(f@, off as int) == Ok::<Seq<char>, MMVDumpError>(b.string@),
            r matches Err(e) ==> string_blk_of(f@, off as int) == Err::<Seq<char>, MMVDumpError>(e),
    {
        if (f.len() as u64) < off + 256 {
            return Err(MMVDumpError::Truncated(off + 256));
        }
        match text_in(f, off as usize, 256) {
            Ok(string) => Ok(StringBlk { string }),
            Err(e) => Err(e),
        }
    }

    pub fn string(&self) -> (r: &str)
        ensures
            r@ == self.string@,
    {
        self.string.as_str()
    }
}

/// The blocks of a section: `n` blocks of `len` bytes from `base`, each
/// read by `p` and paired with its offset; or the first fault among them.
pub open spec fn blocks_of<B>(base: int, len: int, n: nat, p: spec_fn(int) -> Result<B, MMVDumpError>) -> Result<
    Seq<(u64, B)>,
    MMVDumpError,
>
    decreases n,
{
    if n == 0 {
        Ok(Seq::empty())
    } else {
        match blocks_of(base, len, (n - 1) as nat, p) {
            Err(e) => Err(e),
            Ok(s) => match p(base + (n - 1) * len) {
                Err(e) => Err(e),
                Ok(b) => Ok(s.push(((base + (n - 1) * len) as u64, b))),
            },
        }
    }
}

/// A fault among the first blocks is the fault of the whole section.
pub proof fn lemma_blocks_err<B>(base: int, len: int, k: nat, n: nat, p: spec_fn(int) -> Result<B, MMVDumpError>)
    requires
        k <= n,
        blocks_of(base, len, k, p) is Err,
    ensures
        blocks_of(base, len, n, p) == blocks_of(base, len, k, p),
    decreases n - k,
{
    if k < n {
        lemma_blocks_err(base, len, k, (n - 1) as nat, p);
    }
}

/// The blocks of the section that `toc` locates, each read by `p`: none
/// without a table; a fault if the section runs past the image.
pub open spec fn section_of<B>(f: Seq<u8>, toc: Option<TocBlk>, len: int, p: spec_fn(int) -> Result<B, MMVDumpError>) -> Result<
    Seq<(u64, B)>,
    MMVDumpError,
> {
    match toc {
        None => Ok(Seq::empty()),
        Some(t) => if t.sec_offset + t.entries * len > f.len() {
            Err(MMVDumpError::Truncated(t.sec_offset))
        } else {
            blocks_of(t.sec_offset as int, len, t.entries as nat, p)
        },
    }
}

/// Reader of instance domain blocks.
pub open spec fn indom_reader(f: Seq<u8>) -> spec_fn(int) -> Result<IndomBlk, MMVDumpError> {
    |o: int| indom_blk_of(f, o)
}

/// Reader of value blocks.
pub open spec fn value_reader(f: Seq<u8>) -> spec_fn(int) -> Result<ValueBlk, MMVDumpError> {
    |o: int| value_blk_of(f, o)
}

/// Reader of string blocks.
pub open spec fn string_reader(f: Seq<u8>) -> spec_fn(int) -> Result<Seq<char>, MMVDumpError> {
    |o: int| string_blk_of(f, o)
}

/// Reader of metric blocks.
pub open spec fn metric_reader(f: Seq<u8>, ver: Version) -> spec_fn(int) -> Result<MetricBlkView, MMVDumpError> {
    |o: int| metric_blk_of(f, o, ver)
}

/// Reader of instance blocks.
pub open spec fn instance_reader(f: Seq<u8>, ver: Version) -> spec_fn(int) -> Result<InstanceBlkView, MMVDumpError> {
    |o: int| instance_blk_of(f, o, ver)
}

proof fn lemma_block_room(base: u64, len: u64, i: u64, n: u64, flen: int)
    requires
        i < n,
        base + n * len <= flen,
    ensures
        base + i * len + len <= flen,
        base + i * len <= base + n * len,
{
    assert(i * len + len <= n * len) by (nonlinear_arith)
        requires
            i < n,
    ;
}

/// Where the section that `toc` locates starts, and whether it fits in `f`.
fn section_fits(f: &[u8], toc: &TocBlk, len: u64) -> (r: bool)
    requires
        len <= 256,
    ensures
        r == (toc.sec_offset + toc.entries * len <= f@.len()),
{
    let e = toc.entries as u128;
    let l = len as u128;
    assert(e * l <= 0xffff_ffffu128 * 256) by (nonlinear_arith)
        requires
            e <= 0xffff_ffff,
            l <= 256,
    ;
    let total: u128 = (toc.sec_offset as u128) + e * l;
    total <= f.len() as u128
}

/// The instance domain blocks of the section `toc` locates.
fn read_indoms(f: &[u8], toc: Option<TocBlk>) -> (r: Result<Vec<(u64, IndomBlk)>, MMVDumpError>)
    ensures
        r matches Ok(v) ==> section_of(f@, toc, 32, indom_reader(f@)) == Ok::<Seq<(u64, IndomBlk)>, MMVDumpError>(v@),
        r matches Err(e) ==> section_of(f@, toc, 32, indom_reader(f@)) == Err::<Seq<(u64, IndomBlk)>, MMVDumpError>(e),
{
    let mut v: Vec<(u64, IndomBlk)> = Vec::new();
    let t = match toc {
        None => {
            return Ok(v);
        },
        Some(t) => t,
    };
    if !section_fits(f, &t, INDOM_BLOCK_LEN) {
        return Err(MMVDumpError::Truncated(t.sec_offset));
    }
    let n = t.entries as u64;
    let flen = f.len();
    assert(flen <= u64::MAX);
    let mut i: u64 = 0;
    while i < n
        invariant
            toc == Some(t),
            i <= n,
            n == t.entries,
            flen == f@.len(),
            flen <= u64::MAX,
            t.sec_offset + n * 32 <= f@.len(),
            blocks_of(t.sec_offset as int, 32, i as nat, indom_reader(f@)) == Ok::<Seq<(u64, IndomBlk)>, MMVDumpError>(v@),
        decreases n - i,
    {
        proof { lemma_block_room(t.sec_offset, 32, i, n, f@.len() as int); }
        let off = t.sec_offset + i * INDOM_BLOCK_LEN;
        match IndomBlk::from_bytes(f, off) {
            Err(e) => {
                proof { lemma_blocks_err(t.sec_offset as int, 32, (i + 1) as nat, n as nat, indom_reader(f@)); }
                return Err(e);
            },
            Ok(b) => {
                v.push((off, b));
            },
        }
        i = i + 1;
    }
    Ok(v)
}

/// The value blocks of the section `toc` locates.
fn read_values(f: &[u8], toc: Option<TocBlk>) -> (r: Result<Vec<(u64, ValueBlk)>, MMVDumpError>)
    ensures
        r matches Ok(v) ==> section_of(f@, toc, 32, value_reader(f@)) == Ok::<Seq<(u64, ValueBlk)>, MMVDumpError>(v@),
        r matches Err(e) ==> section_of(f@, toc, 32, value_reader(f@)) == Err::<Seq<(u64, ValueBlk)>, MMVDumpError>(e),
{
    let mut v: Vec<(u64, ValueBlk)> = Vec::new();
    let t = match toc {
        None => {
            return Ok(v);
        },
        Some(t) => t,
    };
    if !section_fits(f, &t, VALUE_BLOCK_LEN) {
        return Err(MMVDumpError::Truncated(t.sec_offset));
    }
    let n = t.entries as u64;
    let flen = f.len();
    assert(flen <= u64::MAX);
    let mut i: u64 = 0;
    while i < n
        invariant
            toc == Some(t),
            i <= n,
            n == t.entries,
            flen == f@.len(),
            flen <= u64::MAX,
            t.sec_offset + n * 32 <= f@.len(),
            blocks_of(t.sec_offset as int, 32, i as nat, value_reader(f@)) == Ok::<Seq<(u64, ValueBlk)>, MMVDumpError>(v@),
        decreases n - i,
    {
        proof { lemma_block_room(t.sec_offset, 32, i, n, f@.len() as int); }
        let off = t.sec_offset + i * VALUE_BLOCK_LEN;
        match ValueBlk::from_bytes(f, off) {
            Err(e) => {
                proof { lemma_blocks_err(t.sec_offset as int, 32, (i + 1) as nat, n as nat, value_reader(f@)); }
                return Err(e);
            },
            Ok(b) => {
                v.push((off, b));
            },
        }
        i = i + 1;
    }
    Ok(v)
}

/// The offsets and texts of string blocks.
pub open spec fn string_entries(v: Seq<(u64, StringBlk)>) -> Seq<(u64, Seq<char>)> {
    v.map_values(|e: (u64, StringBlk)| (e.0, e.1.string@))
}

/// The string blocks of the section `toc` locates.
fn read_strings(f: &[u8], toc: Option<TocBlk>) -> (r: Result<Vec<(u64, StringBlk)>, MMVDumpError>)
    ensures
        r matches Ok(v) ==> section_of(f@, toc, 256, string_reader(f@)) == Ok::<Seq<(u64, Seq<char>)>, MMVDumpError>(
            string_entries(v@),
        ),
        r matches Err(e) ==> section_of(f@, toc, 256, string_reader(f@)) == Err::<Seq<(u64, Seq<char>)>, MMVDumpError>(e),
{
    let mut v: Vec<(u64, StringBlk)> = Vec::new();
    if toc.is_none() {
        assert(string_entries(v@) =~= Seq::empty());
        return Ok(v);
    }
    let t = toc.unwrap();
    if !section_fits(f, &t, STRING_BLOCK_LEN) {
        return Err(MMVDumpError::Truncated(t.sec_offset));
    }
    let n = t.entries as u64;
    let flen = f.len();
    assert(flen <= u64::MAX);
    let mut i: u64 = 0;
    assert(string_entries(v@) =~= Seq::empty());
    while i < n
        invariant
            toc == Some(t),
            i <= n,
            n == t.entries,
            flen == f@.len(),
            flen <= u64::MAX,
            t.sec_offset + n * 256 <= f@.len(),
            blocks_of(t.sec_offset as int, 256, i as nat, string_reader(f@)) == Ok::<Seq<(u64, Seq<char>)>, MMVDumpError>(
                string_entries(v@),
            ),
        decreases n - i,
    {
        proof { lemma_block_room(t.sec_offset, 256, i, n, f@.len() as int); }
        let off = t.sec_offset + i * STRING_BLOCK_LEN;
        match StringBlk::from_bytes(f, off) {
            Err(e) => {
                proof {
                    assert(string_reader(f@)(off as int) == string_blk_of(f@, off as int));
                    assert(blocks_of(t.sec_offset as int, 256, (i + 1) as nat, string_reader(f@)) == Err::<
                        Seq<(u64, Seq<char>)>,
                        MMVDumpError,
                    >(e));
                    lemma_blocks_err(t.sec_offset as int, 256, (i + 1) as nat, n as nat, string_reader(f@));
                }
                return Err(e);
            },
            Ok(b) => {
                let ghost old_v = v@;
                let ghost bv = b.string@;
                v.push((off, b));
                assert(string_entries(v@) =~= string_entries(old_v).push((off, bv)));
            },
        }
        i = i + 1;
    }
    Ok(v)
}

/// The offsets and views of metric blocks.
pub open spec fn metric_entries(v: Seq<(u64, MetricBlk)>) -> Seq<(u64, MetricBlkView)> {
    v.map_values(|e: (u64, MetricBlk)| (e.0, e.1@))
}

/// The metric blocks of the section `toc` locates.
fn read_metrics(f: &[u8], toc: Option<TocBlk>, ver: Version) -> (r: Result<Vec<(u64, MetricBlk)>, MMVDumpError>)
    ensures
        r matches Ok(v) ==> section_of(f@, toc, ver.spec_metric_len() as int, metric_reader(f@, ver)) == Ok::<
            Seq<(u64, MetricBlkView)>,
            MMVDumpError,
        >(metric_entries(v@)),
        r matches Err(e) ==> section_of(f@, toc, ver.spec_metric_len() as int, metric_reader(f@, ver)) == Err::<
            Seq<(u64, MetricBlkView)>,
            MMVDumpError,
        >(e),
{
    let mut v: Vec<(u64, MetricBlk)> = Vec::new();
    if toc.is_none() {
        assert(metric_entries(v@) =~= Seq::empty());
        return Ok(v);
    }
    let t = toc.unwrap();
    let len = ver.metric_len();
    if !section_fits(f, &t, len) {
        return Err(MMVDumpError::Truncated(t.sec_offset));
    }
    let n = t.entries as u64;
    let flen = f.len();
    assert(flen <= u64::MAX);
    let mut i: u64 = 0;
    assert(metric_entries(v@) =~= Seq::empty());
    while i < n
        invariant
            toc == Some(t),
            i <= n,
            n == t.entries,
            flen == f@.len(),
            flen <= u64::MAX,
            len == ver.spec_metric_len(),
            t.sec_offset + n * len <= f@.len(),
            blocks_of(t.sec_offset as int, len as int, i as nat, metric_reader(f@, ver)) == Ok::<
                Seq<(u64, MetricBlkView)>,
                MMVDumpError,
            >(metric_entries(v@)),
        decreases n - i,
    {
        proof { lemma_block_room(t.sec_offset, len, i, n, f@.len() as int); }
        let off = t.sec_offset + i * len;
        match MetricBlk::from_bytes(f, off, ver) {
            Err(e) => {
                proof {
                    assert(metric_reader(f@, ver)(off as int) == metric_blk_of(f@, off as int, ver));
                    assert(blocks_of(t.sec_offset as int, len as int, (i + 1) as nat, metric_reader(f@, ver)) == Err::<
                        Seq<(u64, MetricBlkView)>,
                        MMVDumpError,
                    >(e));
                    lemma_blocks_err(t.sec_offset as int, len as int, (i + 1) as nat, n as nat, metric_reader(f@, ver));
                }
                return Err(e);
            },
            Ok(b) => {
                let ghost old_v = v@;
                let ghost bv = b@;
                v.push((off, b));
                assert(metric_entries(v@) =~= metric_entries(old_v).push((off, bv)));
            },
        }
        i = i + 1;
    }
    Ok(v)
}

/// The offsets and views of instance blocks.
pub open spec fn instance_entries(v: Seq<(u64, InstanceBlk)>) -> Seq<(u64, InstanceBlkView)> {
    v.map_values(|e: (u64, InstanceBlk)| (e.0, e.1@))
}

/// The instance blocks of the section `toc` locates.
fn read_instances(f: &[u8], toc: Option<TocBlk>, ver: Version) -> (r: Result<Vec<(u64, InstanceBlk)>, MMVDumpError>)
    ensures
        r matches Ok(v) ==> section_of(f@, toc, ver.spec_instance_len() as int, instance_reader(f@, ver)) == Ok::<
            Seq<(u64, InstanceBlkView)>,
            MMVDumpError,
        >(instance_entries(v@)),
        r matches Err(e) ==> section_of(f@, toc, ver.spec_instance_len() as int, instance_reader(f@, ver)) == Err::<
            Seq<(u64, InstanceBlkView)>,
            MMVDumpError,
        >(e),
{
    let mut v: Vec<(u64, InstanceBlk)> = Vec::new();
    if toc.is_none() {
        assert(instance_entries(v@) =~= Seq::empty());
        return Ok(v);
    }
    let t = toc.unwrap();
    let len = ver.instance_len();
    if !section_fits(f, &t, len) {
        return Err(MMVDumpError::Truncated(t.sec_offset));
    }
    let n = t.entries as u64;
    let flen = f.len();
    assert(flen <= u64::MAX);
    let mut i: u64 = 0;
    assert(instance_entries(v@) =~= Seq::empty());
    while i < n
        invariant
            toc == Some(t),
            i <= n,
            n == t.entries,
            flen == f@.len(),
            flen <= u64::MAX,
            len == ver.spec_instance_len(),
            t.sec_offset + n * len <= f@.len(),
            blocks_of(t.sec_offset as int, len as int, i as nat, instance_reader(f@, ver)) == Ok::<
                Seq<(u64, InstanceBlkView)>,
                MMVDumpError,
            >(instance_entries(v@)),
        decreases n - i,
    {
        proof { lemma_block_room(t.sec_offset, len, i, n, f@.len() as int); }
        let off = t.sec_offset + i * len;
        match InstanceBlk::from_bytes(f, off, ver) {
            Err(e) => {
                proof {
                    assert(instance_reader(f@, ver)(off as int) == instance_blk_of(f@, off as int, ver));
                    assert(blocks_of(t.sec_offset as int, len as int, (i + 1) as nat, instance_reader(f@, ver)) == Err::<
                        Seq<(u64, InstanceBlkView)>,
                        MMVDumpError,
                    >(e));
                    lemma_blocks_err(t.sec_offset as int, len as int, (i + 1) as nat, n as nat, instance_reader(f@, ver));
                }
                return Err(e);
            },
            Ok(b) => {
                let ghost old_v = v@;
                let ghost bv = b@;
                v.push((off, b));
                assert(instance_entries(v@) =~= instance_entries(old_v).push((off, bv)));
            },
        }
        i = i + 1;
    }
    Ok(v)
}

/// The tables of contents found so far, one slot per section code.
pub struct Tocs {
    pub indom: Option<TocBlk>,
    pub instance: Option<TocBlk>,
    pub metric: Option<TocBlk>,
    pub value: Option<TocBlk>,
    pub string: Option<TocBlk>,
}

/// `ts` with `t` in the slot of its section (a later table replaces an
/// earlier one of the same section; code 0 fills none).
pub open spec fn place_toc(ts: Tocs, t: TocBlk) -> Tocs {
    if t.sec == 1 {
        Tocs { indom: Some(t), ..ts }
    } else if t.sec == 2 {
        Tocs { instance: Some(t), ..ts }
    } else if t.sec == 3 {
        Tocs { metric: Some(t), ..ts }
    } else if t.sec == 4 {
        Tocs { value: Some(t), ..ts }
    } else if t.sec == 5 {
        Tocs { string: Some(t), ..ts }
    } else {
        ts
    }
}

/// The first `k` tables of contents, placed; or the first fault among them.
pub open spec fn tocs_of(f: Seq<u8>, k: nat) -> Result<Tocs, MMVDumpError>
    decreases k,
{
    if k == 0 {
        Ok(Tocs { indom: None, instance: None, metric: None, value: None, string: None })
    } else {
        match tocs_of(f, (k - 1) as nat) {
            Err(e) => Err(e),
            Ok(ts) => match toc_of(f, (k - 1) as u32) {
                Err(e) => Err(e),
                Ok(t) => Ok(place_toc(ts, t)),
            },
        }
    }
}

proof fn lemma_tocs_err(f: Seq<u8>, k: nat, n: nat)
    requires
        k <= n,
        tocs_of(f, k) is Err,
    ensures
        tocs_of(f, n) == tocs_of(f, k),
    decreases n - k,
{
    if k < n {
        lemma_tocs_err(f, k, (n - 1) as nat);
    }
}

/// A parsed MMV file: blocks keyed by offset, in file order.
pub struct MMV {
    header: Header,
    metric_toc: TocBlk,
    value_toc: TocBlk,
    string_toc: Option<TocBlk>,
    indom_toc: Option<TocBlk>,
    instance_toc: Option<TocBlk>,
    metric_blks: Vec<(u64, MetricBlk)>,
    value_blks: Vec<(u64, ValueBlk)>,
    string_blks: Vec<(u64, StringBlk)>,
    indom_blks: Vec<(u64, IndomBlk)>,
    instance_blks: Vec<(u64, InstanceBlk)>,
}

/// What a parsed file holds.
pub struct MMVView {
    pub header: Header,
    pub metric_toc: TocBlk,
    pub value_toc: TocBlk,
    pub string_toc: Option<TocBlk>,
    pub indom_toc: Option<TocBlk>,
    pub instance_toc: Option<TocBlk>,
    pub metric_blks: Seq<(u64, MetricBlkView)>,
    pub value_blks: Seq<(u64, ValueBlk)>,
    pub string_blks: Seq<(u64, Seq<char>)>,
    pub indom_blks: Seq<(u64, IndomBlk)>,
    pub instance_blks: Seq<(u64, InstanceBlkView)>,
}

impl View for MMV {
    type V = MMVView;

    closed spec fn view(&self) -> MMVView {
        MMVView {
            header: self.header,
            metric_toc: self.metric_toc,
            value_toc: self.value_toc,
            string_toc: self.string_toc,
            indom_toc: self.indom_toc,
            instance_toc: self.instance_toc,
            metric_blks: metric_entries(self.metric_blks@),
            value_blks: self.value_blks@,
            string_blks: string_entries(self.string_blks@),
            indom_blks: self.indom_blks@,
            instance_blks: instance_entries(self.instance_blks@),
        }
    }
}

/// The structure an image holds, or the first fault met reading it: the
/// header, the tables of contents, then the instance domain, instance,
/// metric, value and string sections in that order.
pub open spec fn mmv_of(f: Seq<u8>) -> Result<MMVView, MMVDumpError> {
    match header_of(f) {
        Err(e) => Err(e),
        Ok(h) => match tocs_of(f, h.toc_count as nat) {
            Err(e) => Err(e),
            Ok(ts) => if ts.metric is None {
                Err(MMVDumpError::MetricTocAbsent)
            } else if ts.value is None {
                Err(MMVDumpError::ValueTocAbsent)
            } else {
                let ver = h.version;
                match section_of(f, ts.indom, 32, indom_reader(f)) {
                    Err(e) => Err(e),
                    Ok(indoms) => match section_of(f, ts.instance, ver.spec_instance_len() as int, instance_reader(f, ver)) {
                        Err(e) => Err(e),
                        Ok(instances) => match section_of(f, ts.metric, ver.spec_metric_len() as int, metric_reader(f, ver)) {
                            Err(e) => Err(e),
                            Ok(metrics) => match section_of(f, ts.value, 32, value_reader(f)) {
                                Err(e) => Err(e),
                                Ok(values) => match section_of(f, ts.string, 256, string_reader(f)) {
                                    Err(e) => Err(e),
                                    Ok(strings) => Ok(
                                        MMVView {
                                            header: h,
                                            metric_toc: ts.metric->0,
                                            value_toc: ts.value->0,
                                            string_toc: ts.string,
                                            indom_toc: ts.indom,
                                            instance_toc: ts.instance,
                                            metric_blks: metrics,
                                            value_blks: values,
                                            string_blks: strings,
                                            indom_blks: indoms,
                                            instance_blks: instances,
                                        },
                                    ),
                                },
                            },
                        },
                    },
                }
            },
        },
    }
}

/// Reads the `count` tables of contents that follow the header.
fn read_tocs(f: &[u8], count: u32) -> (r: Result<Tocs, MMVDumpError>)
    requires
        count <= 5,
    ensures
        r == tocs_of(f@, count as nat),
{
    let mut ts = Tocs { indom: None, instance: None, metric: None, value: None, string: None };
    let mut i: u32 = 0;
    while i < count
        invariant
            i <= count,
            count <= 5,
            tocs_of(f@, i as nat) == Ok::<Tocs, MMVDumpError>(ts),
        decreases count - i,
    {
        let t = match TocBlk::from_bytes(f, i) {
            Ok(t) => t,
            Err(e) => {
                proof { lemma_tocs_err(f@, (i + 1) as nat, count as nat); }
                return Err(e);
            },
        };
        if t.sec == INDOM_TOC_CODE {
            ts.indom = Some(t);
        } else if t.sec == INSTANCE_TOC_CODE {
            ts.instance = Some(t);
        } else if t.sec == METRIC_TOC_CODE {
            ts.metric = Some(t);
        } else if t.sec == VALUES_TOC_CODE {
            ts.value = Some(t);
        } else if t.sec == STRINGS_TOC_CODE {
            ts.string = Some(t);
        }
        i = i + 1;
    }
    Ok(ts)
}

/// Parses a whole file image.
pub fn parse(f: &[u8]) -> (r: Result<MMV, MMVDumpError>)
    ensures
        r matches Ok(m) ==> mmv_of(f@) == Ok::<MMVView, MMVDumpError>(m@),
        r matches Err(e) ==> mmv_of(f@) == Err::<MMVView, MMVDumpError>(e),
{
    let hdr = Header::from_bytes(f)?;
    let ts = read_tocs(f, hdr.toc_count)?;
    if ts.metric.is_none() {
        return Err(MMVDumpError::MetricTocAbsent);
    }
    if ts.value.is_none() {
        return Err(MMVDumpError::ValueTocAbsent);
    }
    let ver = hdr.version;
    let indom_blks = read_indoms(f, ts.indom)?;
    let instance_blks = read_instances(f, ts.instance, ver)?;
    let metric_blks = read_metrics(f, ts.metric, ver)?;
    let value_blks = read_values(f, ts.value)?;
    let string_blks = read_strings(f, ts.string)?;
    Ok(
        MMV {
            header: hdr,
            metric_toc: ts.metric.unwrap(),
            value_toc: ts.value.unwrap(),
            string_toc: ts.string,
            indom_toc: ts.indom,
            instance_toc: ts.instance,
            metric_blks,
            value_blks,
            string_blks,
            indom_blks,
            instance_blks,
        },
    )
}

impl MMV {
    pub fn header(&self) -> (r: &Header)
        ensures
            *r == self@.header,
    {
        &self.header
    }

    pub fn metric_toc(&self) -> (r: &TocBlk)
        ensures
            *r == self@.metric_toc,
    {
        &self.metric_toc
    }

    pub fn value_toc(&self) -> (r: &TocBlk)
        ensures
            *r == self@.value_toc,
    {
        &self.value_toc
    }

    pub fn string_toc(&self) -> (r: &Option<TocBlk>)
        ensures
            *r == self@.string_toc,
    {
        &self.string_toc
    }

    pub fn indom_toc(&self) -> (r: &Option<TocBlk>)
        ensures
            *r == self@.indom_toc,
    {
        &self.indom_toc
    }

    pub fn instance_toc(&self) -> (r: &Option<TocBlk>)
        ensures
            *r == self@.instance_toc,
    {
        &self.instance_toc
    }

    pub fn metric_blks(&self) -> (r: &Vec<(u64, MetricBlk)>)
        ensures
            metric_entries(r@) == self@.metric_blks,
    {
        &self.metric_blks
    }

    pub fn value_blks(&self) -> (r: &Vec<(u64, ValueBlk)>)
        ensures
            r@ == self@.value_blks,
    {
        &self.value_blks
    }

    pub fn string_blks(&self) -> (r: &Vec<(u64, StringBlk)>)
        ensures
            string_entries(r@) == self@.string_blks,
    {
        &self.string_blks
    }

    pub fn indom_blks(&self) -> (r: &Vec<(u64, IndomBlk)>)
        ensures
            r@ == self@.indom_blks,
    {
        &self.indom_blks
    }

    pub fn instance_blks(&self) -> (r: &Vec<(u64, InstanceBlk)>)
        ensures
            instance_entries(r@) == self@.instance_blks,
    {
        &self.instance_blks
    }
}

} // verus!
