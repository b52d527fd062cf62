//! Reader for the BPF Type Format (BTF) that the kernel exports under `/sys/kernel/btf/`.
//!
//! A split holds the raw bytes of one BTF blob (the kernel's own, or a module's, which is read on
//! top of the kernel's as its base). Multi-byte fields are read in the byte order of the machine, as the kernel writes them.
use std::sync::Arc;
use vstd::prelude::*;
use vstd::utf8::{decode_utf8, valid_utf8};

use crate::text::{append_decimal, spec_decimal, spec_join, utf8_to_string};
use vstd::hash_map::StringHashMap;
use vstd::string::StringExecFns;

verus! {

broadcast use vstd::string::group_string_axioms;

// ---------------------------------------------------------------------------------------------
// Errors
// ---------------------------------------------------------------------------------------------

/// Why reading BTF data failed.
#[derive(Debug, Clone, Copy, PartialEq, Eq, Structural)]
pub enum BtfError {
    /// A record reaches past the end of the data.
    UnexpectedEnd,
    /// The header does not start with the BTF magic number.
    BadMagic(u16),
    /// The header holds the BTF magic number byte-swapped.
    NotNativeEndian,
    /// A type record has a kind that BTF does not define.
    UnknownKind(u32),
    /// A type id lies below the first id of the split (and of its base).
    IdBelowStart(u32),
    /// A type id lies past the last type of the split.
    IdTooBig(u32),
    /// A type id names no type record at all (such as the id of `void`).
    NoTypeRecord(u32),
    /// A name offset points past the end of the data.
    NameOutOfBounds,
    /// A name is not terminated by a NUL byte within the data.
    NameUnterminated,
    /// A name is not valid UTF-8.
    NameNotUtf8,
    /// An offset or an id does not fit in 32 bits.
    Overflow,
    /// Formatting or resolving a type visits more types than the data holds, so the type
    /// graph has a cycle.
    TooDeep,
}

// ---------------------------------------------------------------------------------------------
// Fields in the byte order of the machine that wrote them
// ---------------------------------------------------------------------------------------------

/// The little-endian `u16` at `d[off..off + 2]`.
pub open spec fn le_u16(d: Seq<u8>, off: int) -> u16 {
    (d[off] as int + d[off + 1] as int * 0x100) as u16
}

/// The little-endian `u32` at `d[off..off + 4]`.
pub open spec fn le_u32(d: Seq<u8>, off: int) -> u32 {
    (d[off] as int + d[off + 1] as int * 0x100 + d[off + 2] as int * 0x10000 + d[off + 3] as int
        * 0x1000000) as u32
}

/// The big-endian `u16` at `d[off..off + 2]`.
pub open spec fn be_u16(d: Seq<u8>, off: int) -> u16 {
    (d[off + 1] as int + d[off] as int * 0x100) as u16
}

/// The big-endian `u32` at `d[off..off + 4]`.
pub open spec fn be_u32(d: Seq<u8>, off: int) -> u32 {
    (d[off + 3] as int + d[off + 2] as int * 0x100 + d[off + 1] as int * 0x10000 + d[off] as int
        * 0x1000000) as u32
}

/// The `u16` at `d[off..off + 2]`, little-endian when `little`, else big-endian.
pub open spec fn ne_u16(d: Seq<u8>, off: int, little: bool) -> u16 {
    if little {
        le_u16(d, off)
    } else {
        be_u16(d, off)
    }
}

/// The `u32` at `d[off..off + 4]`, little-endian when `little`, else big-endian.
pub open spec fn ne_u32(d: Seq<u8>, off: int, little: bool) -> u32 {
    if little {
        le_u32(d, off)
    } else {
        be_u32(d, off)
    }
}

fn read_u16(d: &Vec<u8>, off: usize, little: bool) -> (r: u16)
    requires
        off + 2 <= d@.len(),
    ensures
        r == ne_u16(d@, off as int, little),
{
    proof {
        vstd::std_specs::vec::axiom_spec_len(d);
    }
    if little {
        (d[off] as u16) + (d[off + 1] as u16) * 0x100
    } else {
        (d[off + 1] as u16) + (d[off] as u16) * 0x100
    }
}

fn read_u32(d: &Vec<u8>, off: usize, little: bool) -> (r: u32)
    requires
        off + 4 <= d@.len(),
    ensures
        r == ne_u32(d@, off as int, little),
{
    proof {
        vstd::std_specs::vec::axiom_spec_len(d);
    }
    let (b0, b1, b2, b3) = if little {
        (d[off] as u32, d[off + 1] as u32, d[off + 2] as u32, d[off + 3] as u32)
    } else {
        (d[off + 3] as u32, d[off + 2] as u32, d[off + 1] as u32, d[off] as u32)
    };
    b0 + b1 * 0x100 + b2 * 0x10000 + b3 * 0x1000000
}

/// The `u16` whose bytes in this machine's byte order are `b`.
///
/// Wraps `u16::from_ne_bytes`. Which of the two byte orders the machine uses is not stated;
/// only that the result is read in one of them.
#[verifier::external_body]
fn native_u16(b: [u8; 2]) -> (r: u16)
    ensures
        r == le_u16(b@, 0) || r == be_u16(b@, 0),
{
    u16::from_ne_bytes(b)
}

// ---------------------------------------------------------------------------------------------
// Header
// ---------------------------------------------------------------------------------------------

/// The fixed header at the start of a BTF blob.
#[derive(Debug, Clone, Copy, PartialEq, Eq, Structural)]
pub struct BtfHeader {
    pub magic: u16,
    pub version: u8,
    pub flags: u8,
    pub hdr_len: u32,
    pub type_off: u32,
    pub type_len: u32,
    pub str_off: u32,
    pub str_len: u32,
}

/// The BTF magic number.
pub const BTF_MAGIC: u16 = 0xeb9f;

/// The header fields as they stand in the first 24 bytes of `d`.
pub open spec fn header_fields(d: Seq<u8>, little: bool) -> BtfHeader {
    BtfHeader {
        magic: ne_u16(d, 0, little),
        version: d[2],
        flags: d[3],
        hdr_len: ne_u32(d, 4, little),
        type_off: ne_u32(d, 8, little),
        type_len: ne_u32(d, 12, little),
        str_off: ne_u32(d, 16, little),
        str_len: ne_u32(d, 20, little),
    }
}

/// The header of `d`: its fields, when there are 24 bytes and the magic number is right.
pub open spec fn spec_read_header(d: Seq<u8>, little: bool) -> Result<BtfHeader, BtfError> {
    if d.len() < 24 {
        Err(BtfError::UnexpectedEnd)
    } else {
        let h = header_fields(d, little);
        if h.magic == BTF_MAGIC {
            Ok(h)
        } else if h.magic == 0x9feb {
            Err(BtfError::NotNativeEndian)
        } else {
            Err(BtfError::BadMagic(h.magic))
        }
    }
}

impl BtfHeader {
    /// Reads the header at the start of `d`, checking the magic number.
    pub fn read(d: &Vec<u8>, little: bool) -> (r: Result<BtfHeader, BtfError>)
        ensures
            r == spec_read_header(d@, little),
    {
        if d.len() < 24 {
            return Err(BtfError::UnexpectedEnd);
        }
        let hdr = BtfHeader {
            magic: read_u16(d, 0, little),
            version: d[2],
            flags: d[3],
            hdr_len: read_u32(d, 4, little),
            type_off: read_u32(d, 8, little),
            type_len: read_u32(d, 12, little),
            str_off: read_u32(d, 16, little),
            str_len: read_u32(d, 20, little),
        };
        if hdr.magic != BTF_MAGIC {
            if hdr.magic == 0x9feb {
                return Err(BtfError::NotNativeEndian);
            } else {
                return Err(BtfError::BadMagic(hdr.magic));
            }
        }
        Ok(hdr)
    }
}

// ---------------------------------------------------------------------------------------------
// Type records
// ---------------------------------------------------------------------------------------------

pub const BTF_KIND_VOID: u32 = 0;
pub const BTF_KIND_INT: u32 = 1;
pub const BTF_KIND_PTR: u32 = 2;
pub const BTF_KIND_ARRAY: u32 = 3;
pub const BTF_KIND_STRUCT: u32 = 4;
pub const BTF_KIND_UNION: u32 = 5;
pub const BTF_KIND_ENUM: u32 = 6;
pub const BTF_KIND_FWD: u32 = 7;
pub const BTF_KIND_TYPEDEF: u32 = 8;
pub const BTF_KIND_VOLATILE: u32 = 9;
pub const BTF_KIND_CONST: u32 = 10;
pub const BTF_KIND_RESTRICT: u32 = 11;
pub const BTF_KIND_FUNC: u32 = 12;
pub const BTF_KIND_FUNC_PROTO: u32 = 13;
pub const BTF_KIND_VAR: u32 = 14;
pub const BTF_KIND_DATASEC: u32 = 15;
pub const BTF_KIND_FLOAT: u32 = 16;
pub const BTF_KIND_DECL_TAG: u32 = 17;
pub const BTF_KIND_TYPE_TAG: u32 = 18;
pub const BTF_KIND_ENUM64: u32 = 19;

/// The common 12-byte head of every type record.
#[derive(Debug, Clone, Copy, PartialEq, Eq, Structural)]
pub struct BtfRawType {
    pub name_off: u32,
    pub info: u32,
    pub union_size_type: u32,
}

/// The record head at `d[off..off + 12]`, when it lies within `d`.
pub open spec fn spec_read_raw_type(d: Seq<u8>, off: int, little: bool) -> Result<BtfRawType, BtfError> {
    if 0 <= off && off + 12 <= d.len() {
        Ok(
            BtfRawType {
                name_off: ne_u32(d, off, little),
                info: ne_u32(d, off + 4, little),
                union_size_type: ne_u32(d, off + 8, little),
            },
        )
    } else {
        Err(BtfError::UnexpectedEnd)
    }
}

fn read_raw_type(d: &Vec<u8>, off: u32, little: bool) -> (r: Result<BtfRawType, BtfError>)
    ensures
        r == spec_read_raw_type(d@, off as int, little),
{
    let off = off as usize;
    if off > d.len() || d.len() - off < 12 {
        return Err(BtfError::UnexpectedEnd);
    }
    Ok(
        BtfRawType {
            name_off: read_u32(d, off, little),
            info: read_u32(d, off + 4, little),
            union_size_type: read_u32(d, off + 8, little),
        },
    )
}

/// Bits 24 to 28 of `info`: the kind.
pub open spec fn info_kind(info: u32) -> u32 {
    (info >> 24u32) & 0x1fu32
}

/// Bit 31 of `info`: the kind flag.
pub open spec fn info_kind_flag(info: u32) -> u32 {
    (info >> 31u32) & 1u32
}

/// Bits 0 to 15 of `info`: the number of entries that follow the record.
pub open spec fn info_vlen(info: u32) -> u32 {
    info & 0xffffu32
}

impl BtfRawType {
    pub fn get_kind(&self) -> (r: u32)
        ensures
            r == info_kind(self.info),
            r < 32,
    {
        let info = self.info;
        let r = (info >> 24u32) & 0x1fu32;
        assert(((info >> 24u32) & 0x1fu32) < 32) by (bit_vector);
        r
    }

    pub fn get_kind_flag(&self) -> (r: u32)
        ensures
            r == info_kind_flag(self.info),
            r <= 1,
    {
        let info = self.info;
        let r = (info >> 31u32) & 1u32;
        assert(((info >> 31u32) & 1u32) <= 1) by (bit_vector);
        r
    }

    pub fn get_vlen(&self) -> (r: u32)
        ensures
            r == info_vlen(self.info),
            r <= 0xffff,
    {
        let info = self.info;
        let r = info & 0xffffu32;
        assert((info & 0xffffu32) <= 0xffff) by (bit_vector);
        r
    }

    pub fn get_type_id(&self) -> (r: u32)
        ensures
            r == self.union_size_type,
    {
        self.union_size_type
    }
}

/// The kinds of type that BTF defines.
#[derive(Debug, Clone, Copy, PartialEq, Eq, Structural)]
pub enum BtfKind {
    Void,
    Int,
    Ptr,
    Array,
    Union,
    Struct,
    Enum,
    Fwd,
    Typedef,
    Volatile,
    Const,
    Restrict,
    Func,
    FuncProto,
    Var,
    Datasec,
    Float,
    DeclTag,
    TypeTag,
    Enum64,
}

/// The kind that the number `k` stands for in a record's info field.
pub open spec fn kind_of(k: u32) -> Option<BtfKind> {
    if k == BTF_KIND_VOID {
        Some(BtfKind::Void)
    } else if k == BTF_KIND_INT {
        Some(BtfKind::Int)
    } else if k == BTF_KIND_PTR {
        Some(BtfKind::Ptr)
    } else if k == BTF_KIND_ARRAY {
        Some(BtfKind::Array)
    } else if k == BTF_KIND_STRUCT {
        Some(BtfKind::Struct)
    } else if k == BTF_KIND_UNION {
        Some(BtfKind::Union)
    } else if k == BTF_KIND_ENUM {
        Some(BtfKind::Enum)
    } else if k == BTF_KIND_FWD {
        Some(BtfKind::Fwd)
    } else if k == BTF_KIND_TYPEDEF {
        Some(BtfKind::Typedef)
    } else if k == BTF_KIND_VOLATILE {
        Some(BtfKind::Volatile)
    } else if k == BTF_KIND_CONST {
        Some(BtfKind::Const)
    } else if k == BTF_KIND_RESTRICT {
        Some(BtfKind::Restrict)
    } else if k == BTF_KIND_FUNC {
        Some(BtfKind::Func)
    } else if k == BTF_KIND_FUNC_PROTO {
        Some(BtfKind::FuncProto)
    } else if k == BTF_KIND_VAR {
        Some(BtfKind::Var)
    } else if k == BTF_KIND_DATASEC {
        Some(BtfKind::Datasec)
    } else if k == BTF_KIND_FLOAT {
        Some(BtfKind::Float)
    } else if k == BTF_KIND_DECL_TAG {
        Some(BtfKind::DeclTag)
    } else if k == BTF_KIND_TYPE_TAG {
        Some(BtfKind::TypeTag)
    } else if k == BTF_KIND_ENUM64 {
        Some(BtfKind::Enum64)
    } else {
        None
    }
}

/// A type record together with its kind and its id.
#[derive(Debug, Clone, Copy, PartialEq, Eq, Structural)]
pub struct BtfType {
    pub kind: BtfKind,
    pub btf_raw_type: BtfRawType,
    pub type_id: u32,
}

/// The typed view of a record head read for `type_id`.
pub open spec fn spec_to_btf_type(raw: BtfRawType, type_id: u32) -> Result<BtfType, BtfError> {
    match kind_of(info_kind(raw.info)) {
        Some(kind) => Ok(BtfType { kind, btf_raw_type: raw, type_id }),
        None => Err(BtfError::UnknownKind(info_kind(raw.info))),
    }
}

/// Classifies a record head by its kind.
fn inner_to_btf_type(btf_raw_type: BtfRawType, type_id: u32) -> (r: Result<BtfType, BtfError>)
    ensures
        r == spec_to_btf_type(btf_raw_type, type_id),
{
    let kind = btf_raw_type.get_kind();
    let k = if kind == BTF_KIND_VOID {
        BtfKind::Void
    } else if kind == BTF_KIND_INT {
        BtfKind::Int
    } else if kind == BTF_KIND_PTR {
        BtfKind::Ptr
    } else if kind == BTF_KIND_ARRAY {
        BtfKind::Array
    } else if kind == BTF_KIND_STRUCT {
        BtfKind::Struct
    } else if kind == BTF_KIND_UNION {
        BtfKind::Union
    } else if kind == BTF_KIND_ENUM {
        BtfKind::Enum
    } else if kind == BTF_KIND_FWD {
        BtfKind::Fwd
    } else if kind == BTF_KIND_TYPEDEF {
        BtfKind::Typedef
    } else if kind == BTF_KIND_VOLATILE {
        BtfKind::Volatile
    } else if kind == BTF_KIND_CONST {
        BtfKind::Const
    } else if kind == BTF_KIND_RESTRICT {
        BtfKind::Restrict
    } else if kind == BTF_KIND_FUNC {
        BtfKind::Func
    } else if kind == BTF_KIND_FUNC_PROTO {
        BtfKind::FuncProto
    } else if kind == BTF_KIND_VAR {
        BtfKind::Var
    } else if kind == BTF_KIND_DATASEC {
        BtfKind::Datasec
    } else if kind == BTF_KIND_FLOAT {
        BtfKind::Float
    } else if kind == BTF_KIND_DECL_TAG {
        BtfKind::DeclTag
    } else if kind == BTF_KIND_TYPE_TAG {
        BtfKind::TypeTag
    } else if kind == BTF_KIND_ENUM64 {
        BtfKind::Enum64
    } else {
        return Err(BtfError::UnknownKind(kind));
    };
    Ok(BtfType { kind: k, btf_raw_type, type_id })
}

/// How many bytes of kind-specific data follow the 12-byte head of a record.
pub open spec fn spec_kind_specific_size(t: BtfType) -> u64 {
    let vlen = info_vlen(t.btf_raw_type.info) as u64;
    match t.kind {
        BtfKind::Int => 4,
        BtfKind::Array => 12,
        BtfKind::Union => (vlen * 12) as u64,
        BtfKind::Struct => (vlen * 12) as u64,
        BtfKind::Enum => (vlen * 8) as u64,
        BtfKind::FuncProto => (vlen * 8) as u64,
        BtfKind::Var => 4,
        BtfKind::Datasec => (vlen * 12) as u64,
        BtfKind::DeclTag => 4,
        BtfKind::Enum64 => (vlen * 12) as u64,
        _ => 0,
    }
}

impl BtfType {
    /// How many bytes of kind-specific data follow the 12-byte head of this record.
    pub fn kind_specific_size(&self) -> (r: u64)
        ensures
            r == spec_kind_specific_size(*self),
            r <= 0xffff * 12,
    {
        let vlen = self.btf_raw_type.get_vlen() as u64;
        match self.kind {
            BtfKind::Int => 4,
            BtfKind::Array => 12,
            BtfKind::Union => vlen * 12,
            BtfKind::Struct => vlen * 12,
            BtfKind::Enum => vlen * 8,
            BtfKind::FuncProto => vlen * 8,
            BtfKind::Var => 4,
            BtfKind::Datasec => vlen * 12,
            BtfKind::DeclTag => 4,
            BtfKind::Enum64 => vlen * 12,
            _ => 0,
        }
    }
}

// ---------------------------------------------------------------------------------------------
// Names: NUL-terminated UTF-8 strings in the string section
// ---------------------------------------------------------------------------------------------

/// The index of the first NUL byte in `d` at or after `pos`.
pub open spec fn nul_index(d: Seq<u8>, pos: int) -> Option<int>
    decreases d.len() - pos,
{
    if pos < 0 || pos >= d.len() {
        None
    } else if d[pos] == 0 {
        Some(pos)
    } else {
        nul_index(d, pos + 1)
    }
}

/// The NUL-terminated string starting at `d[pos]`, decoded as UTF-8.
pub open spec fn spec_cstr_at(d: Seq<u8>, pos: int) -> Result<Seq<char>, BtfError> {
    match nul_index(d, pos) {
        None => Err(BtfError::NameUnterminated),
        Some(end) => {
            let bytes = d.subrange(pos, end);
            if valid_utf8(bytes) {
                Ok(decode_utf8(bytes))
            } else {
                Err(BtfError::NameNotUtf8)
            }
        },
    }
}

proof fn lemma_nul_index_bounds(d: Seq<u8>, pos: int)
    ensures
        nul_index(d, pos) matches Some(e) ==> pos <= e < d.len() && d[e] == 0 && forall|j: int|
            pos <= j < e ==> d[j] != 0,
    decreases d.len() - pos,
{
    if 0 <= pos < d.len() && d[pos] != 0 {
        lemma_nul_index_bounds(d, pos + 1);
    }
}

/// Reads the NUL-terminated UTF-8 string that starts at `d[pos]`.
fn cstr_at(d: &Vec<u8>, pos: usize) -> (r: Result<String, BtfError>)
    ensures
        match r {
            Ok(s) => spec_cstr_at(d@, pos as int) == Ok::<Seq<char>, BtfError>(s@),
            Err(e) => spec_cstr_at(d@, pos as int) == Err::<Seq<char>, BtfError>(e),
        },
{
    if pos >= d.len() {
        return Err(BtfError::NameUnterminated);
    }
    let mut end = pos;
    let mut bytes: Vec<u8> = Vec::new();
    assert(bytes@ =~= d@.subrange(pos as int, end as int));
    while end < d.len() && d[end] != 0
        invariant
            pos <= end <= d@.len(),
            nul_index(d@, pos as int) == nul_index(d@, end as int),
            bytes@ == d@.subrange(pos as int, end as int),
        decreases d.len() - end,
    {
        bytes.push(d[end]);
        end = end + 1;
        assert(bytes@ =~= d@.subrange(pos as int, end as int));
    }
    if end >= d.len() {
        return Err(BtfError::NameUnterminated);
    }
    match utf8_to_string(bytes.as_slice()) {
        Some(s) => Ok(s),
        None => Err(BtfError::NameNotUtf8),
    }
}

// ---------------------------------------------------------------------------------------------
// Splits
// ---------------------------------------------------------------------------------------------

/// The BTF of the kernel or of one module. A module's split continues the kernel's: its type ids
/// and name offsets start where those of its base end.
pub struct BtfSplit {
    header: BtfHeader,
    start_id: u32,
    start_str_off: u32,
    base_split: Option<Arc<BtfSplit>>,
    offsets: Vec<u32>,
    data: Vec<u8>,
    functions: StringHashMap<u32>,
    little: bool,
}

pub type Btf = BtfSplit;

impl BtfSplit {
    pub closed spec fn spec_header(&self) -> BtfHeader {
        self.header
    }

    pub closed spec fn spec_start_id(&self) -> u32 {
        self.start_id
    }

    pub closed spec fn spec_start_str_off(&self) -> u32 {
        self.start_str_off
    }

    pub closed spec fn spec_base(&self) -> Option<BtfSplit> {
        match self.base_split {
            Some(b) => Some(*b),
            None => None,
        }
    }

    pub closed spec fn spec_offsets(&self) -> Seq<u32> {
        self.offsets@
    }

    pub closed spec fn spec_data(&self) -> Seq<u8> {
        self.data@
    }

    /// Whether the split's numbers are read little-endian.
    pub closed spec fn spec_little(&self) -> bool {
        self.little
    }

    /// The functions of the split, by name: the type id of the last function record read
    /// under each name.
    pub closed spec fn spec_functions(&self) -> Map<Seq<char>, u32> {
        self.functions@
    }

    /// The first type id of this split, as a public accessor.
    pub fn first_type_id(&self) -> (r: u32)
        ensures
            r == self.spec_start_id(),
    {
        self.start_id
    }

    /// The number of type records in this split.
    pub fn number_of_types(&self) -> (r: usize)
        ensures
            r == self.spec_offsets().len(),
    {
        self.offsets.len()
    }

    /// The number of distinct function names recorded in this split.
    pub fn number_of_functions(&self) -> (r: usize)
        ensures
            r == self.spec_functions().len(),
    {
        self.functions.len()
    }
}

// ---------------------------------------------------------------------------------------------
// Lookups by id and by name offset
// ---------------------------------------------------------------------------------------------

/// The record head of type `id` within split `s` alone.
pub open spec fn spec_inner_raw_type_from_id(s: BtfSplit, id: u32) -> Result<BtfRawType, BtfError> {
    if id == 0 {
        Ok(BtfRawType { name_off: 0, info: 0, union_size_type: 0 })
    } else if id < s.spec_start_id() {
        Err(BtfError::IdBelowStart(id))
    } else if id - s.spec_start_id() >= s.spec_offsets().len() {
        Err(BtfError::IdTooBig(id))
    } else {
        spec_read_raw_type(s.spec_data(), s.spec_offsets()[id - s.spec_start_id()] as int, s.spec_little())
    }
}

/// The record head of type `id`, looked up in the base split for ids below this split's.
pub open spec fn spec_raw_type_from_id(s: BtfSplit, id: u32) -> Result<BtfRawType, BtfError> {
    if id == 0 {
        spec_inner_raw_type_from_id(s, id)
    } else if id < s.spec_start_id() {
        match s.spec_base() {
            Some(b) => spec_inner_raw_type_from_id(b, id),
            None => Err(BtfError::IdBelowStart(id)),
        }
    } else {
        spec_inner_raw_type_from_id(s, id)
    }
}

/// The typed record of type `id`.
pub open spec fn spec_type_from_id(s: BtfSplit, id: u32) -> Result<BtfType, BtfError> {
    match spec_raw_type_from_id(s, id) {
        Ok(raw) => spec_to_btf_type(raw, id),
        Err(e) => Err(e),
    }
}

/// The name at offset `name_off` of the string section of split `s` alone.
pub open spec fn spec_inner_get_name(s: BtfSplit, name_off: u32) -> Result<Seq<char>, BtfError> {
    let pos = s.spec_header().hdr_len as int + s.spec_header().str_off as int + name_off as int;
    if pos > u32::MAX {
        Err(BtfError::Overflow)
    } else if pos >= s.spec_data().len() {
        Err(BtfError::NameOutOfBounds)
    } else {
        spec_cstr_at(s.spec_data(), pos)
    }
}

/// The name at offset `name_off`: offsets below this split's first one name strings of the base.
pub open spec fn spec_get_name(s: BtfSplit, name_off: u32) -> Result<Seq<char>, BtfError> {
    if name_off < s.spec_start_str_off() {
        match s.spec_base() {
            Some(b) => spec_inner_get_name(b, name_off),
            None => Ok(Seq::<char>::empty()),
        }
    } else {
        spec_inner_get_name(s, (name_off - s.spec_start_str_off()) as u32)
    }
}

/// Which split holds the record of type `id`, and where in that split's data it starts.
/// `None` where there is no such record to point to.
pub open spec fn spec_offset_from_id(s: BtfSplit, id: u32) -> Option<(BtfSplit, u32)> {
    if id == 0 {
        None
    } else if id >= s.spec_start_id() {
        if id - s.spec_start_id() < s.spec_offsets().len() {
            Some((s, s.spec_offsets()[id - s.spec_start_id()]))
        } else {
            None
        }
    } else {
        match s.spec_base() {
            Some(b) => if b.spec_start_id() <= id && id - b.spec_start_id() < b.spec_offsets().len() {
                Some((b, b.spec_offsets()[id - b.spec_start_id()]))
            } else {
                None
            },
            None => Some((s, 0u32)),
        }
    }
}

fn inner_raw_type_from_id(btf_split: &BtfSplit, id: u32) -> (r: Result<BtfRawType, BtfError>)
    ensures
        r == spec_inner_raw_type_from_id(*btf_split, id),
{
    if id == 0 {
        return Ok(BtfRawType { name_off: 0, info: 0, union_size_type: 0 });
    }
    if id < btf_split.start_id {
        return Err(BtfError::IdBelowStart(id));
    }
    let idx = (id - btf_split.start_id) as usize;
    if idx >= btf_split.offsets.len() {
        return Err(BtfError::IdTooBig(id));
    }
    read_raw_type(&btf_split.data, btf_split.offsets[idx], btf_split.little)
}

fn inner_get_name(btf_split: &BtfSplit, name_off: u32) -> (r: Result<String, BtfError>)
    ensures
        match r {
            Ok(s) => spec_inner_get_name(*btf_split, name_off) == Ok::<Seq<char>, BtfError>(s@),
            Err(e) => spec_inner_get_name(*btf_split, name_off) == Err::<Seq<char>, BtfError>(e),
        },
{
    let start_off = btf_split.header.hdr_len as u64 + btf_split.header.str_off as u64;
    let pos = start_off + name_off as u64;
    if pos > u32::MAX as u64 {
        return Err(BtfError::Overflow);
    }
    if pos as usize >= btf_split.data.len() {
        return Err(BtfError::NameOutOfBounds);
    }
    cstr_at(&btf_split.data, pos as usize)
}

impl BtfSplit {
    /// The record head of type `id`; ids below this split's are looked up in its base.
    pub fn raw_type_from_id(&self, id: u32) -> (r: Result<BtfRawType, BtfError>)
        ensures
            r == spec_raw_type_from_id(*self, id),
    {
        if id == 0 {
            return inner_raw_type_from_id(self, id);
        } else if id < self.start_id {
            match &self.base_split {
                Some(base_split) => {
                    return inner_raw_type_from_id(&**base_split, id);
                },
                None => {
                    return Err(BtfError::IdBelowStart(id));
                },
            }
        }
        inner_raw_type_from_id(self, id)
    }

    /// The typed record of type `id`.
    pub fn type_from_id(&self, id: u32) -> (r: Result<BtfType, BtfError>)
        ensures
            r == spec_type_from_id(*self, id),
    {
        match self.raw_type_from_id(id) {
            Ok(raw) => inner_to_btf_type(raw, id),
            Err(e) => Err(e),
        }
    }

    /// The name of the record `btf_raw_type`.
    pub fn get_type_name(&self, btf_raw_type: &BtfRawType) -> (r: Result<String, BtfError>)
        ensures
            match r {
                Ok(s) => spec_get_name(*self, btf_raw_type.name_off) == Ok::<Seq<char>, BtfError>(s@),
                Err(e) => spec_get_name(*self, btf_raw_type.name_off) == Err::<Seq<char>, BtfError>(e),
            },
    {
        self.get_name(btf_raw_type.name_off)
    }

    /// The name at offset `name_off` of the string section; offsets below this split's first
    /// one name strings of its base.
    pub fn get_name(&self, name_off: u32) -> (r: Result<String, BtfError>)
        ensures
            match r {
                Ok(s) => spec_get_name(*self, name_off) == Ok::<Seq<char>, BtfError>(s@),
                Err(e) => spec_get_name(*self, name_off) == Err::<Seq<char>, BtfError>(e),
            },
    {
        if name_off < self.start_str_off {
            match &self.base_split {
                Some(base_split) => {
                    return inner_get_name(&**base_split, name_off);
                },
                None => {
                    return Ok(String::new());
                },
            }
        }
        inner_get_name(self, name_off - self.start_str_off)
    }

    /// Which split holds the record of type `id` (this one or its base), and the offset of the
    /// record in that split's data.
    pub fn offset_from_id(&self, id: u32) -> (r: Option<(&BtfSplit, u32)>)
        ensures
            match r {
                Some((s, off)) => spec_offset_from_id(*self, id) == Some((*s, off)),
                None => spec_offset_from_id(*self, id) is None,
            },
    {
        if id == 0 {
            return None;
        }
        if id >= self.start_id {
            let idx = (id - self.start_id) as usize;
            if idx < self.offsets.len() {
                Some((self, self.offsets[idx]))
            } else {
                None
            }
        } else {
            match &self.base_split {
                Some(base_split) => {
                    let b: &BtfSplit = &**base_split;
                    if b.start_id <= id && ((id - b.start_id) as usize) < b.offsets.len() {
                        let idx = (id - b.start_id) as usize;
                        Some((b, b.offsets[idx]))
                    } else {
                        None
                    }
                },
                None => Some((self, 0)),
            }
        }
    }
}

// ---------------------------------------------------------------------------------------------
// Reading a split
// ---------------------------------------------------------------------------------------------

/// The view of an optional shared base split.
pub open spec fn base_view(base: Option<Arc<BtfSplit>>) -> Option<BtfSplit> {
    match base {
        Some(b) => Some(*b),
        None => None,
    }
}

/// The name of a function record met while reading a split. The string section is found from
/// this split's own header; a position below `start_str_off` is read from the base's data, any
/// other one, less `start_str_off`, from this split's data, and it must lie within this
/// split's data.
pub open spec fn spec_build_func_name(
    data: Seq<u8>,
    hdr: BtfHeader,
    start_str_off: u32,
    base: Option<BtfSplit>,
    name_off: u32,
) -> Result<Seq<char>, BtfError> {
    let start_off = hdr.hdr_len as int + hdr.str_off as int;
    let name_pos = start_off + name_off as int;
    if start_off > u32::MAX || name_pos > u32::MAX {
        Err(BtfError::Overflow)
    } else {
        let in_base = base is Some && name_pos < start_str_off;
        let pos = if base is Some && !in_base {
            name_pos - start_str_off
        } else {
            name_pos
        };
        if pos >= data.len() {
            Err(BtfError::NameOutOfBounds)
        } else if in_base {
            spec_cstr_at(base->0.spec_data(), pos)
        } else {
            spec_cstr_at(data, pos)
        }
    }
}

/// The walk over the type section: from position `pos`, with `read` bytes of the section
/// consumed, `offsets` the record positions and `funcs` the functions found so far.
pub open spec fn spec_walk(
    data: Seq<u8>,
    little: bool,
    hdr: BtfHeader,
    start_id: u32,
    start_str_off: u32,
    base: Option<BtfSplit>,
    pos: int,
    read: int,
    offsets: Seq<u32>,
    funcs: Map<Seq<char>, u32>,
) -> Result<(Seq<u32>, Map<Seq<char>, u32>), BtfError>
    decreases (if read < hdr.type_len {
        hdr.type_len - read
    } else {
        0
    }),
{
    if read >= hdr.type_len {
        Ok((offsets, funcs))
    } else if pos > u32::MAX || start_id as int + offsets.len() + 1 > u32::MAX {
        Err(BtfError::Overflow)
    } else {
        let type_id = (start_id as int + offsets.len()) as u32;
        match spec_read_raw_type(data, pos, little) {
            Err(e) => Err(e),
            Ok(raw) => match spec_to_btf_type(raw, type_id) {
                Err(e) => Err(e),
                Ok(t) => {
                    let size = spec_kind_specific_size(t);
                    let next_read = read + 12 + size;
                    let named: Result<Map<Seq<char>, u32>, BtfError> = if t.kind == BtfKind::Func {
                        match spec_build_func_name(data, hdr, start_str_off, base, raw.name_off) {
                            Ok(n) => Ok(funcs.insert(n, type_id)),
                            Err(e) => Err(e),
                        }
                    } else {
                        Ok(funcs)
                    };
                    match named {
                        Err(e) => Err(e),
                        Ok(funcs2) => if next_read > u32::MAX {
                            Err(BtfError::Overflow)
                        } else {
                            spec_walk(
                                data,
                                little,
                                hdr,
                                start_id,
                                start_str_off,
                                base,
                                pos + 12 + size,
                                next_read,
                                offsets.push(pos as u32),
                                funcs2,
                            )
                        },
                    }
                },
            },
        }
    }
}

/// The outcome of reading a split, from the outcome of its walk over the type section.
pub open spec fn build_result(
    hdr: BtfHeader,
    start_id: u32,
    start_str_off: u32,
    walk: Result<(Seq<u32>, Map<Seq<char>, u32>), BtfError>,
) -> Result<(BtfHeader, u32, u32, Seq<u32>, Map<Seq<char>, u32>), BtfError> {
    match walk {
        Err(e) => Err(e),
        Ok((offsets, funcs)) => Ok((hdr, start_id, start_str_off, offsets, funcs)),
    }
}

/// What reading a split from `data` on top of `base` gives: its header, first type id, first
/// name offset, record positions and functions.
pub open spec fn spec_build(base: Option<BtfSplit>, data: Seq<u8>, little: bool) -> Result<
    (BtfHeader, u32, u32, Seq<u32>, Map<Seq<char>, u32>),
    BtfError,
> {
    let ids: Result<(u32, u32), BtfError> = match base {
        None => Ok((1u32, 0u32)),
        Some(b) => if b.spec_start_id() as int + b.spec_offsets().len() > u32::MAX {
            Err(BtfError::Overflow)
        } else {
            Ok(((b.spec_start_id() as int + b.spec_offsets().len()) as u32, b.spec_header().str_len))
        },
    };
    match ids {
        Err(e) => Err(e),
        Ok((start_id, start_str_off)) => match spec_read_header(data, little) {
            Err(e) => Err(e),
            Ok(hdr) => if hdr.hdr_len as int + hdr.type_off as int > u32::MAX {
                Err(BtfError::Overflow)
            } else {
                build_result(
                    hdr,
                    start_id,
                    start_str_off,
                    spec_walk(
                        data,
                        little,
                        hdr,
                        start_id,
                        start_str_off,
                        base,
                        hdr.hdr_len as int + hdr.type_off as int,
                        0,
                        Seq::empty(),
                        Map::empty(),
                    ),
                )
            },
        },
    }
}

fn build_func_name(
    data: &Vec<u8>,
    hdr: &BtfHeader,
    start_str_off: u32,
    base: &Option<Arc<BtfSplit>>,
    name_off: u32,
) -> (r: Result<String, BtfError>)
    ensures
        match r {
            Ok(s) => spec_build_func_name(data@, *hdr, start_str_off, base_view(*base), name_off)
                == Ok::<Seq<char>, BtfError>(s@),
            Err(e) => spec_build_func_name(data@, *hdr, start_str_off, base_view(*base), name_off)
                == Err::<Seq<char>, BtfError>(e),
        },
{
    let start_off = hdr.hdr_len as u64 + hdr.str_off as u64;
    let name_pos = start_off + name_off as u64;
    if start_off > u32::MAX as u64 || name_pos > u32::MAX as u64 {
        return Err(BtfError::Overflow);
    }
    let mut pos = name_pos;
    let mut in_base = false;
    if let Some(_) = base {
        if name_pos < start_str_off as u64 {
            in_base = true;
        } else {
            pos = name_pos - start_str_off as u64;
        }
    }
    if pos as usize >= data.len() {
        return Err(BtfError::NameOutOfBounds);
    }
    if in_base {
        match base {
            Some(b) => cstr_at(&b.data, pos as usize),
            None => Err(BtfError::NameOutOfBounds),
        }
    } else {
        cstr_at(data, pos as usize)
    }
}

impl BtfSplit {
    /// Reads the BTF blob `data` in the byte order of this machine; `base` is the split it
    /// continues (the kernel's, for a module), or `None` for the kernel's own. Which byte order
    /// the machine has is not stated: the outcome is that of `build_with_order` in one of them.
    pub fn build(base: Option<Arc<BtfSplit>>, data: Vec<u8>) -> (r: Result<BtfSplit, BtfError>)
        ensures
            match r {
                Ok(s) => {
                    &&& spec_build(base_view(base), data@, s.spec_little()) == Ok::<
                        (BtfHeader, u32, u32, Seq<u32>, Map<Seq<char>, u32>),
                        BtfError,
                    >(
                        (
                            s.spec_header(),
                            s.spec_start_id(),
                            s.spec_start_str_off(),
                            s.spec_offsets(),
                            s.spec_functions(),
                        ),
                    )
                    &&& s.spec_base() == base_view(base)
                    &&& s.spec_data() == data@
                },
                Err(e) => spec_build(base_view(base), data@, true) == Err::<
                    (BtfHeader, u32, u32, Seq<u32>, Map<Seq<char>, u32>),
                    BtfError,
                >(e) || spec_build(base_view(base), data@, false) == Err::<
                    (BtfHeader, u32, u32, Seq<u32>, Map<Seq<char>, u32>),
                    BtfError,
                >(e),
            },
    {
        let little = native_u16([1u8, 0u8]) == 1;
        proof {
            assert(seq![1u8, 0u8] == [1u8, 0u8]@);
        }
        BtfSplit::build_with_order(base, data, little)
    }

    /// Reads the BTF blob `data`, little-endian when `little`, else big-endian; `base` is the
    /// split it continues, or `None`. Records the position of every type record and, for each
    /// function name, the id of the last function record of that name.
    pub fn build_with_order(base: Option<Arc<BtfSplit>>, data: Vec<u8>, little: bool) -> (r: Result<BtfSplit, BtfError>)
        ensures
            match r {
                Ok(s) => {
                    &&& s.spec_little() == little
                    &&& spec_build(base_view(base), data@, little) == Ok::<
                        (BtfHeader, u32, u32, Seq<u32>, Map<Seq<char>, u32>),
                        BtfError,
                    >(
                        (
                            s.spec_header(),
                            s.spec_start_id(),
                            s.spec_start_str_off(),
                            s.spec_offsets(),
                            s.spec_functions(),
                        ),
                    )
                    &&& s.spec_base() == base_view(base)
                    &&& s.spec_data() == data@
                },
                Err(e) => spec_build(base_view(base), data@, little) is Err && spec_build(
                    base_view(base),
                    data@,
                    little,
                )->Err_0 == e,
            },
    {
        let (start_id, start_str_off) = match &base {
            None => (1u32, 0u32),
            Some(b) => {
                if b.offsets.len() > u32::MAX as usize || b.start_id as u64 + b.offsets.len() as u64
                    > u32::MAX as u64 {
                    return Err(BtfError::Overflow);
                }
                (b.start_id + b.offsets.len() as u32, b.header.str_len)
            },
        };
        let header = match BtfHeader::read(&data, little) {
            Ok(h) => h,
            Err(e) => {
                return Err(e);
            },
        };
        if header.hdr_len as u64 + header.type_off as u64 > u32::MAX as u64 {
            return Err(BtfError::Overflow);
        }
        let ghost pos0 = header.hdr_len as int + header.type_off as int;
        let mut pos: u64 = header.hdr_len as u64 + header.type_off as u64;
        let mut offsets: Vec<u32> = Vec::new();
        let mut read: u32 = 0;
        let mut functions: StringHashMap<u32> = StringHashMap::new();
        let ghost bv = base_view(base);

        assert(offsets@ =~= Seq::<u32>::empty());
        assert(spec_build(bv, data@, little) == build_result(
            header,
            start_id,
            start_str_off,
            spec_walk(data@, little, header, start_id, start_str_off, bv, pos0, 0, Seq::empty(), Map::empty()),
        ));
        while read < header.type_len
            invariant
                bv == base_view(base),
                spec_build(bv, data@, little) == build_result(
                    header,
                    start_id,
                    start_str_off,
                    spec_walk(data@, little, header, start_id, start_str_off, bv, pos0, 0, Seq::empty(), Map::empty()),
                ),
                start_id as int + offsets@.len() <= u32::MAX,
                spec_read_header(data@, little) == Ok::<BtfHeader, BtfError>(header),
                pos <= u32::MAX as u64 + 12 + 0xffff * 12,
                spec_walk(data@, little, header, start_id, start_str_off, bv, pos0, 0, Seq::empty(), Map::empty())
                    == spec_walk(
                    data@,
                    little,
                    header,
                    start_id,
                    start_str_off,
                    bv,
                    pos as int,
                    read as int,
                    offsets@,
                    functions@,
                ),
            decreases (if read < header.type_len {
                header.type_len - read
            } else {
                0
            }),
        {
            if pos > u32::MAX as u64 || start_id as u64 + offsets.len() as u64 + 1 > u32::MAX as u64 {
                return Err(BtfError::Overflow);
            }
            let type_id = start_id + offsets.len() as u32;
            let raw = match read_raw_type(&data, pos as u32, little) {
                Ok(raw) => raw,
                Err(e) => {
                    return Err(e);
                },
            };
            let t = match inner_to_btf_type(raw, type_id) {
                Ok(t) => t,
                Err(e) => {
                    return Err(e);
                },
            };
            let size = t.kind_specific_size();
            if t.kind == BtfKind::Func {
                match build_func_name(&data, &header, start_str_off, &base, raw.name_off) {
                    Ok(name) => {
                        functions.insert(name, type_id);
                    },
                    Err(e) => {
                        return Err(e);
                    },
                }
            }
            if read as u64 + 12 + size > u32::MAX as u64 {
                return Err(BtfError::Overflow);
            }
            offsets.push(pos as u32);
            pos = pos + 12 + size;
            read = read + 12 + size as u32;
        }
        Ok(
            BtfSplit {
                header,
                start_id,
                start_str_off,
                base_split: base,
                offsets,
                data,
                functions,
                little,
            },
        )
    }
}

// ---------------------------------------------------------------------------------------------
// Formatting types as C declarations
// ---------------------------------------------------------------------------------------------

/// The element type id and the number of elements of the array record at `d[off..off + 12]`.
pub open spec fn spec_read_array(d: Seq<u8>, off: int, little: bool) -> Result<(u32, u32), BtfError> {
    if 0 <= off && off + 12 <= d.len() {
        Ok((ne_u32(d, off, little), ne_u32(d, off + 8, little)))
    } else {
        Err(BtfError::UnexpectedEnd)
    }
}

/// A formatted type as plain character sequences.
pub open spec fn format_view(r: Result<(String, String), BtfError>) -> Result<(Seq<char>, Seq<char>), BtfError> {
    match r {
        Ok((p, s)) => Ok((p@, s@)),
        Err(e) => Err(e),
    }
}

/// How type `t` is written as a C declaration, as the text before the declared name and the text
/// after it, looking names and types up in split `s`. Every type that the formatting passes
/// through costs one unit of `fuel`; with none left it fails with `TooDeep`.
pub open spec fn spec_string_format(t: BtfType, s: BtfSplit, fuel: nat) -> Result<
    (Seq<char>, Seq<char>),
    BtfError,
>
    decreases fuel, 0nat,
{
    if fuel == 0 {
        Err(BtfError::TooDeep)
    } else {
        let f = (fuel - 1) as nat;
        let raw = t.btf_raw_type;
        let empty = Seq::<char>::empty();
        match t.kind {
            BtfKind::Void => Ok(("void"@, empty)),
            BtfKind::Int | BtfKind::Typedef => match spec_get_name(s, raw.name_off) {
                Ok(n) => Ok((n, empty)),
                Err(e) => Err(e),
            },
            BtfKind::Struct | BtfKind::Union | BtfKind::Enum | BtfKind::Enum64 | BtfKind::Fwd => {
                let word = if t.kind == BtfKind::Struct || (t.kind == BtfKind::Fwd && info_kind_flag(
                    raw.info,
                ) == 0) {
                    "struct "@
                } else if t.kind == BtfKind::Union || t.kind == BtfKind::Fwd {
                    "union "@
                } else {
                    "enum "@
                };
                match spec_get_name(s, raw.name_off) {
                    Ok(n) => Ok((word + n, empty)),
                    Err(e) => Err(e),
                }
            },
            BtfKind::Ptr => match spec_type_from_id(s, raw.union_size_type) {
                Err(e) => Err(e),
                Ok(sub) => match spec_string_format(sub, s, f) {
                    Err(e) => Err(e),
                    Ok((p, x)) => if sub.kind == BtfKind::FuncProto {
                        Ok((p + " (*"@, ")"@ + x))
                    } else {
                        Ok((p + " *"@, x))
                    },
                },
            },
            BtfKind::Volatile | BtfKind::Const => match spec_type_from_id(s, raw.union_size_type) {
                Err(e) => Err(e),
                Ok(sub) => match spec_string_format(sub, s, f) {
                    Err(e) => Err(e),
                    Ok((p, x)) => if sub.kind == BtfKind::Ptr {
                        Ok((p + (if t.kind == BtfKind::Const { "const"@ } else { "volatile"@ }), x))
                    } else {
                        Ok(((if t.kind == BtfKind::Const { "const "@ } else { "volatile "@ }) + p, x))
                    },
                },
            },
            BtfKind::TypeTag => match spec_type_from_id(s, raw.union_size_type) {
                Err(e) => Err(e),
                Ok(sub) => match spec_string_format(sub, s, f) {
                    Err(e) => Err(e),
                    Ok((p, x)) => match spec_get_name(s, raw.name_off) {
                        Ok(n) => Ok((p + " __"@ + n, x)),
                        Err(e) => Err(e),
                    },
                },
            },
            BtfKind::Array => match spec_offset_from_id(s, t.type_id) {
                None => Err(BtfError::NoTypeRecord(t.type_id)),
                Some((owner, off)) => if off as int + 12 > u32::MAX {
                    Err(BtfError::Overflow)
                } else {
                    match spec_read_array(owner.spec_data(), off as int + 12, owner.spec_little()) {
                        Err(e) => Err(e),
                        Ok((elem, nelems)) => match spec_type_from_id(owner, elem) {
                            Err(e) => Err(e),
                            Ok(sub) => match spec_string_format(sub, owner, f) {
                                Err(e) => Err(e),
                                Ok((p, x)) => Ok((p, x + "["@ + spec_decimal(nelems as nat) + "]"@)),
                            },
                        },
                    }
                },
            },
            BtfKind::FuncProto => match spec_offset_from_id(s, t.type_id) {
                None => Err(BtfError::NoTypeRecord(t.type_id)),
                Some((owner, off)) => if off as int + 12 > u32::MAX {
                    Err(BtfError::Overflow)
                } else {
                    match spec_format_params(
                        s,
                        owner,
                        off as int + 12,
                        0,
                        info_vlen(raw.info) as nat,
                        "("@,
                        f,
                    ) {
                        Err(e) => Err(e),
                        Ok(params) => match spec_type_from_id(s, raw.union_size_type) {
                            Err(e) => Err(e),
                            Ok(ret) => match spec_string_format(ret, s, f) {
                                Err(e) => Err(e),
                                Ok((rp, rx)) => Ok(
                                    (
                                        if rx.len() > 0 {
                                            rp + " "@ + rx
                                        } else {
                                            rp
                                        },
                                        params + ")"@,
                                    ),
                                ),
                            },
                        },
                    }
                },
            },
            _ => Ok((empty, empty)),
        }
    }
}

/// The parameter list of a function prototype, from parameter `p` of `vlen` on: each parameter
/// record (8 bytes at `off` in `owner`'s data) written as its type with its name, separated by
/// `", "`, appended to `acc`.
pub open spec fn spec_format_params(
    this: BtfSplit,
    owner: BtfSplit,
    off: int,
    p: nat,
    vlen: nat,
    acc: Seq<char>,
    fuel: nat,
) -> Result<Seq<char>, BtfError>
    decreases fuel, (if p < vlen {
        vlen - p
    } else {
        0
    }),
{
    if p >= vlen {
        Ok(acc)
    } else if off < 0 || off + 8 > owner.spec_data().len() {
        Err(BtfError::UnexpectedEnd)
    } else if off + 8 > u32::MAX {
        Err(BtfError::Overflow)
    } else {
        let name_off = ne_u32(owner.spec_data(), off, owner.spec_little());
        let tid = ne_u32(owner.spec_data(), off + 4, owner.spec_little());
        match spec_type_from_id(this, tid) {
            Err(e) => Err(e),
            Ok(sub) => match spec_string_format(sub, this, fuel) {
                Err(e) => Err(e),
                Ok((sp, sx)) => match spec_get_name(this, name_off) {
                    Err(e) => Err(e),
                    Ok(n) => {
                        let item = if n.len() > 0 || sx.len() > 0 {
                            sp + " "@ + n + sx
                        } else {
                            sp
                        };
                        let sep = if p + 1 < vlen {
                            ", "@
                        } else {
                            Seq::<char>::empty()
                        };
                        spec_format_params(this, owner, off + 8, p + 1, vlen, acc + item + sep, fuel)
                    },
                },
            },
        }
    }
}

/// The declaration of the parameter whose record is at `off` in `owner`'s data: its type with
/// its name, as `spec_format_params` writes it.
#[verifier::opaque]
pub open spec fn spec_param_item(this: BtfSplit, owner: BtfSplit, off: int, fuel: nat) -> Result<Seq<char>, BtfError> {
    let name_off = ne_u32(owner.spec_data(), off, owner.spec_little());
    let tid = ne_u32(owner.spec_data(), off + 4, owner.spec_little());
    match spec_type_from_id(this, tid) {
        Err(e) => Err(e),
        Ok(sub) => match spec_string_format(sub, this, fuel) {
            Err(e) => Err(e),
            Ok((sp, sx)) => match spec_get_name(this, name_off) {
                Err(e) => Err(e),
                Ok(n) => Ok(
                    if n.len() > 0 || sx.len() > 0 {
                        sp + " "@ + n + sx
                    } else {
                        sp
                    },
                ),
            },
        },
    }
}

/// The declarations of parameters `p` to `vlen` of a function prototype, whose records start at
/// `off` in `owner`'s data.
pub open spec fn spec_param_items(this: BtfSplit, owner: BtfSplit, off: int, p: nat, vlen: nat, fuel: nat) -> Result<
    Seq<Seq<char>>,
    BtfError,
>
    decreases (if p < vlen {
        vlen - p
    } else {
        0
    }),
{
    if p >= vlen {
        Ok(Seq::empty())
    } else if off < 0 || off + 8 > owner.spec_data().len() {
        Err(BtfError::UnexpectedEnd)
    } else if off + 8 > u32::MAX {
        Err(BtfError::Overflow)
    } else {
        match spec_param_item(this, owner, off, fuel) {
            Err(e) => Err(e),
            Ok(item) => match spec_param_items(this, owner, off + 8, p + 1, vlen, fuel) {
                Err(e) => Err(e),
                Ok(rest) => Ok(seq![item] + rest),
            },
        }
    }
}

proof fn lemma_join_front(a: Seq<char>, rest: Seq<Seq<char>>, sep: Seq<char>)
    ensures
        spec_join(seq![a] + rest, sep) == (if rest.len() == 0 {
            a
        } else {
            a + sep + spec_join(rest, sep)
        }),
    decreases rest.len(),
{
    let all = seq![a] + rest;
    if rest.len() == 0 {
        assert(all =~= seq![a]);
    } else {
        assert(all.drop_last() =~= seq![a] + rest.drop_last());
        assert(all.last() == rest.last());
        lemma_join_front(a, rest.drop_last(), sep);
        if rest.len() == 1 {
            assert(rest.drop_last() =~= Seq::<Seq<char>>::empty());
            assert(spec_join(rest, sep) == rest[0]);
        } else {
            assert(a + sep + spec_join(rest.drop_last(), sep) + sep + rest.last() =~= a + sep + (spec_join(
                rest.drop_last(),
                sep,
            ) + sep + rest.last()));
        }
    }
}

proof fn lemma_format_params_step(
    this: BtfSplit,
    owner: BtfSplit,
    off: int,
    p: nat,
    vlen: nat,
    acc: Seq<char>,
    fuel: nat,
)
    requires
        p < vlen,
        0 <= off,
        off + 8 <= owner.spec_data().len(),
        off + 8 <= u32::MAX,
    ensures
        spec_format_params(this, owner, off, p, vlen, acc, fuel) == match spec_param_item(this, owner, off, fuel) {
            Err(e) => Err(e),
            Ok(item) => spec_format_params(
                this,
                owner,
                off + 8,
                p + 1,
                vlen,
                acc + item + (if p + 1 < vlen {
                    ", "@
                } else {
                    Seq::<char>::empty()
                }),
                fuel,
            ),
        },
{
    reveal(spec_param_item);
}

proof fn lemma_format_params_joined(
    this: BtfSplit,
    owner: BtfSplit,
    off: int,
    p: nat,
    vlen: nat,
    acc: Seq<char>,
    fuel: nat,
)
    requires
        p <= vlen,
    ensures
        spec_format_params(this, owner, off, p, vlen, acc, fuel) == match spec_param_items(
            this,
            owner,
            off,
            p,
            vlen,
            fuel,
        ) {
            Ok(items) => Ok::<Seq<char>, BtfError>(acc + spec_join(items, ", "@)),
            Err(e) => Err(e),
        },
        spec_param_items(this, owner, off, p, vlen, fuel) matches Ok(items) ==> items.len() == vlen - p,
    decreases (if p < vlen {
        vlen - p
    } else {
        0
    }),
{
    if p >= vlen {
        assert(acc + spec_join(Seq::<Seq<char>>::empty(), ", "@) =~= acc);
    } else if off < 0 || off + 8 > owner.spec_data().len() {
    } else if off + 8 > u32::MAX {
    } else {
        lemma_format_params_step(this, owner, off, p, vlen, acc, fuel);
        if let Ok(item) = spec_param_item(this, owner, off, fuel) {
            let sep = if p + 1 < vlen {
                ", "@
            } else {
                Seq::<char>::empty()
            };
            lemma_format_params_joined(this, owner, off + 8, p + 1, vlen, acc + item + sep, fuel);
            if let Ok(rest) = spec_param_items(this, owner, off + 8, p + 1, vlen, fuel) {
                lemma_join_front(item, rest, ", "@);
                if rest.len() == 0 {
                    assert(acc + item + sep + spec_join(rest, ", "@) =~= acc + item);
                } else {
                    assert(acc + item + sep + spec_join(rest, ", "@) =~= acc + (item + ", "@ + spec_join(
                        rest,
                        ", "@,
                    )));
                }
            }
        }
    }
}

/// A function prototype is written as its return type, then `(`, the declarations of its
/// parameters joined by `", "`, then `)`; the return type's own suffix, when it has one, follows
/// its prefix after a space.
pub proof fn lemma_func_proto_format(t: BtfType, s: BtfSplit, fuel: nat)
    requires
        t.kind == BtfKind::FuncProto,
        fuel > 0,
    ensures
        spec_string_format(t, s, fuel) matches Ok((pre, post)) ==> {
            &&& spec_offset_from_id(s, t.type_id) matches Some((owner, off))
            &&& spec_param_items(
                s,
                owner,
                off as int + 12,
                0,
                info_vlen(t.btf_raw_type.info) as nat,
                (fuel - 1) as nat,
            ) matches Ok(items)
            &&& items.len() == info_vlen(t.btf_raw_type.info)
            &&& post == "("@ + spec_join(items, ", "@) + ")"@
            &&& spec_type_from_id(s, t.btf_raw_type.union_size_type) matches Ok(ret)
            &&& spec_string_format(ret, s, (fuel - 1) as nat) matches Ok((rp, rx))
            &&& pre == (if rx.len() > 0 {
                rp + " "@ + rx
            } else {
                rp
            })
        },
{
    if let Some((owner, off)) = spec_offset_from_id(s, t.type_id) {
        lemma_format_params_joined(
            s,
            owner,
            off as int + 12,
            0,
            info_vlen(t.btf_raw_type.info) as nat,
            "("@,
            (fuel - 1) as nat,
        );
    }
}

/// An array is written as its element type with `[N]` after it, N the number of elements.
pub proof fn lemma_array_format(t: BtfType, s: BtfSplit, fuel: nat)
    requires
        t.kind == BtfKind::Array,
        fuel > 0,
    ensures
        spec_string_format(t, s, fuel) matches Ok((pre, post)) ==> {
            &&& spec_offset_from_id(s, t.type_id) matches Some((owner, off))
            &&& spec_read_array(owner.spec_data(), off as int + 12, owner.spec_little()) matches Ok(
                (elem, nelems),
            )
            &&& spec_type_from_id(owner, elem) matches Ok(sub)
            &&& spec_string_format(sub, owner, (fuel - 1) as nat) matches Ok((sp, sx))
            &&& pre == sp
            &&& post == sx + "["@ + spec_decimal(nelems as nat) + "]"@
        },
{
}

/// A struct, union or enum, or a forward declaration, is written as its keyword and its name:
/// `struct` for a struct and for a forward declaration whose kind flag is 0, `union` for a union
/// and for a forward declaration whose kind flag is 1, `enum` for both kinds of enum.
pub proof fn lemma_named_type_format(t: BtfType, s: BtfSplit, fuel: nat, name: Seq<char>)
    requires
        fuel > 0,
        spec_get_name(s, t.btf_raw_type.name_off) == Ok::<Seq<char>, BtfError>(name),
    ensures
        t.kind == BtfKind::Struct ==> spec_string_format(t, s, fuel) == Ok::<(Seq<char>, Seq<char>), BtfError>(
            ("struct "@ + name, Seq::empty()),
        ),
        t.kind == BtfKind::Union ==> spec_string_format(t, s, fuel) == Ok::<(Seq<char>, Seq<char>), BtfError>(
            ("union "@ + name, Seq::empty()),
        ),
        t.kind == BtfKind::Enum || t.kind == BtfKind::Enum64 ==> spec_string_format(t, s, fuel) == Ok::<
            (Seq<char>, Seq<char>),
            BtfError,
        >(("enum "@ + name, Seq::empty())),
        t.kind == BtfKind::Fwd && info_kind_flag(t.btf_raw_type.info) == 0 ==> spec_string_format(t, s, fuel)
            == Ok::<(Seq<char>, Seq<char>), BtfError>(("struct "@ + name, Seq::empty())),
        t.kind == BtfKind::Fwd && info_kind_flag(t.btf_raw_type.info) == 1 ==> spec_string_format(t, s, fuel)
            == Ok::<(Seq<char>, Seq<char>), BtfError>(("union "@ + name, Seq::empty())),
{
}

/// The data after a record head is as long as the BTF format makes it for the record's kind:
/// 12 bytes for each entry of a struct, union, 64-bit enum or data section, 8 for each entry of
/// an enum or a function prototype, 4 bytes for an integer, a variable or a declaration tag,
/// 12 for an array, and none for the other kinds.
pub proof fn lemma_entry_sizes(t: BtfType)
    ensures
        ({
            let n = info_vlen(t.btf_raw_type.info) as int;
            let size = spec_kind_specific_size(t) as int;
            &&& (t.kind == BtfKind::Struct || t.kind == BtfKind::Union || t.kind == BtfKind::Enum64
                || t.kind == BtfKind::Datasec) ==> size == 12 * n
            &&& (t.kind == BtfKind::Enum || t.kind == BtfKind::FuncProto) ==> size == 8 * n
            &&& (t.kind == BtfKind::Int || t.kind == BtfKind::Var || t.kind == BtfKind::DeclTag) ==> size == 4
            &&& t.kind == BtfKind::Array ==> size == 12
            &&& (t.kind == BtfKind::Void || t.kind == BtfKind::Ptr || t.kind == BtfKind::Fwd || t.kind
                == BtfKind::Typedef || t.kind == BtfKind::Volatile || t.kind == BtfKind::Const || t.kind
                == BtfKind::Restrict || t.kind == BtfKind::Func || t.kind == BtfKind::Float || t.kind
                == BtfKind::TypeTag) ==> size == 0
        }),
{
    let info = t.btf_raw_type.info;
    assert(info & 0xffffu32 <= 0xffff) by (bit_vector);
}

impl BtfType {
    /// Writes this type as a C declaration: the text that goes before the declared name and the
    /// text that goes after it. `fuel` bounds how many types the formatting may pass through.
    pub fn string_format(&self, split: &BtfSplit, fuel: u64) -> (r: Result<(String, String), BtfError>)
        ensures
            format_view(r) == spec_string_format(*self, *split, fuel as nat),
        decreases fuel, 0nat,
    {
        if fuel == 0 {
            return Err(BtfError::TooDeep);
        }
        let f = fuel - 1;
        let raw = self.btf_raw_type;
        match self.kind {
            BtfKind::Void => Ok((String::from_str("void"), String::new())),
            BtfKind::Int | BtfKind::Typedef => match split.get_name(raw.name_off) {
                Ok(n) => Ok((n, String::new())),
                Err(e) => Err(e),
            },
            BtfKind::Struct | BtfKind::Union | BtfKind::Enum | BtfKind::Enum64 | BtfKind::Fwd => {
                let mut word = if self.kind == BtfKind::Struct || (self.kind == BtfKind::Fwd
                    && raw.get_kind_flag() == 0) {
                    String::from_str("struct ")
                } else if self.kind == BtfKind::Union || self.kind == BtfKind::Fwd {
                    String::from_str("union ")
                } else {
                    String::from_str("enum ")
                };
                match split.get_name(raw.name_off) {
                    Ok(n) => {
                        word.append(n.as_str());
                        Ok((word, String::new()))
                    },
                    Err(e) => Err(e),
                }
            },
            BtfKind::Ptr => {
                let sub = match split.type_from_id(raw.get_type_id()) {
                    Ok(sub) => sub,
                    Err(e) => {
                        return Err(e);
                    },
                };
                match sub.string_format(split, f) {
                    Err(e) => Err(e),
                    Ok((p, x)) => {
                        let mut p = p;
                        if sub.kind == BtfKind::FuncProto {
                            p.append(" (*");
                            let mut x2 = String::from_str(")");
                            x2.append(x.as_str());
                            Ok((p, x2))
                        } else {
                            p.append(" *");
                            Ok((p, x))
                        }
                    },
                }
            },
            BtfKind::Volatile | BtfKind::Const => {
                let sub = match split.type_from_id(raw.get_type_id()) {
                    Ok(sub) => sub,
                    Err(e) => {
                        return Err(e);
                    },
                };
                match sub.string_format(split, f) {
                    Err(e) => Err(e),
                    Ok((p, x)) => {
                        if sub.kind == BtfKind::Ptr {
                            let mut p = p;
                            if self.kind == BtfKind::Const {
                                p.append("const");
                            } else {
                                p.append("volatile");
                            }
                            Ok((p, x))
                        } else {
                            let mut q = if self.kind == BtfKind::Const {
                                String::from_str("const ")
                            } else {
                                String::from_str("volatile ")
                            };
                            q.append(p.as_str());
                            Ok((q, x))
                        }
                    },
                }
            },
            BtfKind::TypeTag => {
                let sub = match split.type_from_id(raw.get_type_id()) {
                    Ok(sub) => sub,
                    Err(e) => {
                        return Err(e);
                    },
                };
                match sub.string_format(split, f) {
                    Err(e) => Err(e),
                    Ok((p, x)) => match split.get_type_name(&raw) {
                        Ok(n) => {
                            let mut p = p;
                            p.append(" __");
                            p.append(n.as_str());
                            Ok((p, x))
                        },
                        Err(e) => Err(e),
                    },
                }
            },
            BtfKind::Array => {
                let (owner, off) = match split.offset_from_id(self.type_id) {
                    Some(x) => x,
                    None => {
                        return Err(BtfError::NoTypeRecord(self.type_id));
                    },
                };
                if off as u64 + 12 > u32::MAX as u64 {
                    return Err(BtfError::Overflow);
                }
                let off = off + 12;
                let (elem, nelems) = match read_array(&owner.data, off, owner.little) {
                    Ok(x) => x,
                    Err(e) => {
                        return Err(e);
                    },
                };
                let sub = match owner.type_from_id(elem) {
                    Ok(sub) => sub,
                    Err(e) => {
                        return Err(e);
                    },
                };
                match sub.string_format(owner, f) {
                    Err(e) => Err(e),
                    Ok((p, x)) => {
                        let mut x = x;
                        x.append("[");
                        append_decimal(&mut x, nelems as u64);
                        x.append("]");
                        Ok((p, x))
                    },
                }
            },
            BtfKind::FuncProto => {
                let (owner, off) = match split.offset_from_id(self.type_id) {
                    Some(x) => x,
                    None => {
                        return Err(BtfError::NoTypeRecord(self.type_id));
                    },
                };
                if off as u64 + 12 > u32::MAX as u64 {
                    return Err(BtfError::Overflow);
                }
                let params = match format_params(split, owner, off + 12, raw.get_vlen(), f) {
                    Ok(params) => params,
                    Err(e) => {
                        return Err(e);
                    },
                };
                let ret = match split.type_from_id(raw.get_type_id()) {
                    Ok(ret) => ret,
                    Err(e) => {
                        return Err(e);
                    },
                };
                match ret.string_format(split, f) {
                    Err(e) => Err(e),
                    Ok((rp, rx)) => {
                        let mut rp = rp;
                        if !rx.as_str().is_empty() {
                            rp.append(" ");
                            rp.append(rx.as_str());
                        }
                        let mut params = params;
                        params.append(")");
                        Ok((rp, params))
                    },
                }
            },
            _ => Ok((String::new(), String::new())),
        }
    }
}

fn read_array(d: &Vec<u8>, off: u32, little: bool) -> (r: Result<(u32, u32), BtfError>)
    ensures
        r == spec_read_array(d@, off as int, little),
{
    let off = off as usize;
    if off > d.len() || d.len() - off < 12 {
        return Err(BtfError::UnexpectedEnd);
    }
    Ok((read_u32(d, off, little), read_u32(d, off + 8, little)))
}

/// Writes the parameter list of a function prototype whose `vlen` parameter records start at
/// `off` in `owner`'s data: `"("` and the parameters, separated by `", "`.
fn format_params(split: &BtfSplit, owner: &BtfSplit, off: u32, vlen: u32, fuel: u64) -> (r: Result<
    String,
    BtfError,
>)
    ensures
        match r {
            Ok(s) => spec_format_params(*split, *owner, off as int, 0, vlen as nat, "("@, fuel as nat)
                == Ok::<Seq<char>, BtfError>(s@),
            Err(e) => spec_format_params(*split, *owner, off as int, 0, vlen as nat, "("@, fuel as nat)
                == Err::<Seq<char>, BtfError>(e),
        },
    decreases fuel, 1nat,
{
    let mut acc = String::from_str("(");
    let mut cur = off;
    let mut p: u32 = 0;
    let ghost off0 = cur;
    while p < vlen
        invariant
            p <= vlen,
            off0 == off,
            spec_format_params(*split, *owner, off0 as int, 0, vlen as nat, "("@, fuel as nat)
                == spec_format_params(*split, *owner, cur as int, p as nat, vlen as nat, acc@, fuel as nat),
        decreases vlen - p,
    {
        if cur as usize > owner.data.len() || owner.data.len() - (cur as usize) < 8 {
            return Err(BtfError::UnexpectedEnd);
        }
        if cur as u64 + 8 > u32::MAX as u64 {
            return Err(BtfError::Overflow);
        }
        let name_off = read_u32(&owner.data, cur as usize, owner.little);
        let tid = read_u32(&owner.data, cur as usize + 4, owner.little);
        cur = cur + 8;
        let sub = match split.type_from_id(tid) {
            Ok(sub) => sub,
            Err(e) => {
                return Err(e);
            },
        };
        let (sp, sx) = match sub.string_format(split, fuel) {
            Ok(x) => x,
            Err(e) => {
                return Err(e);
            },
        };
        let n = match split.get_name(name_off) {
            Ok(n) => n,
            Err(e) => {
                return Err(e);
            },
        };
        let ghost old_acc = acc@;
        let ghost item = if n@.len() > 0 || sx@.len() > 0 {
            sp@ + " "@ + n@ + sx@
        } else {
            sp@
        };
        let ghost sep = if p + 1 < vlen {
            ", "@
        } else {
            Seq::<char>::empty()
        };
        if !n.as_str().is_empty() || !sx.as_str().is_empty() {
            acc.append(sp.as_str());
            acc.append(" ");
            acc.append(n.as_str());
            acc.append(sx.as_str());
        } else {
            acc.append(sp.as_str());
        }
        if p + 1 < vlen {
            acc.append(", ");
        }
        assert(acc@ =~= old_acc + item + sep);
        p = p + 1;
    }
    Ok(acc)
}

// ---------------------------------------------------------------------------------------------
// Members, parameters and functions
// ---------------------------------------------------------------------------------------------

/// A named member of a struct or union, or a parameter of a function.
#[derive(Clone, Debug)]
pub struct BtfVariable {
    pub name: String,
    pub type_id: u32,
}

impl View for BtfVariable {
    type V = (Seq<char>, u32);

    open spec fn view(&self) -> (Seq<char>, u32) {
        (self.name@, self.type_id)
    }
}

/// The views of a sequence of variables.
pub open spec fn vars_view(v: Seq<BtfVariable>) -> Seq<(Seq<char>, u32)> {
    v.map_values(|x: BtfVariable| x@)
}

impl BtfVariable {
    /// A copy of this variable.
    pub fn duplicate(&self) -> (r: BtfVariable)
        ensures
            r@ == self@,
    {
        BtfVariable { name: self.name.clone(), type_id: self.type_id }
    }
}

/// Reads `count` member or parameter records of `stride` bytes from `owner`'s data at `off`;
/// each starts with the offset of its name (looked up in `this`) and its type id. They are
/// appended to `acc`.
pub open spec fn spec_read_vars(
    this: BtfSplit,
    owner: BtfSplit,
    off: int,
    count: nat,
    stride: int,
    acc: Seq<(Seq<char>, u32)>,
) -> Result<Seq<(Seq<char>, u32)>, BtfError>
    decreases count,
{
    if count == 0 {
        Ok(acc)
    } else if off < 0 || off + stride > owner.spec_data().len() {
        Err(BtfError::UnexpectedEnd)
    } else if off + stride > u32::MAX {
        Err(BtfError::Overflow)
    } else {
        match spec_get_name(this, ne_u32(owner.spec_data(), off, owner.spec_little())) {
            Err(e) => Err(e),
            Ok(n) => spec_read_vars(
                this,
                owner,
                off + stride,
                (count - 1) as nat,
                stride,
                acc.push((n, ne_u32(owner.spec_data(), off + 4, owner.spec_little()))),
            ),
        }
    }
}

/// The members of the struct or union `t`, looked up in `this`.
pub open spec fn spec_members(t: BtfType, this: BtfSplit) -> Result<Seq<(Seq<char>, u32)>, BtfError> {
    match spec_offset_from_id(this, t.type_id) {
        None => Err(BtfError::NoTypeRecord(t.type_id)),
        Some((owner, off)) => if off as int + 12 > u32::MAX {
            Err(BtfError::Overflow)
        } else {
            spec_read_vars(
                this,
                owner,
                off as int + 12,
                info_vlen(t.btf_raw_type.info) as nat,
                12,
                Seq::empty(),
            )
        },
    }
}

/// The parameters of the function `func`: those of the prototype it points to.
pub open spec fn spec_parameters(func: BtfType, this: BtfSplit) -> Result<Seq<(Seq<char>, u32)>, BtfError> {
    let proto_id = func.btf_raw_type.union_size_type;
    match spec_offset_from_id(this, proto_id) {
        None => Err(BtfError::NoTypeRecord(proto_id)),
        Some((owner, off)) => match spec_read_raw_type(owner.spec_data(), off as int, owner.spec_little()) {
            Err(e) => Err(e),
            Ok(proto) => if off as int + 12 > u32::MAX {
                Err(BtfError::Overflow)
            } else {
                spec_read_vars(
                    this,
                    owner,
                    off as int + 12,
                    info_vlen(proto.info) as nat,
                    8,
                    Seq::empty(),
                )
            },
        },
    }
}

fn read_vars(this: &BtfSplit, owner: &BtfSplit, off: u32, count: u32, stride: u32) -> (r: Result<
    Vec<BtfVariable>,
    BtfError,
>)
    requires
        stride == 8 || stride == 12,
    ensures
        match r {
            Ok(v) => spec_read_vars(*this, *owner, off as int, count as nat, stride as int, Seq::empty())
                == Ok::<Seq<(Seq<char>, u32)>, BtfError>(vars_view(v@)),
            Err(e) => spec_read_vars(*this, *owner, off as int, count as nat, stride as int, Seq::empty())
                == Err::<Seq<(Seq<char>, u32)>, BtfError>(e),
        },
{
    let mut vars: Vec<BtfVariable> = Vec::new();
    let mut cur = off;
    let mut i: u32 = 0;
    assert(vars_view(vars@) =~= Seq::<(Seq<char>, u32)>::empty());
    while i < count
        invariant
            i <= count,
            stride == 8 || stride == 12,
            spec_read_vars(*this, *owner, off as int, count as nat, stride as int, Seq::empty())
                == spec_read_vars(
                *this,
                *owner,
                cur as int,
                (count - i) as nat,
                stride as int,
                vars_view(vars@),
            ),
        decreases count - i,
    {
        if cur as usize > owner.data.len() || owner.data.len() - (cur as usize) < stride as usize {
            return Err(BtfError::UnexpectedEnd);
        }
        if cur as u64 + stride as u64 > u32::MAX as u64 {
            return Err(BtfError::Overflow);
        }
        let name_off = read_u32(&owner.data, cur as usize, owner.little);
        let type_id = read_u32(&owner.data, cur as usize + 4, owner.little);
        let name = match this.get_name(name_off) {
            Ok(n) => n,
            Err(e) => {
                return Err(e);
            },
        };
        let ghost before = vars_view(vars@);
        vars.push(BtfVariable { name, type_id });
        assert(vars_view(vars@) =~= before.push((name@, type_id)));
        cur = cur + stride;
        i = i + 1;
    }
    Ok(vars)
}

impl BtfType {
    /// The members of this struct or union.
    pub fn members(&self, this_split: &BtfSplit) -> (r: Result<Vec<BtfVariable>, BtfError>)
        ensures
            match r {
                Ok(v) => spec_members(*self, *this_split) == Ok::<Seq<(Seq<char>, u32)>, BtfError>(
                    vars_view(v@),
                ),
                Err(e) => spec_members(*self, *this_split) == Err::<Seq<(Seq<char>, u32)>, BtfError>(e),
            },
    {
        let (owner, off) = match this_split.offset_from_id(self.type_id) {
            Some(x) => x,
            None => {
                return Err(BtfError::NoTypeRecord(self.type_id));
            },
        };
        if off as u64 + 12 > u32::MAX as u64 {
            return Err(BtfError::Overflow);
        }
        read_vars(this_split, owner, off + 12, self.btf_raw_type.get_vlen(), 12)
    }

    /// The parameters of this function, read from the prototype it points to.
    pub fn parameters(&self, this_split: &BtfSplit) -> (r: Result<Vec<BtfVariable>, BtfError>)
        ensures
            match r {
                Ok(v) => spec_parameters(*self, *this_split) == Ok::<Seq<(Seq<char>, u32)>, BtfError>(
                    vars_view(v@),
                ),
                Err(e) => spec_parameters(*self, *this_split) == Err::<Seq<(Seq<char>, u32)>, BtfError>(e),
            },
    {
        let func_proto_id = self.btf_raw_type.get_type_id();
        let (owner, off) = match this_split.offset_from_id(func_proto_id) {
            Some(x) => x,
            None => {
                return Err(BtfError::NoTypeRecord(func_proto_id));
            },
        };
        let raw_func_proto = match read_raw_type(&owner.data, off, owner.little) {
            Ok(r) => r,
            Err(e) => {
                return Err(e);
            },
        };
        if off as u64 + 12 > u32::MAX as u64 {
            return Err(BtfError::Overflow);
        }
        read_vars(this_split, owner, off + 12, raw_func_proto.get_vlen(), 8)
    }
}

/// The kind of the record at `off` in `data`, when a record can be read there.
pub open spec fn record_kind(data: Seq<u8>, off: int, little: bool) -> Option<BtfKind> {
    match spec_read_raw_type(data, off, little) {
        Ok(raw) => kind_of(info_kind(raw.info)),
        Err(_) => None,
    }
}

/// What reading a split keeps true of what it has recorded: a record of known kind at each
/// recorded position, and for each function name found, the id of a function record among them.
pub open spec fn walk_consistent(data: Seq<u8>, little: bool, start_id: u32, offsets: Seq<u32>, funcs: Map<Seq<char>, u32>) -> bool {
    &&& forall|k: int| 0 <= k < offsets.len() ==> (#[trigger] record_kind(data, offsets[k] as int, little)) is Some
    &&& forall|n: Seq<char>|
        #[trigger] funcs.contains_key(n) ==> {
            &&& start_id <= funcs[n]
            &&& funcs[n] - start_id < offsets.len()
            &&& record_kind(data, offsets[funcs[n] - start_id] as int, little) == Some(BtfKind::Func)
        }
}

proof fn lemma_walk_consistent(
    data: Seq<u8>,
    little: bool,
    hdr: BtfHeader,
    start_id: u32,
    start_str_off: u32,
    base: Option<BtfSplit>,
    pos: int,
    read: int,
    offsets: Seq<u32>,
    funcs: Map<Seq<char>, u32>,
)
    requires
        walk_consistent(data, little, start_id, offsets, funcs),
    ensures
        spec_walk(data, little, hdr, start_id, start_str_off, base, pos, read, offsets, funcs) matches Ok((o, f))
            ==> walk_consistent(data, little, start_id, o, f),
    decreases (if read < hdr.type_len {
        hdr.type_len - read
    } else {
        0
    }),
{
    if read >= hdr.type_len {
    } else if pos > u32::MAX || start_id as int + offsets.len() + 1 > u32::MAX {
    } else {
        let type_id = (start_id as int + offsets.len()) as u32;
        match spec_read_raw_type(data, pos, little) {
            Err(_) => {},
            Ok(raw) => match spec_to_btf_type(raw, type_id) {
                Err(_) => {},
                Ok(t) => {
                    let size = spec_kind_specific_size(t);
                    let next_read = read + 12 + size;
                    let offsets2 = offsets.push(pos as u32);
                    assert(record_kind(data, pos as u32 as int, little) == Some(t.kind));
                    assert forall|k: int| 0 <= k < offsets2.len() implies (#[trigger] record_kind(
                        data,
                        offsets2[k] as int,
                        little,
                    )) is Some by {
                        if k < offsets.len() {
                            assert(offsets2[k] == offsets[k]);
                        }
                    }
                    let funcs2 = if t.kind == BtfKind::Func {
                        match spec_build_func_name(data, hdr, start_str_off, base, raw.name_off) {
                            Ok(n) => funcs.insert(n, type_id),
                            Err(_) => funcs,
                        }
                    } else {
                        funcs
                    };
                    assert forall|n: Seq<char>| #[trigger] funcs2.contains_key(n) implies {
                        &&& start_id <= funcs2[n]
                        &&& funcs2[n] - start_id < offsets2.len()
                        &&& record_kind(data, offsets2[funcs2[n] - start_id] as int, little) == Some(BtfKind::Func)
                    } by {
                        if funcs.contains_key(n) && funcs2[n] == funcs[n] {
                            assert(offsets2[funcs[n] - start_id] == offsets[funcs[n] - start_id]);
                        } else {
                            assert(funcs2[n] == type_id);
                            assert(offsets2[type_id - start_id] == pos as u32);
                        }
                    }
                    if next_read <= u32::MAX {
                        lemma_walk_consistent(
                            data,
                            little,
                            hdr,
                            start_id,
                            start_str_off,
                            base,
                            pos + 12 + size,
                            next_read,
                            offsets2,
                            funcs2,
                        );
                    }
                },
            },
        }
    }
}

/// A split that was read finds each function it lists by its name: the function record whose
/// id it recorded last under that name.
pub proof fn lemma_listed_functions_are_found(base: Option<BtfSplit>, data: Seq<u8>, s: BtfSplit, name: Seq<char>)
    requires
        spec_build(base, data, s.spec_little()) == Ok::<(BtfHeader, u32, u32, Seq<u32>, Map<Seq<char>, u32>), BtfError>(
            (s.spec_header(), s.spec_start_id(), s.spec_start_str_off(), s.spec_offsets(), s.spec_functions()),
        ),
        s.spec_base() == base,
        s.spec_data() == data,
        base matches Some(b) ==> b.spec_start_id() >= 1,
        s.spec_functions().contains_key(name),
    ensures
        spec_find_function(s, name) matches Some(t) && t.kind == BtfKind::Func && t.type_id
            == s.spec_functions()[name],
{
    lemma_build_consistent(base, data, s);
    let id = s.spec_functions()[name];
    assert(record_kind(data, s.spec_offsets()[id - s.spec_start_id()] as int, s.spec_little()) == Some(BtfKind::Func));
}

/// Whether `offsets` strictly increase.
pub open spec fn strictly_increasing(offsets: Seq<u32>) -> bool {
    forall|i: int, j: int| 0 <= i < j < offsets.len() ==> offsets[i] < offsets[j]
}

proof fn lemma_walk_increasing(
    data: Seq<u8>,
    little: bool,
    hdr: BtfHeader,
    start_id: u32,
    start_str_off: u32,
    base: Option<BtfSplit>,
    pos: int,
    read: int,
    offsets: Seq<u32>,
    funcs: Map<Seq<char>, u32>,
)
    requires
        strictly_increasing(offsets),
        forall|k: int| 0 <= k < offsets.len() ==> offsets[k] < pos,
    ensures
        spec_walk(data, little, hdr, start_id, start_str_off, base, pos, read, offsets, funcs) matches Ok((o, f))
            ==> strictly_increasing(o),
    decreases (if read < hdr.type_len {
        hdr.type_len - read
    } else {
        0
    }),
{
    if read >= hdr.type_len {
    } else if pos > u32::MAX || start_id as int + offsets.len() + 1 > u32::MAX {
    } else {
        let type_id = (start_id as int + offsets.len()) as u32;
        match spec_read_raw_type(data, pos, little) {
            Err(_) => {},
            Ok(raw) => match spec_to_btf_type(raw, type_id) {
                Err(_) => {},
                Ok(t) => {
                    let size = spec_kind_specific_size(t);
                    let next_read = read + 12 + size;
                    let offsets2 = offsets.push(pos as u32);
                    let funcs2 = if t.kind == BtfKind::Func {
                        match spec_build_func_name(data, hdr, start_str_off, base, raw.name_off) {
                            Ok(n) => funcs.insert(n, type_id),
                            Err(_) => funcs,
                        }
                    } else {
                        funcs
                    };
                    assert(strictly_increasing(offsets2)) by {
                        assert forall|i: int, j: int| 0 <= i < j < offsets2.len() implies offsets2[i] < offsets2[j] by {
                            assert(offsets2[i] == offsets[i]);
                            if j < offsets.len() {
                                assert(offsets2[j] == offsets[j]);
                            }
                        }
                    }
                    if next_read <= u32::MAX {
                        lemma_walk_increasing(
                            data,
                            little,
                            hdr,
                            start_id,
                            start_str_off,
                            base,
                            pos + 12 + size,
                            next_read,
                            offsets2,
                            funcs2,
                        );
                    }
                },
            },
        }
    }
}

/// What reading a split gives. Its first type id follows the last of its base (1 without one)
/// and its first name offset the end of the base's strings (0 without one). Its record
/// positions strictly increase and each holds a record of known kind; each function name
/// leads to a function record among them. Data whose magic number is wrong, or whose first
/// record is of an unknown kind, is refused.
pub proof fn lemma_build_shape(base: Option<BtfSplit>, data: Seq<u8>, little: bool)
    requires
        base matches Some(b) ==> b.spec_start_id() >= 1,
    ensures
        spec_build(base, data, little) matches Ok((hdr, start_id, start_str_off, offsets, funcs)) ==> {
            &&& start_id == match base {
                None => 1int,
                Some(b) => b.spec_start_id() + b.spec_offsets().len(),
            }
            &&& start_str_off == match base {
                None => 0u32,
                Some(b) => b.spec_header().str_len,
            }
            &&& strictly_increasing(offsets)
            &&& forall|k: int| 0 <= k < offsets.len() ==> (#[trigger] record_kind(data, offsets[k] as int, little)) is Some
            &&& forall|n: Seq<char>|
                #[trigger] funcs.contains_key(n) ==> {
                    &&& start_id <= funcs[n] < start_id + offsets.len()
                    &&& record_kind(data, offsets[funcs[n] - start_id] as int, little) == Some(BtfKind::Func)
                }
        },
        data.len() >= 24 && ne_u16(data, 0, little) != BTF_MAGIC ==> spec_build(base, data, little) is Err,
        ({
            let hdr = header_fields(data, little);
            let pos = hdr.hdr_len as int + hdr.type_off as int;
            spec_read_raw_type(data, pos, little) matches Ok(raw) ==> ((base is None && data.len() >= 24
                && hdr.magic == BTF_MAGIC && hdr.type_len > 0 && pos <= u32::MAX && kind_of(
                info_kind(raw.info),
            ) is None) ==> spec_build(base, data, little) == Err::<
                (BtfHeader, u32, u32, Seq<u32>, Map<Seq<char>, u32>),
                BtfError,
            >(BtfError::UnknownKind(info_kind(raw.info))))
        }),
{
    if let Ok((hdr, start_id, start_str_off, offsets, funcs)) = spec_build(base, data, little) {
        let pos0 = hdr.hdr_len as int + hdr.type_off as int;
        assert(walk_consistent(data, little, start_id, Seq::<u32>::empty(), Map::<Seq<char>, u32>::empty()));
        lemma_walk_consistent(data, little, hdr, start_id, start_str_off, base, pos0, 0, Seq::empty(), Map::empty());
        lemma_walk_increasing(data, little, hdr, start_id, start_str_off, base, pos0, 0, Seq::empty(), Map::empty());
    }
}

/// The bytes that the record at `off` takes, its head and the data after it, when a record of
/// known kind can be read there.
pub open spec fn record_size(data: Seq<u8>, off: int, little: bool) -> int {
    match spec_read_raw_type(data, off, little) {
        Ok(raw) => match kind_of(info_kind(raw.info)) {
            Some(kind) => 12 + spec_kind_specific_size(BtfType { kind, btf_raw_type: raw, type_id: 0 }),
            None => 0,
        },
        Err(_) => 0,
    }
}

/// Whether each recorded position is the one after the record before it.
pub open spec fn records_adjacent(data: Seq<u8>, little: bool, offsets: Seq<u32>) -> bool {
    forall|k: int| 0 <= k < offsets.len() - 1 ==> #[trigger] offsets[k + 1] == offsets[k] + record_size(
        data,
        offsets[k] as int,
        little,
    )
}

proof fn lemma_walk_adjacent(
    data: Seq<u8>,
    little: bool,
    hdr: BtfHeader,
    start_id: u32,
    start_str_off: u32,
    base: Option<BtfSplit>,
    pos: int,
    read: int,
    offsets: Seq<u32>,
    funcs: Map<Seq<char>, u32>,
)
    requires
        records_adjacent(data, little, offsets),
        offsets.len() > 0 ==> pos == offsets.last() + record_size(data, offsets.last() as int, little),
    ensures
        spec_walk(data, little, hdr, start_id, start_str_off, base, pos, read, offsets, funcs) matches Ok((o, f))
            ==> records_adjacent(data, little, o),
    decreases (if read < hdr.type_len {
        hdr.type_len - read
    } else {
        0
    }),
{
    if read >= hdr.type_len {
    } else if pos > u32::MAX || start_id as int + offsets.len() + 1 > u32::MAX {
    } else {
        let type_id = (start_id as int + offsets.len()) as u32;
        match spec_read_raw_type(data, pos, little) {
            Err(_) => {},
            Ok(raw) => match spec_to_btf_type(raw, type_id) {
                Err(_) => {},
                Ok(t) => {
                    let size = spec_kind_specific_size(t);
                    let next_read = read + 12 + size;
                    let offsets2 = offsets.push(pos as u32);
                    let funcs2 = if t.kind == BtfKind::Func {
                        match spec_build_func_name(data, hdr, start_str_off, base, raw.name_off) {
                            Ok(n) => funcs.insert(n, type_id),
                            Err(_) => funcs,
                        }
                    } else {
                        funcs
                    };
                    assert(spec_kind_specific_size(BtfType { kind: t.kind, btf_raw_type: raw, type_id: 0 }) == size);
                    assert(record_size(data, pos, little) == 12 + size);
                    assert(records_adjacent(data, little, offsets2)) by {
                        assert forall|k: int| 0 <= k < offsets2.len() - 1 implies #[trigger] offsets2[k + 1]
                            == offsets2[k] + record_size(data, offsets2[k] as int, little) by {
                            assert(offsets2[k] == offsets[k]);
                            if k + 1 < offsets.len() {
                                assert(offsets2[k + 1] == offsets[k + 1]);
                            }
                        }
                    }
                    if next_read <= u32::MAX {
                        lemma_walk_adjacent(
                            data,
                            little,
                            hdr,
                            start_id,
                            start_str_off,
                            base,
                            pos + 12 + size,
                            next_read,
                            offsets2,
                            funcs2,
                        );
                    }
                },
            },
        }
    }
}

/// In a split that was read, each record after the first starts right after the one before it:
/// its head and the data that the BTF format gives that record's kind.
pub proof fn lemma_records_adjacent(base: Option<BtfSplit>, data: Seq<u8>, little: bool)
    ensures
        spec_build(base, data, little) matches Ok((hdr, start_id, start_str_off, offsets, funcs)) ==> {
            &&& offsets.len() > 0 ==> offsets[0] == hdr.hdr_len + hdr.type_off
            &&& records_adjacent(data, little, offsets)
        },
{
    if let Ok((hdr, start_id, start_str_off, offsets, funcs)) = spec_build(base, data, little) {
        let pos0 = hdr.hdr_len as int + hdr.type_off as int;
        lemma_walk_adjacent(data, little, hdr, start_id, start_str_off, base, pos0, 0, Seq::empty(), Map::empty());
        lemma_walk_first(data, little, hdr, start_id, start_str_off, base, pos0, 0, Seq::empty(), Map::empty());
    }
}

proof fn lemma_walk_first(
    data: Seq<u8>,
    little: bool,
    hdr: BtfHeader,
    start_id: u32,
    start_str_off: u32,
    base: Option<BtfSplit>,
    pos: int,
    read: int,
    offsets: Seq<u32>,
    funcs: Map<Seq<char>, u32>,
)
    ensures
        spec_walk(data, little, hdr, start_id, start_str_off, base, pos, read, offsets, funcs) matches Ok((o, f))
            ==> (o.len() > 0 ==> o[0] == (if offsets.len() > 0 {
            offsets[0] as int
        } else {
            pos
        })) && o.len() >= offsets.len() && (offsets.len() > 0 ==> o[0] == offsets[0]),
    decreases (if read < hdr.type_len {
        hdr.type_len - read
    } else {
        0
    }),
{
    if read >= hdr.type_len {
    } else if pos > u32::MAX || start_id as int + offsets.len() + 1 > u32::MAX {
    } else {
        let type_id = (start_id as int + offsets.len()) as u32;
        match spec_read_raw_type(data, pos, little) {
            Err(_) => {},
            Ok(raw) => match spec_to_btf_type(raw, type_id) {
                Err(_) => {},
                Ok(t) => {
                    let size = spec_kind_specific_size(t);
                    let next_read = read + 12 + size;
                    let offsets2 = offsets.push(pos as u32);
                    let funcs2 = if t.kind == BtfKind::Func {
                        match spec_build_func_name(data, hdr, start_str_off, base, raw.name_off) {
                            Ok(n) => funcs.insert(n, type_id),
                            Err(_) => funcs,
                        }
                    } else {
                        funcs
                    };
                    if next_read <= u32::MAX {
                        lemma_walk_first(
                            data,
                            little,
                            hdr,
                            start_id,
                            start_str_off,
                            base,
                            pos + 12 + size,
                            next_read,
                            offsets2,
                            funcs2,
                        );
                    }
                },
            },
        }
    }
}

proof fn lemma_build_consistent(base: Option<BtfSplit>, data: Seq<u8>, s: BtfSplit)
    requires
        spec_build(base, data, s.spec_little()) == Ok::<(BtfHeader, u32, u32, Seq<u32>, Map<Seq<char>, u32>), BtfError>(
            (s.spec_header(), s.spec_start_id(), s.spec_start_str_off(), s.spec_offsets(), s.spec_functions()),
        ),
        base matches Some(b) ==> b.spec_start_id() >= 1,
    ensures
        walk_consistent(data, s.spec_little(), s.spec_start_id(), s.spec_offsets(), s.spec_functions()),
        s.spec_start_id() >= 1,
{
    let hdr = s.spec_header();
    assert(spec_read_header(data, s.spec_little()) == Ok::<BtfHeader, BtfError>(hdr));
    assert(walk_consistent(data, s.spec_little(), s.spec_start_id(), Seq::<u32>::empty(), Map::<Seq<char>, u32>::empty()));
    lemma_walk_consistent(
        data,
        s.spec_little(),
        hdr,
        s.spec_start_id(),
        s.spec_start_str_off(),
        base,
        hdr.hdr_len as int + hdr.type_off as int,
        0,
        Seq::empty(),
        Map::empty(),
    );
}

/// Each type id that a split read from `data` counts, from its first id on, gives a record of
/// known kind.
pub proof fn lemma_counted_types_read(base: Option<BtfSplit>, data: Seq<u8>, s: BtfSplit, id: u32)
    requires
        spec_build(base, data, s.spec_little()) == Ok::<(BtfHeader, u32, u32, Seq<u32>, Map<Seq<char>, u32>), BtfError>(
            (s.spec_header(), s.spec_start_id(), s.spec_start_str_off(), s.spec_offsets(), s.spec_functions()),
        ),
        s.spec_base() == base,
        s.spec_data() == data,
        base matches Some(b) ==> b.spec_start_id() >= 1,
        s.spec_start_id() <= id < s.spec_start_id() + s.spec_offsets().len(),
    ensures
        spec_type_from_id(s, id) matches Ok(t) && t.type_id == id,
{
    lemma_build_consistent(base, data, s);
    assert(record_kind(data, s.spec_offsets()[id - s.spec_start_id()] as int, s.spec_little()) is Some);
}

/// The function record for the function called `name`.
pub open spec fn spec_find_function(s: BtfSplit, name: Seq<char>) -> Option<BtfType> {
    if !s.spec_functions().contains_key(name) {
        None
    } else {
        match spec_type_from_id(s, s.spec_functions()[name]) {
            Ok(t) => if t.kind == BtfKind::Func {
                Some(t)
            } else {
                None
            },
            Err(_) => None,
        }
    }
}

impl BtfSplit {
    /// The function record of the function called `func_name`.
    pub fn find_function(&self, func_name: &str) -> (r: Option<BtfType>)
        ensures
            r == spec_find_function(*self, func_name@),
    {
        match self.functions.get(func_name) {
            None => None,
            Some(id) => match self.type_from_id(*id) {
                Ok(t) => if t.kind == BtfKind::Func {
                    Some(t)
                } else {
                    None
                },
                Err(_) => None,
            },
        }
    }
}

/// Upper bound on how many types formatting a type of split `s` may pass through: more than
/// there are (split, type id) pairs, so that only a cycle in the type graph exhausts it.
pub open spec fn spec_format_fuel(s: BtfSplit) -> nat {
    if s.spec_offsets().len() <= u32::MAX {
        (2 * (s.spec_start_id() as int + s.spec_offsets().len()) + 2) as nat
    } else {
        u64::MAX as nat
    }
}

impl BtfSplit {
    fn format_fuel(&self) -> (r: u64)
        ensures
            r == spec_format_fuel(*self),
    {
        proof {
            vstd::std_specs::vec::axiom_spec_len(&self.offsets);
        }
        if self.offsets.len() <= u32::MAX as usize {
            2 * (self.start_id as u64 + self.offsets.len() as u64) + 2
        } else {
            u64::MAX
        }
    }
}

/// A function found in the BTF: its name, its declaration, its parameters and the ids of its
/// record, of its prototype and of its return type.
pub struct BtfFunction {
    pub name: String,
    pub full_name: String,
    pub args: Vec<BtfVariable>,
    pub type_id: u32,
    pub ret_type_id: u32,
    pub proto_id: u32,
}

/// What describes a function, as plain values.
pub struct BtfFunctionView {
    pub name: Seq<char>,
    pub full_name: Seq<char>,
    pub args: Seq<(Seq<char>, u32)>,
    pub type_id: u32,
    pub ret_type_id: u32,
    pub proto_id: u32,
}

impl View for BtfFunction {
    type V = BtfFunctionView;

    open spec fn view(&self) -> BtfFunctionView {
        BtfFunctionView {
            name: self.name@,
            full_name: self.full_name@,
            args: vars_view(self.args@),
            type_id: self.type_id,
            ret_type_id: self.ret_type_id,
            proto_id: self.proto_id,
        }
    }
}

/// The function called `func_name`: its name, its declaration (return type, name and parameter
/// list) and its parameters. `None` where there is no such function or its types cannot be read.
pub open spec fn spec_resolve_func(btf: BtfSplit, func_name: Seq<char>) -> Option<BtfFunctionView> {
    match spec_find_function(btf, func_name) {
        None => None,
        Some(func) => match spec_get_name(btf, func.btf_raw_type.name_off) {
            Err(_) => None,
            Ok(name) => {
                let proto_id = func.btf_raw_type.union_size_type;
                match spec_raw_type_from_id(btf, proto_id) {
                    Err(_) => None,
                    Ok(proto_raw) => match spec_to_btf_type(proto_raw, proto_id) {
                        Err(_) => None,
                        Ok(proto) => match spec_string_format(proto, btf, spec_format_fuel(btf)) {
                            Err(_) => None,
                            Ok((ret_type, args_str)) => match spec_parameters(func, btf) {
                                Err(_) => None,
                                Ok(args) => Some(
                                    BtfFunctionView {
                                        name,
                                        full_name: ret_type + " "@ + name + args_str,
                                        args,
                                        type_id: func.type_id,
                                        ret_type_id: proto_raw.union_size_type,
                                        proto_id,
                                    },
                                ),
                            },
                        },
                    },
                }
            },
        },
    }
}

/// Looks up the function called `func_name`: its name, its declaration and its parameters.
pub fn btf_resolve_func(btf: &Btf, func_name: &str) -> (r: Option<BtfFunction>)
    ensures
        match r {
            Some(f) => spec_resolve_func(*btf, func_name@) == Some(f@),
            None => spec_resolve_func(*btf, func_name@) is None,
        },
{
    let func = match btf.find_function(func_name) {
        Some(f) => f,
        None => {
            return None;
        },
    };
    let name = match btf.get_type_name(&func.btf_raw_type) {
        Ok(n) => n,
        Err(_) => {
            return None;
        },
    };
    let func_proto_id = func.btf_raw_type.get_type_id();
    let func_proto_raw = match btf.raw_type_from_id(func_proto_id) {
        Ok(r) => r,
        Err(_) => {
            return None;
        },
    };
    let ret_type_id = func_proto_raw.get_type_id();
    let func_proto = match inner_to_btf_type(func_proto_raw, func_proto_id) {
        Ok(t) => t,
        Err(_) => {
            return None;
        },
    };
    let (ret_type, args_str) = match func_proto.string_format(btf, btf.format_fuel()) {
        Ok(x) => x,
        Err(_) => {
            return None;
        },
    };
    let mut proto = String::new();
    proto.append(ret_type.as_str());
    proto.append(" ");
    proto.append(name.as_str());
    proto.append(args_str.as_str());
    let args = match func.parameters(btf) {
        Ok(a) => a,
        Err(_) => {
            return None;
        },
    };
    assert(proto@ =~= ret_type@ + " "@ + name@ + args_str@);
    Some(
        BtfFunction {
            name,
            full_name: proto,
            args,
            type_id: func.type_id,
            proto_id: func_proto_id,
            ret_type_id,
        },
    )
}

// ---------------------------------------------------------------------------------------------
// Resolving types to the struct or union they stand for
// ---------------------------------------------------------------------------------------------

/// A struct or union: its id, its name as C writes it (`struct x`, `union y`) and its members.
pub struct BtfComposite {
    pub type_id: u32,
    pub type_str: String,
    pub members: Vec<BtfVariable>,
}

/// A type written as a C declaration, and the struct or union it stands for, if any: the one
/// reached through its qualifiers, pointers, typedefs, type tags and array elements.
pub struct BtfResolvedType {
    pub type_id: u32,
    pub actual_type_id: u32,
    pub type_prefix: String,
    pub type_sufix: String,
    pub actual_type: Option<BtfComposite>,
}

/// What describes a struct or union, as plain values.
pub struct BtfCompositeView {
    pub type_id: u32,
    pub type_str: Seq<char>,
    pub members: Seq<(Seq<char>, u32)>,
}

/// What describes a resolved type, as plain values.
pub struct BtfResolvedTypeView {
    pub type_id: u32,
    pub actual_type_id: u32,
    pub type_prefix: Seq<char>,
    pub type_sufix: Seq<char>,
    pub actual_type: Option<BtfCompositeView>,
}

impl View for BtfComposite {
    type V = BtfCompositeView;

    open spec fn view(&self) -> BtfCompositeView {
        BtfCompositeView {
            type_id: self.type_id,
            type_str: self.type_str@,
            members: vars_view(self.members@),
        }
    }
}

impl View for BtfResolvedType {
    type V = BtfResolvedTypeView;

    open spec fn view(&self) -> BtfResolvedTypeView {
        BtfResolvedTypeView {
            type_id: self.type_id,
            actual_type_id: self.actual_type_id,
            type_prefix: self.type_prefix@,
            type_sufix: self.type_sufix@,
            actual_type: match self.actual_type {
                Some(c) => Some(c@),
                None => None,
            },
        }
    }
}

/// Follows type `id` through qualifiers, pointers, typedefs, type tags and array elements, at
/// most `fuel` steps, to the first type that is none of these: its id, and whether it is a
/// struct or union.
pub open spec fn spec_resolve_chain(btf: BtfSplit, id: u32, fuel: nat) -> Result<(u32, bool), BtfError>
    decreases fuel,
{
    if fuel == 0 {
        Err(BtfError::TooDeep)
    } else {
        let f = (fuel - 1) as nat;
        match spec_type_from_id(btf, id) {
            Err(e) => Err(e),
            Ok(t) => match t.kind {
                BtfKind::Const | BtfKind::Volatile | BtfKind::Restrict | BtfKind::Ptr
                | BtfKind::Typedef | BtfKind::TypeTag => spec_resolve_chain(
                    btf,
                    t.btf_raw_type.union_size_type,
                    f,
                ),
                BtfKind::Array => match spec_offset_from_id(btf, id) {
                    None => Err(BtfError::NoTypeRecord(id)),
                    Some((owner, off)) => if off as int + 12 > u32::MAX {
                        Err(BtfError::Overflow)
                    } else {
                        match spec_read_array(owner.spec_data(), off as int + 12, owner.spec_little()) {
                            Err(e) => Err(e),
                            Ok((elem, _)) => spec_resolve_chain(btf, elem, f),
                        }
                    },
                },
                BtfKind::Struct | BtfKind::Union => Ok((id, true)),
                _ => Ok((id, false)),
            },
        }
    }
}

/// Upper bound on the steps of resolving a type of `btf`: more than there are type ids, so that
/// only a cycle among the types exhausts it.
pub open spec fn spec_resolve_fuel(btf: BtfSplit) -> nat {
    if btf.spec_offsets().len() <= u32::MAX {
        (btf.spec_start_id() as int + btf.spec_offsets().len() + 1) as nat
    } else {
        u64::MAX as nat
    }
}

/// The struct or union with id `id`, with its name and members.
pub open spec fn spec_composite(btf: BtfSplit, id: u32) -> Option<BtfCompositeView> {
    match spec_type_from_id(btf, id) {
        Err(_) => None,
        Ok(ct) => match spec_string_format(ct, btf, spec_format_fuel(btf)) {
            Err(_) => None,
            Ok((prefix, sufix)) => if sufix.len() != 0 {
                None
            } else {
                match spec_members(ct, btf) {
                    Err(_) => None,
                    Ok(members) => Some(BtfCompositeView { type_id: id, type_str: prefix, members }),
                }
            },
        },
    }
}

/// Type `type_id` written as a C declaration, with the struct or union it stands for.
/// `None` where its types cannot be read.
#[verifier::opaque]
pub open spec fn spec_resolve_type(btf: BtfSplit, type_id: u32) -> Option<BtfResolvedTypeView> {
    match spec_type_from_id(btf, type_id) {
        Err(_) => None,
        Ok(t) => match spec_resolve_chain(btf, type_id, spec_resolve_fuel(btf)) {
            Err(_) => None,
            Ok((id, is_composite)) => {
                let actual: Option<Option<BtfCompositeView>> = if is_composite {
                    match spec_composite(btf, id) {
                        None => None,
                        Some(c) => Some(Some(c)),
                    }
                } else {
                    Some(None)
                };
                match actual {
                    None => None,
                    Some(actual_type) => match spec_string_format(t, btf, spec_format_fuel(btf)) {
                        Err(_) => None,
                        Ok((type_prefix, type_sufix)) => Some(
                            BtfResolvedTypeView {
                                type_id,
                                actual_type_id: id,
                                type_prefix,
                                type_sufix,
                                actual_type,
                            },
                        ),
                    },
                }
            },
        },
    }
}

impl BtfSplit {
    fn resolve_fuel(&self) -> (r: u64)
        ensures
            r == spec_resolve_fuel(*self),
    {
        if self.offsets.len() <= u32::MAX as usize {
            self.start_id as u64 + self.offsets.len() as u64 + 1
        } else {
            u64::MAX
        }
    }

    fn resolve_chain(&self, type_id: u32) -> (r: Result<(u32, bool), BtfError>)
        ensures
            r == spec_resolve_chain(*self, type_id, spec_resolve_fuel(*self)),
    {
        let mut fuel = self.resolve_fuel();
        let mut id = type_id;
        while fuel > 0
            invariant
                spec_resolve_chain(*self, type_id, spec_resolve_fuel(*self)) == spec_resolve_chain(
                    *self,
                    id,
                    fuel as nat,
                ),
            decreases fuel,
        {
            let t = match self.type_from_id(id) {
                Ok(t) => t,
                Err(e) => {
                    return Err(e);
                },
            };
            match t.kind {
                BtfKind::Const | BtfKind::Volatile | BtfKind::Restrict | BtfKind::Ptr
                | BtfKind::Typedef | BtfKind::TypeTag => {
                    id = t.btf_raw_type.get_type_id();
                },
                BtfKind::Array => {
                    let (owner, off) = match self.offset_from_id(id) {
                        Some(x) => x,
                        None => {
                            return Err(BtfError::NoTypeRecord(id));
                        },
                    };
                    if off as u64 + 12 > u32::MAX as u64 {
                        return Err(BtfError::Overflow);
                    }
                    let (elem, _) = match read_array(&owner.data, off + 12, owner.little) {
                        Ok(x) => x,
                        Err(e) => {
                            return Err(e);
                        },
                    };
                    id = elem;
                },
                BtfKind::Struct | BtfKind::Union => {
                    return Ok((id, true));
                },
                _ => {
                    return Ok((id, false));
                },
            }
            fuel = fuel - 1;
        }
        Err(BtfError::TooDeep)
    }

    fn composite(&self, id: u32) -> (r: Option<BtfComposite>)
        ensures
            match r {
                Some(c) => spec_composite(*self, id) == Some(c@),
                None => spec_composite(*self, id) is None,
            },
    {
        let comp_type = match self.type_from_id(id) {
            Ok(t) => t,
            Err(_) => {
                return None;
            },
        };
        let (prefix, sufix) = match comp_type.string_format(self, self.format_fuel()) {
            Ok(x) => x,
            Err(_) => {
                return None;
            },
        };
        if !sufix.as_str().is_empty() {
            return None;
        }
        let members = match comp_type.members(self) {
            Ok(m) => m,
            Err(_) => {
                return None;
            },
        };
        Some(BtfComposite { type_id: id, type_str: prefix, members })
    }
}

/// One step of resolving a type: the type it leads to, or the end of the chain (whether it is
/// a struct or union), or a type that cannot be read.
pub enum ResolveStep {
    Next(u32),
    Done(bool),
    Stop,
}

/// One step of resolving type `id`: qualifiers, pointers, typedefs and type tags lead to the
/// type they name, arrays to their element type; a struct or union, or any other kind, ends the
/// chain.
pub open spec fn spec_resolve_step(btf: BtfSplit, id: u32) -> ResolveStep {
    match spec_type_from_id(btf, id) {
        Err(_) => ResolveStep::Stop,
        Ok(t) => match t.kind {
            BtfKind::Const | BtfKind::Volatile | BtfKind::Restrict | BtfKind::Ptr | BtfKind::Typedef
            | BtfKind::TypeTag => ResolveStep::Next(t.btf_raw_type.union_size_type),
            BtfKind::Array => match spec_offset_from_id(btf, id) {
                None => ResolveStep::Stop,
                Some((owner, off)) => if off as int + 12 > u32::MAX {
                    ResolveStep::Stop
                } else {
                    match spec_read_array(owner.spec_data(), off as int + 12, owner.spec_little()) {
                        Err(_) => ResolveStep::Stop,
                        Ok((elem, _)) => ResolveStep::Next(elem),
                    }
                },
            },
            BtfKind::Struct | BtfKind::Union => ResolveStep::Done(true),
            _ => ResolveStep::Done(false),
        },
    }
}

/// Whether `ids` is a chain of resolution steps from its first id to its last, which ends it.
pub open spec fn is_resolve_chain(btf: BtfSplit, ids: Seq<u32>, is_composite: bool) -> bool {
    &&& ids.len() > 0
    &&& forall|k: int| 0 <= k < ids.len() - 1 ==> spec_resolve_step(btf, #[trigger] ids[k]) == ResolveStep::Next(
        ids[k + 1],
    )
    &&& spec_resolve_step(btf, ids.last()) == ResolveStep::Done(is_composite)
}

proof fn lemma_resolve_chain_follows(btf: BtfSplit, ids: Seq<u32>, is_composite: bool, i: int, fuel: nat)
    requires
        is_resolve_chain(btf, ids, is_composite),
        0 <= i < ids.len(),
        fuel >= ids.len() - i,
    ensures
        spec_resolve_chain(btf, ids[i], fuel) == Ok::<(u32, bool), BtfError>((ids.last(), is_composite)),
    decreases ids.len() - i,
{
    if i < ids.len() - 1 {
        assert(spec_resolve_step(btf, ids[i]) == ResolveStep::Next(ids[i + 1]));
        lemma_resolve_chain_follows(btf, ids, is_composite, i + 1, (fuel - 1) as nat);
    } else {
        assert(ids[i] == ids.last());
    }
}

/// Resolving a type follows its chain of qualifiers, pointers, typedefs, type tags and arrays to
/// the end, whenever that chain visits no type twice and stays among the split's type ids: the
/// chain never runs out of steps. With the end's struct or union and the type's declaration
/// readable, resolution succeeds, naming that end as the actual type.
pub proof fn lemma_resolve_acyclic_chain(btf: BtfSplit, ids: Seq<u32>, is_composite: bool)
    requires
        is_resolve_chain(btf, ids, is_composite),
        ids.no_duplicates(),
        btf.spec_offsets().len() <= u32::MAX,
        forall|k: int| 0 <= k < ids.len() ==> (#[trigger] ids[k]) < btf.spec_start_id() + btf.spec_offsets().len(),
    ensures
        spec_resolve_chain(btf, ids[0], spec_resolve_fuel(btf)) == Ok::<(u32, bool), BtfError>(
            (ids.last(), is_composite),
        ),
        ({
            let t = spec_type_from_id(btf, ids[0])->Ok_0;
            (spec_type_from_id(btf, ids[0]) is Ok && (is_composite ==> spec_composite(btf, ids.last()) is Some)
                && spec_string_format(t, btf, spec_format_fuel(btf)) is Ok) ==> (spec_resolve_type(btf, ids[0]) matches Some(r)
                && r.type_id == ids[0] && r.actual_type_id == ids.last() && (r.actual_type is Some
                <==> is_composite))
        }),
{
    let n = btf.spec_start_id() as int + btf.spec_offsets().len();
    let ints = ids.map_values(|x: u32| x as int);
    assert(ints.no_duplicates()) by {
        assert forall|i: int, j: int| 0 <= i < ints.len() && 0 <= j < ints.len() && i != j implies ints[i]
            != ints[j] by {
            assert(ids[i] != ids[j]);
        }
    }
    ints.unique_seq_to_set();
    vstd::set_lib::lemma_int_range(0, n);
    assert(ints.to_set().subset_of(vstd::set_lib::set_int_range(0, n))) by {
        assert forall|x: int| ints.to_set().contains(x) implies vstd::set_lib::set_int_range(0, n).contains(x) by {
            let k = choose|k: int| 0 <= k < ints.len() && ints[k] == x;
            assert(ids[k] < n);
        }
    }
    vstd::set_lib::lemma_len_subset(ints.to_set(), vstd::set_lib::set_int_range(0, n));
    assert(ids.len() <= n);
    lemma_resolve_chain_follows(btf, ids, is_composite, 0, spec_resolve_fuel(btf));
    reveal(spec_resolve_type);
}

/// Writes type `type_id` as a C declaration and finds the struct or union it stands for.
pub fn btf_resolve_type(btf: &Btf, type_id: u32) -> (r: Option<BtfResolvedType>)
    ensures
        match r {
            Some(t) => spec_resolve_type(*btf, type_id) == Some(t@),
            None => spec_resolve_type(*btf, type_id) is None,
        },
{
    reveal(spec_resolve_type);
    let btf_type = match btf.type_from_id(type_id) {
        Ok(t) => t,
        Err(_) => {
            return None;
        },
    };
    let (id, is_composite) = match btf.resolve_chain(type_id) {
        Ok(x) => x,
        Err(_) => {
            return None;
        },
    };
    let actual_type = if is_composite {
        match btf.composite(id) {
            Some(c) => Some(c),
            None => {
                return None;
            },
        }
    } else {
        None
    };
    let (type_prefix, type_sufix) = match btf_type.string_format(btf, btf.format_fuel()) {
        Ok(x) => x,
        Err(_) => {
            return None;
        },
    };
    Some(BtfResolvedType { type_id, actual_type_id: id, type_prefix, type_sufix, actual_type })
}

/// How a variable is written: its type alone, and its type with its name.
pub struct BtfName {
    pub type_str: String,
    pub full_name: String,
}

/// The declaration of a variable with type prefix `p`, name `name` and type suffix `x`: a space
/// goes between the prefix and the name unless the prefix ends with `*`.
pub open spec fn spec_declaration(p: Seq<char>, name: Seq<char>, x: Seq<char>) -> Seq<char> {
    if p.len() > 0 && p.last() == '*' {
        p + name + x
    } else {
        p + " "@ + name + x
    }
}

/// How the variable `var` is written: its type (prefix and suffix together) and its declaration.
/// `None` where its type cannot be read.
pub fn btf_variable_name(btf: &Btf, var: &BtfVariable) -> (r: Option<BtfName>)
    ensures
        match spec_type_from_id(*btf, var.type_id) {
            Err(_) => r is None,
            Ok(t) => match spec_string_format(t, *btf, spec_format_fuel(*btf)) {
                Err(_) => r is None,
                Ok((p, x)) => r matches Some(n) && n.type_str@ == p + x && n.full_name@
                    == spec_declaration(p, var.name@, x),
            },
        },
{
    let btf_type = match btf.type_from_id(var.type_id) {
        Ok(t) => t,
        Err(_) => {
            return None;
        },
    };
    let (type_prefix, type_sufix) = match btf_type.string_format(btf, btf.format_fuel()) {
        Ok(x) => x,
        Err(_) => {
            return None;
        },
    };
    let mut plain = type_prefix.clone();
    plain.append(type_sufix.as_str());
    let chars = crate::text::str_chars(type_prefix.as_str());
    let ends_with_star = chars.len() > 0 && chars[chars.len() - 1] == '*';
    let mut full_name = type_prefix;
    if !ends_with_star {
        full_name.append(" ");
    }
    full_name.append(var.name.as_str());
    full_name.append(type_sufix.as_str());
    proof {
        if ends_with_star {
            assert(full_name@ =~= spec_declaration(chars@, var.name@, type_sufix@));
        } else {
            assert(full_name@ =~= spec_declaration(chars@, var.name@, type_sufix@));
        }
    }
    Some(BtfName { type_str: plain, full_name })
}

/// Whether type `type_id` is a pointer.
pub open spec fn spec_is_pointer_type(btf: BtfSplit, type_id: u32) -> bool {
    match spec_type_from_id(btf, type_id) {
        Ok(t) => t.kind == BtfKind::Ptr,
        Err(_) => false,
    }
}

fn is_pointer_type(btf: &Btf, type_id: u32) -> (r: bool)
    ensures
        r == spec_is_pointer_type(*btf, type_id),
{
    match btf.type_from_id(type_id) {
        Ok(t) => t.kind == BtfKind::Ptr,
        Err(_) => false,
    }
}

// ---------------------------------------------------------------------------------------------
// Name chains such as `args.path->dentry->d_inode`
// ---------------------------------------------------------------------------------------------

/// The tokenizer over `s` from index `i`: `res` the tokens so far, `start` where the current name
/// starts, `end` the index of the last character that is none of `.`, `-`, `>`.
pub open spec fn spec_tokens_loop(s: Seq<char>, i: int, res: Seq<Seq<char>>, start: int, end: int) -> (
    Seq<Seq<char>>,
    int,
    int,
)
    decreases s.len() - i,
{
    if i < 0 || i >= s.len() {
        (res, start, end)
    } else if s[i] == '.' {
        spec_tokens_loop(s, i + 1, res.push(s.subrange(start, i)).push("."@), i + 1, end)
    } else if s[i] == '-' {
        spec_tokens_loop(s, i + 1, res.push(s.subrange(start, i)), i + 1, end)
    } else if s[i] == '>' {
        spec_tokens_loop(s, i + 1, res.push("->"@), i + 1, end)
    } else {
        spec_tokens_loop(s, i + 1, res, start, i)
    }
}

/// The tokens of a name chain: the names, `"."` for each `.` and `"->"` for each `>`, a `-`
/// ending the name before it. The text after the last separator is the last token when the last
/// character that is not a separator lies in it and is not the first character of the chain.
pub open spec fn spec_chain_tokens(s: Seq<char>) -> Seq<Seq<char>> {
    let (res, start, end) = spec_tokens_loop(s, 0, Seq::empty(), 0, 0);
    if end != 0 && start <= end {
        res.push(s.subrange(start, end + 1))
    } else {
        res
    }
}

/// Whether a chain can be cut into tokens: the last token, when there is one, ends with a
/// one-byte (ASCII) character, since it is cut at the byte position of that character.
pub open spec fn chain_tokens_defined(s: Seq<char>) -> bool {
    let (res, start, end) = spec_tokens_loop(s, 0, Seq::empty(), 0, 0);
    end != 0 && start <= end ==> s[end] <= '\u{7f}'
}

/// The views of a sequence of strings.
pub open spec fn strings_view(v: Seq<String>) -> Seq<Seq<char>> {
    v.map_values(|t: String| t@)
}

proof fn lemma_tokens_loop_bounds(s: Seq<char>, i: int, res: Seq<Seq<char>>, start: int, end: int)
    requires
        0 <= i <= s.len(),
        0 <= start <= i,
        0 <= end < s.len() || end == 0,
        end < i || end == 0,
    ensures
        ({
            let (r2, st2, e2) = spec_tokens_loop(s, i, res, start, end);
            &&& 0 <= st2 <= s.len()
            &&& 0 <= e2 < s.len() || e2 == 0
        }),
    decreases s.len() - i,
{
    if i < s.len() {
        if s[i] == '.' || s[i] == '-' || s[i] == '>' {
            lemma_tokens_loop_bounds(
                s,
                i + 1,
                if s[i] == '.' {
                    res.push(s.subrange(start, i)).push("."@)
                } else if s[i] == '-' {
                    res.push(s.subrange(start, i))
                } else {
                    res.push("->"@)
                },
                i + 1,
                end,
            );
        } else {
            lemma_tokens_loop_bounds(s, i + 1, res, start, i);
        }
    }
}

/// Cuts a name chain into names and the separators `.` and `->`.
pub fn chain_str_to_tokens(names_chain: &str) -> (r: Vec<String>)
    requires
        chain_tokens_defined(names_chain@),
    ensures
        strings_view(r@) == spec_chain_tokens(names_chain@),
{
    let chars = crate::text::str_chars(names_chain);
    let mut res: Vec<String> = Vec::new();
    let mut start_idx: usize = 0;
    let mut end_idx: usize = 0;
    let mut i: usize = 0;
    let ghost s = names_chain@;
    assert(strings_view(res@) =~= Seq::<Seq<char>>::empty());
    while i < chars.len()
        invariant
            chars@ == s,
            s == names_chain@,
            start_idx <= i <= chars@.len(),
            end_idx < i || end_idx == 0,
            spec_tokens_loop(s, 0, Seq::empty(), 0, 0) == spec_tokens_loop(
                s,
                i as int,
                strings_view(res@),
                start_idx as int,
                end_idx as int,
            ),
        decreases chars.len() - i,
    {
        let c = chars[i];
        let ghost before = strings_view(res@);
        if c == '.' {
            res.push(crate::text::string_from_chars(&chars, start_idx, i));
            res.push(String::from_str("."));
            assert(strings_view(res@) =~= before.push(s.subrange(start_idx as int, i as int)).push(
                "."@,
            ));
            start_idx = i + 1;
        } else if c == '-' {
            res.push(crate::text::string_from_chars(&chars, start_idx, i));
            assert(strings_view(res@) =~= before.push(s.subrange(start_idx as int, i as int)));
            start_idx = i + 1;
        } else if c == '>' {
            res.push(String::from_str("->"));
            assert(strings_view(res@) =~= before.push("->"@));
            start_idx = i + 1;
        } else {
            end_idx = i;
        }
        i = i + 1;
    }
    if end_idx != 0 && start_idx <= end_idx {
        let ghost before = strings_view(res@);
        res.push(crate::text::string_from_chars(&chars, start_idx, end_idx + 1));
        assert(strings_view(res@) =~= before.push(s.subrange(start_idx as int, end_idx + 1)));
    }
    res
}

/// Whether `c` cuts names in a chain.
pub open spec fn is_chain_separator(c: char) -> bool {
    c == '.' || c == '-' || c == '>'
}

/// Whether `n` can stand as a name in a chain: not empty, and free of separators.
pub open spec fn is_chain_name(n: Seq<char>) -> bool {
    n.len() > 0 && is_chain_text(n)
}

/// Whether `n` is free of separators.
pub open spec fn is_chain_text(n: Seq<char>) -> bool {
    forall|k: int| 0 <= k < n.len() ==> !is_chain_separator(#[trigger] n[k])
}

/// The separator written between two names: `.`, or `->` where `arrow` holds.
pub open spec fn chain_separator(arrow: bool) -> Seq<char> {
    if arrow {
        "->"@
    } else {
        "."@
    }
}

/// The chain that names `names[j..]` with the separators `arrows[j..]` between them.
pub open spec fn spec_chain_from(names: Seq<Seq<char>>, arrows: Seq<bool>, j: int) -> Seq<char>
    decreases names.len() - j,
{
    if j < 0 || j >= names.len() - 1 {
        names.last()
    } else {
        names[j] + chain_separator(arrows[j]) + spec_chain_from(names, arrows, j + 1)
    }
}

/// The names `names[j..]` but the last, each followed by its separator.
pub open spec fn spec_names_with_separators(names: Seq<Seq<char>>, arrows: Seq<bool>, j: int) -> Seq<Seq<char>>
    decreases names.len() - j,
{
    if j < 0 || j >= names.len() - 1 {
        Seq::empty()
    } else {
        seq![names[j], chain_separator(arrows[j])] + spec_names_with_separators(names, arrows, j + 1)
    }
}

/// Whether `names` and `arrows` describe a chain: at least one name, each a proper name, and one
/// separator between each two.
pub open spec fn is_chain(names: Seq<Seq<char>>, arrows: Seq<bool>) -> bool {
    &&& names.len() > 0
    &&& arrows.len() == names.len() - 1
    &&& forall|j: int| 0 <= j < names.len() - 1 ==> is_chain_name(#[trigger] names[j])
    &&& is_chain_text(names.last())
    &&& names.len() == 1 ==> names.last().len() > 0
}

proof fn lemma_tokens_loop_over_name(s: Seq<char>, p: int, q: int, res: Seq<Seq<char>>, start: int, e: int)
    requires
        0 <= p < q <= s.len(),
        forall|k: int| p <= k < q ==> !is_chain_separator(#[trigger] s[k]),
    ensures
        spec_tokens_loop(s, p, res, start, e) == spec_tokens_loop(s, q, res, start, q - 1),
    decreases q - p,
{
    assert(!is_chain_separator(s[p]));
    if p + 1 < q {
        lemma_tokens_loop_over_name(s, p + 1, q, res, start, p);
    }
}

proof fn lemma_chain_from_len(names: Seq<Seq<char>>, arrows: Seq<bool>, j: int)
    requires
        is_chain(names, arrows),
        0 <= j < names.len(),
    ensures
        spec_chain_from(names, arrows, j).len() >= names[j].len(),
        spec_chain_from(names, arrows, j).subrange(0, names[j].len() as int) == names[j],
    decreases names.len() - j,
{
    if j < names.len() - 1 {
        let rest = spec_chain_from(names, arrows, j + 1);
        assert((names[j] + chain_separator(arrows[j]) + rest).subrange(0, names[j].len() as int) =~= names[j]);
    } else {
        assert(names.last() == names[j]);
        assert(names[j].subrange(0, names[j].len() as int) =~= names[j]);
    }
}

proof fn lemma_tokens_loop_over_chain(
    names: Seq<Seq<char>>,
    arrows: Seq<bool>,
    j: int,
    s: Seq<char>,
    i: int,
    res: Seq<Seq<char>>,
    end: int,
)
    requires
        is_chain(names, arrows),
        0 <= j < names.len(),
        0 <= i <= s.len(),
        s.subrange(i, s.len() as int) == spec_chain_from(names, arrows, j),
        end < i || names[j].len() > 0,
    ensures
        ({
            let (r, st, e) = spec_tokens_loop(s, i, res, i, end);
            &&& r == res + spec_names_with_separators(names, arrows, j)
            &&& st == s.len() - names.last().len()
            &&& names.last().len() > 0 ==> e == s.len() - 1
            &&& names.last().len() == 0 ==> e < st
        }),
    decreases names.len() - j,
{
    reveal_strlit("->");
    reveal_strlit(".");
    let n = names[j];
    let k = n.len() as int;
    if j < names.len() - 1 {
        assert(is_chain_name(names[j]));
    } else {
        assert(names[j] == names.last());
    }
    assert(is_chain_text(n));
    lemma_chain_from_len(names, arrows, j);
    let q = i + k;
    assert forall|t: int| i <= t < q implies !is_chain_separator(#[trigger] s[t]) by {
        assert(s[t] == s.subrange(i, s.len() as int)[t - i]);
        assert(s.subrange(i, s.len() as int).subrange(0, k)[t - i] == n[t - i]);
    }
    if k > 0 {
        lemma_tokens_loop_over_name(s, i, q, res, i, end);
    }
    assert(s.subrange(i, q) =~= n) by {
        assert forall|t: int| 0 <= t < k implies s.subrange(i, q)[t] == n[t] by {
            assert(s.subrange(i, s.len() as int).subrange(0, k)[t] == n[t]);
        }
    }
    if j >= names.len() - 1 {
        assert(spec_chain_from(names, arrows, j) == names.last());
        assert(n == names.last());
        assert(q == s.len());
        if k > 0 {
            assert(spec_tokens_loop(s, q, res, i, q - 1) == (res, i, q - 1));
        } else {
            assert(spec_tokens_loop(s, q, res, i, end) == (res, i, end));
        }
        assert(spec_names_with_separators(names, arrows, j) =~= Seq::<Seq<char>>::empty());
        assert(res + Seq::<Seq<char>>::empty() =~= res);
    } else {
        let sep = chain_separator(arrows[j]);
        let rest = spec_chain_from(names, arrows, j + 1);
        assert(spec_chain_from(names, arrows, j) == n + sep + rest);
        let tail = s.subrange(i, s.len() as int);
        assert(tail =~= n + sep + rest);
        assert(s[q] == tail[k]);
        assert(spec_names_with_separators(names, arrows, j) == seq![n, sep] + spec_names_with_separators(
            names,
            arrows,
            j + 1,
        ));
        if arrows[j] {
            assert(sep =~= seq!['-', '>']);
            assert(tail[k] == '-');
            assert(tail[k + 1] == '>');
            assert(s[q + 1] == tail[k + 1]);
            assert(s.subrange(q + 2, s.len() as int) =~= rest) by {
                assert forall|t: int| 0 <= t < rest.len() implies s.subrange(q + 2, s.len() as int)[t]
                    == rest[t] by {
                    assert(s[q + 2 + t] == tail[k + 2 + t]);
                }
            }
            let res2 = res.push(n).push("->"@);
            assert(spec_tokens_loop(s, q, res, i, q - 1) == spec_tokens_loop(s, q + 1, res.push(n), q + 1, q - 1));
            assert(spec_tokens_loop(s, q + 1, res.push(n), q + 1, q - 1) == spec_tokens_loop(s, q + 2, res2, q + 2, q - 1));
            lemma_tokens_loop_over_chain(names, arrows, j + 1, s, q + 2, res2, q - 1);
            assert(res2 + spec_names_with_separators(names, arrows, j + 1) =~= res + (seq![n, sep]
                + spec_names_with_separators(names, arrows, j + 1)));
        } else {
            assert(sep =~= seq!['.']);
            assert(tail[k] == '.');
            assert(s.subrange(q + 1, s.len() as int) =~= rest) by {
                assert forall|t: int| 0 <= t < rest.len() implies s.subrange(q + 1, s.len() as int)[t]
                    == rest[t] by {
                    assert(s[q + 1 + t] == tail[k + 1 + t]);
                }
            }
            let res2 = res.push(n).push("."@);
            assert(spec_tokens_loop(s, q, res, i, q - 1) == spec_tokens_loop(s, q + 1, res2, q + 1, q - 1));
            lemma_tokens_loop_over_chain(names, arrows, j + 1, s, q + 1, res2, q - 1);
            assert(res2 + spec_names_with_separators(names, arrows, j + 1) =~= res + (seq![n, sep]
                + spec_names_with_separators(names, arrows, j + 1)));
        }
    }
}

/// A chain of names joined by `.` and `->` is cut into its names with the separators between
/// them, `->` as one token, unless the whole chain is a single character. After a final
/// separator there is no name, and no token.
pub proof fn lemma_chain_tokens_of_chain(names: Seq<Seq<char>>, arrows: Seq<bool>)
    requires
        is_chain(names, arrows),
        spec_chain_from(names, arrows, 0).len() > 1,
    ensures
        spec_chain_tokens(spec_chain_from(names, arrows, 0)) == spec_names_with_separators(names, arrows, 0) + (
        if names.last().len() > 0 {
            seq![names.last()]
        } else {
            Seq::<Seq<char>>::empty()
        }),
{
    let s = spec_chain_from(names, arrows, 0);
    assert(s.subrange(0, s.len() as int) =~= s);
    if names.len() > 1 {
        assert(is_chain_name(names[0]));
    } else {
        assert(names[0] == names.last());
    }
    lemma_tokens_loop_over_chain(names, arrows, 0, s, 0, Seq::empty(), 0);
    assert(Seq::<Seq<char>>::empty() + spec_names_with_separators(names, arrows, 0) =~= spec_names_with_separators(
        names,
        arrows,
        0,
    ));
    let start = s.len() - names.last().len();
    lemma_chain_from_last(names, arrows, 0);
    if names.last().len() > 0 {
        assert(s.subrange(start, s.len() as int) == names.last());
        assert(spec_names_with_separators(names, arrows, 0).push(names.last()) =~= spec_names_with_separators(
            names,
            arrows,
            0,
        ) + seq![names.last()]);
    } else {
        assert(spec_names_with_separators(names, arrows, 0) + Seq::<Seq<char>>::empty() =~= spec_names_with_separators(
            names,
            arrows,
            0,
        ));
    }
}

proof fn lemma_chain_from_last(names: Seq<Seq<char>>, arrows: Seq<bool>, j: int)
    requires
        is_chain(names, arrows),
        0 <= j < names.len(),
    ensures
        ({
            let c = spec_chain_from(names, arrows, j);
            &&& c.len() >= names.last().len()
            &&& c.subrange(c.len() - names.last().len(), c.len() as int) == names.last()
        }),
    decreases names.len() - j,
{
    let c = spec_chain_from(names, arrows, j);
    let l = names.last();
    if j < names.len() - 1 {
        lemma_chain_from_last(names, arrows, j + 1);
        let rest = spec_chain_from(names, arrows, j + 1);
        let pre = names[j] + chain_separator(arrows[j]);
        assert(c == pre + rest);
        assert(c.subrange(c.len() - l.len(), c.len() as int) =~= rest.subrange(rest.len() - l.len(), rest.len() as int));
    } else {
        assert(c.subrange(c.len() - l.len(), c.len() as int) =~= l);
    }
}

/// The first of `ms` called `name`.
pub open spec fn spec_find_member(ms: Seq<(Seq<char>, u32)>, name: Seq<char>) -> Option<(Seq<char>, u32)>
    decreases ms.len(),
{
    if ms.len() == 0 {
        None
    } else if ms[0].0 == name {
        Some(ms[0])
    } else {
        spec_find_member(ms.drop_first(), name)
    }
}

proof fn lemma_find_member_name(ms: Seq<(Seq<char>, u32)>, name: Seq<char>)
    ensures
        spec_find_member(ms, name) matches Some(m) ==> m.0 == name,
    decreases ms.len(),
{
    if ms.len() > 0 && ms[0].0 != name {
        lemma_find_member_name(ms.drop_first(), name);
    }
}

fn find_member(ms: &Vec<BtfVariable>, name: &String) -> (r: Option<BtfVariable>)
    ensures
        match r {
            Some(v) => spec_find_member(vars_view(ms@), name@) == Some(v@) && v.name@ == name@,
            None => spec_find_member(vars_view(ms@), name@) is None,
        },
{
    let mut i: usize = 0;
    let ghost all = vars_view(ms@);
    assert(all.skip(0) =~= all);
    proof {
        lemma_find_member_name(all, name@);
    }
    while i < ms.len()
        invariant
            i <= ms@.len(),
            all == vars_view(ms@),
            spec_find_member(all, name@) == spec_find_member(all.skip(i as int), name@),
        decreases ms.len() - i,
    {
        assert(all.skip(i as int)[0] == ms@[i as int]@);
        assert(all.skip(i as int).drop_first() =~= all.skip(i + 1));
        if ms[i].name == *name {
            return Some(ms[i].duplicate());
        }
        i = i + 1;
    }
    None
}

/// Follows `chain` from token `i` on, starting from the variable `cur`: each separator must suit
/// the variable reached so far (`->` a pointer, `.` anything else) and each name must be a member
/// of the struct or union that variable resolves to. A separator at the end stops the walk.
pub open spec fn spec_iterate_chain(
    btf: BtfSplit,
    cur: (Seq<char>, u32),
    chain: Seq<Seq<char>>,
    i: int,
) -> Option<(Seq<char>, u32)>
    decreases chain.len() - i,
{
    if i < 0 || i >= chain.len() {
        Some(cur)
    } else {
        let op = chain[i];
        let is_pointer = spec_is_pointer_type(btf, cur.1);
        if !((op == "->"@ && is_pointer) || (op == "."@ && !is_pointer)) {
            None
        } else if i + 1 >= chain.len() {
            Some(cur)
        } else {
            match spec_resolve_type(btf, cur.1) {
                None => None,
                Some(t) => match t.actual_type {
                    None => None,
                    Some(comp) => match spec_find_member(comp.members, chain[i + 1]) {
                        None => None,
                        Some(m) => spec_iterate_chain(btf, m, chain, i + 2),
                    },
                },
            }
        }
    }
}

/// Follows the chain of names `name_chain`, whose first token names `first_var`, to the variable
/// it ends at.
fn inner_iterate_over_names_chain(btf: &Btf, first_var: &BtfVariable, name_chain: &Vec<String>) -> (r:
    Option<BtfVariable>)
    requires
        name_chain@.len() > 0 ==> name_chain@[0]@ == first_var.name@,
    ensures
        match r {
            Some(v) => name_chain@.len() > 0 && spec_iterate_chain(
                *btf,
                first_var@,
                strings_view(name_chain@),
                1,
            ) == Some(v@),
            None => name_chain@.len() == 0 || spec_iterate_chain(
                *btf,
                first_var@,
                strings_view(name_chain@),
                1,
            ) is None,
        },
{
    if name_chain.len() == 0 {
        return None;
    }
    proof {
        reveal_strlit("->");
        reveal_strlit(".");
    }
    let arrow = String::from_str("->");
    let dot = String::from_str(".");
    let ghost chain = strings_view(name_chain@);
    let mut cur_var = first_var.duplicate();
    let mut i: usize = 1;
    while i < name_chain.len()
        invariant
            1 <= i,
            chain == strings_view(name_chain@),
            chain.len() == name_chain@.len(),
            arrow@ == "->"@,
            dot@ == "."@,
            spec_iterate_chain(*btf, first_var@, chain, 1) == spec_iterate_chain(
                *btf,
                cur_var@,
                chain,
                i as int,
            ),
        ensures
            spec_iterate_chain(*btf, first_var@, chain, 1) == Some(cur_var@),
        decreases name_chain.len() - i,
    {
        proof {
            reveal_strlit("->");
            reveal_strlit(".");
        }
        let op = &name_chain[i];
        assert(chain[i as int] == op@);
        let is_pointer = is_pointer_type(btf, cur_var.type_id);
        if *op == arrow {
            if !is_pointer {
                return None;
            }
        } else if *op == dot {
            if is_pointer {
                return None;
            }
        } else {
            return None;
        }
        if i + 1 >= name_chain.len() {
            break;
        }
        let member_name = &name_chain[i + 1];
        assert(chain[i + 1] == member_name@);
        let cur_type = match btf_resolve_type(btf, cur_var.type_id) {
            Some(t) => t,
            None => {
                return None;
            },
        };
        let composite = match cur_type.actual_type {
            Some(c) => c,
            None => {
                return None;
            },
        };
        let member = match find_member(&composite.members, member_name) {
            Some(m) => m,
            None => {
                return None;
            },
        };
        cur_var = member;
        i = i + 2;
    }
    Some(cur_var)
}

/// Whether `s` starts with `p`.
pub open spec fn seq_starts_with(s: Seq<char>, p: Seq<char>) -> bool {
    s.len() >= p.len() && s.take(p.len() as int) == p
}

fn starts_with(s: &Vec<char>, p: &str) -> (r: bool)
    ensures
        r == seq_starts_with(s@, p@),
{
    let pv = crate::text::str_chars(p);
    if pv.len() > s.len() {
        return false;
    }
    let r = crate::text::chars_eq(s, 0, pv.len(), &pv);
    assert(s@.take(pv@.len() as int) =~= s@.subrange(0, pv@.len() as int));
    r
}

/// Whether a token is `retval()` or `retval`.
pub open spec fn is_retval_token(t: Seq<char>) -> bool {
    t == "retval()"@ || t == "retval"@
}

/// What a name chain that starts `args.` or `retval` resolves to, for function `func`: the
/// variable it ends at and that variable's type. `args.` alone stands for the function itself,
/// with its parameters as members; `retval` alone for its return value.
pub open spec fn spec_iterate_names_chain(btf: BtfSplit, func: BtfFunctionView, s: Seq<char>) -> Option<
    ((Seq<char>, u32), BtfResolvedTypeView),
> {
    let tokens = spec_chain_tokens(s);
    if !seq_starts_with(s, "args."@) && !seq_starts_with(s, "retval"@) {
        None
    } else if tokens.len() == 0 || (tokens.len() == 1 && !is_retval_token(tokens[0])) || (
    tokens.len() >= 2 && !is_retval_token(tokens[0]) && !(tokens[0] == "args"@ && tokens[1] == "."@)) {
        None
    } else {
        let is_retval = is_retval_token(tokens[0]);
        let rest = if tokens.len() == 1 {
            Seq::<Seq<char>>::empty()
        } else {
            tokens.skip(2)
        };
        if is_retval {
            match spec_resolve_type(btf, func.ret_type_id) {
                None => None,
                Some(ret_type) => if rest.len() > 0 {
                    match ret_type.actual_type {
                        None => None,
                        Some(actual) => match spec_find_member(actual.members, rest[0]) {
                            None => None,
                            Some(first) => match spec_iterate_chain(btf, first, rest, 1) {
                                None => None,
                                Some(v) => match spec_resolve_type(btf, v.1) {
                                    None => None,
                                    Some(t) => Some((v, t)),
                                },
                            },
                        },
                    }
                } else {
                    Some((("retval"@, func.ret_type_id), ret_type))
                },
            }
        } else if rest.len() > 0 {
            match spec_find_member(func.args, rest[0]) {
                None => None,
                Some(first) => match spec_iterate_chain(btf, first, rest, 1) {
                    None => None,
                    Some(v) => match spec_resolve_type(btf, v.1) {
                        None => None,
                        Some(t) => Some((v, t)),
                    },
                },
            }
        } else {
            Some(
                (
                    (func.name, func.type_id),
                    BtfResolvedTypeView {
                        type_id: func.type_id,
                        actual_type_id: func.proto_id,
                        type_prefix: func.name,
                        type_sufix: func.full_name,
                        actual_type: Some(
                            BtfCompositeView {
                                type_id: func.proto_id,
                                type_str: func.full_name,
                                members: func.args,
                            },
                        ),
                    },
                ),
            )
        }
    }
}

proof fn lemma_iterate_chain_last(btf: BtfSplit, cur: (Seq<char>, u32), chain: Seq<Seq<char>>, i: int)
    requires
        1 <= i <= chain.len(),
        cur.0 == chain[i - 1],
    ensures
        spec_iterate_chain(btf, cur, chain, i) matches Some(v) ==> (v.0 == chain.last() || chain.last()
            == "."@ || chain.last() == "->"@),
    decreases chain.len() - i,
{
    if i >= chain.len() {
    } else {
        let op = chain[i];
        let is_pointer = spec_is_pointer_type(btf, cur.1);
        if !((op == "->"@ && is_pointer) || (op == "."@ && !is_pointer)) {
        } else if i + 1 >= chain.len() {
        } else {
            if let Some(t) = spec_resolve_type(btf, cur.1) {
                if let Some(comp) = t.actual_type {
                    lemma_find_member_name(comp.members, chain[i + 1]);
                    if let Some(m) = spec_find_member(comp.members, chain[i + 1]) {
                        lemma_iterate_chain_last(btf, m, chain, i + 2);
                    }
                }
            }
        }
    }
}

/// A chain that goes past its first name and ends with a name, after `args.` or after
/// `retval`, leads to the variable that its last name names, with that variable's type.
pub proof fn lemma_chain_ends_at_its_last_name(btf: BtfSplit, func: BtfFunctionView, s: Seq<char>)
    ensures
        ({
            let tokens = spec_chain_tokens(s);
            (tokens.len() >= 3 && tokens.last() != "."@ && tokens.last() != "->"@) ==> (spec_iterate_names_chain(
                btf,
                func,
                s,
            ) matches Some((v, t)) ==> v.0 == tokens.last() && spec_resolve_type(btf, v.1) == Some(t))
        }),
{
    let tokens = spec_chain_tokens(s);
    if tokens.len() >= 3 {
        let rest = tokens.skip(2);
        assert(rest.last() == tokens.last());
        if let Some(ret_type) = spec_resolve_type(btf, func.ret_type_id) {
            if let Some(actual) = ret_type.actual_type {
                lemma_find_member_name(actual.members, rest[0]);
                if let Some(first) = spec_find_member(actual.members, rest[0]) {
                    lemma_iterate_chain_last(btf, first, rest, 1);
                }
            }
        }
        lemma_find_member_name(func.args, rest[0]);
        if let Some(first) = spec_find_member(func.args, rest[0]) {
            lemma_iterate_chain_last(btf, first, rest, 1);
        }
    }
}

/// Only chains that start with `args.` or `retval` name anything.
pub proof fn lemma_chain_needs_known_prefix(btf: BtfSplit, func: BtfFunctionView, s: Seq<char>)
    requires
        !seq_starts_with(s, "args."@),
        !seq_starts_with(s, "retval"@),
    ensures
        spec_iterate_names_chain(btf, func, s) is None,
{
}

fn duplicate_vars(v: &Vec<BtfVariable>) -> (r: Vec<BtfVariable>)
    ensures
        vars_view(r@) == vars_view(v@),
{
    let mut r: Vec<BtfVariable> = Vec::new();
    let mut i: usize = 0;
    while i < v.len()
        invariant
            i <= v@.len(),
            vars_view(r@) == vars_view(v@).take(i as int),
        decreases v.len() - i,
    {
        let ghost before = vars_view(r@);
        r.push(v[i].duplicate());
        assert(vars_view(r@) =~= before.push(v@[i as int]@));
        assert(vars_view(v@).take(i + 1) =~= vars_view(v@).take(i as int).push(v@[i as int]@));
        i = i + 1;
    }
    assert(vars_view(v@).take(v@.len() as int) =~= vars_view(v@));
    r
}

/// Resolves a name chain such as `args.path->dentry` or `retval->sk` for function `func`: the
/// variable the chain ends at and its type.
pub fn btf_iterate_over_names_chain(btf: &Btf, func: &BtfFunction, name_chain_str: &str) -> (r: Option<
    (BtfVariable, BtfResolvedType),
>)
    requires
        chain_tokens_defined(name_chain_str@),
    ensures
        match r {
            Some((v, t)) => spec_iterate_names_chain(*btf, func@, name_chain_str@) == Some((v@, t@)),
            None => spec_iterate_names_chain(*btf, func@, name_chain_str@) is None,
        },
{
    let mut name_chain = chain_str_to_tokens(name_chain_str);
    let chars = crate::text::str_chars(name_chain_str);
    if !starts_with(&chars, "args.") && !starts_with(&chars, "retval") {
        return None;
    }
    let ghost tokens = strings_view(name_chain@);
    let retval_call = String::from_str("retval()");
    let retval = String::from_str("retval");
    let args = String::from_str("args");
    let dot = String::from_str(".");
    let mut is_retval = false;
    if name_chain.len() == 1 {
        if name_chain[0] == retval_call || name_chain[0] == retval {
            is_retval = true;
            name_chain.remove(0);
        } else {
            return None;
        }
    } else if name_chain.len() >= 2 {
        if name_chain[0] == retval_call || name_chain[0] == retval {
            is_retval = true;
            name_chain.remove(0);
            name_chain.remove(0);
        } else if name_chain[0] == args && name_chain[1] == dot {
            name_chain.remove(0);
            name_chain.remove(0);
        } else {
            return None;
        }
    } else {
        return None;
    }
    let ghost rest = if tokens.len() == 1 {
        Seq::<Seq<char>>::empty()
    } else {
        tokens.skip(2)
    };
    assert(strings_view(name_chain@) =~= rest);
    assert(is_retval == is_retval_token(tokens[0]));
    if is_retval {
        let cur_type = match btf_resolve_type(btf, func.ret_type_id) {
            Some(t) => t,
            None => {
                return None;
            },
        };
        if name_chain.len() > 0 {
            let actual_type = match cur_type.actual_type {
                Some(a) => a,
                None => {
                    return None;
                },
            };
            assert(rest[0] == name_chain@[0]@);
            match find_member(&actual_type.members, &name_chain[0]) {
                Some(first_param) => {
                    let cur_var = match inner_iterate_over_names_chain(btf, &first_param, &name_chain) {
                        Some(v) => v,
                        None => {
                            return None;
                        },
                    };
                    let cur_type = match btf_resolve_type(btf, cur_var.type_id) {
                        Some(t) => t,
                        None => {
                            return None;
                        },
                    };
                    return Some((cur_var, cur_type));
                },
                None => {
                    return None;
                },
            }
        } else {
            let cur_var = BtfVariable { type_id: func.ret_type_id, name: String::from_str("retval") };
            return Some((cur_var, cur_type));
        }
    } else if name_chain.len() > 0 {
        assert(rest[0] == name_chain@[0]@);
        match find_member(&func.args, &name_chain[0]) {
            Some(first_param) => {
                let cur_var = match inner_iterate_over_names_chain(btf, &first_param, &name_chain) {
                    Some(v) => v,
                    None => {
                        return None;
                    },
                };
                let cur_type = match btf_resolve_type(btf, cur_var.type_id) {
                    Some(t) => t,
                    None => {
                        return None;
                    },
                };
                return Some((cur_var, cur_type));
            },
            None => {
                return None;
            },
        }
    } else {
        let cur_var = BtfVariable { type_id: func.type_id, name: func.name.clone() };
        let func_args = BtfComposite {
            type_id: func.proto_id,
            type_str: func.full_name.clone(),
            members: duplicate_vars(&func.args),
        };
        let cur_type = BtfResolvedType {
            type_id: func.type_id,
            actual_type_id: func.proto_id,
            type_prefix: func.name.clone(),
            type_sufix: func.full_name.clone(),
            actual_type: Some(func_args),
        };
        return Some((cur_var, cur_type));
    }
}

/// Where the kernel exports the BTF of the kernel itself.
pub const VMLINUX_BTF_PATH: &'static str = "/sys/kernel/btf/vmlinux";

/// The file that holds the BTF of `module`, read on top of the kernel's; `None` for the kernel
/// itself (an empty name or `vmlinux`), whose BTF alone is used.
pub fn btf_module_path(module: &str) -> (r: Option<String>)
    ensures
        (module@.len() == 0 || module@ == "vmlinux"@) ==> r is None,
        !(module@.len() == 0 || module@ == "vmlinux"@) ==> (r matches Some(p) && p@ == "/sys/kernel/btf/"@
            + module@),
{
    if module.is_empty() || crate::text::str_eq(module, "vmlinux") {
        return None;
    }
    let mut path = String::from_str("/sys/kernel/btf/");
    path.append(module);
    Some(path)
}

} // verus!
