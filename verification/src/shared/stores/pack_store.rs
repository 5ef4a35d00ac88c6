//! A read-only object store backed by one pack file and its index.
//!
//! The files themselves are read by the caller; every function here takes
//! the bytes of the index (and, where needed, of the pack) and decides what
//! they say.

use vstd::prelude::*;
use vstd::string::{StrSliceExecFns, StringExecFns, StringSliceAdditionalSpecFns};

use crate::shared::helpers::{be_u32_at, be_u64_at, u32_from_be_bytes_unchecked, u64_from_be_bytes_unchecked};
use crate::shared::stores::zlib::{zlib_decompress, zlib_decompressed, ZlibError};
use crate::shared::hexcodec::{hex_decode, hex_decoded, hex_encode, hex_lower, hex_value, lemma_hex_lower_bytes};
use crate::shared::stores::pack_proofs::{
    lemma_assemble_results, lemma_complete_first, lemma_size_from_bound, lemma_ids_in_search_order, lemma_fanout_monotone, lemma_header_data_start, lemma_ids_listed,
    lemma_matches_in_fanout_range, lemma_valid_prefix_ascii,
};
use crate::shared::stores::pack_format::{
    fanout_entry, fanout_sane, fanout_start, id_key, id_matches, id_offset, ids_readable, ids_sorted_between, index_item_count,
    index_magic, is_hex_digit_char, large_offset_pos, lemma_keys_sorted, lemma_no_match_above, lemma_no_match_below,
    lex_lt, lex_lt_at, pack_magic, prefix_bytes, prefix_first_byte, raw_id, recorded_address, small_offset_pos,
    starts_with, valid_prefix, well_formed_index,
};

verus! {

broadcast use vstd::string::group_string_axioms;

/// The ways in which reading a pack or its index can fail.
#[derive(Debug, Clone, Copy, PartialEq, Eq, Structural)]
pub enum PackError {
    /// The partial object id is shorter than two characters or holds a
    /// character that is not a hex digit.
    InvalidObjectId,
    /// A read went past the end of the file.
    UnexpectedEof,
    /// The index does not start with the version-2 index magic.
    IndexFormatNotRecognised,
    /// The pack does not start with the version-2 pack magic and the
    /// object count of its index.
    PackFormatNotRecognised,
    /// The fan-out table gives a range that ends before it starts.
    CorruptFanout,
    /// An object address lies past the end of the pack.
    AddressOutOfRange,
    /// An object header ends before its size does, or its size needs more
    /// than 64 bits.
    MalformedObjectHeader,
    /// The type bits of an object header name no object type.
    InvalidPackedObjectType,
    /// Delta objects are not read.
    UnsupportedPackedObjectType,
    /// The object data ends inside its zlib stream.
    IncompleteDeflateStream,
    /// The object data is not a valid zlib stream.
    CorruptDeflateStream,
    /// Packs cannot be created.
    CreationNotSupported,
    /// Objects cannot be written to packs.
    WritingNotSupported,
}

/// The message of a pack error.
pub open spec fn pack_error_text(e: PackError) -> Seq<char> {
    match e {
        PackError::InvalidObjectId => "object ID is invalid or insufficient"@,
        PackError::UnexpectedEof => "failed to fill whole buffer"@,
        PackError::IndexFormatNotRecognised => "pack index file format not recognised"@,
        PackError::PackFormatNotRecognised => "pack file format not recognised"@,
        PackError::CorruptFanout => "pack index fan-out table is inconsistent"@,
        PackError::AddressOutOfRange => "object address lies past the end of the pack"@,
        PackError::MalformedObjectHeader => "packed object header is malformed"@,
        PackError::InvalidPackedObjectType => "invalid packed object type"@,
        PackError::UnsupportedPackedObjectType => "not supported!"@,
        PackError::IncompleteDeflateStream => "incomplete deflate stream"@,
        PackError::CorruptDeflateStream => "corrupt deflate stream"@,
        PackError::CreationNotSupported => "pack creation not yet supported"@,
        PackError::WritingNotSupported => "writing to packs not implemented"@,
    }
}

impl PackError {
    /// The error message.
    pub fn message(&self) -> (m: String)
        ensures
            m@ == pack_error_text(*self),
    {
        match self {
            PackError::InvalidObjectId => String::from_str("object ID is invalid or insufficient"),
            PackError::UnexpectedEof => String::from_str("failed to fill whole buffer"),
            PackError::IndexFormatNotRecognised => String::from_str("pack index file format not recognised"),
            PackError::PackFormatNotRecognised => String::from_str("pack file format not recognised"),
            PackError::CorruptFanout => String::from_str("pack index fan-out table is inconsistent"),
            PackError::AddressOutOfRange => String::from_str("object address lies past the end of the pack"),
            PackError::MalformedObjectHeader => String::from_str("packed object header is malformed"),
            PackError::InvalidPackedObjectType => String::from_str("invalid packed object type"),
            PackError::UnsupportedPackedObjectType => String::from_str("not supported!"),
            PackError::IncompleteDeflateStream => String::from_str("incomplete deflate stream"),
            PackError::CorruptDeflateStream => String::from_str("corrupt deflate stream"),
            PackError::CreationNotSupported => String::from_str("pack creation not yet supported"),
            PackError::WritingNotSupported => String::from_str("writing to packs not implemented"),
        }
    }
}

/// `name` is `pack-` followed by hex digits (of either case) only.
pub open spec fn pack_name_text(name: Seq<char>) -> bool {
    &&& name.len() >= 5
    &&& name.subrange(0, 5) == "pack-"@
    &&& forall|i: int| 5 <= i < name.len() ==> is_hex_digit_char(#[trigger] name[i])
}

/// Whether a file name stem names a pack: `pack-` and then hex digits.
pub fn is_pack_name(candidate: &str) -> (b: bool)
    ensures
        b == pack_name_text(candidate@),
{
    proof {
        reveal_strlit("pack-");
    }
    let n = candidate.unicode_len();
    if n < 5 {
        return false;
    }
    let prefix = "pack-";
    let mut i: usize = 0;
    while i < 5
        invariant
            n == candidate@.len(),
            n >= 5,
            i <= 5,
            prefix@ == "pack-"@,
            prefix@.len() == 5,
            forall|j: int| 0 <= j < i ==> candidate@[j] == prefix@[j],
        decreases 5 - i,
    {
        if candidate.get_char(i) != prefix.get_char(i) {
            assert(candidate@.subrange(0, 5)[i as int] != "pack-"@[i as int]);
            return false;
        }
        i = i + 1;
    }
    assert(candidate@.subrange(0, 5) =~= "pack-"@);
    while i < n
        invariant
            n == candidate@.len(),
            5 <= i <= n,
            forall|j: int| 5 <= j < i ==> is_hex_digit_char(#[trigger] candidate@[j]),
        decreases n - i,
    {
        if !is_hex_digit(candidate.get_char(i)) {
            return false;
        }
        i = i + 1;
    }
    true
}

/// Any name made of `pack-` and then hex digits (of either case), however
/// many, names a pack; a name that does not start with `pack-`, or that
/// has anything but a hex digit after it, does not.
pub proof fn lemma_pack_names(h: Seq<char>, name: Seq<char>)
    ensures
        (forall|i: int|
            0 <= i < h.len() ==> ('0' <= #[trigger] h[i] <= '9') || ('a' <= h[i] <= 'f') || ('A' <= h[i] <= 'F'))
            ==> pack_name_text("pack-"@ + h),
        !(name.len() >= 5 && name.subrange(0, 5) == "pack-"@) ==> !pack_name_text(name),
        (exists|i: int|
            5 <= i < name.len() && !(('0' <= #[trigger] name[i] <= '9') || ('a' <= name[i] <= 'f') || ('A' <= name[i]
                <= 'F'))) ==> !pack_name_text(name),
{
    reveal_strlit("pack-");
    let full = "pack-"@ + h;
    assert(full.subrange(0, 5) =~= "pack-"@);
    assert forall|i: int| 5 <= i < full.len() implies full[i] == h[i - 5] by {}
    if exists|i: int| 5 <= i < name.len() && !(('0' <= #[trigger] name[i] <= '9') || ('a' <= name[i] <= 'f') || ('A'
        <= name[i] <= 'F')) {
        let i = choose|i: int| 5 <= i < name.len() && !(('0' <= #[trigger] name[i] <= '9') || ('a' <= name[i] <= 'f') || (
        'A' <= name[i] <= 'F'));
        assert(!is_hex_digit_char(name[i]));
    }
}

/// A half-open range of positions in the sorted id table.
pub struct PackIndexOffsetRange {
    pub start_idx: u32,
    pub end_idx: u32,
}

impl PackIndexOffsetRange {
    /// The range holds no position.
    pub fn is_empty(&self) -> (b: bool)
        ensures
            b == (self.start_idx == self.end_idx),
    {
        self.start_idx == self.end_idx
    }

    /// The number of positions in the range.
    pub fn size(&self) -> (s: u32)
        requires
            self.start_idx <= self.end_idx,
        ensures
            s == self.end_idx - self.start_idx,
    {
        self.end_idx - self.start_idx
    }

    /// The middle position, rounding down.
    pub fn mid(&self) -> (m: u32)
        requires
            self.start_idx <= self.end_idx,
        ensures
            m == self.start_idx + (self.end_idx - self.start_idx) / 2,
    {
        self.start_idx + self.size() / 2
    }
}

/// An object found in the index: its id as hex text and its position.
pub struct PackIndexObject {
    pub object_id: String,
    pub idx: u32,
}

/// `o` is object `o.idx` of the index, with its id spelled out.
pub open spec fn names_entry(index: Seq<u8>, o: PackIndexObject) -> bool {
    o.object_id@ == hex_lower(raw_id(index, o.idx as int))
}

/// Reads the big-endian `u32` at `offset`; fails past the end of `data`.
fn read_u32_at(data: &[u8], offset: u64) -> (res: Result<u32, PackError>)
    ensures
        match res {
            Ok(v) => offset + 4 <= data@.len() && v == be_u32_at(data@, offset as int),
            Err(e) => offset + 4 > data@.len() && e == PackError::UnexpectedEof,
        },
{
    let len = data.len() as u64;
    if offset > len || len - offset < 4 {
        return Err(PackError::UnexpectedEof);
    }
    Ok(u32_from_be_bytes_unchecked(data, offset as usize))
}

/// Reads the big-endian `u64` at `offset`; fails past the end of `data`.
fn read_u64_at(data: &[u8], offset: u64) -> (res: Result<u64, PackError>)
    ensures
        match res {
            Ok(v) => offset + 8 <= data@.len() && v == be_u64_at(data@, offset as int),
            Err(e) => offset + 8 > data@.len() && e == PackError::UnexpectedEof,
        },
{
    let len = data.len() as u64;
    if offset > len || len - offset < 8 {
        return Err(PackError::UnexpectedEof);
    }
    Ok(u64_from_be_bytes_unchecked(data, offset as usize))
}

/// `p` is a prefix of `s`.
fn bytes_start_with(s: &[u8], p: &[u8]) -> (b: bool)
    ensures
        b == starts_with(s@, p@),
{
    if p.len() > s.len() {
        return false;
    }
    let mut i: usize = 0;
    while i < p.len()
        invariant
            p@.len() <= s@.len(),
            i <= p@.len(),
            forall|j: int| 0 <= j < i ==> s@[j] == p@[j],
        decreases p@.len() - i,
    {
        if s[i] != p[i] {
            return false;
        }
        i = i + 1;
    }
    true
}

/// The outcome of comparing two byte strings.
pub enum KeyOrder {
    Less,
    Equal,
    Greater,
}

/// Compares two byte strings in lexicographic order.
fn compare_bytes(a: &[u8], b: &[u8]) -> (o: KeyOrder)
    ensures
        o is Less <==> lex_lt(a@, b@),
        o is Greater <==> lex_lt(b@, a@),
        o is Equal <==> a@ == b@,
{
    let mut i: usize = 0;
    while i < a.len() && i < b.len() && a[i] == b[i]
        invariant
            i <= a@.len(),
            i <= b@.len(),
            forall|j: int| 0 <= j < i ==> a@[j] == b@[j],
        decreases a@.len() - i,
    {
        i = i + 1;
    }
    if i == a.len() && i == b.len() {
        assert(a@ =~= b@);
        proof {
            if lex_lt(a@, b@) {
                let k = choose|k: int| lex_lt_at(a@, b@, k);
                assert(a@[k] == b@[k]);
            }
            if lex_lt(b@, a@) {
                let k = choose|k: int| lex_lt_at(b@, a@, k);
                assert(a@[k] == b@[k]);
            }
        }
        KeyOrder::Equal
    } else if i == a.len() || (i < b.len() && a[i] < b[i]) {
        assert(lex_lt_at(a@, b@, i as int));
        proof {
            if lex_lt(b@, a@) {
                let k = choose|k: int| lex_lt_at(b@, a@, k);
                if k < i {
                    assert(a@[k] == b@[k]);
                }
            }
        }
        KeyOrder::Less
    } else {
        assert(lex_lt_at(b@, a@, i as int));
        proof {
            if lex_lt(a@, b@) {
                let k = choose|k: int| lex_lt_at(a@, b@, k);
                if k < i {
                    assert(a@[k] == b@[k]);
                }
            }
        }
        KeyOrder::Greater
    }
}

/// A hexadecimal digit of either case.
fn is_hex_digit(c: char) -> (b: bool)
    ensures
        b == is_hex_digit_char(c),
{
    ('0' <= c && c <= '9') || ('a' <= c && c <= 'f') || ('A' <= c && c <= 'F')
}

/// The binary search over positions `lo..hi` for an id whose hex text
/// starts with `p`: it reads the id in the middle (rounding down), answers
/// with it if it matches, and otherwise goes on below it when `p` sorts
/// before it and above it when not. An empty range finds nothing; a read
/// past the end of the index fails.
pub open spec fn probe(index: Seq<u8>, p: Seq<u8>, lo: int, hi: int) -> Result<Option<int>, PackError>
    decreases hi - lo,
{
    if lo >= hi {
        Ok(None)
    } else {
        let mid = lo + (hi - lo) / 2;
        if !ids_readable(index, mid + 1) {
            Err(PackError::UnexpectedEof)
        } else if id_matches(index, mid, p) {
            Ok(Some(mid))
        } else if lex_lt(p, id_key(index, mid)) {
            probe(index, p, lo, mid)
        } else {
            probe(index, p, mid + 1, hi)
        }
    }
}

/// The position the binary search finds for the partial id `p`, searching
/// the fan-out range of its first byte.
pub open spec fn found_position(index: Seq<u8>, p: Seq<char>) -> Result<Option<int>, PackError> {
    probe(
        index,
        prefix_bytes(p),
        fanout_start(index, prefix_first_byte(p)),
        fanout_entry(index, prefix_first_byte(p)),
    )
}

/// The pack ends before its header can be checked: it is shorter than the
/// magic, or holds the magic but not the object count after it.
pub open spec fn pack_header_short(pack: Seq<u8>) -> bool {
    pack.len() < 8 || (pack.subrange(0, 8) == pack_magic() && pack.len() < 12)
}

/// An index and a partial id on which a lookup reads only what is there:
/// the index has its magic, the partial id is valid, the fan-out table never
/// decreases and ends with the object count `n`, and all `n` ids can be read.
pub open spec fn lookup_ready(index: Seq<u8>, n: int, p: Seq<char>) -> bool {
    &&& has_index_magic(index)
    &&& valid_prefix(p)
    &&& fanout_sane(index, n)
    &&& ids_readable(index, n)
}

/// What looking up the address for the partial id `p` gives, reading the
/// index as one of `n` objects: the address recorded for the position the
/// binary search finds, `None` when it finds none.
pub open spec fn lookup_outcome(index: Seq<u8>, n: int, p: Seq<char>) -> Result<Option<u64>, PackError> {
    match found_position(index, p) {
        Err(e) => Err(e),
        Ok(None) => Ok(None),
        Ok(Some(m)) => address_lookup(index, n, m),
    }
}

/// An error that comes from reading the index rather than the pack.
pub open spec fn index_side_error(e: PackError) -> bool {
    ||| e == PackError::IndexFormatNotRecognised
    ||| e == PackError::InvalidObjectId
    ||| e == PackError::UnexpectedEof
    ||| e == PackError::CorruptFanout
}

/// `l` is an outcome that looking up the address for the partial id `p`
/// can have, whatever the index holds, reading it as one of `n` objects:
/// `None` when the binary search finds nothing, the address recorded at
/// the matching position it finds (below `n` when the fan-out table is
/// sane), or an error of the index, the format and partial-id errors
/// coming exactly when the magic or the partial id is wrong.
pub open spec fn lookup_possible(index: Seq<u8>, n: int, p: Seq<char>, l: Result<Option<u64>, PackError>) -> bool {
    match l {
        Ok(None) => {
            &&& has_index_magic(index)
            &&& valid_prefix(p)
            &&& found_position(index, p) == Ok::<Option<int>, PackError>(None)
        },
        Ok(Some(a)) => {
            &&& has_index_magic(index)
            &&& valid_prefix(p)
            &&& found_at_address(index, n, p, a)
            &&& fanout_sane(index, n) ==> found_position(index, p)->Ok_0->Some_0 < n
        },
        Err(e) => {
            &&& (e == PackError::IndexFormatNotRecognised <==> index.len() >= 8 && !has_index_magic(index))
            &&& (e == PackError::InvalidObjectId <==> has_index_magic(index) && !valid_prefix(p))
            &&& index_side_error(e)
        },
    }
}

/// The binary search for `p` finds a position whose id matches and whose
/// recorded address is `a`.
pub open spec fn found_at_address(index: Seq<u8>, n: int, p: Seq<char>, a: u64) -> bool {
    &&& found_position(index, p) is Ok
    &&& found_position(index, p)->Ok_0 is Some
    &&& id_matches(index, found_position(index, p)->Ok_0->Some_0, prefix_bytes(p))
    &&& recorded_address(index, n, found_position(index, p)->Ok_0->Some_0) == Some(a)
}

/// The position the search lists at place `q`, when the binary search
/// found position `m` and `d` matches lie below it: first `m`, then the
/// positions below it going down, then those above it going up.
pub open spec fn search_order_position(m: int, d: int, q: int) -> int {
    if q <= d {
        m - q
    } else {
        m + (q - d)
    }
}

/// `rs` lists its objects in the search's order, from position `m` with
/// `d` matches below it.
#[verifier::opaque]
pub open spec fn in_search_order(rs: Seq<PackIndexObject>, m: int, d: int) -> bool {
    &&& 0 <= d < rs.len()
    &&& forall|q: int| 0 <= q < rs.len() ==> rs[q].idx == #[trigger] search_order_position(m, d, q)
}

/// `ids` are the hex ids of the objects listed in the search's order, from
/// position `m` with `d` matches below it.
pub open spec fn ids_in_search_order(index: Seq<u8>, ids: Seq<String>, m: int, d: int) -> bool {
    &&& 0 <= d < ids.len()
    &&& forall|q: int|
        0 <= q < ids.len() ==> ids[q]@ == hex_lower(raw_id(index, #[trigger] search_order_position(m, d, q)))
}

/// `ids` are listed in the search's order for the partial id `p`: empty
/// when the binary search finds nothing, and otherwise starting from the
/// position it finds.
pub open spec fn listed_in_search_order(index: Seq<u8>, ids: Seq<String>, p: Seq<char>) -> bool {
    if ids.len() == 0 {
        found_position(index, p) == Ok::<Option<int>, PackError>(None)
    } else {
        &&& found_position(index, p) is Ok
        &&& found_position(index, p)->Ok_0 is Some
        &&& exists|d: int| #[trigger] ids_in_search_order(index, ids, found_position(index, p)->Ok_0->Some_0, d)
    }
}

/// `rs` lists object `i` of the index.
pub open spec fn lists_object(rs: Seq<PackIndexObject>, i: int) -> bool {
    exists|q: int| 0 <= q < rs.len() && #[trigger] rs[q].idx == i
}

/// Every object in `rs` is an object of the index whose id starts with
/// `prefix`, spelled out, and no object is listed twice.
pub open spec fn sound_results(index: Seq<u8>, rs: Seq<PackIndexObject>, prefix: Seq<u8>) -> bool {
    &&& forall|q: int| 0 <= q < rs.len() ==> names_entry(index, #[trigger] rs[q])
    &&& forall|q: int| 0 <= q < rs.len() ==> id_matches(index, #[trigger] rs[q].idx as int, prefix)
    &&& forall|q1: int, q2: int|
        0 <= q1 < rs.len() && 0 <= q2 < rs.len() && q1 != q2 ==> #[trigger] rs[q1].idx != #[trigger] rs[q2].idx
}

/// `rs` lists exactly the objects `0..n` of the index whose ids start with `prefix`.
pub open spec fn complete_results(index: Seq<u8>, n: int, rs: Seq<PackIndexObject>, prefix: Seq<u8>) -> bool {
    forall|i: int| #[trigger] lists_object(rs, i) <==> (0 <= i < n && id_matches(index, i, prefix))
}

/// The type of an object stored in a pack.
pub enum PackedObjectType {
    Commit,
    Tree,
    Blob,
    Tag,
    OffsetDelta(u64),
    NamedDelta(String),
}

/// The type bits of a packed object header, before any delta base is known.
pub enum PackedObjectTypeOnly {
    Commit,
    Tree,
    Blob,
    Tag,
    OffsetDelta,
    NamedDelta,
}

/// What the header of a packed object says.
pub struct PackedObjectMetadata {
    pub size: u64,
    pub data_start_address: u64,
    pub kind: PackedObjectType,
}

/// An object's data read from a pack, with the id it was asked for by and
/// the header it was stored under.
pub struct RawObject {
    pub data: Vec<u8>,
    pub object_id: String,
    pub pack_metadata: Option<PackedObjectMetadata>,
}

impl RawObject {
    /// Bundles an object's data, id and pack header.
    pub fn new(data: Vec<u8>, object_id: &str, pack_metadata: Option<PackedObjectMetadata>) -> (o: RawObject)
        ensures
            o.data == data,
            o.object_id@ == object_id@,
            o.pack_metadata == pack_metadata,
    {
        RawObject { data, object_id: object_id.to_owned(), pack_metadata }
    }
}

/// The error a failed decompression is reported as.
pub open spec fn decompression_error(e: ZlibError) -> PackError {
    match e {
        ZlibError::Incomplete => PackError::IncompleteDeflateStream,
        ZlibError::Corrupt => PackError::CorruptDeflateStream,
    }
}

/// Finishes reading an object once its data has been decompressed: the
/// object, under the id it was asked for and its header, or the error for
/// the way decompression failed.
pub fn object_from_decompressed(decompressed: Result<Vec<u8>, ZlibError>, object_id: &str, meta: PackedObjectMetadata) -> (res: Result<Option<RawObject>, PackError>)
    ensures
        match decompressed {
            Ok(data) => res matches Ok(Some(obj)) && obj.data == data && obj.object_id@ == object_id@
                && obj.pack_metadata == Some(meta),
            Err(z) => res matches Err(e) && e == decompression_error(z),
        },
{
    match decompressed {
        Ok(data) => Ok(Some(RawObject::new(data, object_id, Some(meta)))),
        Err(ZlibError::Incomplete) => Err(PackError::IncompleteDeflateStream),
        Err(ZlibError::Corrupt) => Err(PackError::CorruptDeflateStream),
    }
}

/// The object type that bits 4 to 6 of a header's first byte name.
pub open spec fn type_of_header_byte(value: u8) -> Option<PackedObjectTypeOnly> {
    let bits = value & 0x70;
    if bits == 0x10 {
        Some(PackedObjectTypeOnly::Commit)
    } else if bits == 0x20 {
        Some(PackedObjectTypeOnly::Tree)
    } else if bits == 0x30 {
        Some(PackedObjectTypeOnly::Blob)
    } else if bits == 0x40 {
        Some(PackedObjectTypeOnly::Tag)
    } else if bits == 0x60 {
        Some(PackedObjectTypeOnly::OffsetDelta)
    } else if bits == 0x70 {
        Some(PackedObjectTypeOnly::NamedDelta)
    } else {
        None
    }
}

/// The full object type for a header type, for the types that are read.
pub open spec fn supported_type(kind: PackedObjectTypeOnly) -> Option<PackedObjectType> {
    match kind {
        PackedObjectTypeOnly::Commit => Some(PackedObjectType::Commit),
        PackedObjectTypeOnly::Tree => Some(PackedObjectType::Tree),
        PackedObjectTypeOnly::Blob => Some(PackedObjectType::Blob),
        PackedObjectTypeOnly::Tag => Some(PackedObjectType::Tag),
        _ => None,
    }
}

/// The shift that places the 7 size bits of header byte `k` (`k >= 1`).
pub open spec fn size_shift(k: int) -> int {
    4 + 7 * (k - 1)
}

/// The object size decoded from header bytes `buf`, continuing from byte
/// `k` with the size `acc` gathered so far, and the number of header bytes.
///
/// A byte with its top bit set (`0x80` or above) continues the size into
/// the next byte, whose low 7 bits are placed at [`size_shift`], bits
/// above 64 being dropped. Decoding also stops at the end of `buf`, keeping
/// the size gathered so far, once more than one byte has been read. `None`
/// when the single byte of `buf` continues, or when a continued size would
/// be shifted by 64 bits or more. In closed form (see `lemma_header_length`
/// and `lemma_header_size`): the header runs to its first byte below
/// `0x80`, or to the end of `buf`, and is at most ten bytes long; the size
/// is `header_size` of that many bytes.
pub open spec fn size_from(buf: Seq<u8>, k: int, acc: u64) -> Option<(u64, int)>
    decreases buf.len() - k,
{
    if k < 1 || k > buf.len() {
        None
    } else if buf[k - 1] < 0x80 {
        Some((acc, k))
    } else if k == buf.len() {
        if k > 1 {
            Some((acc, k))
        } else {
            None
        }
    } else if size_shift(k) >= 64 {
        None
    } else {
        size_from(buf, k + 1, acc | (((buf[k] & 0x7f) as u64) << (size_shift(k) as u64)))
    }
}

/// How many header bytes are read at `address`: at most 30, and no more
/// than remain before `file_len`.
pub open spec fn header_window(file_len: u64, address: u64) -> int {
    if file_len - address > 30 {
        30
    } else {
        file_len - address
    }
}

/// What the object header at `address` of a pack of length `file_len`
/// (whose bytes are `pack`) says, or the error reading it gives.
pub open spec fn parse_object_header(pack: Seq<u8>, file_len: u64, address: u64) -> Result<PackedObjectMetadata, PackError> {
    if address > file_len {
        Err(PackError::AddressOutOfRange)
    } else if address + header_window(file_len, address) > pack.len() {
        Err(PackError::UnexpectedEof)
    } else if header_window(file_len, address) == 0 {
        Err(PackError::MalformedObjectHeader)
    } else {
        let buf = pack.subrange(address as int, address + header_window(file_len, address));
        match type_of_header_byte(buf[0]) {
            None => Err(PackError::InvalidPackedObjectType),
            Some(t) => match size_from(buf, 1, (buf[0] & 0xf) as u64) {
                None => Err(PackError::MalformedObjectHeader),
                Some((size, k)) => match supported_type(t) {
                    None => Err(PackError::UnsupportedPackedObjectType),
                    Some(kind) => Ok(PackedObjectMetadata { size, data_start_address: (address + k) as u64, kind }),
                },
            },
        }
    }
}

/// The pack starts with the version-2 pack magic followed by the object
/// count `n`.
pub open spec fn pack_header_matches(pack: Seq<u8>, n: u32) -> bool {
    &&& pack.len() >= 12
    &&& pack.subrange(0, 8) == pack_magic()
    &&& be_u32_at(pack, 8) == n
}

impl PackedObjectTypeOnly {
    /// The object type named by the type bits of a header's first byte.
    pub fn try_from(value: u8) -> (res: Result<PackedObjectTypeOnly, PackError>)
        ensures
            match res {
                Ok(t) => type_of_header_byte(value) == Some(t),
                Err(e) => type_of_header_byte(value) is None && e == PackError::InvalidPackedObjectType,
            },
            value & 0x70 == 0x10 ==> res == Ok::<PackedObjectTypeOnly, PackError>(PackedObjectTypeOnly::Commit),
            value & 0x70 == 0x20 ==> res == Ok::<PackedObjectTypeOnly, PackError>(PackedObjectTypeOnly::Tree),
            value & 0x70 == 0x30 ==> res == Ok::<PackedObjectTypeOnly, PackError>(PackedObjectTypeOnly::Blob),
            value & 0x70 == 0x40 ==> res == Ok::<PackedObjectTypeOnly, PackError>(PackedObjectTypeOnly::Tag),
            value & 0x70 == 0x60 ==> res == Ok::<PackedObjectTypeOnly, PackError>(PackedObjectTypeOnly::OffsetDelta),
            value & 0x70 == 0x70 ==> res == Ok::<PackedObjectTypeOnly, PackError>(PackedObjectTypeOnly::NamedDelta),
            value & 0x70 == 0x00 || value & 0x70 == 0x50 ==> res == Err::<PackedObjectTypeOnly, PackError>(
                PackError::InvalidPackedObjectType,
            ),
    {
        let bits = value & 0x70;
        if bits == 0x10 {
            Ok(PackedObjectTypeOnly::Commit)
        } else if bits == 0x20 {
            Ok(PackedObjectTypeOnly::Tree)
        } else if bits == 0x30 {
            Ok(PackedObjectTypeOnly::Blob)
        } else if bits == 0x40 {
            Ok(PackedObjectTypeOnly::Tag)
        } else if bits == 0x60 {
            Ok(PackedObjectTypeOnly::OffsetDelta)
        } else if bits == 0x70 {
            Ok(PackedObjectTypeOnly::NamedDelta)
        } else {
            Err(PackError::InvalidPackedObjectType)
        }
    }
}

impl PackedObjectMetadata {
    /// Metadata for an object of a type that is read; delta types are not.
    fn try_from_type_only(
        kind: PackedObjectTypeOnly,
        size: u64,
        data_start_address: u64,
        delta_offset: Option<u64>,
        base_object: Option<&str>,
    ) -> (res: Result<PackedObjectMetadata, PackError>)
        ensures
            match supported_type(kind) {
                Some(k) => res == Ok::<PackedObjectMetadata, PackError>(PackedObjectMetadata { size, data_start_address, kind: k }),
                None => res == Err::<PackedObjectMetadata, PackError>(PackError::UnsupportedPackedObjectType),
            },
            kind == PackedObjectTypeOnly::Commit ==> res == Ok::<PackedObjectMetadata, PackError>(
                PackedObjectMetadata { size, data_start_address, kind: PackedObjectType::Commit },
            ),
            kind == PackedObjectTypeOnly::Tree ==> res == Ok::<PackedObjectMetadata, PackError>(
                PackedObjectMetadata { size, data_start_address, kind: PackedObjectType::Tree },
            ),
            kind == PackedObjectTypeOnly::Blob ==> res == Ok::<PackedObjectMetadata, PackError>(
                PackedObjectMetadata { size, data_start_address, kind: PackedObjectType::Blob },
            ),
            kind == PackedObjectTypeOnly::Tag ==> res == Ok::<PackedObjectMetadata, PackError>(
                PackedObjectMetadata { size, data_start_address, kind: PackedObjectType::Tag },
            ),
            kind == PackedObjectTypeOnly::OffsetDelta || kind == PackedObjectTypeOnly::NamedDelta ==> res == Err::<
                PackedObjectMetadata,
                PackError,
            >(PackError::UnsupportedPackedObjectType),
    {
        let kind = match kind {
            PackedObjectTypeOnly::Commit => PackedObjectType::Commit,
            PackedObjectTypeOnly::Tree => PackedObjectType::Tree,
            PackedObjectTypeOnly::Blob => PackedObjectType::Blob,
            PackedObjectTypeOnly::Tag => PackedObjectType::Tag,
            _ => {
                return Err(PackError::UnsupportedPackedObjectType);
            },
        };
        Ok(PackedObjectMetadata { size, data_start_address, kind })
    }
}

/// The type bits (`0x70`) of an object header's first byte name its type:
/// `0x10` a commit, `0x20` a tree, `0x30` a blob, `0x40` a tag, `0x60` an
/// offset delta and `0x70` a named delta, while `0x00` and `0x50` name
/// none. Commits, trees, blobs and tags are read; the delta types are not.
pub proof fn lemma_header_type_bits(b: u8)
    ensures
        b & 0x70 == 0x10 ==> type_of_header_byte(b) == Some(PackedObjectTypeOnly::Commit)
            && supported_type(PackedObjectTypeOnly::Commit) == Some(PackedObjectType::Commit),
        b & 0x70 == 0x20 ==> type_of_header_byte(b) == Some(PackedObjectTypeOnly::Tree)
            && supported_type(PackedObjectTypeOnly::Tree) == Some(PackedObjectType::Tree),
        b & 0x70 == 0x30 ==> type_of_header_byte(b) == Some(PackedObjectTypeOnly::Blob)
            && supported_type(PackedObjectTypeOnly::Blob) == Some(PackedObjectType::Blob),
        b & 0x70 == 0x40 ==> type_of_header_byte(b) == Some(PackedObjectTypeOnly::Tag)
            && supported_type(PackedObjectTypeOnly::Tag) == Some(PackedObjectType::Tag),
        b & 0x70 == 0x60 ==> type_of_header_byte(b) == Some(PackedObjectTypeOnly::OffsetDelta)
            && supported_type(PackedObjectTypeOnly::OffsetDelta) is None,
        b & 0x70 == 0x70 ==> type_of_header_byte(b) == Some(PackedObjectTypeOnly::NamedDelta)
            && supported_type(PackedObjectTypeOnly::NamedDelta) is None,
        b & 0x70 == 0x00 || b & 0x70 == 0x50 ==> type_of_header_byte(b) is None,
{
}

/// Reading the object at address `a` of a pack whose header is right, when
/// its header decodes to size `s` over `k` bytes and its data inflates to
/// `d`: an object whose type bits name a commit, a tree, a blob or a tag
/// is read back with that type, size `s`, its data starting at `a + k`,
/// and data `d`; the delta types are not supported, and the unused type
/// bits are an invalid type.
pub proof fn lemma_read_by_type_bits(pack: Seq<u8>, n: u32, file_len: u64, a: u64, s: u64, k: int, d: Seq<u8>)
    requires
        !pack_header_short(pack),
        pack_header_matches(pack, n),
        a < file_len,
        a + header_window(file_len, a) <= pack.len(),
        size_from(pack.subrange(a as int, a + header_window(file_len, a)), 1, (pack[a as int] & 0xf) as u64) == Some(
            (s, k),
        ),
        zlib_decompressed(pack.skip(a + k)) == Ok::<Seq<u8>, ZlibError>(d),
    ensures
        pack[a as int] & 0x70 == 0x10 ==> read_at(pack, n, file_len, a) == Ok::<(PackedObjectMetadata, Seq<u8>), PackError>(
            (PackedObjectMetadata { size: s, data_start_address: (a + k) as u64, kind: PackedObjectType::Commit }, d),
        ),
        pack[a as int] & 0x70 == 0x20 ==> read_at(pack, n, file_len, a) == Ok::<(PackedObjectMetadata, Seq<u8>), PackError>(
            (PackedObjectMetadata { size: s, data_start_address: (a + k) as u64, kind: PackedObjectType::Tree }, d),
        ),
        pack[a as int] & 0x70 == 0x30 ==> read_at(pack, n, file_len, a) == Ok::<(PackedObjectMetadata, Seq<u8>), PackError>(
            (PackedObjectMetadata { size: s, data_start_address: (a + k) as u64, kind: PackedObjectType::Blob }, d),
        ),
        pack[a as int] & 0x70 == 0x40 ==> read_at(pack, n, file_len, a) == Ok::<(PackedObjectMetadata, Seq<u8>), PackError>(
            (PackedObjectMetadata { size: s, data_start_address: (a + k) as u64, kind: PackedObjectType::Tag }, d),
        ),
        pack[a as int] & 0x70 == 0x60 || pack[a as int] & 0x70 == 0x70 ==> read_at(pack, n, file_len, a) == Err::<
            (PackedObjectMetadata, Seq<u8>),
            PackError,
        >(PackError::UnsupportedPackedObjectType),
        pack[a as int] & 0x70 == 0x00 || pack[a as int] & 0x70 == 0x50 ==> read_at(pack, n, file_len, a) == Err::<
            (PackedObjectMetadata, Seq<u8>),
            PackError,
        >(PackError::InvalidPackedObjectType),
{
    let buf = pack.subrange(a as int, a + header_window(file_len, a));
    assert(buf[0] == pack[a as int]);
    lemma_size_from_bound(buf, 1, (pack[a as int] & 0xf) as u64);
    assert((a + k) as u64 == a + k);
}

/// The index starts with the version-2 index magic.
pub open spec fn has_index_magic(index: Seq<u8>) -> bool {
    index.len() >= 8 && index.subrange(0, 8) == index_magic()
}

/// Object `i` is the only one of objects `0..n` whose hex id starts with `p`.
pub open spec fn unique_match(index: Seq<u8>, n: int, p: Seq<u8>, i: int) -> bool {
    &&& 0 <= i < n
    &&& id_matches(index, i, p)
    &&& forall|j: int| 0 <= j < n && #[trigger] id_matches(index, j, p) ==> j == i
}

/// What reading the object at pack address `a` gives, for a store of `n`
/// objects whose pack is `file_len` long: the pack's header is checked,
/// then the object's header decoded and its data decompressed.
pub open spec fn read_at(pack: Seq<u8>, n: u32, file_len: u64, a: u64) -> Result<(PackedObjectMetadata, Seq<u8>), PackError> {
    if pack_header_short(pack) {
        Err(PackError::UnexpectedEof)
    } else if !pack_header_matches(pack, n) {
        Err(PackError::PackFormatNotRecognised)
    } else {
        match parse_object_header(pack, file_len, a) {
            Err(e) => Err(e),
            Ok(meta) => match zlib_decompressed(pack.skip(meta.data_start_address as int)) {
                Err(z) => Err(decompression_error(z)),
                Ok(data) => Ok((meta, data)),
            },
        }
    }
}

/// What reading an object gives once its address has been looked up with
/// the outcome `lookup`.
pub open spec fn read_after_lookup(lookup: Result<Option<u64>, PackError>, pack: Seq<u8>, n: u32, file_len: u64) -> Result<Option<(PackedObjectMetadata, Seq<u8>)>, PackError> {
    match lookup {
        Err(e) => Err(e),
        Ok(None) => Ok(None),
        Ok(Some(a)) => match read_at(pack, n, file_len, a) {
            Err(e) => Err(e),
            Ok(r) => Ok(Some(r)),
        },
    }
}

/// `res` is the outcome `outcome`, the object read carrying `object_id`.
pub open spec fn read_result_is(
    res: Result<Option<RawObject>, PackError>,
    outcome: Result<Option<(PackedObjectMetadata, Seq<u8>)>, PackError>,
    object_id: Seq<char>,
) -> bool {
    match (res, outcome) {
        (Ok(None), Ok(None)) => true,
        (Ok(Some(obj)), Ok(Some(r))) => carries(obj, r) && obj.object_id@ == object_id,
        (Err(e1), Err(e2)) => e1 == e2,
        _ => false,
    }
}

/// `obj` carries the header and data `r`.
pub open spec fn carries(obj: RawObject, r: (PackedObjectMetadata, Seq<u8>)) -> bool {
    obj.pack_metadata == Some(r.0) && obj.data@ == r.1
}

/// What looking up the address of object `i` gives: the address the index
/// records, or the error for an index too short to hold it.
pub open spec fn address_lookup(index: Seq<u8>, n: int, i: int) -> Result<Option<u64>, PackError> {
    match recorded_address(index, n, i) {
        Some(a) => Ok(Some(a)),
        None => Err(PackError::UnexpectedEof),
    }
}

/// `s` is the hex id of an object of the index whose id starts with `p`.
pub open spec fn names_some_match(index: Seq<u8>, p: Seq<u8>, s: Seq<char>) -> bool {
    exists|i: int| #[trigger] id_matches(index, i, p) && s == hex_lower(raw_id(index, i))
}

/// `s` is the hex id of one of the objects `0..n` whose ids start with `p`.
pub open spec fn is_matching_id(index: Seq<u8>, n: int, p: Seq<u8>, s: Seq<char>) -> bool {
    exists|i: int| 0 <= i < n && #[trigger] id_matches(index, i, p) && s == hex_lower(raw_id(index, i))
}

/// `ids` holds the hex ids of exactly the objects `0..n` whose ids start
/// with `p`, each once.
pub open spec fn lists_exactly(ids: Seq<String>, index: Seq<u8>, n: int, p: Seq<u8>) -> bool {
    &&& forall|i: int|
        0 <= i < n && #[trigger] id_matches(index, i, p) ==> exists|q: int|
            0 <= q < ids.len() && #[trigger] ids[q]@ == hex_lower(raw_id(index, i))
    &&& forall|q: int| 0 <= q < ids.len() ==> is_matching_id(index, n, p, #[trigger] ids[q]@)
    &&& forall|q1: int, q2: int|
        0 <= q1 < ids.len() && 0 <= q2 < ids.len() && q1 != q2 ==> #[trigger] ids[q1]@ != #[trigger] ids[q2]@
}

/// A store for the objects of one pack.
pub struct PackStore {
    base_path: String,
    pack_name: String,
    primary_file: String,
    index_file: String,
    item_count: u32,
    primary_file_len: u64,
}

impl PackStore {
    /// The object count read from the index when the store was made.
    pub closed spec fn spec_item_count(&self) -> u32 {
        self.item_count
    }

    /// The length of the pack file when the store was made.
    pub closed spec fn spec_primary_file_len(&self) -> u64 {
        self.primary_file_len
    }

    /// Reads the object count from a pack index and records the store's
    /// paths and pack length.
    ///
    /// The caller has checked that `base_path` is a directory and that the
    /// pack and index files exist; `index` holds the index file's bytes and
    /// `primary_file_len` the pack file's length.
    pub fn new(
        base_path: String,
        pack_name: &str,
        primary_file: String,
        index_file: String,
        index: &[u8],
        primary_file_len: u64,
    ) -> (res: Result<PackStore, PackError>)
        ensures
            match res {
                Ok(store) => {
                    &&& index@.len() >= 1032
                    &&& store.spec_item_count() == index_item_count(index@)
                    &&& store.spec_primary_file_len() == primary_file_len
                    &&& store.spec_base_path() == base_path@
                    &&& store.spec_pack_name() == pack_name@
                    &&& store.spec_primary_file() == primary_file@
                    &&& store.spec_index_file() == index_file@
                },
                Err(e) => index@.len() < 1032 && e == PackError::UnexpectedEof,
            },
    {
        let item_count = Self::get_pack_item_count(index)?;
        Ok(PackStore {
            base_path,
            pack_name: pack_name.to_owned(),
            primary_file,
            index_file,
            item_count,
            primary_file_len,
        })
    }

    /// The directory that holds the pack.
    pub closed spec fn spec_base_path(&self) -> Seq<char> {
        self.base_path@
    }

    /// The pack's name, without extension.
    pub closed spec fn spec_pack_name(&self) -> Seq<char> {
        self.pack_name@
    }

    /// The path of the pack file.
    pub closed spec fn spec_primary_file(&self) -> Seq<char> {
        self.primary_file@
    }

    /// The path of the index file.
    pub closed spec fn spec_index_file(&self) -> Seq<char> {
        self.index_file@
    }

    /// The path of the pack file.
    pub fn primary_file(&self) -> (p: &String)
        ensures
            p@ == self.spec_primary_file(),
    {
        &self.primary_file
    }

    /// The path of the index file.
    pub fn index_file(&self) -> (p: &String)
        ensures
            p@ == self.spec_index_file(),
    {
        &self.index_file
    }

    /// The pack's name, without extension.
    pub fn pack_name(&self) -> (p: &String)
        ensures
            p@ == self.spec_pack_name(),
    {
        &self.pack_name
    }

    /// The object count read from the index.
    pub fn item_count(&self) -> (n: u32)
        ensures
            n == self.spec_item_count(),
    {
        self.item_count
    }

    /// Where the id of object `item_idx` starts in the index.
    fn index_object_idx_to_id_offset(item_idx: u32) -> (o: u64)
        ensures
            o == id_offset(item_idx as int),
    {
        item_idx as u64 * 20 + 1032
    }

    /// Where the small offset of object `item_idx` is in the index.
    fn index_object_idx_to_address_offset(&self, item_idx: u32) -> (o: u64)
        ensures
            o == small_offset_pos(self.item_count as int, item_idx as int),
    {
        1032u64 + self.item_count as u64 * 24 + item_idx as u64 * 4
    }

    /// Where large offset entry `large_offset_index` is in the index.
    fn index_object_idx_to_large_address_offset(&self, large_offset_index: u32) -> (o: u64)
        ensures
            o == large_offset_pos(self.item_count as int, large_offset_index as int),
    {
        1032u64 + self.item_count as u64 * 28 + large_offset_index as u64 * 8
    }

    /// The pack address the index records for object `item_idx`.
    fn get_object_address_from_index(&self, index: &[u8], item_idx: u32) -> (res: Result<u64, PackError>)
        ensures
            match res {
                Ok(a) => recorded_address(index@, self.item_count as int, item_idx as int) == Some(a),
                Err(e) => recorded_address(index@, self.item_count as int, item_idx as int) is None
                    && e == PackError::UnexpectedEof,
            },
    {
        let small_offset = read_u32_at(index, self.index_object_idx_to_address_offset(item_idx))?;
        if small_offset < 0x80000000 {
            return Ok(small_offset as u64);
        }
        let large_offset_index = small_offset & 0x7fffffff;
        assert(small_offset >= 0x80000000u32 ==> small_offset & 0x7fffffffu32 == small_offset - 0x80000000u32) by (bit_vector);
        read_u64_at(index, self.index_object_idx_to_large_address_offset(large_offset_index))
    }

    /// Whether the pack starts with the version-2 pack magic and the
    /// store's object count.
    fn check_pack_version(&self, pack_file: &[u8]) -> (res: Result<bool, PackError>)
        ensures
            match res {
                Ok(b) => !pack_header_short(pack_file@) && b == pack_header_matches(pack_file@, self.item_count),
                Err(e) => pack_header_short(pack_file@) && e == PackError::UnexpectedEof,
            },
    {
        if pack_file.len() < 8 {
            return Err(PackError::UnexpectedEof);
        }
        let m: [u8; 8] = [80u8, 65, 67, 75, 0, 0, 0, 2];
        let mut i: usize = 0;
        while i < 8
            invariant
                pack_file@.len() >= 8,
                i <= 8,
                m@ == pack_magic(),
                forall|j: int| 0 <= j < i ==> pack_file@[j] == pack_magic()[j],
            decreases 8 - i,
        {
            if pack_file[i] != m[i] {
                assert(pack_file@.subrange(0, 8)[i as int] != pack_magic()[i as int]);
                return Ok(false);
            }
            i = i + 1;
        }
        assert(pack_file@.subrange(0, 8) =~= pack_magic());
        let count = read_u32_at(pack_file, 8)?;
        if self.item_count != count {
            Ok(false)
        } else {
            Ok(true)
        }
    }

    /// Decodes the header of the object at `address` in the pack: its type,
    /// its size, and where its compressed data starts.
    fn get_packed_object_metadata(&self, pack_file: &[u8], address: u64) -> (res: Result<PackedObjectMetadata, PackError>)
        ensures
            res == parse_object_header(pack_file@, self.primary_file_len, address),
    {
        if address > self.primary_file_len {
            return Err(PackError::AddressOutOfRange);
        }
        let remaining = self.primary_file_len - address;
        let window: u64 = if remaining > 30 {
            30
        } else {
            remaining
        };
        let len = pack_file.len() as u64;
        if address > len || len - address < window {
            return Err(PackError::UnexpectedEof);
        }
        let start = address as usize;
        let buf = &pack_file[start..start + window as usize];
        if buf.len() == 0 {
            return Err(PackError::MalformedObjectHeader);
        }
        assert(buf@ == pack_file@.subrange(address as int, address + header_window(self.primary_file_len, address)));
        let packed_object_type = PackedObjectTypeOnly::try_from(buf[0])?;
        let mut object_size: u64 = (buf[0] & 0xf) as u64;
        let mut bytes_read: usize = 1;
        let ghost whole = size_from(buf@, 1, (buf@[0] & 0xf) as u64);
        while bytes_read < buf.len() && buf[bytes_read - 1] >= 0x80
            invariant
                1 <= bytes_read <= buf@.len(),
                buf@.len() <= 30,
                address <= self.primary_file_len,
                address + header_window(self.primary_file_len, address) <= pack_file@.len(),
                buf@.len() == header_window(self.primary_file_len, address),
                buf@ == pack_file@.subrange(address as int, address + header_window(self.primary_file_len, address)),
                type_of_header_byte(buf@[0]) == Some(packed_object_type),
                whole == size_from(buf@, 1, (buf@[0] & 0xf) as u64),
                whole == size_from(buf@, bytes_read as int, object_size),
            decreases buf@.len() - bytes_read,
        {
            if bytes_read >= 10 {
                assert(size_from(buf@, bytes_read as int, object_size) is None);
                return Err(PackError::MalformedObjectHeader);
            }
            let shift: u64 = (4 + 7 * (bytes_read - 1)) as u64;
            object_size = object_size | (((buf[bytes_read] & 0x7f) as u64) << shift);
            bytes_read = bytes_read + 1;
        }
        if buf[bytes_read - 1] >= 0x80 && bytes_read == 1 {
            // A single byte that announces more size bytes than there are.
            assert(size_from(buf@, 1, object_size) is None);
            return Err(PackError::MalformedObjectHeader);
        }
        assert(whole == Some((object_size, bytes_read as int)));
        let data_start_address = address + bytes_read as u64;
        PackedObjectMetadata::try_from_type_only(
            packed_object_type,
            object_size,
            data_start_address,
            None,
            None,
        )
    }

    /// Reads fan-out entry `object_id_start`.
    fn get_index_offset(index: &[u8], object_id_start: u8) -> (res: Result<u32, PackError>)
        ensures
            match res {
                Ok(v) => 12 + 4 * object_id_start <= index@.len() && v == fanout_entry(index@, object_id_start as int),
                Err(e) => 12 + 4 * object_id_start > index@.len() && e == PackError::UnexpectedEof,
            },
    {
        read_u32_at(index, object_id_start as u64 * 4 + 8)
    }

    /// Reads the object count (the last fan-out entry).
    fn get_pack_item_count(index: &[u8]) -> (res: Result<u32, PackError>)
        ensures
            match res {
                Ok(v) => 1032 <= index@.len() && v == index_item_count(index@),
                Err(e) => 1032 > index@.len() && e == PackError::UnexpectedEof,
            },
    {
        read_u32_at(index, 1028)
    }

    /// Whether the index starts with the version-2 index magic.
    fn check_index_version(index: &[u8]) -> (res: Result<bool, PackError>)
        ensures
            match res {
                Ok(b) => index@.len() >= 8 && b == (index@.subrange(0, 8) == index_magic()),
                Err(e) => index@.len() < 8 && e == PackError::UnexpectedEof,
            },
    {
        if index.len() < 8 {
            return Err(PackError::UnexpectedEof);
        }
        let m: [u8; 8] = [255u8, 116, 79, 99, 0, 0, 0, 2];
        let mut i: usize = 0;
        while i < 8
            invariant
                index@.len() >= 8,
                i <= 8,
                m@ == index_magic(),
                forall|j: int| 0 <= j < i ==> index@[j] == index_magic()[j],
            decreases 8 - i,
        {
            if index[i] != m[i] {
                assert(index@.subrange(0, 8)[i as int] != index_magic()[i as int]);
                return Ok(false);
            }
            i = i + 1;
        }
        assert(index@.subrange(0, 8) =~= index_magic());
        Ok(true)
    }

    /// Reads the id of object `idx` and spells it out as lowercase hex.
    fn get_index_object_id_at_pos(index: &[u8], idx: u32) -> (res: Result<String, PackError>)
        ensures
            match res {
                Ok(s) => ids_readable(index@, idx + 1) && s@ == hex_lower(raw_id(index@, idx as int)),
                Err(e) => !ids_readable(index@, idx + 1) && e == PackError::UnexpectedEof,
            },
    {
        let offset = Self::index_object_idx_to_id_offset(idx);
        let len = index.len() as u64;
        if offset > len || len - offset < 20 {
            return Err(PackError::UnexpectedEof);
        }
        let start = offset as usize;
        let raw = &index[start..start + 20];
        Ok(hex_encode(raw))
    }

    /// The fan-out range of the objects whose first id byte is the one the
    /// first two digits of `partial_object_id` name.
    fn get_index_offset_range(index: &[u8], partial_object_id: &str) -> (res: Result<PackIndexOffsetRange, PackError>)
        ensures
            match res {
                Ok(r) => {
                    &&& valid_prefix(partial_object_id@)
                    &&& r.start_idx == fanout_start(index@, prefix_first_byte(partial_object_id@))
                    &&& r.end_idx == fanout_entry(index@, prefix_first_byte(partial_object_id@))
                },
                Err(e) => {
                    &&& (e == PackError::InvalidObjectId <==> !valid_prefix(partial_object_id@))
                    &&& e != PackError::InvalidObjectId ==> e == PackError::UnexpectedEof
                        && index@.len() < 12 + 4 * prefix_first_byte(partial_object_id@)
                },
            },
    {
        let byte_len = partial_object_id.as_bytes().len();
        if byte_len < 2 {
            proof {
                assert(byte_len == partial_object_id.spec_bytes().len());
                if valid_prefix(partial_object_id@) {
                    lemma_valid_prefix_ascii(partial_object_id@);
                    vstd::utf8::is_ascii_chars_encode_utf8(partial_object_id@);
                    assert(partial_object_id.spec_bytes().len() == partial_object_id@.len());
                }
            }
            return Err(PackError::InvalidObjectId);
        }
        let n = partial_object_id.unicode_len();
        let mut i: usize = 0;
        while i < n
            invariant
                n == partial_object_id@.len(),
                i <= n,
                forall|j: int| 0 <= j < i ==> is_hex_digit_char(#[trigger] partial_object_id@[j]),
            decreases n - i,
        {
            if !is_hex_digit(partial_object_id.get_char(i)) {
                return Err(PackError::InvalidObjectId);
            }
            i = i + 1;
        }
        proof {
            assert(forall|j: int| 0 <= j < partial_object_id@.len() ==> is_hex_digit_char(#[trigger] partial_object_id@[j]));
            lemma_valid_prefix_ascii(partial_object_id@);
            vstd::utf8::is_ascii_chars_encode_utf8(partial_object_id@);
        }
        assert(valid_prefix(partial_object_id@));
        let bytes = partial_object_id.as_bytes();
        assert(bytes@ =~= prefix_bytes(partial_object_id@));
        let pair = &bytes[0..2];
        let ghost c0 = pair@[0];
        let ghost c1 = pair@[1];
        assert(hex_value(c0) is Some);
        assert(hex_value(c1) is Some);
        assert(pair@.skip(2) =~= Seq::<u8>::empty());
        reveal_with_fuel(hex_decoded, 2);
        assert(hex_decoded(pair@) == Some(seq![(hex_value(c0)->0 * 16 + hex_value(c1)->0) as u8]));
        let object_id_start = match hex_decode(pair) {
            Ok(v) => v[0],
            Err(_) => {
                return Err(PackError::InvalidObjectId);
            },
        };
        assert(object_id_start == prefix_first_byte(partial_object_id@));
        let start_idx = if object_id_start == 0 {
            0u32
        } else {
            Self::get_index_offset(index, object_id_start - 1)?
        };
        let end_idx = Self::get_index_offset(index, object_id_start)?;
        Ok(PackIndexOffsetRange { start_idx, end_idx })
    }

    /// Binary search of the ids at positions `obj_range` for one whose hex
    /// text starts with `partial_object_id`.
    ///
    /// Whatever the data, an object found is in the range and matches; when
    /// the ids in the range are sorted, `None` means that none matches.
    fn find_index_object(index: &[u8], partial_object_id: &[u8], obj_range: &PackIndexOffsetRange) -> (res: Result<Option<PackIndexObject>, PackError>)
        requires
            obj_range.start_idx <= obj_range.end_idx,
        ensures
            ids_readable(index@, obj_range.end_idx as int) ==> res is Ok,
            match res {
                Ok(Some(o)) => {
                    &&& obj_range.start_idx <= o.idx < obj_range.end_idx
                    &&& ids_readable(index@, o.idx + 1)
                    &&& names_entry(index@, o)
                    &&& id_matches(index@, o.idx as int, partial_object_id@)
                },
                Ok(None) => ids_sorted_between(index@, obj_range.start_idx as int, obj_range.end_idx as int)
                    ==> forall|i: int| obj_range.start_idx <= i < obj_range.end_idx ==> !#[trigger] id_matches(index@, i, partial_object_id@),
                Err(e) => e == PackError::UnexpectedEof,
            },
            match res {
                Ok(Some(o)) => probe(index@, partial_object_id@, obj_range.start_idx as int, obj_range.end_idx as int)
                    == Ok::<Option<int>, PackError>(Some(o.idx as int)),
                Ok(None) => probe(index@, partial_object_id@, obj_range.start_idx as int, obj_range.end_idx as int)
                    == Ok::<Option<int>, PackError>(None),
                Err(e) => probe(index@, partial_object_id@, obj_range.start_idx as int, obj_range.end_idx as int)
                    == Err::<Option<int>, PackError>(e),
            },
        decreases obj_range.end_idx - obj_range.start_idx,
    {
        if obj_range.is_empty() {
            return Ok(None);
        }
        if obj_range.size() == 1 {
            let obj_id = Self::get_index_object_id_at_pos(index, obj_range.start_idx)?;
            let key = obj_id.as_str().as_bytes();
            proof {
                lemma_hex_lower_bytes(raw_id(index@, obj_range.start_idx as int));
            }
            assert(key@ == id_key(index@, obj_range.start_idx as int));
            if bytes_start_with(key, partial_object_id) {
                return Ok(Some(PackIndexObject { object_id: obj_id, idx: obj_range.start_idx }));
            } else {
                let ghost lo = obj_range.start_idx as int;
                assert(probe(index@, partial_object_id@, lo, lo) == Ok::<Option<int>, PackError>(None));
                assert(probe(index@, partial_object_id@, lo + 1, lo + 1) == Ok::<Option<int>, PackError>(None));
                return Ok(None);
            }
        }
        let mid = obj_range.mid();
        let obj_id = Self::get_index_object_id_at_pos(index, mid)?;
        let key = obj_id.as_str().as_bytes();
        proof {
            lemma_hex_lower_bytes(raw_id(index@, mid as int));
        }
        assert(key@ == id_key(index@, mid as int));
        if bytes_start_with(key, partial_object_id) {
            return Ok(Some(PackIndexObject { object_id: obj_id, idx: mid }));
        }
        let recurse_range = match compare_bytes(partial_object_id, key) {
            KeyOrder::Less => {
                proof {
                    if ids_sorted_between(index@, obj_range.start_idx as int, obj_range.end_idx as int) {
                        assert forall|j: int| mid < j < obj_range.end_idx implies !#[trigger] id_matches(index@, j, partial_object_id@) by {
                            assert(lex_lt(id_key(index@, mid as int), id_key(index@, j)));
                            lemma_no_match_above(partial_object_id@, id_key(index@, mid as int), id_key(index@, j));
                        }
                    }
                }
                PackIndexOffsetRange { start_idx: obj_range.start_idx, end_idx: mid }
            },
            KeyOrder::Greater => {
                proof {
                    if ids_sorted_between(index@, obj_range.start_idx as int, obj_range.end_idx as int) {
                        assert forall|j: int| obj_range.start_idx <= j < mid implies !#[trigger] id_matches(index@, j, partial_object_id@) by {
                            assert(lex_lt(id_key(index@, j), id_key(index@, mid as int)));
                            lemma_no_match_below(partial_object_id@, id_key(index@, mid as int), id_key(index@, j));
                        }
                    }
                }
                PackIndexOffsetRange { start_idx: mid + 1, end_idx: obj_range.end_idx }
            },
            KeyOrder::Equal => {
                return Ok(Some(PackIndexObject { object_id: obj_id, idx: mid }));
            },
        };
        Self::find_index_object(index, partial_object_id, &recurse_range)
    }

    /// Adds to `results` the objects just below position `m` whose hex ids
    /// start with `partial_object_id`, going down until one does not;
    /// returns the lowest position reached.
    fn extend_below(index: &[u8], partial_object_id: &[u8], m: u32, results: &mut Vec<PackIndexObject>) -> (res: Result<u32, PackError>)
        requires
            ids_readable(index@, m + 1),
            id_matches(index@, m as int, partial_object_id@),
            old(results)@.len() >= 1,
            old(results)@.last().idx == m,
        ensures
            match res {
                Ok(lo) => {
                    &&& lo <= m
                    &&& final(results)@.len() == old(results)@.len() + (m - lo)
                    &&& final(results)@.subrange(0, old(results)@.len() as int) == old(results)@
                    &&& forall|q: int| old(results)@.len() <= q < final(results)@.len()
                        ==> #[trigger] final(results)@[q].idx == m - (q - old(results)@.len() + 1)
                    &&& forall|q: int| old(results)@.len() <= q < final(results)@.len()
                        ==> names_entry(index@, #[trigger] final(results)@[q])
                    &&& forall|i: int| lo <= i <= m ==> #[trigger] id_matches(index@, i, partial_object_id@)
                    &&& lo == 0 || !id_matches(index@, lo - 1, partial_object_id@)
                },
                Err(_) => false,
            },
    {
        let ghost start = results@;
        let mut idx_target = m;
        loop
            invariant
                idx_target <= m,
                ids_readable(index@, m + 1),
                results@.len() == start.len() + (m - idx_target),
                results@.subrange(0, start.len() as int) == start,
                forall|q: int| start.len() <= q < results@.len() ==> #[trigger] results@[q].idx == m - (q - start.len() + 1),
                forall|q: int| start.len() <= q < results@.len() ==> names_entry(index@, #[trigger] results@[q]),
                forall|i: int| idx_target <= i <= m ==> #[trigger] id_matches(index@, i, partial_object_id@),
            ensures
                idx_target <= m,
                results@.len() == start.len() + (m - idx_target),
                results@.subrange(0, start.len() as int) == start,
                forall|q: int| start.len() <= q < results@.len() ==> #[trigger] results@[q].idx == m - (q - start.len() + 1),
                forall|q: int| start.len() <= q < results@.len() ==> names_entry(index@, #[trigger] results@[q]),
                forall|i: int| idx_target <= i <= m ==> #[trigger] id_matches(index@, i, partial_object_id@),
                idx_target == 0 || !id_matches(index@, idx_target - 1, partial_object_id@),
            decreases idx_target,
        {
            if idx_target == 0 {
                break;
            }
            let candidate = idx_target - 1;
            let obj_at_target = match Self::get_index_object_id_at_pos(index, candidate) {
                Ok(o) => o,
                Err(e) => {
                    return Err(e);
                },
            };
            let key = obj_at_target.as_str().as_bytes();
            proof {
                lemma_hex_lower_bytes(raw_id(index@, candidate as int));
            }
            assert(key@ == id_key(index@, candidate as int));
            if bytes_start_with(key, partial_object_id) {
                let ghost before = results@;
                results.push(PackIndexObject { object_id: obj_at_target, idx: candidate });
                assert(results@.subrange(0, start.len() as int) =~= before.subrange(0, start.len() as int));
                idx_target = candidate;
            } else {
                break;
            }
        }
        Ok(idx_target)
    }

    /// Adds to `results` the objects just above position `m` whose hex ids
    /// start with `partial_object_id`, going up until one does not or the
    /// object count is reached; returns the highest position reached.
    fn extend_above(&self, index: &[u8], partial_object_id: &[u8], m: u32, results: &mut Vec<PackIndexObject>) -> (res: Result<u32, PackError>)
        ensures
            ids_readable(index@, self.item_count as int) ==> res is Ok,
            match res {
                Ok(hi) => {
                    &&& m <= hi
                    &&& (hi == m || hi < self.item_count)
                    &&& final(results)@.len() == old(results)@.len() + (hi - m)
                    &&& final(results)@.subrange(0, old(results)@.len() as int) == old(results)@
                    &&& forall|q: int| old(results)@.len() <= q < final(results)@.len()
                        ==> #[trigger] final(results)@[q].idx == m + 1 + (q - old(results)@.len())
                    &&& forall|q: int| old(results)@.len() <= q < final(results)@.len()
                        ==> names_entry(index@, #[trigger] final(results)@[q])
                    &&& forall|i: int| m < i <= hi ==> #[trigger] id_matches(index@, i, partial_object_id@)
                    &&& hi + 1 >= self.item_count || !id_matches(index@, hi + 1, partial_object_id@)
                },
                Err(e) => e == PackError::UnexpectedEof,
            },
    {
        let ghost start = results@;
        let mut idx_target = m;
        loop
            invariant
                m <= idx_target,
                idx_target == m || idx_target < self.item_count,
                results@.len() == start.len() + (idx_target - m),
                results@.subrange(0, start.len() as int) == start,
                forall|q: int| start.len() <= q < results@.len() ==> #[trigger] results@[q].idx == m + 1 + (q - start.len()),
                forall|q: int| start.len() <= q < results@.len() ==> names_entry(index@, #[trigger] results@[q]),
                forall|i: int| m < i <= idx_target ==> #[trigger] id_matches(index@, i, partial_object_id@),
            ensures
                m <= idx_target,
                idx_target == m || idx_target < self.item_count,
                results@.len() == start.len() + (idx_target - m),
                results@.subrange(0, start.len() as int) == start,
                forall|q: int| start.len() <= q < results@.len() ==> #[trigger] results@[q].idx == m + 1 + (q - start.len()),
                forall|q: int| start.len() <= q < results@.len() ==> names_entry(index@, #[trigger] results@[q]),
                forall|i: int| m < i <= idx_target ==> #[trigger] id_matches(index@, i, partial_object_id@),
                idx_target + 1 >= self.item_count || !id_matches(index@, idx_target + 1, partial_object_id@),
            decreases self.item_count - idx_target,
        {
            if idx_target >= self.item_count {
                break;
            }
            let candidate = idx_target + 1;
            if candidate >= self.item_count {
                break;
            }
            let obj_at_target = Self::get_index_object_id_at_pos(index, candidate)?;
            let key = obj_at_target.as_str().as_bytes();
            proof {
                lemma_hex_lower_bytes(raw_id(index@, candidate as int));
            }
            assert(key@ == id_key(index@, candidate as int));
            if bytes_start_with(key, partial_object_id) {
                let ghost before = results@;
                results.push(PackIndexObject { object_id: obj_at_target, idx: candidate });
                assert(results@.subrange(0, start.len() as int) =~= before.subrange(0, start.len() as int));
                idx_target = candidate;
            } else {
                break;
            }
        }
        Ok(idx_target)
    }

    /// All objects whose hex ids start with `partial_object_id`: the one the
    /// binary search finds, then its matching neighbours below it, then
    /// those above it.
    ///
    /// For a well-formed index whose object count is the store's, the result
    /// lists exactly the matching objects.
    #[verifier::rlimit(80)]
    fn search_index_objects(&self, index: &[u8], partial_object_id: &str) -> (res: Result<Vec<PackIndexObject>, PackError>)
        ensures
            match res {
                Ok(rs) => valid_prefix(partial_object_id@) && sound_results(index@, rs@, prefix_bytes(partial_object_id@)),
                Err(e) => {
                    &&& (e == PackError::InvalidObjectId <==> !valid_prefix(partial_object_id@))
                    &&& (e == PackError::InvalidObjectId || e == PackError::UnexpectedEof || e == PackError::CorruptFanout)
                },
            },
            match res {
                Ok(rs) => {
                    &&& rs.len() == 0 ==> found_position(index@, partial_object_id@) == Ok::<Option<int>, PackError>(None)
                    &&& rs.len() > 0 ==> found_position(index@, partial_object_id@) == Ok::<Option<int>, PackError>(
                        Some(rs[0].idx as int),
                    )
                    &&& rs.len() > 0 ==> exists|d: int| #[trigger] in_search_order(rs@, rs[0].idx as int, d)
                    &&& fanout_sane(index@, self.spec_item_count() as int) ==> forall|q: int|
                        0 <= q < rs.len() ==> #[trigger] rs[q].idx < self.spec_item_count()
                },
                Err(e) => e == PackError::CorruptFanout ==> fanout_start(index@, prefix_first_byte(partial_object_id@))
                    > fanout_entry(index@, prefix_first_byte(partial_object_id@)),
            },
            valid_prefix(partial_object_id@) && fanout_sane(index@, self.spec_item_count() as int)
                && ids_readable(index@, self.spec_item_count() as int) ==> res is Ok,
            valid_prefix(partial_object_id@) && well_formed_index(index@)
                && self.spec_item_count() == index_item_count(index@) ==> match res {
                Ok(rs) => complete_results(index@, index_item_count(index@), rs@, prefix_bytes(partial_object_id@)),
                Err(_) => false,
            },
    {
        let mut results = Vec::<PackIndexObject>::new();
        let starting_range = Self::get_index_offset_range(index, partial_object_id)?;
        let ghost p = prefix_bytes(partial_object_id@);
        let ghost n = index_item_count(index@);
        let ghost b = prefix_first_byte(partial_object_id@);
        let ghost wf = well_formed_index(index@) && self.item_count == n;
        proof {
            lemma_valid_prefix_ascii(partial_object_id@);
            vstd::utf8::is_ascii_chars_encode_utf8(partial_object_id@);
            assert(vstd::string::is_ascii(partial_object_id));
            assert(0 <= b < 256) by {
                assert(is_hex_digit_char(partial_object_id@[0]));
                assert(is_hex_digit_char(partial_object_id@[1]));
            }
            if fanout_sane(index@, self.item_count as int) {
                if b > 0 {
                    assert(fanout_entry(index@, b - 1) <= fanout_entry(index@, b));
                }
                lemma_fanout_monotone(index@, b, 255);
            }
            if wf {
                lemma_matches_in_fanout_range(index@, partial_object_id@);
                lemma_keys_sorted(index@, n);
            }
        }
        if starting_range.is_empty() {
            assert(wf ==> complete_results(index@, n, results@, p));
            return Ok(results);
        }
        if starting_range.start_idx > starting_range.end_idx {
            return Err(PackError::CorruptFanout);
        }
        let bytes = partial_object_id.as_bytes();
        assert(bytes@ =~= p);
        let first_candidate = Self::find_index_object(index, bytes, &starting_range)?;
        let first_candidate = match first_candidate {
            Some(o) => o,
            None => {
                assert(wf ==> ids_sorted_between(index@, starting_range.start_idx as int, starting_range.end_idx as int));
                assert(wf ==> complete_results(index@, n, results@, p));
                return Ok(results);
            },
        };
        let idx_in_range = first_candidate.idx;
        let ghost m = idx_in_range as int;
        results.push(first_candidate);
        assert(results@[0].idx == m);
        let lo = Self::extend_below(index, bytes, idx_in_range, &mut results)?;
        let ghost left = results@;
        let hi = self.extend_above(index, bytes, idx_in_range, &mut results)?;
        proof {
            let d = m - lo;
            assert forall|q: int| 0 <= q < results@.len() implies results@[q].idx == #[trigger] search_order_position(m, d, q) by {
                if q <= d {
                    assert(results@[q] == left[q]);
                    if q == 0 {
                        assert(left[0].idx == m);
                    }
                }
            }
            assert(in_search_order(results@, m, d)) by {
                reveal(in_search_order);
            }
            lemma_assemble_results(index@, p, self.item_count as int, m, lo as int, hi as int, left, results@, wf);
            if fanout_sane(index@, self.item_count as int) {
                lemma_fanout_monotone(index@, b, 255);
            }
        }
        Ok(results)
    }

    /// The pack address of the object the index finds for `object_id`:
    /// the first match of the search, or `None` when nothing matches.
    #[verifier::spinoff_prover]
    #[verifier::rlimit(100)]
    fn get_object_address(&self, index: &[u8], object_id: &str) -> (res: Result<Option<u64>, PackError>)
        ensures
            lookup_possible(index@, self.item_count as int, object_id@, res),
            lookup_ready(index@, self.item_count as int, object_id@) ==> res == lookup_outcome(
                index@,
                self.item_count as int,
                object_id@,
            ),
            ({
                let p = prefix_bytes(object_id@);
                let n = index_item_count(index@);
                has_index_magic(index@) && valid_prefix(object_id@) && well_formed_index(index@)
                    && self.item_count == n  ==> {
                    &&& (forall|i: int| 0 <= i < n ==> !#[trigger] id_matches(index@, i, p)) <==> res
                        == Ok::<Option<u64>, PackError>(None)
                    &&& forall|i: int| #[trigger] unique_match(index@, n, p, i) ==> res == address_lookup(index@, n, i)
                }
            }),
    {
        if !Self::check_index_version(index)? {
            return Err(PackError::IndexFormatNotRecognised);
        }
        let targets = self.search_index_objects(index, object_id)?;
        let ghost p = prefix_bytes(object_id@);
        let ghost n = index_item_count(index@);
        proof {
            if well_formed_index(index@) && self.item_count == n  {
                lemma_complete_first(index@, n, targets@, p);
            }
        }
        if targets.len() == 0 {
            return Ok(None);
        }
        assert(id_matches(index@, targets@[0].idx as int, p));

        let found = self.get_object_address_from_index(index, targets[0].idx);
        proof {
            if has_index_magic(index@) && valid_prefix(object_id@) && well_formed_index(index@)
                && self.item_count == n  {
                assert(lists_object(targets@, targets@[0].idx as int));
                assert forall|i: int| #[trigger] unique_match(index@, n, p, i) implies targets@[0].idx == i by {
                }
            }
        }
        match found {
            Ok(a) => Ok(Some(a)),
            Err(e) => Err(e),
        }
    }

    /// Reads the object that `object_id` names: finds its address through
    /// the index, checks the pack's header, decodes the object's header and
    /// decompresses its data. `None` when the index has no such object.
    pub fn read_object(&self, index: &[u8], pack_file: &[u8], object_id: &str) -> (res: Result<Option<RawObject>, PackError>)
        ensures
            match res {
                Ok(None) => {
                    &&& has_index_magic(index@)
                    &&& valid_prefix(object_id@)
                    &&& found_position(index@, object_id@) == Ok::<Option<int>, PackError>(None)
                },
                Ok(Some(obj)) => {
                    &&& has_index_magic(index@)
                    &&& valid_prefix(object_id@)
                    &&& obj.object_id@ == object_id@
                    &&& fanout_sane(index@, self.spec_item_count() as int) ==> found_position(index@, object_id@)->Ok_0->Some_0
                        < self.spec_item_count()
                    &&& exists|a: u64|
                        #[trigger] found_at_address(index@, self.spec_item_count() as int, object_id@, a) && read_at(
                            pack_file@,
                            self.spec_item_count(),
                            self.spec_primary_file_len(),
                            a,
                        ) is Ok && carries(
                            obj,
                            read_at(pack_file@, self.spec_item_count(), self.spec_primary_file_len(), a)->Ok_0,
                        )
                },
                Err(e) => {
                    &&& (e == PackError::IndexFormatNotRecognised <==> index@.len() >= 8 && !has_index_magic(index@))
                    &&& (e == PackError::InvalidObjectId <==> has_index_magic(index@) && !valid_prefix(object_id@))
                },
            },
            exists|l: Result<Option<u64>, PackError>|
                #[trigger] lookup_possible(index@, self.spec_item_count() as int, object_id@, l) && read_result_is(
                    res,
                    read_after_lookup(l, pack_file@, self.spec_item_count(), self.spec_primary_file_len()),
                    object_id@,
                ),
            lookup_ready(index@, self.spec_item_count() as int, object_id@) ==> read_result_is(
                res,
                read_after_lookup(
                    lookup_outcome(index@, self.spec_item_count() as int, object_id@),
                    pack_file@,
                    self.spec_item_count(),
                    self.spec_primary_file_len(),
                ),
                object_id@,
            ),
            ({
                let p = prefix_bytes(object_id@);
                let n = index_item_count(index@);
                has_index_magic(index@) && valid_prefix(object_id@) && well_formed_index(index@)
                    && self.spec_item_count() == n ==> {
                    &&& (forall|i: int| 0 <= i < n ==> !#[trigger] id_matches(index@, i, p)) <==> (res is Ok
                        && res->Ok_0 is None)
                    &&& forall|i: int|
                        #[trigger] unique_match(index@, n, p, i) ==> read_result_is(
                            res,
                            read_after_lookup(
                                address_lookup(index@, n, i),
                                pack_file@,
                                self.spec_item_count(),
                                self.spec_primary_file_len(),
                            ),
                            object_id@,
                        )
                }
            }),
    {
        let lookup = self.get_object_address(index, object_id);
        let ghost l = lookup;
        let ghost outcome = read_after_lookup(lookup, pack_file@, self.item_count, self.primary_file_len);
        let object_address = match lookup {
            Err(e) => {
                return Err(e);
            },
            Ok(None) => {
                return Ok(None);
            },
            Ok(Some(a)) => a,
        };
        let ghost a = object_address;
        let header_ok = match self.check_pack_version(pack_file) {
            Err(e) => {
                return Err(e);
            },
            Ok(b) => b,
        };
        if !header_ok {
            return Err(PackError::PackFormatNotRecognised);
        }
        let meta = match self.get_packed_object_metadata(pack_file, object_address) {
            Err(e) => {
                return Err(e);
            },
            Ok(m) => m,
        };
        proof {
            lemma_header_data_start(pack_file@, self.primary_file_len, object_address);
        }
        let data_start = meta.data_start_address as usize;
        let decompressed = zlib_decompress(&pack_file[data_start..pack_file.len()]);
        assert(pack_file@.subrange(data_start as int, pack_file@.len() as int) =~= pack_file@.skip(data_start as int));
        assert(found_at_address(index@, self.item_count as int, object_id@, a));
        object_from_decompressed(decompressed, object_id, meta)
    }

    /// The hex ids of all objects whose ids start with `partial_object_id`.
    pub fn search_objects(&self, index: &[u8], partial_object_id: &str) -> (res: Result<Vec<String>, PackError>)
        ensures
            match res {
                Ok(ids) => {
                    &&& has_index_magic(index@)
                    &&& valid_prefix(partial_object_id@)
                    &&& forall|q: int| 0 <= q < ids@.len() ==> names_some_match(index@, prefix_bytes(partial_object_id@), #[trigger] ids@[q]@)
                    &&& listed_in_search_order(index@, ids@, partial_object_id@)
                },
                Err(e) => {
                    &&& (e == PackError::IndexFormatNotRecognised <==> index@.len() >= 8 && !has_index_magic(index@))
                    &&& (e == PackError::InvalidObjectId <==> has_index_magic(index@) && !valid_prefix(partial_object_id@))
                },
            },
            ({
                let p = prefix_bytes(partial_object_id@);
                let n = index_item_count(index@);
                has_index_magic(index@) && valid_prefix(partial_object_id@) && well_formed_index(index@)
                    && self.spec_item_count() == n ==> (res is Ok && lists_exactly(res->Ok_0@, index@, n, p))
            }),
    {
        if !Self::check_index_version(index)? {
            return Err(PackError::IndexFormatNotRecognised);
        }
        let found_objects = self.search_index_objects(index, partial_object_id)?;
        let ghost found = found_objects@;
        let mut ids: Vec<String> = Vec::new();
        let mut k: usize = 0;
        let n = found_objects.len();
        while k < n
            invariant
                found == found_objects@,
                n == found_objects@.len(),
                k <= n,
                ids@.len() == k,
                forall|q: int| 0 <= q < k ==> #[trigger] ids@[q]@ == found[q].object_id@,
            decreases n - k,
        {
            ids.push(found_objects[k].object_id.clone());
            k = k + 1;
        }
        proof {
            let p = prefix_bytes(partial_object_id@);
            assert forall|q: int| 0 <= q < ids@.len() implies names_some_match(index@, p, #[trigger] ids@[q]@) by {
                assert(names_entry(index@, found[q]));
                assert(id_matches(index@, found[q].idx as int, p));
            }
            assert(listed_in_search_order(index@, ids@, partial_object_id@)) by {
                if found.len() > 0 {
                    let m = found[0].idx as int;
                    assert(found_position(index@, partial_object_id@) == Ok::<Option<int>, PackError>(Some(m)));
                    let d = choose|d: int| #[trigger] in_search_order(found, m, d);
                    lemma_ids_in_search_order(index@, found, ids@, m, d);
                    assert(ids_in_search_order(index@, ids@, found_position(index@, partial_object_id@)->Ok_0->Some_0, d));
                } else {
                    assert(found_position(index@, partial_object_id@) == Ok::<Option<int>, PackError>(None));
                }
            }
            if well_formed_index(index@) && self.item_count == index_item_count(index@) {
                lemma_keys_sorted(index@, index_item_count(index@));
                lemma_ids_listed(index@, index_item_count(index@), p, found, ids@);
            }
        }
        Ok(ids)
    }

    /// Whether the index has an object whose hex id starts with `object_id`.
    pub fn has_object(&self, index: &[u8], object_id: &str) -> (res: Result<bool, PackError>)
        ensures
            match res {
                Ok(b) => {
                    &&& has_index_magic(index@)
                    &&& valid_prefix(object_id@)
                    &&& b ==> exists|i: int| #[trigger] id_matches(index@, i, prefix_bytes(object_id@))
                },
                Err(e) => {
                    &&& (e == PackError::IndexFormatNotRecognised <==> index@.len() >= 8 && !has_index_magic(index@))
                    &&& (e == PackError::InvalidObjectId <==> has_index_magic(index@) && !valid_prefix(object_id@))
                },
            },
            ({
                let p = prefix_bytes(object_id@);
                let n = index_item_count(index@);
                has_index_magic(index@) && valid_prefix(object_id@) && well_formed_index(index@)
                    && self.spec_item_count() == n ==> res == Ok::<bool, PackError>(exists|i: int| 0 <= i < n && #[trigger] id_matches(index@, i, p))
            }),
    {
        if !Self::check_index_version(index)? {
            return Err(PackError::IndexFormatNotRecognised);
        }
        let found_objects = self.search_index_objects(index, object_id)?;
        proof {
            let p = prefix_bytes(object_id@);
            if found_objects@.len() > 0 {
                assert(id_matches(index@, found_objects@[0].idx as int, p));
            }
            if has_index_magic(index@) && valid_prefix(object_id@) && well_formed_index(index@)
                && self.spec_item_count() == index_item_count(index@)  {
                if found_objects@.len() > 0 {
                    assert(lists_object(found_objects@, found_objects@[0].idx as int));
                } else {
                    assert forall|i: int| 0 <= i < index_item_count(index@) implies !#[trigger] id_matches(index@, i, p) by {
                        if id_matches(index@, i, p) {
                            assert(lists_object(found_objects@, i));
                        }
                    }
                }
            }
        }
        Ok(!found_objects.is_empty())
    }

    /// Packs cannot be created: always fails.
    pub fn create(&self) -> (res: Result<(), PackError>)
        ensures
            res == Err::<(), PackError>(PackError::CreationNotSupported),
    {
        Err(PackError::CreationNotSupported)
    }

    /// Packs are never writeable.
    pub fn _is_writeable(&self) -> (b: bool)
        ensures
            !b,
    {
        false
    }

    /// Objects cannot be written to packs: always fails.
    pub fn write_raw_object(&self, _obj: &RawObject) -> (res: Result<String, PackError>)
        ensures
            res matches Err(e) && e == PackError::WritingNotSupported,
    {
        Err(PackError::WritingNotSupported)
    }
}

} // verus!
