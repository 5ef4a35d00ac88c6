//! The layout of version-2 pack index files, and the byte-string order
//! that lookups in them rely on.
//!
//! An index starts with an eight-byte magic, then a fan-out table of 256
//! big-endian `u32` counts (entry `b` is the number of objects whose first
//! id byte is at most `b`; the last entry is the object count), then the
//! sorted 20-byte object ids, then one 4-byte checksum per object, then
//! one 4-byte offset per object, then the 8-byte large offsets.

use vstd::prelude::*;

use crate::shared::helpers::{be_u32_at, be_u64_at};
use crate::shared::hexcodec::{
    hex_digit_code, hex_lower_bytes, hex_value, lemma_hex_digit_code_order, lemma_hex_lower_bytes_index,
};

verus! {

/// The magic and version that start a version-2 pack index.
pub open spec fn index_magic() -> Seq<u8> {
    seq![255u8, 116u8, 79u8, 99u8, 0u8, 0u8, 0u8, 2u8]
}

/// The magic and version that start a version-2 pack file.
pub open spec fn pack_magic() -> Seq<u8> {
    seq![80u8, 65u8, 67u8, 75u8, 0u8, 0u8, 0u8, 2u8]
}

/// Fan-out entry `b`: how many objects have a first id byte of at most `b`.
pub open spec fn fanout_entry(index: Seq<u8>, b: int) -> int {
    be_u32_at(index, 8 + 4 * b)
}

/// Where the objects whose first id byte is `b` start in the sorted table.
pub open spec fn fanout_start(index: Seq<u8>, b: int) -> int {
    if b == 0 {
        0
    } else {
        fanout_entry(index, b - 1)
    }
}

/// The object count, which is the last fan-out entry.
pub open spec fn index_item_count(index: Seq<u8>) -> int {
    fanout_entry(index, 255)
}

/// Where the id of object `i` starts.
pub open spec fn id_offset(i: int) -> int {
    1032 + 20 * i
}

/// The 20 raw bytes of the id of object `i`.
pub open spec fn raw_id(index: Seq<u8>, i: int) -> Seq<u8> {
    index.subrange(id_offset(i), id_offset(i) + 20)
}

/// The bytes of the lowercase hex text of the id of object `i`.
pub open spec fn id_key(index: Seq<u8>, i: int) -> Seq<u8> {
    hex_lower_bytes(raw_id(index, i))
}

/// The ids of objects `0..n` can all be read.
pub open spec fn ids_readable(index: Seq<u8>, n: int) -> bool {
    index.len() >= id_offset(n)
}

/// Where the small (4-byte) offset of object `i` is, for an index of `n` objects.
pub open spec fn small_offset_pos(n: int, i: int) -> int {
    1032 + 24 * n + 4 * i
}

/// Where large offset entry `k` is, for an index of `n` objects.
pub open spec fn large_offset_pos(n: int, k: int) -> int {
    1032 + 28 * n + 8 * k
}

/// The pack address that the index records for object `i`, reading it as
/// an index of `n` objects.
///
/// A small offset below `0x8000_0000` is the address. A small offset with
/// its top bit set holds, in its low 31 bits, the number of the large
/// offset entry that is the address. `None` when the bytes to read lie
/// past the end of the index.
pub open spec fn recorded_address(index: Seq<u8>, n: int, i: int) -> Option<u64> {
    let pos = small_offset_pos(n, i);
    let small = be_u32_at(index, pos);
    if index.len() < pos + 4 {
        None
    } else if small < 0x8000_0000 {
        Some(small as u64)
    } else if index.len() < large_offset_pos(n, small - 0x8000_0000) + 8 {
        None
    } else {
        Some(be_u64_at(index, large_offset_pos(n, small - 0x8000_0000)) as u64)
    }
}

/// The fan-out table never decreases and its last entry is `n`, the object
/// count.
pub open spec fn fanout_sane(index: Seq<u8>, n: int) -> bool {
    &&& index.len() >= 1032
    &&& index_item_count(index) == n
    &&& forall|b: int| 0 <= b < 255 ==> #[trigger] fanout_entry(index, b) <= fanout_entry(index, b + 1)
}

/// `p` is a prefix of `s`.
pub open spec fn starts_with(s: Seq<u8>, p: Seq<u8>) -> bool {
    &&& p.len() <= s.len()
    &&& forall|j: int| 0 <= j < p.len() ==> s[j] == p[j]
}

/// `a` and `b` agree before position `k`, and there `a` ends first or holds
/// the smaller byte.
pub open spec fn lex_lt_at(a: Seq<u8>, b: Seq<u8>, k: int) -> bool {
    &&& 0 <= k <= a.len()
    &&& k <= b.len()
    &&& forall|j: int| 0 <= j < k ==> a[j] == b[j]
    &&& ((k == a.len() && k < b.len()) || (k < a.len() && k < b.len() && a[k] < b[k]))
}

/// Lexicographic byte order, the order of `str` comparison.
pub open spec fn lex_lt(a: Seq<u8>, b: Seq<u8>) -> bool {
    exists|k: int| #[trigger] lex_lt_at(a, b, k)
}

/// The keys of objects `lo..hi` are strictly increasing.
pub open spec fn ids_sorted_between(index: Seq<u8>, lo: int, hi: int) -> bool {
    forall|i: int, j: int|
        lo <= i < j < hi ==> #[trigger] lex_lt(id_key(index, i), id_key(index, j))
}

/// The hex text of the id of object `i` starts with `prefix`.
pub open spec fn id_matches(index: Seq<u8>, i: int, prefix: Seq<u8>) -> bool {
    starts_with(id_key(index, i), prefix)
}

/// A well-formed version-2 index: the table of ids is complete, the ids are
/// sorted, and the fan-out table counts them by first byte.
pub open spec fn well_formed_index(index: Seq<u8>) -> bool {
    let n = index_item_count(index);
    &&& index.len() >= 1032
    &&& ids_readable(index, n)
    &&& forall|b: int| 0 <= b < 255 ==> #[trigger] fanout_entry(index, b) <= fanout_entry(index, b + 1)
    &&& raw_ids_sorted_between(index, 0, n)
    &&& forall|i: int, b: int|
        0 <= i < n && 0 <= b < 256 ==> ((fanout_start(index, b) <= i < #[trigger] fanout_entry(index, b))
            <==> #[trigger] raw_id(index, i)[0] == b)
}

/// A character that is a hexadecimal digit of either case.
pub open spec fn is_hex_digit_char(c: char) -> bool {
    ('0' <= c <= '9') || ('a' <= c <= 'f') || ('A' <= c <= 'F')
}

/// A usable partial object id: at least two characters, all hex digits.
pub open spec fn valid_prefix(p: Seq<char>) -> bool {
    &&& p.len() >= 2
    &&& forall|i: int| 0 <= i < p.len() ==> is_hex_digit_char(#[trigger] p[i])
}

/// The ASCII bytes of a partial id made of hex digits.
pub open spec fn prefix_bytes(p: Seq<char>) -> Seq<u8> {
    Seq::new(p.len(), |i: int| p[i] as u8)
}

/// The id byte that the first two digits of a partial id name.
pub open spec fn prefix_first_byte(p: Seq<char>) -> int {
    hex_value(p[0] as u8)->0 * 16 + hex_value(p[1] as u8)->0
}

// ---------------------------------------------------------------------
// Facts about the byte order.

/// Two sequences that differ are ordered one way or the other.
pub proof fn lemma_lex_total(a: Seq<u8>, b: Seq<u8>)
    ensures
        a == b || lex_lt(a, b) || lex_lt(b, a),
{
    lemma_lex_total_from(a, b, 0);
}

proof fn lemma_lex_total_from(a: Seq<u8>, b: Seq<u8>, k: int)
    requires
        0 <= k <= a.len(),
        k <= b.len(),
        forall|j: int| 0 <= j < k ==> a[j] == b[j],
    ensures
        a == b || lex_lt(a, b) || lex_lt(b, a),
    decreases a.len() - k,
{
    if k == a.len() && k == b.len() {
        assert(a =~= b);
    } else if k == a.len() {
        assert(lex_lt_at(a, b, k));
    } else if k == b.len() {
        assert(lex_lt_at(b, a, k));
    } else if a[k] < b[k] {
        assert(lex_lt_at(a, b, k));
    } else if b[k] < a[k] {
        assert(lex_lt_at(b, a, k));
    } else {
        lemma_lex_total_from(a, b, k + 1);
    }
}

/// The order is irreflexive, and a sequence is not below one of its prefixes.
pub proof fn lemma_lex_lt_not_prefix(a: Seq<u8>, p: Seq<u8>)
    requires
        starts_with(a, p),
    ensures
        !lex_lt(a, p),
{
    if lex_lt(a, p) {
        let k = choose|k: int| lex_lt_at(a, p, k);
        assert(a[k] == p[k]);
    }
}

/// Above a key that is greater than `p` without starting with it, no key
/// starts with `p`.
pub proof fn lemma_no_match_above(p: Seq<u8>, a: Seq<u8>, b: Seq<u8>)
    requires
        !starts_with(a, p),
        lex_lt(p, a),
        lex_lt(a, b),
    ensures
        !starts_with(b, p),
{
    let k = choose|k: int| lex_lt_at(p, a, k);
    let k2 = choose|k2: int| lex_lt_at(a, b, k2);
    if k == p.len() {
        assert(starts_with(a, p));
    }
    if starts_with(b, p) {
        if k2 < k {
            assert(a[k2] == p[k2]);
            assert(b[k2] == p[k2]);
        } else if k2 == k {
            assert(b[k] == p[k]);
        } else {
            assert(a[k] == b[k]);
            assert(b[k] == p[k]);
        }
    }
}

/// Below a key that is less than `p` without starting with it, no key
/// starts with `p`.
pub proof fn lemma_no_match_below(p: Seq<u8>, a: Seq<u8>, b: Seq<u8>)
    requires
        !starts_with(a, p),
        lex_lt(a, p),
        lex_lt(b, a),
    ensures
        !starts_with(b, p),
{
    let k = choose|k: int| lex_lt_at(a, p, k);
    let k2 = choose|k2: int| lex_lt_at(b, a, k2);
    if starts_with(b, p) {
        if k == a.len() {
            if k2 == b.len() {
                assert(false);
            } else {
                assert(a[k2] == p[k2]);
                assert(b[k2] == p[k2]);
            }
        } else {
            if k2 == b.len() {
                assert(false);
            } else if k2 < k {
                assert(a[k2] == p[k2]);
                assert(b[k2] == p[k2]);
            } else if k2 == k {
                assert(b[k] == p[k]);
            } else {
                assert(a[k] == b[k]);
                assert(b[k] == p[k]);
            }
        }
    }
}

/// Keys that lie between two keys starting with `p` start with `p` too.
pub proof fn lemma_match_between(p: Seq<u8>, a: Seq<u8>, b: Seq<u8>, c: Seq<u8>)
    requires
        starts_with(a, p),
        starts_with(c, p),
        lex_lt(a, b),
        lex_lt(b, c),
    ensures
        starts_with(b, p),
{
    if !starts_with(b, p) {
        lemma_lex_total(p, b);
        if p == b {
            assert(starts_with(b, p));
        } else if lex_lt(p, b) {
            lemma_no_match_above(p, b, c);
        } else {
            lemma_no_match_below(p, b, a);
        }
    }
}

/// Hex text keeps the order of equally long byte strings.
pub proof fn lemma_hex_keeps_order(a: Seq<u8>, b: Seq<u8>)
    requires
        a.len() == b.len(),
        lex_lt(a, b),
    ensures
        lex_lt(hex_lower_bytes(a), hex_lower_bytes(b)),
{
    let k = choose|k: int| lex_lt_at(a, b, k);
    lemma_hex_lower_bytes_index(a);
    lemma_hex_lower_bytes_index(b);
    let ha = hex_lower_bytes(a);
    let hb = hex_lower_bytes(b);
    assert(k < a.len());
    assert forall|t: int| 0 <= t < 2 * k implies ha[t] == hb[t] by {
        let j = t / 2;
        assert(a[j] == b[j]);
        assert(ha[2 * j] == hex_digit_code(a[j] as int / 16));
        assert(hb[2 * j] == hex_digit_code(b[j] as int / 16));
        if t == 2 * j + 1 {
            assert(ha[2 * j + 1] == hex_digit_code(a[j] as int % 16));
            assert(hb[2 * j + 1] == hex_digit_code(b[j] as int % 16));
        }
    }
    assert(ha[2 * k] == hex_digit_code(a[k] as int / 16));
    assert(hb[2 * k] == hex_digit_code(b[k] as int / 16));
    if a[k] as int / 16 < b[k] as int / 16 {
        lemma_hex_digit_code_order(a[k] as int / 16, b[k] as int / 16);
        assert(lex_lt_at(ha, hb, 2 * k));
    } else {
        assert(a[k] as int / 16 == b[k] as int / 16);
        assert(a[k] as int % 16 < b[k] as int % 16);
        lemma_hex_digit_code_order(a[k] as int % 16, b[k] as int % 16);
        assert(ha[2 * k + 1] == hex_digit_code(a[k] as int % 16));
        assert(hb[2 * k + 1] == hex_digit_code(b[k] as int % 16));
        assert(lex_lt_at(ha, hb, 2 * k + 1));
    }
}

/// The raw ids of objects `lo..hi` are strictly increasing.
pub open spec fn raw_ids_sorted_between(index: Seq<u8>, lo: int, hi: int) -> bool {
    forall|i: int, j: int|
        lo <= i < j < hi ==> #[trigger] lex_lt(raw_id(index, i), raw_id(index, j))
}

/// When the raw ids are sorted, so is their hex text.
pub proof fn lemma_keys_sorted(index: Seq<u8>, n: int)
    requires
        raw_ids_sorted_between(index, 0, n),
        ids_readable(index, n),
    ensures
        ids_sorted_between(index, 0, n),
{
    assert forall|i: int, j: int| 0 <= i < j < n implies #[trigger] lex_lt(id_key(index, i), id_key(index, j)) by {
        assert(lex_lt(raw_id(index, i), raw_id(index, j)));
        lemma_hex_keeps_order(raw_id(index, i), raw_id(index, j));
    }
}

} // verus!
