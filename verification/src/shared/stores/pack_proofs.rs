//! Proofs about searching a pack index and decoding object headers.

use vstd::arithmetic::mul::{lemma_mul_inequality, lemma_mul_nonnegative};
use vstd::arithmetic::power2::{lemma2_to64, lemma_pow2_adds, lemma_pow2_pos, pow2};
use vstd::bits::{lemma_u64_pow2_no_overflow, lemma_u64_shl_is_mul};
use vstd::prelude::*;

use crate::shared::hexcodec::{hex_digit_code, hex_lower, hex_lower_bytes, lemma_hex_lower_bytes, lemma_hex_pair_roundtrip};
use crate::shared::stores::pack_format::{
    fanout_entry, fanout_start, id_key, id_matches, ids_readable, ids_sorted_between, index_item_count,
    is_hex_digit_char, lemma_lex_lt_not_prefix, lemma_match_between, lex_lt, prefix_bytes, prefix_first_byte, raw_id,
    valid_prefix, well_formed_index,
};
use crate::shared::stores::pack_store::{
    complete_results, header_window, ids_in_search_order, in_search_order, search_order_position, is_matching_id, lists_exactly, lists_object, names_entry, parse_object_header, size_from,
    size_shift, sound_results, unique_match, PackIndexObject,
};

verus! {

/// Every fan-out entry from `b` on is at least entry `b`, when the table
/// never decreases.
pub(crate) proof fn lemma_fanout_monotone(index: Seq<u8>, b: int, c: int)
    requires
        0 <= b <= c < 256,
        forall|x: int| 0 <= x < 255 ==> #[trigger] fanout_entry(index, x) <= fanout_entry(index, x + 1),
    ensures
        fanout_entry(index, b) <= fanout_entry(index, c),
    decreases c - b,
{
    if b < c {
        lemma_fanout_monotone(index, b, c - 1);
        assert(fanout_entry(index, c - 1) <= fanout_entry(index, c));
    }
}

/// An id whose hex text starts with a valid partial id has the first byte
/// that the partial id's first two digits name.
pub(crate) proof fn lemma_match_first_byte(index: Seq<u8>, i: int, p: Seq<char>)
    requires
        valid_prefix(p),
        ids_readable(index, i + 1),
        0 <= i,
        id_matches(index, i, prefix_bytes(p)),
    ensures
        raw_id(index, i)[0] == prefix_first_byte(p),
{
    let raw = raw_id(index, i);
    let key = id_key(index, i);
    assert(key == hex_lower_bytes(raw));
    assert(raw.len() == 20);
    assert(key[0] == hex_digit_code(raw[0] as int / 16));
    assert(key[1] == hex_digit_code(raw[0] as int % 16));
    assert(prefix_bytes(p)[0] == p[0] as u8);
    assert(prefix_bytes(p)[1] == p[1] as u8);
    lemma_hex_pair_roundtrip(raw[0]);
}

/// The characters of a string of hex digits are ASCII.
pub(crate) proof fn lemma_valid_prefix_ascii(p: Seq<char>)
    requires
        forall|j: int| 0 <= j < p.len() ==> is_hex_digit_char(#[trigger] p[j]),
    ensures
        vstd::utf8::is_ascii_chars(p),
{
    assert forall|j: int| 0 <= j < p.len() implies '\0' <= #[trigger] p[j] <= '\u{7f}' by {
        assert(is_hex_digit_char(p[j]));
    }
}

/// In a sorted table, a run of matching positions that cannot be extended
/// at either end holds every matching position.
pub(crate) proof fn lemma_run_complete(index: Seq<u8>, p: Seq<u8>, n: int, m: int, lo: int, hi: int)
    requires
        ids_sorted_between(index, 0, n),
        0 <= lo <= m <= hi,
        m < n,
        forall|i: int| lo <= i <= hi ==> #[trigger] id_matches(index, i, p),
        lo == 0 || !id_matches(index, lo - 1, p),
        hi + 1 >= n || !id_matches(index, hi + 1, p),
    ensures
        forall|i: int| 0 <= i < n && #[trigger] id_matches(index, i, p) ==> lo <= i <= hi,
{
    assert forall|i: int| 0 <= i < n && #[trigger] id_matches(index, i, p) implies lo <= i <= hi by {
        assert(id_matches(index, m, p));
        if i < lo - 1 {
            assert(lex_lt(id_key(index, i), id_key(index, lo - 1)));
            assert(lex_lt(id_key(index, lo - 1), id_key(index, m)));
            lemma_match_between(p, id_key(index, i), id_key(index, lo - 1), id_key(index, m));
        }
        if hi + 1 < i {
            assert(lex_lt(id_key(index, m), id_key(index, hi + 1)));
            assert(lex_lt(id_key(index, hi + 1), id_key(index, i)));
            lemma_match_between(p, id_key(index, m), id_key(index, hi + 1), id_key(index, i));
        }
    }
}

/// The results of a search, put together from the first candidate `m`,
/// the run below it down to `lo` and the run above it up to `hi`, are
/// sound, and complete for a sorted table whose runs could not be extended.
pub(crate) proof fn lemma_assemble_results(
    index: Seq<u8>,
    p: Seq<u8>,
    n: int,
    m: int,
    lo: int,
    hi: int,
    left: Seq<PackIndexObject>,
    results: Seq<PackIndexObject>,
    sorted: bool,
)
    requires
        0 <= lo <= m <= hi,
        left.len() == 1 + (m - lo),
        left[0].idx == m,
        names_entry(index, left[0]),
        forall|q: int| 1 <= q < left.len() ==> #[trigger] left[q].idx == m - q,
        forall|q: int| 1 <= q < left.len() ==> names_entry(index, #[trigger] left[q]),
        forall|i: int| lo <= i <= m ==> #[trigger] id_matches(index, i, p),
        lo == 0 || !id_matches(index, lo - 1, p),
        results.len() == left.len() + (hi - m),
        results.subrange(0, left.len() as int) == left,
        forall|q: int| left.len() <= q < results.len() ==> #[trigger] results[q].idx == m + 1 + (q - left.len()),
        forall|q: int| left.len() <= q < results.len() ==> names_entry(index, #[trigger] results[q]),
        forall|i: int| m < i <= hi ==> #[trigger] id_matches(index, i, p),
        hi + 1 >= n || !id_matches(index, hi + 1, p),
        sorted ==> ids_sorted_between(index, 0, n) && m < n && hi < n,
    ensures
        sound_results(index, results, p),
        sorted ==> complete_results(index, n, results, p),
        results[0].idx == m,
        forall|q: int| 0 <= q < results.len() ==> lo <= #[trigger] results[q].idx <= hi,
{
    let left_len = left.len() as int;
    assert forall|q: int| 0 <= q < results.len() implies #[trigger] results[q].idx == if q < left_len {
        m - q
    } else {
        m + 1 + (q - left_len)
    } by {
        if q < left_len {
            assert(results[q] == results.subrange(0, left_len)[q]);
        }
    }
    assert forall|q: int| 0 <= q < results.len() implies names_entry(index, #[trigger] results[q]) by {
        if q < left_len {
            assert(results[q] == results.subrange(0, left_len)[q]);
        }
    }
    assert forall|q: int| 0 <= q < results.len() implies lo <= #[trigger] results[q].idx <= hi by {
        assert(results[q].idx == if q < left_len {
            m - q
        } else {
            m + 1 + (q - left_len)
        });
    }
    assert(results[0] == results.subrange(0, left_len)[0]);
    assert forall|q: int| 0 <= q < results.len() implies id_matches(index, #[trigger] results[q].idx as int, p) by {
        assert(lo <= results[q].idx <= hi);
    }
    if sorted {
        lemma_run_complete(index, p, n, m, lo, hi);
        assert forall|i: int| #[trigger] lists_object(results, i) <==> (0 <= i < n && id_matches(index, i, p)) by {
            if lists_object(results, i) {
                let q = choose|q: int| 0 <= q < results.len() && #[trigger] results[q].idx == i;
                assert(lo <= results[q].idx <= hi);
            }
            if 0 <= i < n && id_matches(index, i, p) {
                if i <= m {
                    assert(results[m - i].idx == i);
                } else {
                    assert(results[left_len + (i - m - 1)].idx == i);
                }
            }
        }
    }
}

/// In a well-formed index, every object whose hex id starts with a valid
/// partial id lies in the fan-out range of the partial id's first byte,
/// and that range lies within the table.
pub(crate) proof fn lemma_matches_in_fanout_range(index: Seq<u8>, p: Seq<char>)
    requires
        well_formed_index(index),
        valid_prefix(p),
    ensures
        0 <= fanout_start(index, prefix_first_byte(p)) <= fanout_entry(index, prefix_first_byte(p))
            <= index_item_count(index),
        forall|i: int|
            0 <= i < index_item_count(index) && #[trigger] id_matches(index, i, prefix_bytes(p)) ==> fanout_start(
                index,
                prefix_first_byte(p),
            ) <= i < fanout_entry(index, prefix_first_byte(p)),
        forall|i: int|
            #![trigger lists_object(Seq::<PackIndexObject>::empty(), i)]
            fanout_start(index, prefix_first_byte(p)) == fanout_entry(index, prefix_first_byte(p)) ==>
            (lists_object(Seq::<PackIndexObject>::empty(), i) <==> (0 <= i < index_item_count(index)
                && id_matches(index, i, prefix_bytes(p)))),
{
    let b = prefix_first_byte(p);
    assert(is_hex_digit_char(p[0]));
    assert(is_hex_digit_char(p[1]));
    assert(0 <= b < 256);
    if b > 0 {
        assert(fanout_entry(index, b - 1) <= fanout_entry(index, b));
    }
    lemma_fanout_monotone(index, b, 255);
    assert forall|i: int|
        0 <= i < index_item_count(index) && #[trigger] id_matches(index, i, prefix_bytes(p)) implies fanout_start(index, b) <= i < fanout_entry(index, b) by {
        lemma_match_first_byte(index, i, p);
        assert(raw_id(index, i)[0] == b);
    }
}

/// Decoding a size never reads past the header bytes it was given.
pub(crate) proof fn lemma_size_from_bound(buf: Seq<u8>, k: int, acc: u64)
    requires
        size_from(buf, k, acc) is Some,
    ensures
        k <= (size_from(buf, k, acc)->0).1 <= buf.len(),
    decreases buf.len() - k,
{
    if k >= 1 && k <= buf.len() && buf[k - 1] >= 0x80 && k < buf.len() && size_shift(k) < 64 {
        lemma_size_from_bound(buf, k + 1, acc | (((buf[k] & 0x7f) as u64) << (size_shift(k) as u64)));
    }
}

/// The object header in `buf` ends at byte `k` (counting from 1): every
/// byte before byte `k - 1` is `0x80` or above, and byte `k - 1` is below
/// `0x80`, or it is the last byte of `buf` and `buf` holds at least two.
pub open spec fn header_ends_at(buf: Seq<u8>, k: int) -> bool {
    &&& 1 <= k <= buf.len()
    &&& forall|j: int| 0 <= j < k - 1 ==> buf[j] >= 0x80
    &&& (buf[k - 1] < 0x80 || (k == buf.len() && k >= 2))
}

/// An object header runs to its first byte below `0x80`, or to the end of
/// the bytes read: a size decodes when that end is within the first ten
/// bytes, the header is then exactly that long, and nothing decodes
/// otherwise.
pub proof fn lemma_header_length(buf: Seq<u8>, acc: u64, k: int)
    ensures
        size_from(buf, 1, acc) matches Some((s, m)) ==> header_ends_at(buf, m) && m <= 10,
        header_ends_at(buf, k) && k <= 10 ==> (size_from(buf, 1, acc) matches Some((s, m)) && m == k),
{
    lemma_header_length_from(buf, 1, acc, k);
}

proof fn lemma_header_length_from(buf: Seq<u8>, t: int, acc: u64, k: int)
    requires
        1 <= t <= 10,
        forall|j: int| 0 <= j < t - 1 ==> buf[j] >= 0x80,
    ensures
        size_from(buf, t, acc) matches Some((s, m)) ==> header_ends_at(buf, m) && m <= 10,
        header_ends_at(buf, k) && t <= k <= 10 ==> (size_from(buf, t, acc) matches Some((s, m)) && m == k),
    decreases buf.len() - t,
{
    if t <= buf.len() && buf[t - 1] >= 0x80 && t < buf.len() && size_shift(t) < 64 {
        let next = acc | (((buf[t] & 0x7f) as u64) << (size_shift(t) as u64));
        lemma_header_length_from(buf, t + 1, next, k);
        if header_ends_at(buf, k) && t <= k {
            assert(k != t);
        }
    } else if t < buf.len() && buf[t - 1] >= 0x80 {
        if header_ends_at(buf, k) && t <= k {
            assert(k != t);
        }
    } else if t <= buf.len() && buf[t - 1] >= 0x80 {
        if header_ends_at(buf, k) && t <= k {
            assert(k == t);
        }
    } else if t <= buf.len() {
        if header_ends_at(buf, k) && t < k {
            assert(buf[t - 1] >= 0x80);
        }
    }
}

/// The size that the first `k` bytes of an object header spell: the low
/// 4 bits of the first byte, then the low 7 bits of each later byte, least
/// significant first.
pub open spec fn header_size(buf: Seq<u8>, k: int) -> int
    decreases k,
{
    if k <= 1 {
        (buf[0] & 0xf) as int
    } else {
        header_size(buf, k - 1) + (buf[k - 1] & 0x7f) * pow2(size_shift(k - 1) as nat)
    }
}

/// A header that ends within its first ten bytes, and spells a size that
/// fits in 64 bits, decodes to that size and that length, also when it
/// runs to the end of the bytes read.
pub proof fn lemma_header_size(buf: Seq<u8>, k: int)
    requires
        header_ends_at(buf, k),
        k <= 10,
        header_size(buf, k) <= u64::MAX,
    ensures
        size_from(buf, 1, (buf[0] & 0xf) as u64) == Some((header_size(buf, k) as u64, k)),
{
    lemma_header_size_from(buf, 1, (buf[0] & 0xf) as u64, k);
}

proof fn lemma_header_size_below(buf: Seq<u8>, t: int)
    requires
        1 <= t <= buf.len(),
    ensures
        0 <= header_size(buf, t) < pow2(size_shift(t) as nat),
    decreases t,
{
    if t <= 1 {
        let b0 = buf[0];
        assert(b0 & 0xf < 16) by (bit_vector);
        lemma2_to64();
    } else {
        lemma_header_size_below(buf, t - 1);
        let x = (buf[t - 1] & 0x7f) as int;
        let e = size_shift(t - 1) as nat;
        let b = buf[t - 1];
        assert(b & 0x7f < 128) by (bit_vector);
        lemma_pow2_pos(e);
        lemma_mul_inequality(x, 127, pow2(e) as int);
        lemma_mul_nonnegative(x, pow2(e) as int);
        lemma_pow2_adds(e, 7);
        lemma2_to64();
        assert(size_shift(t) as nat == e + 7);
    }
}

proof fn lemma_header_size_grows(buf: Seq<u8>, t: int, k: int)
    requires
        1 <= t <= k,
    ensures
        header_size(buf, t) <= header_size(buf, k),
    decreases k - t,
{
    if t < k {
        lemma_header_size_grows(buf, t, k - 1);
        lemma_pow2_pos(size_shift(k - 1) as nat);
        lemma_mul_nonnegative((buf[k - 1] & 0x7f) as int, pow2(size_shift(k - 1) as nat) as int);
    }
}

proof fn lemma_header_size_from(buf: Seq<u8>, t: int, acc: u64, k: int)
    requires
        1 <= t <= k,
        header_ends_at(buf, k),
        k <= 10,
        header_size(buf, k) <= u64::MAX,
        acc == header_size(buf, t),
    ensures
        size_from(buf, t, acc) == Some((header_size(buf, k) as u64, k)),
    decreases k - t,
{
    if t < k {
        assert(buf[t - 1] >= 0x80);
        let x = (buf[t] & 0x7f) as u64;
        let sh = size_shift(t) as u64;
        lemma_header_size_below(buf, t);
        lemma_header_size_grows(buf, t + 1, k);
        lemma_pow2_pos(sh as nat);
        lemma_mul_nonnegative(x as int, pow2(sh as nat) as int);
        assert(x * pow2(sh as nat) <= u64::MAX);
        lemma_u64_shl_is_mul(x, sh);
        lemma_u64_pow2_no_overflow(sh as nat);
        lemma_u64_shl_is_mul(1, sh);
        assert(acc < (1u64 << sh));
        assert((acc | (x << sh)) == acc + (x << sh)) by (bit_vector)
            requires
                acc < (1u64 << sh),
                sh < 64,
        ;
        lemma_header_size_from(buf, t + 1, acc | (x << sh), k);
    }
}

/// The hex ids of objects listed in the search's order are in that order.
pub(crate) proof fn lemma_ids_in_search_order(index: Seq<u8>, rs: Seq<PackIndexObject>, ids: Seq<String>, m: int, d: int)
    requires
        in_search_order(rs, m, d),
        forall|q: int| 0 <= q < rs.len() ==> names_entry(index, #[trigger] rs[q]),
        ids.len() == rs.len(),
        forall|q: int| 0 <= q < ids.len() ==> #[trigger] ids[q]@ == rs[q].object_id@,
    ensures
        ids_in_search_order(index, ids, m, d),
{
    reveal(in_search_order);
    assert forall|q: int| 0 <= q < ids.len() implies ids[q]@ == hex_lower(
        raw_id(index, #[trigger] search_order_position(m, d, q)),
    ) by {
        assert(names_entry(index, rs[q]));
        assert(rs[q].idx == search_order_position(m, d, q));
    }
}

/// A header that decodes leaves its data start within the pack.
pub(crate) proof fn lemma_header_data_start(pack: Seq<u8>, file_len: u64, address: u64)
    requires
        parse_object_header(pack, file_len, address) is Ok,
    ensures
        parse_object_header(pack, file_len, address)->Ok_0.data_start_address <= pack.len(),
{
    let buf = pack.subrange(address as int, address + header_window(file_len, address));
    lemma_size_from_bound(buf, 1, (buf[0] & 0xf) as u64);
}

/// In a sorted table, different objects have different hex ids.
pub(crate) proof fn lemma_distinct_hex_ids(index: Seq<u8>, n: int, i: int, j: int)
    requires
        ids_sorted_between(index, 0, n),
        ids_readable(index, n),
        0 <= i < n,
        0 <= j < n,
        i != j,
    ensures
        hex_lower(raw_id(index, i)) != hex_lower(raw_id(index, j)),
{
    lemma_hex_lower_bytes(raw_id(index, i));
    lemma_hex_lower_bytes(raw_id(index, j));
    if hex_lower(raw_id(index, i)) == hex_lower(raw_id(index, j)) {
        assert(id_key(index, i) == id_key(index, j));
        if i < j {
            assert(lex_lt(id_key(index, i), id_key(index, j)));
            lemma_lex_lt_not_prefix(id_key(index, i), id_key(index, j));
        } else {
            assert(lex_lt(id_key(index, j), id_key(index, i)));
            lemma_lex_lt_not_prefix(id_key(index, j), id_key(index, i));
        }
    }
}

/// The first result of a complete search is the object that alone matches,
/// and a complete search with no result means that nothing matches.
pub(crate) proof fn lemma_complete_first(index: Seq<u8>, n: int, rs: Seq<PackIndexObject>, p: Seq<u8>)
    requires
        complete_results(index, n, rs, p),
    ensures
        rs.len() > 0 ==> forall|i: int| #[trigger] unique_match(index, n, p, i) ==> rs[0].idx == i,
        rs.len() == 0 ==> forall|i: int| 0 <= i < n ==> !#[trigger] id_matches(index, i, p),
{
    if rs.len() > 0 {
        assert(lists_object(rs, rs[0].idx as int));
    } else {
        assert forall|i: int| 0 <= i < n implies !#[trigger] id_matches(index, i, p) by {
            if id_matches(index, i, p) {
                assert(lists_object(rs, i));
                let q = choose|q: int| 0 <= q < rs.len() && #[trigger] rs[q].idx == i;
            }
        }
    }
}

/// The hex ids copied out of sound and complete search results list
/// exactly the matching objects.
pub(crate) proof fn lemma_ids_listed(index: Seq<u8>, n: int, p: Seq<u8>, rs: Seq<PackIndexObject>, ids: Seq<String>)
    requires
        sound_results(index, rs, p),
        complete_results(index, n, rs, p),
        ids_sorted_between(index, 0, n),
        ids_readable(index, n),
        ids.len() == rs.len(),
        forall|q: int| 0 <= q < ids.len() ==> #[trigger] ids[q]@ == rs[q].object_id@,
    ensures
        lists_exactly(ids, index, n, p),
{
    assert forall|i: int| 0 <= i < n && #[trigger] id_matches(index, i, p) implies exists|q: int|
        0 <= q < ids.len() && #[trigger] ids[q]@ == hex_lower(raw_id(index, i)) by {
        assert(lists_object(rs, i));
        let q = choose|q: int| 0 <= q < rs.len() && #[trigger] rs[q].idx == i;
        assert(names_entry(index, rs[q]));
        assert(ids[q]@ == hex_lower(raw_id(index, i)));
    }
    assert forall|q: int| 0 <= q < ids.len() implies is_matching_id(index, n, p, #[trigger] ids[q]@) by {
        let i = rs[q].idx as int;
        assert(names_entry(index, rs[q]));
        assert(lists_object(rs, i));
        assert(0 <= i < n && id_matches(index, i, p) && ids[q]@ == hex_lower(raw_id(index, i)));
    }
    assert forall|q1: int, q2: int|
        0 <= q1 < ids.len() && 0 <= q2 < ids.len() && q1 != q2 implies #[trigger] ids[q1]@ != #[trigger] ids[q2]@ by {
        assert(names_entry(index, rs[q1]));
        assert(names_entry(index, rs[q2]));
        assert(lists_object(rs, rs[q1].idx as int));
        assert(lists_object(rs, rs[q2].idx as int));
        lemma_distinct_hex_ids(index, n, rs[q1].idx as int, rs[q2].idx as int);
    }
}

} // verus!
