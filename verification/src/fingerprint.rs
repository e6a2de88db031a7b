//! CurseForge-compatible MurmurHash2 fingerprinting.
//!
//! CurseForge identifies addon files by a MurmurHash2 (seed 1) over their
//! contents with whitespace bytes removed. This module holds the hash, the
//! whitespace filter, the file and folder fingerprints, and the text scanning
//! that finds the files a TOC/XML include chain loads.

use vstd::prelude::*;
use crate::text::{
    ascii_lower, chars_of, find_char, index_of_in, is_whitespace, lemma_index_of_in_bounds,
    string_of_range, trim, trim_bounds, trim_start,
};


verus! {

pub const MURMURHASH2_M: u32 = 0x5BD1E995;
pub const CURSEFORGE_SEED: u32 = 1;

// ---------------------------------------------------------------------------
// MurmurHash2
// ---------------------------------------------------------------------------

/// Multiplication modulo 2^32.
pub open spec fn mul32(a: u32, b: u32) -> u32 {
    ((a as nat * b as nat) % 0x1_0000_0000nat) as u32
}

/// The little-endian 32-bit word at byte offset `off`.
pub open spec fn le_word(d: Seq<u8>, off: int) -> u32 {
    (d[off] as u32) | ((d[off + 1] as u32) << 8u32) | ((d[off + 2] as u32) << 16u32) | ((d[off
        + 3] as u32) << 24u32)
}

/// The per-block key mixing step.
pub open spec fn mix_block(k: u32) -> u32 {
    let k1 = mul32(k, MURMURHASH2_M);
    let k2 = k1 ^ (k1 >> 24u32);
    mul32(k2, MURMURHASH2_M)
}

/// The hash state after folding in blocks `i..len/4` starting from state `h`.
pub open spec fn mm_blocks(d: Seq<u8>, h: u32, i: int) -> u32
    decreases d.len() / 4 - i,
{
    if i < 0 || i >= d.len() / 4 {
        h
    } else {
        mm_blocks(d, mul32(h, MURMURHASH2_M) ^ mix_block(le_word(d, 4 * i)), i + 1)
    }
}

/// Folds the 0 to 3 trailing bytes into the state.
pub open spec fn mm_tail(d: Seq<u8>, h: u32) -> u32 {
    let base = (d.len() / 4 * 4) as int;
    let t = d.len() % 4;
    if t == 3 {
        mul32(h ^ ((d[base + 2] as u32) << 16u32) ^ ((d[base + 1] as u32) << 8u32) ^ (d[base] as u32), MURMURHASH2_M)
    } else if t == 2 {
        mul32(h ^ ((d[base + 1] as u32) << 8u32) ^ (d[base] as u32), MURMURHASH2_M)
    } else if t == 1 {
        mul32(h ^ (d[base] as u32), MURMURHASH2_M)
    } else {
        h
    }
}

/// The final avalanche.
pub open spec fn mm_final(h: u32) -> u32 {
    let h1 = h ^ (h >> 13u32);
    let h2 = mul32(h1, MURMURHASH2_M);
    h2 ^ (h2 >> 15u32)
}

/// Austin Appleby's 32-bit MurmurHash2 of `d` with `seed`, blocks read little-endian.
pub open spec fn murmur2(d: Seq<u8>, seed: u32) -> u32 {
    mm_final(mm_tail(d, mm_blocks(d, seed ^ (d.len() as u32), 0)))
}

/// Computes MurmurHash2 (32-bit) of `data` with `seed`.
pub fn murmurhash2(data: &[u8], seed: u32) -> (h: u32)
    ensures
        h == murmur2(data@, seed),
{
    let len = data.len();
    let mut h: u32 = seed ^ (len as u32);
    let num_blocks = len / 4;
    let mut i: usize = 0;
    while i < num_blocks
        invariant
            len == data@.len(),
            num_blocks == len / 4,
            0 <= i <= num_blocks,
            mm_blocks(data@, h, i as int) == mm_blocks(data@, seed ^ (len as u32), 0),
        decreases num_blocks - i,
    {
        let offset = i * 4;
        let mut k: u32 = (data[offset] as u32) | ((data[offset + 1] as u32) << 8u32) | ((
        data[offset + 2] as u32) << 16u32) | ((data[offset + 3] as u32) << 24u32);
        k = k.wrapping_mul(MURMURHASH2_M);
        k = k ^ (k >> 24u32);
        k = k.wrapping_mul(MURMURHASH2_M);
        h = h.wrapping_mul(MURMURHASH2_M);
        h = h ^ k;
        i += 1;
    }
    let base = num_blocks * 4;
    let t = len - base;
    assert(t == data@.len() % 4);
    if t == 3 {
        h = h ^ ((data[base + 2] as u32) << 16u32);
        h = h ^ ((data[base + 1] as u32) << 8u32);
        h = h ^ (data[base] as u32);
        h = h.wrapping_mul(MURMURHASH2_M);
    } else if t == 2 {
        h = h ^ ((data[base + 1] as u32) << 8u32);
        h = h ^ (data[base] as u32);
        h = h.wrapping_mul(MURMURHASH2_M);
    } else if t == 1 {
        h = h ^ (data[base] as u32);
        h = h.wrapping_mul(MURMURHASH2_M);
    }
    h = h ^ (h >> 13u32);
    h = h.wrapping_mul(MURMURHASH2_M);
    h = h ^ (h >> 15u32);
    h
}

// ---------------------------------------------------------------------------
// Whitespace filter and fingerprints
// ---------------------------------------------------------------------------

/// Tab, newline, carriage return and space: the bytes a fingerprint ignores.
pub open spec fn is_fp_ws(b: u8) -> bool {
    b == 0x09u8 || b == 0x0Au8 || b == 0x0Du8 || b == 0x20u8
}

/// `d` with every fingerprint-whitespace byte removed, order kept.
pub open spec fn strip_ws(d: Seq<u8>) -> Seq<u8>
    decreases d.len(),
{
    if d.len() == 0 {
        seq![]
    } else if is_fp_ws(d.last()) {
        strip_ws(d.drop_last())
    } else {
        strip_ws(d.drop_last()).push(d.last())
    }
}

/// The stripped contents of `files[0..n]`, concatenated.
pub open spec fn strip_all(files: Seq<Seq<u8>>, n: int) -> Seq<u8>
    decreases n,
{
    if n <= 0 {
        seq![]
    } else {
        strip_all(files, n - 1) + strip_ws(files[n - 1])
    }
}

/// The views of a slice of byte slices.
pub open spec fn views_of(files: Seq<&[u8]>) -> Seq<Seq<u8>> {
    Seq::new(files.len(), |i: int| files[i]@)
}

/// The contents of all files, concatenated.
pub open spec fn concat_all(files: Seq<Seq<u8>>, n: int) -> Seq<u8>
    decreases n,
{
    if n <= 0 {
        seq![]
    } else {
        concat_all(files, n - 1) + files[n - 1]
    }
}

fn is_fingerprint_whitespace(b: u8) -> (r: bool)
    ensures
        r == is_fp_ws(b),
{
    b == 0x09u8 || b == 0x0Au8 || b == 0x0Du8 || b == 0x20u8
}

/// Appends the non-whitespace bytes of `data` to `out`.
fn push_stripped(out: &mut Vec<u8>, data: &[u8])
    ensures
        final(out)@ == old(out)@ + strip_ws(data@),
{
    let mut i: usize = 0;
    while i < data.len()
        invariant
            0 <= i <= data@.len(),
            out@ == old(out)@ + strip_ws(data@.take(i as int)),
        decreases data.len() - i,
    {
        let b = data[i];
        assert(data@.take(i + 1).drop_last() == data@.take(i as int));
        if !is_fingerprint_whitespace(b) {
            out.push(b);
        }
        i += 1;
    }
    assert(data@.take(data@.len() as int) == data@);
}

/// Strips whitespace bytes (tab, newline, carriage return, space) from `data`.
pub fn strip_whitespace(data: &[u8]) -> (r: Vec<u8>)
    ensures
        r@ == strip_ws(data@),
{
    let mut r: Vec<u8> = Vec::new();
    push_stripped(&mut r, data);
    r
}

/// The CurseForge fingerprint of raw file contents: MurmurHash2 with seed 1
/// over the contents with whitespace bytes removed.
pub fn compute_fingerprint(data: &[u8]) -> (h: u32)
    ensures
        h == murmur2(strip_ws(data@), CURSEFORGE_SEED),
{
    let stripped = strip_whitespace(data);
    murmurhash2(stripped.as_slice(), CURSEFORGE_SEED)
}

/// The CurseForge fingerprint of an addon folder whose files, in load order,
/// hold `file_contents`: each file is stripped of whitespace, the results are
/// concatenated and hashed.
pub fn compute_folder_fingerprint(file_contents: &[&[u8]]) -> (h: u32)
    ensures
        h == murmur2(strip_all(views_of(file_contents@), file_contents@.len() as int), CURSEFORGE_SEED),
{
    let mut combined: Vec<u8> = Vec::new();
    let mut i: usize = 0;
    while i < file_contents.len()
        invariant
            0 <= i <= file_contents@.len(),
            combined@ == strip_all(views_of(file_contents@), i as int),
        decreases file_contents.len() - i,
    {
        push_stripped(&mut combined, file_contents[i]);
        i += 1;
    }
    murmurhash2(combined.as_slice(), CURSEFORGE_SEED)
}

// ---------------------------------------------------------------------------
// Laws
// ---------------------------------------------------------------------------

/// MurmurHash2 starts from the seed XORed with the input's length taken modulo
/// 2^32, for inputs of any length that memory can hold (short and long alike):
/// the blocks, the tail and the final avalanche are then applied to that state.
pub proof fn law_murmur_starts_from_seed_xor_length(d: Seq<u8>, seed: u32, len32: u32)
    requires
        d.len() <= u64::MAX,
        len32 as int == d.len() % 0x1_0000_0000,
    ensures
        murmur2(d, seed) == mm_final(mm_tail(d, mm_blocks(d, seed ^ len32, 0))),
{
    let n: u64 = d.len() as u64;
    assert((n as u32) as int == n % 0x1_0000_0000) by (bit_vector);
    assert(d.len() as u32 == len32);
}

/// Removing whitespace distributes over concatenation.
pub proof fn lemma_strip_ws_concat(a: Seq<u8>, b: Seq<u8>)
    ensures
        strip_ws(a + b) == strip_ws(a) + strip_ws(b),
    decreases b.len(),
{
    if b.len() == 0 {
        assert(a + b == a);
    } else {
        assert((a + b).drop_last() == a + b.drop_last());
        assert((a + b).last() == b.last());
        lemma_strip_ws_concat(a, b.drop_last());
    }
}

/// The stripped text holds no whitespace byte.
pub proof fn lemma_strip_ws_clean(d: Seq<u8>)
    ensures
        forall|i: int| 0 <= i < strip_ws(d).len() ==> !is_fp_ws(#[trigger] strip_ws(d)[i]),
    decreases d.len(),
{
    if d.len() > 0 {
        lemma_strip_ws_clean(d.drop_last());
        let p = strip_ws(d.drop_last());
        if !is_fp_ws(d.last()) {
            assert forall|i: int| 0 <= i < p.push(d.last()).len() implies !is_fp_ws(
                #[trigger] p.push(d.last())[i],
            ) by {
                if i < p.len() {
                    assert(p.push(d.last())[i] == p[i]);
                }
            }
        }
    }
}

/// Text without whitespace bytes is left unchanged by the filter.
pub proof fn lemma_strip_ws_of_clean(d: Seq<u8>)
    requires
        forall|i: int| 0 <= i < d.len() ==> !is_fp_ws(#[trigger] d[i]),
    ensures
        strip_ws(d) == d,
    decreases d.len(),
{
    if d.len() > 0 {
        lemma_strip_ws_of_clean(d.drop_last());
        assert(d.drop_last().push(d.last()) == d);
    }
}

/// Stripping whitespace twice is the same as stripping it once.
pub proof fn law_strip_whitespace_idempotent(d: Seq<u8>)
    ensures
        strip_ws(strip_ws(d)) == strip_ws(d),
{
    lemma_strip_ws_clean(d);
    lemma_strip_ws_of_clean(strip_ws(d));
}

proof fn lemma_strip_all_concat(files: Seq<Seq<u8>>, n: int)
    requires
        0 <= n <= files.len(),
    ensures
        strip_all(files, n) == strip_ws(concat_all(files, n)),
    decreases n,
{
    if n > 0 {
        lemma_strip_all_concat(files, n - 1);
        lemma_strip_ws_concat(concat_all(files, n - 1), files[n - 1]);
    }
}

/// The folder fingerprint of a list of files equals the file fingerprint of
/// their concatenated contents.
pub proof fn law_folder_fingerprint_is_concatenation(files: Seq<Seq<u8>>)
    ensures
        murmur2(strip_all(files, files.len() as int), CURSEFORGE_SEED) == murmur2(
            strip_ws(concat_all(files, files.len() as int)),
            CURSEFORGE_SEED,
        ),
{
    lemma_strip_all_concat(files, files.len() as int);
}

/// A folder of one file has that file's fingerprint.
pub proof fn law_single_file_folder_fingerprint(file: Seq<u8>)
    ensures
        murmur2(strip_all(seq![file], 1), CURSEFORGE_SEED) == murmur2(strip_ws(file), CURSEFORGE_SEED),
{
    assert(strip_all(seq![file], 0) == Seq::<u8>::empty());
    assert(Seq::<u8>::empty() + strip_ws(file) == strip_ws(file));
}

/// Inserting whitespace bytes anywhere leaves the fingerprint unchanged.
pub proof fn law_fingerprint_ignores_whitespace(a: Seq<u8>, ws: Seq<u8>, b: Seq<u8>)
    requires
        forall|i: int| 0 <= i < ws.len() ==> is_fp_ws(#[trigger] ws[i]),
    ensures
        murmur2(strip_ws(a + ws + b), CURSEFORGE_SEED) == murmur2(strip_ws(a + b), CURSEFORGE_SEED),
{
    lemma_strip_ws_concat(a + ws, b);
    lemma_strip_ws_concat(a, ws);
    lemma_strip_ws_concat(a, b);
    lemma_strip_ws_all_ws(ws);
    assert(strip_ws(a) + Seq::<u8>::empty() == strip_ws(a));
}

proof fn lemma_strip_ws_all_ws(ws: Seq<u8>)
    requires
        forall|i: int| 0 <= i < ws.len() ==> is_fp_ws(#[trigger] ws[i]),
    ensures
        strip_ws(ws) == Seq::<u8>::empty(),
    decreases ws.len(),
{
    if ws.len() > 0 {
        assert(is_fp_ws(ws[ws.len() - 1]));
        lemma_strip_ws_all_ws(ws.drop_last());
    }
}


// ---------------------------------------------------------------------------
// XML include scanning
// ---------------------------------------------------------------------------

/// `p` (lowercase ASCII) occurs at position `i` of `s`, ASCII letters of `s`
/// compared case-insensitively.
pub open spec fn matches_ci_at(s: Seq<char>, p: Seq<char>, i: int) -> bool {
    &&& 0 <= i
    &&& i + p.len() <= s.len()
    &&& forall|k: int| 0 <= k < p.len() ==> ascii_lower(#[trigger] s[i + k]) == p[k]
}

/// The first position at or after `i` where `p` occurs case-insensitively.
pub open spec fn find_ci_from(s: Seq<char>, p: Seq<char>, i: int) -> Option<int>
    decreases s.len() - i,
{
    if i < 0 || i + p.len() > s.len() {
        None
    } else if matches_ci_at(s, p, i) {
        Some(i)
    } else {
        find_ci_from(s, p, i + 1)
    }
}

pub open spec fn file_word() -> Seq<char> {
    seq!['f', 'i', 'l', 'e']
}

pub open spec fn script_tag() -> Seq<char> {
    seq!['<', 's', 'c', 'r', 'i', 'p', 't']
}

pub open spec fn include_tag() -> Seq<char> {
    seq!['<', 'i', 'n', 'c', 'l', 'u', 'd', 'e']
}

/// The value of a quoted attribute value at the start of `t`: `t` opens
/// with `'"'` or `'\''` and the value runs to the next such quote.
pub open spec fn quoted_value(t: Seq<char>) -> Option<Seq<char>> {
    if t.len() > 0 && (t[0] == '"' || t[0] == '\'') {
        let rest = t.drop_first();
        let e = index_of_in(rest, t[0], 0, rest.len() as int);
        if e < rest.len() {
            Some(rest.subrange(0, e))
        } else {
            None
        }
    } else {
        None
    }
}

/// The value of the `file="..."` (or `file='...'`) attribute of a tag: the
/// first `file` in the tag (any letter case), then optional whitespace, `=`,
/// optional whitespace, and a quoted value.
pub open spec fn file_attribute(tag: Seq<char>) -> Option<Seq<char>> {
    match find_ci_from(tag, file_word(), 0) {
        None => None,
        Some(idx) => {
            let after = trim_start(tag.subrange(idx + 4, tag.len() as int));
            if after.len() > 0 && after[0] == '=' {
                quoted_value(trim_start(after.drop_first()))
            } else {
                None
            }
        },
    }
}

/// The earlier of two optional positions.
pub open spec fn earliest(a: Option<int>, b: Option<int>) -> Option<int> {
    match (a, b) {
        (Some(x), Some(y)) => Some(if x <= y { x } else { y }),
        (Some(x), None) => Some(x),
        (None, Some(y)) => Some(y),
        (None, None) => None,
    }
}

proof fn lemma_find_ci_bounds(s: Seq<char>, p: Seq<char>, i: int)
    ensures
        find_ci_from(s, p, i) matches Some(j) ==> i <= j && matches_ci_at(s, p, j),
    decreases s.len() - i,
{
    if !(i < 0 || i + p.len() > s.len()) && !matches_ci_at(s, p, i) {
        lemma_find_ci_bounds(s, p, i + 1);
    }
}

/// The `file` attribute values of the `<Script>` and `<Include>` tags of `s`
/// from position `pos` on, in document order, empty values left out.
pub open spec fn xml_refs_from(s: Seq<char>, pos: int) -> Seq<Seq<char>>
    decreases s.len() - pos,
{
    if pos < 0 || pos >= s.len() {
        seq![]
    } else {
        match earliest(find_ci_from(s, script_tag(), pos), find_ci_from(s, include_tag(), pos)) {
            None => seq![],
            Some(next) => {
                let e = index_of_in(s, '>', next, s.len() as int);
                if next < pos || next > s.len() || e >= s.len() {
                    seq![]
                } else {
                    proof {
                        lemma_index_of_in_bounds(s, '>', next, s.len() as int);
                    }
                    let rest = xml_refs_from(s, e + 1);
                    match file_attribute(s.subrange(next, e + 1)) {
                        Some(v) if v.len() > 0 => seq![v] + rest,
                        _ => rest,
                    }
                }
            },
        }
    }
}

/// First case-insensitive occurrence of `p` (lowercase ASCII) in `v[from..]`.
fn find_ci(v: &Vec<char>, p: &Vec<char>, from: usize) -> (r: Option<usize>)
    requires
        from <= v.len(),
    ensures
        r == (match find_ci_from(v@, p@, from as int) {
            Some(j) => Some(j as usize),
            None => None,
        }),
{
    let mut i = from;
    while p.len() <= v.len() - i
        invariant
            from <= i <= v.len(),
            find_ci_from(v@, p@, i as int) == find_ci_from(v@, p@, from as int),
        decreases v.len() - i,
    {
        let mut k: usize = 0;
        let mut ok = true;
        while k < p.len()
            invariant
                i + p.len() <= v.len(),
                0 <= k <= p.len(),
                ok == (forall|m: int| 0 <= m < k ==> ascii_lower(#[trigger] v@[i + m]) == p@[m]),
            decreases p.len() - k,
        {
            if crate::text::to_ascii_lower(v[i + k]) != p[k] {
                ok = false;
            }
            k += 1;
        }
        if ok {
            return Some(i);
        }
        i += 1;
    }
    None
}

/// First position at or after `i` (before `hi`) that does not hold whitespace.
fn skip_ws(v: &Vec<char>, i: usize, hi: usize) -> (r: usize)
    requires
        i <= hi <= v.len(),
    ensures
        i <= r <= hi,
        v@.subrange(r as int, hi as int) == trim_start(v@.subrange(i as int, hi as int)),
{
    let (a, _b) = trim_bounds(v, i, hi);
    let mut j = i;
    while j < hi && is_whitespace(v[j])
        invariant
            i <= j <= hi <= v.len(),
            trim_start(v@.subrange(j as int, hi as int)) == trim_start(v@.subrange(i as int, hi as int)),
        decreases hi - j,
    {
        assert(v@.subrange(j as int, hi as int).drop_first() == v@.subrange(j + 1, hi as int));
        j += 1;
    }
    j
}

/// `file_attribute` of `v[lo..hi]`, as bounds of the value inside `v`.
fn file_attribute_bounds(v: &Vec<char>, lo: usize, hi: usize) -> (r: Option<(usize, usize)>)
    requires
        lo <= hi <= v.len(),
    ensures
        match file_attribute(v@.subrange(lo as int, hi as int)) {
            None => r is None,
            Some(val) => r matches Some((a, b)) && lo <= a <= b <= hi && v@.subrange(a as int, b as int) == val,
        },
{
    let ghost tag = v@.subrange(lo as int, hi as int);
    let tagv = crate::text::sub_vec(v, lo, hi);
    let fw = chars_of("file");
    proof {
        reveal_strlit("file");
        assert(fw@ == file_word());
    }
    let idx = match find_ci(&tagv, &fw, 0) {
        None => return None,
        Some(i) => i,
    };
    proof {
        lemma_find_ci_bounds(tag, file_word(), 0);
    }
    let start = lo + idx + 4;
    let a = skip_ws(v, start, hi);
    assert(tag.subrange(idx + 4, tag.len() as int) == v@.subrange(start as int, hi as int));
    if a >= hi || v[a] != '=' {
        return None;
    }
    let b = skip_ws(v, a + 1, hi);
    assert(v@.subrange(a as int, hi as int).drop_first() == v@.subrange(a + 1, hi as int));
    if b >= hi {
        return None;
    }
    let q = v[b];
    if q != '"' && q != '\'' {
        return None;
    }
    let e = find_char(v, q, b + 1, hi);
    proof {
        let t = v@.subrange(b as int, hi as int);
        let rest = t.drop_first();
        assert(rest == v@.subrange(b + 1, hi as int));
        lemma_index_of_in_shift(v@, q, b + 1, hi as int);
    }
    if e >= hi {
        return None;
    }
    proof {
        assert(v@.subrange(b + 1, hi as int).subrange(0, e - (b + 1)) == v@.subrange(b + 1, e as int));
    }
    Some((b + 1, e))
}

/// Searching a suffix is searching the whole sequence shifted.
proof fn lemma_index_of_in_shift(s: Seq<char>, c: char, from: int, hi: int)
    requires
        0 <= from <= hi <= s.len(),
    ensures
        index_of_in(s.subrange(from, hi), c, 0, hi - from) == index_of_in(s, c, from, hi) - from,
    decreases hi - from,
{
    lemma_index_of_in_shift_gen(s, c, from, from, hi);
}

proof fn lemma_index_of_in_shift_gen(s: Seq<char>, c: char, base: int, from: int, hi: int)
    requires
        0 <= base <= from <= hi <= s.len(),
    ensures
        index_of_in(s.subrange(base, hi), c, from - base, hi - base) == index_of_in(s, c, from, hi) - base,
    decreases hi - from,
{
    if from < hi {
        assert(s.subrange(base, hi)[from - base] == s[from]);
        lemma_index_of_in_shift_gen(s, c, base, from + 1, hi);
    }
}

/// Extracts the value of a `file="..."` or `file='...'` attribute from a tag string.
pub fn extract_file_attribute(tag: &str) -> (r: Option<String>)
    ensures
        match file_attribute(tag@) {
            None => r is None,
            Some(val) => r matches Some(s) && s@ == val,
        },
{
    let v = chars_of(tag);
    assert(v@.subrange(0, v@.len() as int) == v@);
    match file_attribute_bounds(&v, 0, v.len()) {
        None => None,
        Some((a, b)) => Some(string_of_range(&v, a, b)),
    }
}

/// Extracts the `file="..."` references of `<Script>` and `<Include>` tags,
/// in document order, by plain text scanning.
pub fn parse_xml_file_references(contents: &str) -> (refs: Vec<String>)
    ensures
        refs@.len() == xml_refs_from(contents@, 0).len(),
        forall|i: int| 0 <= i < refs@.len() ==> #[trigger] refs@[i]@ == xml_refs_from(contents@, 0)[i],
{
    let v = chars_of(contents);
    let st = chars_of("<script");
    let it = chars_of("<include");
    proof {
        reveal_strlit("<script");
        reveal_strlit("<include");
        assert(st@ == script_tag());
        assert(it@ == include_tag());
    }
    let mut refs: Vec<String> = Vec::new();
    let mut pos: usize = 0;
    let ghost total = xml_refs_from(v@, 0);
    while pos < v.len()
        invariant
            pos <= v.len(),
            v@ == contents@,
            st@ == script_tag(),
            it@ == include_tag(),
            total == xml_refs_from(v@, 0),
            refs@.len() + xml_refs_from(v@, pos as int).len() == total.len(),
            forall|i: int| 0 <= i < refs@.len() ==> #[trigger] refs@[i]@ == total[i],
            forall|i: int| 0 <= i < xml_refs_from(v@, pos as int).len() ==> xml_refs_from(v@, pos as int)[i] == total[refs@.len() + i],
        ensures
            xml_refs_from(v@, pos as int).len() == 0,
            refs@.len() + xml_refs_from(v@, pos as int).len() == total.len(),
            forall|i: int| 0 <= i < refs@.len() ==> #[trigger] refs@[i]@ == total[i],
        decreases v.len() - pos,
    {
        let sp = find_ci(&v, &st, pos);
        let ip = find_ci(&v, &it, pos);
        proof {
            lemma_find_ci_bounds(v@, script_tag(), pos as int);
            lemma_find_ci_bounds(v@, include_tag(), pos as int);
        }
        if sp.is_none() && ip.is_none() {
            assert(xml_refs_from(v@, pos as int) =~= Seq::<Seq<char>>::empty());
            break;
        }
        let next = match (sp, ip) {
            (Some(s), Some(i)) => if s <= i { s } else { i },
            (Some(s), None) => s,
            (None, Some(i)) => i,
            (None, None) => 0,
        };
        let e = find_char(&v, '>', next, v.len());
        proof {
            lemma_index_of_in_bounds(v@, '>', next as int, v@.len() as int);
        }
        if e >= v.len() {
            assert(xml_refs_from(v@, pos as int) =~= Seq::<Seq<char>>::empty());
            break;
        }
        let ghost rest = xml_refs_from(v@, e + 1);
        match file_attribute_bounds(&v, next, e + 1) {
            Some((a, b)) => {
                if a < b {
                    let item = string_of_range(&v, a, b);
                    assert(xml_refs_from(v@, pos as int)[0] == item@);
                    refs.push(item);
                    proof {
                        assert forall|i: int| 0 <= i < rest.len() implies rest[i] == total[refs@.len() + i] by {
                            assert(xml_refs_from(v@, pos as int)[i + 1] == rest[i]);
                        }
                    }
                } else {
                    proof {
                        assert forall|i: int| 0 <= i < rest.len() implies rest[i] == total[refs@.len() + i] by {
                            assert(xml_refs_from(v@, pos as int)[i] == rest[i]);
                        }
                    }
                }
            },
            None => {
                proof {
                    assert forall|i: int| 0 <= i < rest.len() implies rest[i] == total[refs@.len() + i] by {
                        assert(xml_refs_from(v@, pos as int)[i] == rest[i]);
                    }
                }
            },
        }
        pos = e + 1;
    }
    refs
}

// ---------------------------------------------------------------------------
// TOC include chain
// ---------------------------------------------------------------------------

/// A WoW path with backslashes turned into forward slashes.
pub open spec fn normalized_path(p: Seq<char>) -> Seq<char> {
    Seq::new(p.len(), |i: int| if p[i] == '\\' { '/' } else { p[i] })
}

/// WoW paths may use backslashes; normalizes them to forward slashes.
pub fn normalize_wow_path(path: &str) -> (r: String)
    ensures
        r@ == normalized_path(path@),
{
    let v = chars_of(path);
    let mut r = String::new();
    let mut i: usize = 0;
    while i < v.len()
        invariant
            v@ == path@,
            0 <= i <= v.len(),
            r@ == normalized_path(v@).take(i as int),
        decreases v.len() - i,
    {
        let c = if v[i] == '\\' { '/' } else { v[i] };
        crate::text::push_char(&mut r, c);
        assert(normalized_path(v@).take(i + 1) == normalized_path(v@).take(i as int).push(c));
        i += 1;
    }
    assert(normalized_path(v@).take(v@.len() as int) == normalized_path(v@));
    r
}

/// A trimmed TOC line names a file when it is not empty and not a `#` comment
/// or `##` directive.
pub open spec fn is_file_line(t: Seq<char>) -> bool {
    t.len() > 0 && t[0] != '#'
}

/// The file references a TOC file's text lists, from line `k` of `ls` on:
/// each trimmed line that is not empty and does not start with `#`,
/// backslashes normalized.
pub open spec fn toc_refs_from(ls: Seq<Seq<char>>, k: int) -> Seq<Seq<char>>
    decreases ls.len() - k,
{
    if k < 0 || k >= ls.len() {
        seq![]
    } else if is_file_line(trim(ls[k])) {
        seq![normalized_path(trim(ls[k]))] + toc_refs_from(ls, k + 1)
    } else {
        toc_refs_from(ls, k + 1)
    }
}


proof fn lemma_toc_refs_shift(a: Seq<Seq<char>>, r: Seq<Seq<char>>, k: int)
    requires
        0 <= k,
    ensures
        toc_refs_from(a + r, a.len() + k) == toc_refs_from(r, k),
    decreases r.len() - k,
{
    if k < r.len() {
        assert((a + r)[a.len() + k] == r[k]);
        lemma_toc_refs_shift(a, r, k + 1);
    }
}

/// The files a TOC file's text lists, in load order: each trimmed line that
/// is not empty and not a comment, with backslashes normalized.
pub fn toc_file_references(toc_contents: &str) -> (refs: Vec<String>)
    ensures
        crate::text::views(refs@) == toc_refs_from(crate::text::lines(toc_contents@), 0),
{
    let v = chars_of(toc_contents);
    let mut refs: Vec<String> = Vec::new();
    let ghost total = toc_refs_from(crate::text::lines(v@), 0);
    let mut start: usize = 0;
    while start < v.len()
        invariant
            v@ == toc_contents@,
            start <= v.len(),
            total == toc_refs_from(crate::text::lines(v@), 0),
            crate::text::views(refs@) + toc_refs_from(crate::text::lines_from(v@, start as int), 0) == total,
        decreases v.len() - start,
    {
        let (line_end, next) = crate::text::line_bounds(&v, start);
        let ghost line = v@.subrange(start as int, line_end as int);
        let ghost rest = crate::text::lines_from(v@, next as int);
        proof {
            lemma_toc_refs_shift(seq![line], rest, 0);
            assert(toc_refs_from(seq![line] + rest, 0) == if is_file_line(trim(line)) {
                seq![normalized_path(trim(line))] + toc_refs_from(rest, 0)
            } else {
                toc_refs_from(rest, 0)
            });
        }
        let (a, b) = trim_bounds(&v, start, line_end);
        if a < b && v[a] != '#' {
            let raw = string_of_range(&v, a, b);
            let item = normalize_wow_path(raw.as_str());
            let ghost old_refs = refs@;
            refs.push(item);
            proof {
                assert(crate::text::views(refs@) == crate::text::views(old_refs).push(item@));
                assert(crate::text::views(refs@) + toc_refs_from(rest, 0) == crate::text::views(old_refs) + (seq![item@] + toc_refs_from(rest, 0)));
            }
        }
        start = next;
    }
    assert(crate::text::lines_from(v@, start as int) =~= Seq::<Seq<char>>::empty());
    assert(crate::text::views(refs@) + Seq::<Seq<char>>::empty() == crate::text::views(refs@));
    refs
}


// ---------------------------------------------------------------------------
// Walking the include chain
// ---------------------------------------------------------------------------

/// What to do with a file the walk has reached.
#[derive(Debug, Clone, Copy, PartialEq, Eq, Structural)]
pub enum WalkStep {
    /// The file was taken before (by another path to it): nothing to do.
    Seen,
    /// The file is now listed; it includes nothing further.
    Listed,
    /// The file is now listed; it is XML, so its includes are walked next.
    ReadIncludes,
}

/// The walk over an addon's include chain, depth first, in load order: the
/// TOC, then each file it lists and, under an XML file, the files that file
/// includes. Each file is taken once, by a key naming it (its canonical
/// path), so a file shared by two includes, or an include cycle, lists it
/// once. The caller resolves paths, tells existing files from missing ones
/// and reads XML files; the walk decides the order and what is taken.
/// The loop that drives it over a folder is modelled by `walk_from`, which
/// is depth first (`law_walk_depth_first`) and takes each file once
/// (`law_walk_lists_once`).
pub struct TocWalk {
    files: Vec<String>,
    keys: Vec<String>,
    pending: Vec<String>,
}

impl TocWalk {
    /// The files taken so far, in load order.
    pub closed spec fn listed(&self) -> Seq<Seq<char>> {
        crate::text::views(self.files@)
    }

    /// The keys of the files taken so far, in the same order.
    pub closed spec fn seen(&self) -> Seq<Seq<char>> {
        crate::text::views(self.keys@)
    }

    /// The paths still to walk; the last one is walked next.
    pub closed spec fn to_walk(&self) -> Seq<Seq<char>> {
        crate::text::views(self.pending@)
    }

    /// One key per listed file, and no key twice: no file is taken twice.
    pub open spec fn wf(&self) -> bool {
        &&& self.listed().len() == self.seen().len()
        &&& self.seen().no_duplicates()
    }

    /// A walk that starts at a TOC file, which it lists first.
    pub fn start(toc_path: String, toc_key: String) -> (w: TocWalk)
        ensures
            w.wf(),
            w.listed() == seq![toc_path@],
            w.seen() == seq![toc_key@],
            w.to_walk() == Seq::<Seq<char>>::empty(),
    {
        let w = TocWalk { files: vec![toc_path], keys: vec![toc_key], pending: Vec::new() };
        proof {
            assert(w.listed() =~= seq![toc_path@]);
            assert(w.seen() =~= seq![toc_key@]);
            assert(w.to_walk() =~= Seq::<Seq<char>>::empty());
        }
        w
    }

    /// Queues the files one file includes, so that they are walked next, in
    /// the order given, before anything queued earlier.
    pub fn queue(&mut self, paths: Vec<String>)
        requires
            old(self).wf(),
        ensures
            final(self).wf(),
            final(self).listed() == old(self).listed(),
            final(self).seen() == old(self).seen(),
            final(self).to_walk() == old(self).to_walk() + crate::text::views(paths@).reverse(),
    {
        let n = paths.len();
        let mut i: usize = n;
        let ghost start = self.to_walk();
        while i > 0
            invariant
                0 <= i <= n,
                n == paths@.len(),
                self.wf(),
                self.listed() == old(self).listed(),
                self.seen() == old(self).seen(),
                start == old(self).to_walk(),
                self.to_walk() == start + crate::text::views(paths@).subrange(i as int, n as int).reverse(),
            decreases i,
        {
            i -= 1;
            let ghost before = self.to_walk();
            self.pending.push(paths[i].clone());
            proof {
                let vs = crate::text::views(paths@);
                assert(vs.subrange(i as int, n as int).reverse() =~= vs.subrange(i + 1, n as int).reverse().push(
                    vs[i as int],
                ));
                assert(self.to_walk() =~= before.push(paths@[i as int]@));
            }
        }
        proof {
            assert(crate::text::views(paths@).subrange(0, n as int) =~= crate::text::views(paths@));
        }
    }

    /// The path to walk next, taken off the queue; `None` when the walk is
    /// done.
    pub fn next_path(&mut self) -> (r: Option<String>)
        requires
            old(self).wf(),
        ensures
            final(self).wf(),
            final(self).listed() == old(self).listed(),
            final(self).seen() == old(self).seen(),
            old(self).to_walk().len() == 0 ==> r is None && final(self).to_walk() == old(self).to_walk(),
            old(self).to_walk().len() > 0 ==> (r matches Some(p) && p@ == old(self).to_walk().last()
                && final(self).to_walk() == old(self).to_walk().drop_last()),
    {
        let r = self.pending.pop();
        proof {
            assert(self.to_walk() =~= old(self).to_walk().take(self.pending@.len() as int));
        }
        r
    }

    /// Takes an existing file the walk reached at `path`, named by `key`:
    /// a file already taken is left alone; a new one is listed, and its
    /// includes are to be read when it is XML.
    pub fn visit(&mut self, path: String, key: String, is_xml: bool) -> (r: WalkStep)
        requires
            old(self).wf(),
        ensures
            final(self).wf(),
            final(self).to_walk() == old(self).to_walk(),
            old(self).seen().contains(key@) ==> r == WalkStep::Seen && final(self).listed() == old(
                self,
            ).listed() && final(self).seen() == old(self).seen(),
            !old(self).seen().contains(key@) ==> final(self).listed() == old(self).listed().push(path@)
                && final(self).seen() == old(self).seen().push(key@) && r == (if is_xml {
                WalkStep::ReadIncludes
            } else {
                WalkStep::Listed
            }),
    {
        if crate::text::contains_string(&self.keys, &key) {
            return WalkStep::Seen;
        }
        let ghost seen0 = self.seen();
        let ghost listed0 = self.listed();
        self.keys.push(key);
        self.files.push(path);
        proof {
            assert(self.seen() =~= seen0.push(key@));
            assert(self.listed() =~= listed0.push(path@));
            assert forall|i: int, j: int| 0 <= i < j < self.seen().len() implies self.seen()[i]
                != self.seen()[j] by {
                if j == seen0.len() {
                    assert(seen0[i] == self.seen()[i]);
                } else {
                    assert(seen0[i] != seen0[j]);
                }
            }
        }
        if is_xml {
            WalkStep::ReadIncludes
        } else {
            WalkStep::Listed
        }
    }

    /// The files taken, in load order.
    pub fn into_files(self) -> (r: Vec<String>)
        ensures
            crate::text::views(r@) == self.listed(),
    {
        self.files
    }
}

/// The files of an addon folder as the walk sees them: each existing file,
/// by the key it is taken by, with the files it includes (for an XML file
/// its resolved includes, in order; for any other file none).
pub struct FileTree {
    pub includes: Map<Seq<char>, Seq<Seq<char>>>,
}

/// The existing files not listed yet.
pub open spec fn unlisted(tree: FileTree, listed: Seq<Seq<char>>) -> Set<Seq<char>> {
    tree.includes.dom().difference(listed.to_set())
}

/// Listing an existing file that was not listed leaves fewer unlisted.
pub proof fn lemma_unlisted_shrinks(tree: FileTree, listed: Seq<Seq<char>>, p: Seq<char>)
    requires
        tree.includes.dom().finite(),
        tree.includes.dom().contains(p),
        !listed.contains(p),
    ensures
        unlisted(tree, listed.push(p)).len() < unlisted(tree, listed).len(),
{
    let u = unlisted(tree, listed);
    vstd::set::axiom_set_difference_finite(tree.includes.dom(), listed.to_set());
    assert(listed.push(p).to_set() =~= listed.to_set().insert(p)) by {
        assert forall|x: Seq<char>| listed.push(p).contains(x) <==> listed.contains(x) || x == p by {
            if listed.push(p).contains(x) {
                let k = choose|k: int| 0 <= k < listed.push(p).len() && listed.push(p)[k] == x;
                if k < listed.len() {
                    assert(listed[k] == x);
                }
            }
            if listed.contains(x) {
                let k = choose|k: int| 0 <= k < listed.len() && listed[k] == x;
                assert(listed.push(p)[k] == x);
            }
            if x == p {
                assert(listed.push(p)[listed.len() as int] == p);
            }
        }
    }
    assert(unlisted(tree, listed.push(p)) =~= u.remove(p));
    vstd::set::axiom_set_remove_len(u, p);
}

/// The walk as the program drives a `TocWalk`: take the path on top of the
/// stack; pass over a file that does not exist or is listed already; else
/// list it and put what it includes on top, its first include topmost.
pub open spec fn walk_from(tree: FileTree, stack: Seq<Seq<char>>, listed: Seq<Seq<char>>) -> Seq<Seq<char>>
    decreases unlisted(tree, listed).len(), stack.len(),
    when tree.includes.dom().finite()
{
    if stack.len() == 0 {
        listed
    } else {
        let p = stack.last();
        let rest = stack.drop_last();
        if !tree.includes.dom().contains(p) || listed.contains(p) {
            walk_from(tree, rest, listed)
        } else {
            proof {
                lemma_unlisted_shrinks(tree, listed, p);
            }
            walk_from(tree, rest + tree.includes[p].reverse(), listed.push(p))
        }
    }
}

/// Depth first: what is queued later is walked completely, with everything
/// it pulls in, before anything queued before it. So each file's includes,
/// and theirs, follow it before its next sibling.
pub proof fn law_walk_depth_first(tree: FileTree, below: Seq<Seq<char>>, top: Seq<Seq<char>>, listed: Seq<Seq<char>>)
    requires
        tree.includes.dom().finite(),
    ensures
        walk_from(tree, below + top, listed) == walk_from(tree, below, walk_from(tree, top, listed)),
    decreases unlisted(tree, listed).len(), top.len(),
{
    if top.len() == 0 {
        assert(below + top =~= below);
    } else {
        let p = top.last();
        let t2 = top.drop_last();
        assert((below + top).drop_last() =~= below + t2);
        assert((below + top).last() == p);
        if !tree.includes.dom().contains(p) || listed.contains(p) {
            law_walk_depth_first(tree, below, t2, listed);
        } else {
            lemma_unlisted_shrinks(tree, listed, p);
            let inc = tree.includes[p].reverse();
            assert((below + t2) + inc =~= below + (t2 + inc));
            law_walk_depth_first(tree, below, t2 + inc, listed.push(p));
        }
    }
}

/// The walk lists each file once: it lists nothing twice that was not
/// listed twice already.
pub proof fn law_walk_lists_once(tree: FileTree, stack: Seq<Seq<char>>, listed: Seq<Seq<char>>)
    requires
        tree.includes.dom().finite(),
        listed.no_duplicates(),
    ensures
        walk_from(tree, stack, listed).no_duplicates(),
    decreases unlisted(tree, listed).len(), stack.len(),
{
    if stack.len() > 0 {
        let p = stack.last();
        if !tree.includes.dom().contains(p) || listed.contains(p) {
            law_walk_lists_once(tree, stack.drop_last(), listed);
        } else {
            lemma_unlisted_shrinks(tree, listed, p);
            assert(listed.push(p).no_duplicates()) by {
                assert forall|a: int, b: int| 0 <= a < b < listed.push(p).len() implies listed.push(p)[a] != listed.push(p)[b] by {
                    if b == listed.len() {
                        assert(listed.push(p)[a] == listed[a]);
                    }
                }
            }
            law_walk_lists_once(tree, stack.drop_last() + tree.includes[p].reverse(), listed.push(p));
        }
    }
}

} // verus!
