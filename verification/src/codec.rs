//! The blob container: an ordered sequence of named byte strings serialized
//! into an index-first little-endian layout.
//!
//! Layout: a `u32` entry count, then one `(name_len: u32, data_len: u32)`
//! pair per entry, then all names back to back, then all data back to back.
//! The index sits contiguously at the front so a loader can find every entry
//! with one linear read. Writing and reading are exact inverses.

use vstd::prelude::*;

use crate::RepackageError;

verus! {

/// A resource entry: a name-value pair.
pub struct BlobEntry {
    pub name: String,
    pub data: Vec<u8>,
}

impl View for BlobEntry {
    type V = (Seq<char>, Seq<u8>);

    open spec fn view(&self) -> (Seq<char>, Seq<u8>) {
        (self.name@, self.data@)
    }
}

/// An ordered collection of resource entries.
pub type BlobEntries = Vec<BlobEntry>;

/// The serialized form of one entry: its name as UTF-8 bytes, its data.
pub open spec fn entry_bytes(e: (Seq<char>, Seq<u8>)) -> (Seq<u8>, Seq<u8>) {
    (vstd::utf8::encode_utf8(e.0), e.1)
}

pub open spec fn entries_bytes(es: Seq<(Seq<char>, Seq<u8>)>) -> Seq<(Seq<u8>, Seq<u8>)> {
    es.map_values(|e: (Seq<char>, Seq<u8>)| entry_bytes(e))
}

/// The views of a vector of entries.
pub open spec fn blob_entries_view(entries: Seq<BlobEntry>) -> Seq<(Seq<char>, Seq<u8>)> {
    entries.map_values(|e: BlobEntry| e@)
}

/// The value of four little-endian bytes.
pub open spec fn le_u32_val(b: Seq<u8>) -> nat
    recommends
        b.len() == 4,
{
    (b[0] as nat) + 256 * (b[1] as nat) + 65536 * (b[2] as nat) + 16777216 * (b[3] as nat)
}

/// The four little-endian bytes of a value below `2^32`.
pub open spec fn u32_le_bytes(n: nat) -> Seq<u8>
    recommends
        n <= u32::MAX,
{
    seq![
        (n % 256) as u8,
        ((n / 256) % 256) as u8,
        ((n / 65536) % 256) as u8,
        ((n / 16777216) % 256) as u8,
    ]
}

/// Four little-endian bytes round-trip through their value.
pub proof fn lemma_le_u32_roundtrip(n: nat)
    requires
        n <= u32::MAX,
    ensures
        u32_le_bytes(n).len() == 4,
        le_u32_val(u32_le_bytes(n)) == n,
{
    let x = n as int;
    vstd::arithmetic::div_mod::lemma_fundamental_div_mod(x, 256);
    vstd::arithmetic::div_mod::lemma_fundamental_div_mod(x / 256, 256);
    vstd::arithmetic::div_mod::lemma_fundamental_div_mod(x / 65536, 256);
    vstd::arithmetic::div_mod::lemma_div_denominator(x, 256, 256);
    vstd::arithmetic::div_mod::lemma_div_denominator(x, 65536, 256);
    assert(x / 16777216 < 256) by {
        assert(x <= 0xffff_ffff);
        assert(x / 16777216 <= 0xffff_ffffint / 16777216) by {
            vstd::arithmetic::div_mod::lemma_div_is_ordered(x, 0xffff_ffff, 16777216);
        }
    }
    vstd::arithmetic::div_mod::lemma_small_mod((x / 16777216) as nat, 256);
}

/// Whether every entry fits the `u32` length fields.
pub open spec fn blob_ok(es: Seq<(Seq<u8>, Seq<u8>)>) -> bool {
    &&& es.len() <= u32::MAX
    &&& forall|i: int|
        0 <= i < es.len() ==> (#[trigger] es[i]).0.len() <= u32::MAX && es[i].1.len() <= u32::MAX
}

/// The index section: a pair of little-endian lengths per entry.
pub open spec fn index_bytes(es: Seq<(Seq<u8>, Seq<u8>)>) -> Seq<u8>
    decreases es.len(),
{
    if es.len() == 0 {
        Seq::empty()
    } else {
        u32_le_bytes(es[0].0.len()) + u32_le_bytes(es[0].1.len()) + index_bytes(es.skip(1))
    }
}

/// All names, back to back.
pub open spec fn names_bytes(es: Seq<(Seq<u8>, Seq<u8>)>) -> Seq<u8>
    decreases es.len(),
{
    if es.len() == 0 {
        Seq::empty()
    } else {
        es[0].0 + names_bytes(es.skip(1))
    }
}

/// All data, back to back.
pub open spec fn datas_bytes(es: Seq<(Seq<u8>, Seq<u8>)>) -> Seq<u8>
    decreases es.len(),
{
    if es.len() == 0 {
        Seq::empty()
    } else {
        es[0].1 + datas_bytes(es.skip(1))
    }
}

/// The whole container.
pub open spec fn blob_bytes(es: Seq<(Seq<u8>, Seq<u8>)>) -> Seq<u8> {
    u32_le_bytes(es.len() as nat) + index_bytes(es) + names_bytes(es) + datas_bytes(es)
}

/// The three sections are concatenation homomorphisms.
pub proof fn lemma_sections_append(a: Seq<(Seq<u8>, Seq<u8>)>, b: Seq<(Seq<u8>, Seq<u8>)>)
    ensures
        index_bytes(a + b) =~= index_bytes(a) + index_bytes(b),
        names_bytes(a + b) =~= names_bytes(a) + names_bytes(b),
        datas_bytes(a + b) =~= datas_bytes(a) + datas_bytes(b),
    decreases a.len(),
{
    if a.len() == 0 {
        assert(a + b =~= b);
        assert(index_bytes(a) =~= Seq::<u8>::empty());
        assert(names_bytes(a) =~= Seq::<u8>::empty());
        assert(datas_bytes(a) =~= Seq::<u8>::empty());
    } else {
        lemma_sections_append(a.skip(1), b);
        assert((a + b).skip(1) =~= a.skip(1) + b);
        assert((a + b)[0] == a[0]);
    }
}

/// A one-entry list's sections.
pub proof fn lemma_sections_single(e: (Seq<u8>, Seq<u8>))
    ensures
        index_bytes(seq![e]) =~= u32_le_bytes(e.0.len()) + u32_le_bytes(e.1.len()),
        names_bytes(seq![e]) =~= e.0,
        datas_bytes(seq![e]) =~= e.1,
{
    assert(seq![e].skip(1) =~= Seq::<(Seq<u8>, Seq<u8>)>::empty());
    assert(index_bytes(Seq::<(Seq<u8>, Seq<u8>)>::empty()) =~= Seq::<u8>::empty());
    assert(names_bytes(Seq::<(Seq<u8>, Seq<u8>)>::empty()) =~= Seq::<u8>::empty());
    assert(datas_bytes(Seq::<(Seq<u8>, Seq<u8>)>::empty()) =~= Seq::<u8>::empty());
    assert(seq![e][0] == e);
}

/// Bytes of the index section, entry by entry.
pub proof fn lemma_index_len(es: Seq<(Seq<u8>, Seq<u8>)>)
    ensures
        index_bytes(es).len() == 8 * es.len(),
    decreases es.len(),
{
    if es.len() > 0 {
        lemma_index_len(es.skip(1));
    }
}

/// Total length of the first `i` names.
pub open spec fn names_prefix_len(es: Seq<(Seq<u8>, Seq<u8>)>, i: int) -> nat
    decreases i,
{
    if i <= 0 {
        0
    } else {
        names_prefix_len(es, i - 1) + es[i - 1].0.len()
    }
}

/// Total length of the first `i` data fields.
pub open spec fn datas_prefix_len(es: Seq<(Seq<u8>, Seq<u8>)>, i: int) -> nat
    decreases i,
{
    if i <= 0 {
        0
    } else {
        datas_prefix_len(es, i - 1) + es[i - 1].1.len()
    }
}

/// Prefix sums step over the head of the list.
pub proof fn lemma_prefix_len_skip(es: Seq<(Seq<u8>, Seq<u8>)>, i: int)
    requires
        es.len() > 0,
        0 <= i <= es.len() - 1,
    ensures
        names_prefix_len(es, i + 1) == es[0].0.len() + names_prefix_len(es.skip(1), i),
        datas_prefix_len(es, i + 1) == es[0].1.len() + datas_prefix_len(es.skip(1), i),
    decreases i,
{
    if i > 0 {
        lemma_prefix_len_skip(es, i - 1);
        assert(es.skip(1)[i - 1] == es[i]);
        assert(names_prefix_len(es, i + 1) == names_prefix_len(es, i) + es[i].0.len());
        assert(names_prefix_len(es.skip(1), i) == names_prefix_len(es.skip(1), i - 1) + es.skip(
            1,
        )[i - 1].0.len());
        assert(datas_prefix_len(es, i + 1) == datas_prefix_len(es, i) + es[i].1.len());
        assert(datas_prefix_len(es.skip(1), i) == datas_prefix_len(es.skip(1), i - 1) + es.skip(
            1,
        )[i - 1].1.len());
    } else {
        assert(names_prefix_len(es, 1) == names_prefix_len(es, 0) + es[0].0.len());
        assert(datas_prefix_len(es, 1) == datas_prefix_len(es, 0) + es[0].1.len());
    }
}

/// The sections' lengths are the prefix sums over the whole list.
pub proof fn lemma_section_lens(es: Seq<(Seq<u8>, Seq<u8>)>)
    ensures
        names_bytes(es).len() == names_prefix_len(es, es.len() as int),
        datas_bytes(es).len() == datas_prefix_len(es, es.len() as int),
    decreases es.len(),
{
    if es.len() > 0 {
        lemma_section_lens(es.skip(1));
        lemma_prefix_len_skip(es, es.len() - 1);
    }
}

/// Where each index pair sits inside the index section.
pub proof fn lemma_index_slice(es: Seq<(Seq<u8>, Seq<u8>)>, i: int)
    requires
        0 <= i < es.len(),
    ensures
        index_bytes(es).subrange(8 * i, 8 * i + 4) =~= u32_le_bytes(es[i].0.len()),
        index_bytes(es).subrange(8 * i + 4, 8 * i + 8) =~= u32_le_bytes(es[i].1.len()),
    decreases i,
{
    lemma_index_len(es);
    if i == 0 {
        lemma_index_len(es.skip(1));
    } else {
        lemma_index_slice(es.skip(1), i - 1);
        assert(es.skip(1)[i - 1] == es[i]);
        let head = u32_le_bytes(es[0].0.len()) + u32_le_bytes(es[0].1.len());
        assert(index_bytes(es) =~= head + index_bytes(es.skip(1)));
        assert(index_bytes(es).subrange(8 * i, 8 * i + 4) =~= index_bytes(es.skip(1)).subrange(
            8 * (i - 1),
            8 * (i - 1) + 4,
        ));
        assert(index_bytes(es).subrange(8 * i + 4, 8 * i + 8) =~= index_bytes(es.skip(1)).subrange(
            8 * (i - 1) + 4,
            8 * (i - 1) + 8,
        ));
    }
}

/// Where each name sits inside the names section.
pub proof fn lemma_names_slice(es: Seq<(Seq<u8>, Seq<u8>)>, i: int)
    requires
        0 <= i < es.len(),
    ensures
        names_prefix_len(es, i) + es[i].0.len() <= names_bytes(es).len(),
        names_bytes(es).subrange(
            names_prefix_len(es, i) as int,
            names_prefix_len(es, i) + es[i].0.len() as int,
        ) =~= es[i].0,
    decreases i,
{
    lemma_section_lens(es);
    lemma_prefix_monotonic(es, i + 1, es.len() as int);
    if i == 0 {
        assert(names_bytes(es) =~= es[0].0 + names_bytes(es.skip(1)));
    } else {
        lemma_names_slice(es.skip(1), i - 1);
        assert(es.skip(1)[i - 1] == es[i]);
        lemma_prefix_len_skip(es, i - 1);
        assert(names_bytes(es) =~= es[0].0 + names_bytes(es.skip(1)));
        assert(names_prefix_len(es, i) == es[0].0.len() + names_prefix_len(es.skip(1), i - 1));
        assert(names_bytes(es).subrange(
            names_prefix_len(es, i) as int,
            names_prefix_len(es, i) + es[i].0.len() as int,
        ) =~= names_bytes(es.skip(1)).subrange(
            names_prefix_len(es.skip(1), i - 1) as int,
            names_prefix_len(es.skip(1), i - 1) + es[i].0.len() as int,
        ));
    }
}

/// Where each data field sits inside the data section.
pub proof fn lemma_datas_slice(es: Seq<(Seq<u8>, Seq<u8>)>, i: int)
    requires
        0 <= i < es.len(),
    ensures
        datas_prefix_len(es, i) + es[i].1.len() <= datas_bytes(es).len(),
        datas_bytes(es).subrange(
            datas_prefix_len(es, i) as int,
            datas_prefix_len(es, i) + es[i].1.len() as int,
        ) =~= es[i].1,
    decreases i,
{
    lemma_section_lens(es);
    lemma_prefix_monotonic(es, i + 1, es.len() as int);
    if i == 0 {
        assert(datas_bytes(es) =~= es[0].1 + datas_bytes(es.skip(1)));
    } else {
        lemma_datas_slice(es.skip(1), i - 1);
        assert(es.skip(1)[i - 1] == es[i]);
        lemma_prefix_len_skip(es, i - 1);
        assert(datas_bytes(es) =~= es[0].1 + datas_bytes(es.skip(1)));
        assert(datas_prefix_len(es, i) == es[0].1.len() + datas_prefix_len(es.skip(1), i - 1));
        assert(datas_bytes(es).subrange(
            datas_prefix_len(es, i) as int,
            datas_prefix_len(es, i) + es[i].1.len() as int,
        ) =~= datas_bytes(es.skip(1)).subrange(
            datas_prefix_len(es.skip(1), i - 1) as int,
            datas_prefix_len(es.skip(1), i - 1) + es[i].1.len() as int,
        ));
    }
}

/// Prefix sums only grow.
pub proof fn lemma_prefix_monotonic(es: Seq<(Seq<u8>, Seq<u8>)>, i: int, j: int)
    requires
        i <= j,
    ensures
        names_prefix_len(es, i) <= names_prefix_len(es, j),
        datas_prefix_len(es, i) <= datas_prefix_len(es, j),
    decreases j - i,
{
    if i < j {
        lemma_prefix_monotonic(es, i, j - 1);
    }
}

/// The entry count stored at the front of a container.
pub open spec fn blob_count(b: Seq<u8>) -> nat
    recommends
        b.len() >= 4,
{
    le_u32_val(b.subrange(0, 4))
}

/// The name length stored in the index for entry `i`.
pub open spec fn blob_name_len(b: Seq<u8>, i: int) -> nat {
    le_u32_val(b.subrange(4 + 8 * i, 4 + 8 * i + 4))
}

/// The data length stored in the index for entry `i`.
pub open spec fn blob_data_len(b: Seq<u8>, i: int) -> nat {
    le_u32_val(b.subrange(4 + 8 * i + 4, 4 + 8 * i + 8))
}

/// Total of the first `i` name lengths stored in the index.
pub open spec fn blob_names_prefix(b: Seq<u8>, i: int) -> nat
    decreases i,
{
    if i <= 0 {
        0
    } else {
        blob_names_prefix(b, i - 1) + blob_name_len(b, i - 1)
    }
}

/// Total of the first `i` data lengths stored in the index.
pub open spec fn blob_datas_prefix(b: Seq<u8>, i: int) -> nat
    decreases i,
{
    if i <= 0 {
        0
    } else {
        blob_datas_prefix(b, i - 1) + blob_data_len(b, i - 1)
    }
}

/// A well-formed container: the index is present and the declared lengths
/// account for the byte string exactly.
pub open spec fn blob_wf(b: Seq<u8>) -> bool {
    &&& b.len() >= 4
    &&& b.len() >= 4 + 8 * blob_count(b)
    &&& b.len() == 4 + 8 * blob_count(b) + blob_names_prefix(b, blob_count(b) as int)
        + blob_datas_prefix(b, blob_count(b) as int)
}

/// The name of entry `i`, as the index locates it.
pub open spec fn blob_entry_name(b: Seq<u8>, i: int) -> Seq<u8> {
    let base = 4 + 8 * blob_count(b) + blob_names_prefix(b, i);
    b.subrange(base as int, base + blob_name_len(b, i) as int)
}

/// The data of entry `i`, as the index locates it.
pub open spec fn blob_entry_data(b: Seq<u8>, i: int) -> Seq<u8> {
    let base = 4 + 8 * blob_count(b) + blob_names_prefix(b, blob_count(b) as int)
        + blob_datas_prefix(b, i);
    b.subrange(base as int, base + blob_data_len(b, i) as int)
}

/// Decodes a container, or nothing if the byte string is not one.
pub open spec fn decode_blob(b: Seq<u8>) -> Option<Seq<(Seq<u8>, Seq<u8>)>> {
    if blob_wf(b) {
        Some(
            Seq::new(
                blob_count(b),
                |i: int| (blob_entry_name(b, i), blob_entry_data(b, i)),
            ),
        )
    } else {
        None
    }
}

/// Decoding is the inverse of writing: the container built from any list of
/// entries that fits the format decodes back to exactly that list.
pub proof fn lemma_blob_round_trip(es: Seq<(Seq<u8>, Seq<u8>)>)
    requires
        blob_ok(es),
    ensures
        decode_blob(blob_bytes(es)) == Some(es),
{
    let b = blob_bytes(es);
    let n = es.len() as int;
    lemma_le_u32_roundtrip(es.len() as nat);
    lemma_index_len(es);
    lemma_section_lens(es);
    assert(b.subrange(0, 4) =~= u32_le_bytes(es.len() as nat));
    assert(blob_count(b) == es.len());
    // the index fields decode to the entry lengths
    assert forall|i: int| 0 <= i < n implies blob_name_len(b, i) == (#[trigger] es[i]).0.len()
        && blob_data_len(b, i) == es[i].1.len() by {
        lemma_index_slice(es, i);
        assert(b.subrange(4 + 8 * i, 4 + 8 * i + 4) =~= index_bytes(es).subrange(8 * i, 8 * i + 4));
        assert(b.subrange(4 + 8 * i + 4, 4 + 8 * i + 8) =~= index_bytes(es).subrange(
            8 * i + 4,
            8 * i + 8,
        ));
        lemma_le_u32_roundtrip(es[i].0.len());
        lemma_le_u32_roundtrip(es[i].1.len());
    }
    // hence the prefix sums agree
    assert forall|i: int| 0 <= i <= n implies #[trigger] blob_names_prefix(b, i)
        == names_prefix_len(es, i) by {
        lemma_blob_prefixes_match(b, es, i);
    }
    assert forall|i: int| 0 <= i <= n implies #[trigger] blob_datas_prefix(b, i)
        == datas_prefix_len(es, i) by {
        lemma_blob_prefixes_match(b, es, i);
    }
    assert(blob_wf(b));
    assert forall|i: int| 0 <= i < n implies #[trigger] blob_entry_name(b, i) == es[i].0 by {
        lemma_names_slice(es, i);
        lemma_prefix_monotonic(es, i + 1, n);
        let base = 4 + 8 * n + names_prefix_len(es, i);
        assert(b.subrange(base as int, base + es[i].0.len() as int) =~= names_bytes(es).subrange(
            names_prefix_len(es, i) as int,
            names_prefix_len(es, i) + es[i].0.len() as int,
        ));
        assert(blob_entry_name(b, i) =~= es[i].0);
    }
    assert forall|i: int| 0 <= i < n implies #[trigger] blob_entry_data(b, i) == es[i].1 by {
        lemma_datas_slice(es, i);
        lemma_prefix_monotonic(es, i + 1, n);
        let base = 4 + 8 * n + names_prefix_len(es, n) + datas_prefix_len(es, i);
        assert(b.subrange(base as int, base + es[i].1.len() as int) =~= datas_bytes(es).subrange(
            datas_prefix_len(es, i) as int,
            datas_prefix_len(es, i) + es[i].1.len() as int,
        ));
        assert(blob_entry_data(b, i) =~= es[i].1);
    }
    assert(decode_blob(b) == Some(
        Seq::new(es.len() as nat, |i: int| (blob_entry_name(b, i), blob_entry_data(b, i))),
    ));
    assert(Seq::new(es.len() as nat, |i: int| (blob_entry_name(b, i), blob_entry_data(b, i)))
        =~= es);
}

/// The stored prefix sums match the entries' prefix sums when the index
/// fields match the entries' lengths.
proof fn lemma_blob_prefixes_match(b: Seq<u8>, es: Seq<(Seq<u8>, Seq<u8>)>, i: int)
    requires
        0 <= i <= es.len(),
        forall|j: int| 0 <= j < es.len() ==> blob_name_len(b, j) == (#[trigger] es[j]).0.len()
            && blob_data_len(b, j) == es[j].1.len(),
    ensures
        blob_names_prefix(b, i) == names_prefix_len(es, i),
        blob_datas_prefix(b, i) == datas_prefix_len(es, i),
    decreases i,
{
    if i > 0 {
        lemma_blob_prefixes_match(b, es, i - 1);
    }
}

/// The stored prefix sums only grow.
pub proof fn lemma_blob_prefix_monotonic(b: Seq<u8>, i: int, j: int)
    requires
        i <= j,
    ensures
        blob_names_prefix(b, i) <= blob_names_prefix(b, j),
        blob_datas_prefix(b, i) <= blob_datas_prefix(b, j),
    decreases j - i,
{
    if i < j {
        lemma_blob_prefix_monotonic(b, i, j - 1);
    }
}

/// Reads the little-endian `u32` at `off`.
fn read_u32_at(data: &Vec<u8>, off: usize) -> (n: u32)
    requires
        off + 4 <= data@.len(),
    ensures
        n as nat == le_u32_val(data@.subrange(off as int, off as int + 4)),
{
    let l = data.len();
    proof {
        assert(off + 4 <= l);
    }
    let b0 = data[off] as u32;
    let b1 = data[off + 1] as u32;
    let b2 = data[off + 2] as u32;
    let b3 = data[off + 3] as u32;
    let r = b0 + 256 * b1 + 65536 * b2 + 16777216 * b3;
    proof {
        let s = data@.subrange(off as int, off as int + 4);
        assert(s[0] == data@[off as int]);
        assert(s[1] == data@[off as int + 1]);
        assert(s[2] == data@[off as int + 2]);
        assert(s[3] == data@[off as int + 3]);
    }
    r
}

/// Copies `count` bytes starting at `off`.
fn copy_range(data: &Vec<u8>, off: usize, count: usize) -> (out: Vec<u8>)
    requires
        off + count <= data@.len(),
    ensures
        out@ =~= data@.subrange(off as int, off as int + count as int),
{
    let l = data.len();
    proof {
        assert(off + count <= l);
    }
    let mut out: Vec<u8> = Vec::new();
    let mut k: usize = 0;
    while k < count
        invariant
            0 <= k <= count,
            off + count <= data@.len(),
            data@.len() == l,
            out@ =~= data@.subrange(off as int, off as int + k as int),
        decreases count - k,
    {
        let byte = data[off + k];
        out.push(byte);
        proof {
            assert(data@.subrange(off as int, off as int + k as int + 1) =~= data@.subrange(
                off as int,
                off as int + k as int,
            ) + seq![data@[off as int + k as int]]);
        }
        k = k + 1;
    }
    out
}

/// Parses a container. Succeeds exactly on well-formed containers, handing
/// back every entry's name bytes and data; `None` on anything else.
pub fn read_blob_entries(data: &Vec<u8>) -> (r: Option<Vec<(Vec<u8>, Vec<u8>)>>)
    ensures
        match r {
            Some(out) => decode_blob(data@) == Some(
                out@.map_values(|p: (Vec<u8>, Vec<u8>)| (p.0@, p.1@)),
            ),
            None => decode_blob(data@) is None,
        },
{
    let len = data.len();
    if len < 4 {
        return None;
    }
    let n32 = read_u32_at(data, 0);
    proof {
        assert(blob_count(data@) == n32 as nat);
    }
    let n = n32 as usize;
    if n > (len - 4) / 8 {
        proof {
            vstd::arithmetic::div_mod::lemma_fundamental_div_mod(len as int - 4, 8);
            assert(8 * (n as int) > len - 4);
        }
        return None;
    }
    proof {
        vstd::arithmetic::div_mod::lemma_fundamental_div_mod(len as int - 4, 8);
        assert(8 * (n as int) <= len - 4);
    }
    // first pass: total the declared lengths and hold them to the input size
    let mut names_total: u64 = 0;
    let mut datas_total: u64 = 0;
    let mut i: usize = 0;
    while i < n
        invariant
            0 <= i <= n,
            n == blob_count(data@),
            len == data@.len(),
            len >= 4,
            4 + 8 * n <= len,
            names_total as nat == blob_names_prefix(data@, i as int),
            datas_total as nat == blob_datas_prefix(data@, i as int),
            names_total <= len as u64,
            datas_total <= len as u64,
        decreases n - i,
    {
        let nl = read_u32_at(data, 4 + 8 * i);
        let dl = read_u32_at(data, 4 + 8 * i + 4);
        proof {
            assert(nl as nat == blob_name_len(data@, i as int));
            assert(dl as nat == blob_data_len(data@, i as int));
        }
        if (nl as u64) > (len as u64) - names_total {
            proof {
                assert(blob_names_prefix(data@, i as int + 1) > len);
                lemma_blob_prefix_monotonic(data@, i as int + 1, n as int);
                assert(!blob_wf(data@));
            }
            return None;
        }
        if (dl as u64) > (len as u64) - datas_total {
            proof {
                assert(blob_datas_prefix(data@, i as int + 1) > len);
                lemma_blob_prefix_monotonic(data@, i as int + 1, n as int);
                assert(!blob_wf(data@));
            }
            return None;
        }
        names_total = names_total + nl as u64;
        datas_total = datas_total + dl as u64;
        i = i + 1;
    }
    let body: u64 = (len as u64) - 4 - 8 * (n as u64);
    if names_total > body {
        proof {
            assert(!blob_wf(data@));
        }
        return None;
    }
    if datas_total != body - names_total {
        proof {
            assert(!blob_wf(data@));
        }
        return None;
    }
    proof {
        assert(blob_wf(data@));
    }
    // second pass: slice the names and data out
    let mut out: Vec<(Vec<u8>, Vec<u8>)> = Vec::new();
    let mut name_off: usize = 4 + 8 * n;
    let mut data_off: usize = 4 + 8 * n + (names_total as usize);
    let mut i: usize = 0;
    while i < n
        invariant
            0 <= i <= n,
            n == blob_count(data@),
            len == data@.len(),
            4 + 8 * n <= len,
            blob_wf(data@),
            names_total as nat == blob_names_prefix(data@, n as int),
            datas_total as nat == blob_datas_prefix(data@, n as int),
            name_off == 4 + 8 * n + blob_names_prefix(data@, i as int),
            data_off == 4 + 8 * n + blob_names_prefix(data@, n as int) + blob_datas_prefix(
                data@,
                i as int,
            ),
            out@.len() == i,
            forall|j: int| 0 <= j < i ==> (#[trigger] out@[j]).0@ == blob_entry_name(data@, j)
                && out@[j].1@ == blob_entry_data(data@, j),
        decreases n - i,
    {
        let nl = read_u32_at(data, 4 + 8 * i);
        let dl = read_u32_at(data, 4 + 8 * i + 4);
        proof {
            assert(nl as nat == blob_name_len(data@, i as int));
            assert(dl as nat == blob_data_len(data@, i as int));
            assert(blob_names_prefix(data@, i as int + 1) == blob_names_prefix(data@, i as int)
                + nl as nat);
            assert(blob_datas_prefix(data@, i as int + 1) == blob_datas_prefix(data@, i as int)
                + dl as nat);
            lemma_blob_prefix_monotonic(data@, i as int + 1, n as int);
        }
        let name = copy_range(data, name_off, nl as usize);
        let dat = copy_range(data, data_off, dl as usize);
        proof {
            assert(name@ == blob_entry_name(data@, i as int));
            assert(dat@ == blob_entry_data(data@, i as int));
        }
        out.push((name, dat));
        name_off = name_off + nl as usize;
        data_off = data_off + dl as usize;
        i = i + 1;
    }
    proof {
        let pairs = out@.map_values(|p: (Vec<u8>, Vec<u8>)| (p.0@, p.1@));
        assert(pairs =~= Seq::new(
            blob_count(data@),
            |j: int| (blob_entry_name(data@, j), blob_entry_data(data@, j)),
        ));
    }
    Some(out)
}

/// Appends the four little-endian bytes of `n`.
fn push_u32_le(out: &mut Vec<u8>, n: u32)
    ensures
        final(out)@ =~= old(out)@ + u32_le_bytes(n as nat),
{
    out.push((n % 256) as u8);
    out.push(((n / 256) % 256) as u8);
    out.push(((n / 65536) % 256) as u8);
    out.push(((n / 16777216) % 256) as u8);
}

/// Serializes entries into the container layout.
///
/// Succeeds exactly when the entry count and every name and data length fit
/// in `u32`; a too-long name or data is reported as `TooLarge` with the
/// entry's name.
pub fn write_blob_entries(entries: &Vec<BlobEntry>) -> (r: Result<Vec<u8>, RepackageError>)
    ensures
        match r {
            Ok(out) => blob_ok(entries_bytes(blob_entries_view(entries@))) && out@ =~= blob_bytes(
                entries_bytes(blob_entries_view(entries@)),
            ),
            Err(e) => !blob_ok(entries_bytes(blob_entries_view(entries@))) && e matches
                RepackageError::TooLarge { .. },
        },
{
    let ghost es = entries_bytes(blob_entries_view(entries@));
    proof {
        assert(es.len() == entries@.len());
        assert forall|i: int| 0 <= i < entries@.len() implies #[trigger] es[i] == (
            vstd::utf8::encode_utf8(entries@[i].name@),
            entries@[i].data@,
        ) by {
            assert(blob_entries_view(entries@)[i] == entries@[i]@);
        }
    }
    let n = entries.len();
    if n > (u32::MAX as usize) {
        return Err(
            RepackageError::TooLarge { name: String::new() },
        );
        // unreachable on targets whose usize is 32 bits, possible on 64-bit
    }
    let mut out: Vec<u8> = Vec::new();
    push_u32_le(&mut out, n as u32);
    // index section
    let mut i: usize = 0;
    while i < n
        invariant
            0 <= i <= n,
            n == entries@.len(),
            n <= u32::MAX,
            es.len() == n,
            es =~= entries_bytes(blob_entries_view(entries@)),
            forall|j: int| 0 <= j < entries@.len() ==> #[trigger] es[j] == (
                vstd::utf8::encode_utf8(entries@[j].name@),
                entries@[j].data@,
            ),
            forall|j: int|
                0 <= j < i ==> (#[trigger] es[j]).0.len() <= u32::MAX && es[j].1.len() <= u32::MAX,
            out@ =~= u32_le_bytes(n as nat) + index_bytes(es.take(i as int)),
        decreases n - i,
    {
        let name_len = {
            let entry: &BlobEntry = &entries[i];
            entry.name.as_str().as_bytes().len()
        };
        let data_len = {
            let entry: &BlobEntry = &entries[i];
            entry.data.len()
        };
        if name_len > (u32::MAX as usize) || data_len > (u32::MAX as usize) {
            let entry: &BlobEntry = &entries[i];
            return Err(RepackageError::TooLarge { name: entry.name.clone() });
        }
        push_u32_le(&mut out, name_len as u32);
        push_u32_le(&mut out, data_len as u32);
        proof {
            assert(es.take(i + 1) =~= es.take(i as int) + seq![es[i as int]]);
            lemma_sections_append(es.take(i as int), seq![es[i as int]]);
            lemma_sections_single(es[i as int]);
            assert(es[i as int].0.len() == name_len);
            assert(es[i as int].1.len() == data_len);
        }
        i = i + 1;
    }
    proof {
        assert(es.take(n as int) =~= es);
        assert(blob_ok(es));
    }
    // names section
    let mut i: usize = 0;
    while i < n
        invariant
            0 <= i <= n,
            n == entries@.len(),
            es.len() == n,
            forall|j: int| 0 <= j < entries@.len() ==> #[trigger] es[j] == (
                vstd::utf8::encode_utf8(entries@[j].name@),
                entries@[j].data@,
            ),
            out@ =~= u32_le_bytes(n as nat) + index_bytes(es) + names_bytes(es.take(i as int)),
        decreases n - i,
    {
        let entry: &BlobEntry = &entries[i];
        let name_bytes: &[u8] = entry.name.as_str().as_bytes();
        let mut k: usize = 0;
        let nb_len = name_bytes.len();
        while k < nb_len
            invariant
                0 <= k <= nb_len,
                nb_len == name_bytes@.len(),
                out@ =~= u32_le_bytes(n as nat) + index_bytes(es) + names_bytes(es.take(i as int))
                    + name_bytes@.take(k as int),
            decreases nb_len - k,
        {
            let byte = name_bytes[k];
            out.push(byte);
            proof {
                assert(name_bytes@.take(k + 1) =~= name_bytes@.take(k as int) + seq![
                    name_bytes@[k as int],
                ]);
            }
            k = k + 1;
        }
        proof {
            assert(name_bytes@.take(nb_len as int) =~= name_bytes@);
            assert(es.take(i + 1) =~= es.take(i as int) + seq![es[i as int]]);
            lemma_sections_append(es.take(i as int), seq![es[i as int]]);
            lemma_sections_single(es[i as int]);
            assert(name_bytes@ == es[i as int].0);
        }
        i = i + 1;
    }
    proof {
        assert(es.take(n as int) =~= es);
    }
    // data section
    let mut i: usize = 0;
    while i < n
        invariant
            0 <= i <= n,
            n == entries@.len(),
            es.len() == n,
            forall|j: int| 0 <= j < entries@.len() ==> #[trigger] es[j] == (
                vstd::utf8::encode_utf8(entries@[j].name@),
                entries@[j].data@,
            ),
            out@ =~= u32_le_bytes(n as nat) + index_bytes(es) + names_bytes(es) + datas_bytes(
                es.take(i as int),
            ),
        decreases n - i,
    {
        let entry: &BlobEntry = &entries[i];
        let data_len = entry.data.len();
        let mut k: usize = 0;
        while k < data_len
            invariant
                0 <= k <= data_len,
                i < entries@.len(),
                es.len() == entries@.len(),
                data_len == entries@[i as int].data@.len(),
                forall|j: int| 0 <= j < entries@.len() ==> #[trigger] es[j] == (
                    vstd::utf8::encode_utf8(entries@[j].name@),
                    entries@[j].data@,
                ),
                out@ =~= u32_le_bytes(n as nat) + index_bytes(es) + names_bytes(es) + datas_bytes(
                    es.take(i as int),
                ) + entries@[i as int].data@.take(k as int),
            decreases data_len - k,
        {
            let byte = {
                let entry2: &BlobEntry = &entries[i];
                entry2.data[k]
            };
            out.push(byte);
            proof {
                assert(entries@[i as int].data@.take(k + 1) =~= entries@[i as int].data@.take(
                    k as int,
                ) + seq![entries@[i as int].data@[k as int]]);
            }
            k = k + 1;
        }
        proof {
            assert(entries@[i as int].data@.take(data_len as int) =~= entries@[i as int].data@);
            assert(es.take(i + 1) =~= es.take(i as int) + seq![es[i as int]]);
            lemma_sections_append(es.take(i as int), seq![es[i as int]]);
            lemma_sections_single(es[i as int]);
        }
        i = i + 1;
    }
    proof {
        assert(es.take(n as int) =~= es);
    }
    Ok(out)
}

} // verus!
