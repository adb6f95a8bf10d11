//! Log-structured document store core: the memtable of pending writes, the
//! on-disk segment record format, segment compaction, lookups across the
//! memtable and segments, retention, and the store's file naming.
use vstd::prelude::*;
use crate::scan::copy_range;
use vstd::string::StringSliceAdditionalSpecFns;
use crate::database::keymap::{
    ByteKeyMap, entries_map, has_key, lemma_entries_map_at, lemma_lex_asymmetric, lemma_lex_irreflexive,
    lemma_lex_transitive, lex_compare, lex_lt, sorted_keys,
};
use vstd::utf8::encode_utf8;
use crate::text::{signed_decimal, signed_zero_padded, push_signed_decimal, push_signed_zero_padded};

verus! {

/// The path type of the store's directory.
#[verifier::external_type_specification]
#[verifier::external_body]
pub struct ExPathBuf(std::path::PathBuf);

/// Configuration for the store
pub struct LsmrConfig {
    /// directory to store segments
    pub path: std::path::PathBuf,
    /// memtable flush threshold in bytes
    pub memtable_threshold: usize,
    /// maximum number of retained segment files; `None` keeps every segment
    pub max_segments: Option<usize>,
}

/// Version assumed for segment metadata that does not record one.
pub fn segmeta_version_default() -> (r: u32)
    ensures
        r == 1,
{
    1
}

/// On-disk segment version written by this code.
pub const SEGMENT_VERSION_WRITTEN: u32 = 2;

/// The tombstone marker: the JSON text `null`.
pub open spec fn tombstone() -> Seq<u8> {
    seq![0x6eu8, 0x75u8, 0x6cu8, 0x6cu8]
}

/// Whether stored bytes are the tombstone marker.
pub fn is_tombstone(bytes: &[u8]) -> (r: bool)
    ensures
        r == (bytes@ == tombstone()),
{
    let r = bytes.len() == 4 && bytes[0] == 0x6e && bytes[1] == 0x75 && bytes[2] == 0x6c
        && bytes[3] == 0x6c;
    proof {
        if bytes@.len() == 4 && r {
            assert(bytes@ =~= tombstone());
        }
    }
    r
}

/// The tombstone marker as owned bytes.
pub fn tombstone_bytes() -> (r: Vec<u8>)
    ensures
        r@ == tombstone(),
{
    let mut v: Vec<u8> = Vec::new();
    v.push(0x6e);
    v.push(0x75);
    v.push(0x6c);
    v.push(0x6c);
    assert(v@ =~= tombstone());
    v
}

pub open spec fn sat_add(a: nat, b: nat) -> nat {
    if a + b > usize::MAX {
        usize::MAX as nat
    } else {
        a + b
    }
}

pub open spec fn sat_sub(a: nat, b: nat) -> nat {
    if a >= b {
        (a - b) as nat
    } else {
        0
    }
}

/// In-memory table of pending writes (document id -> JSON bytes), with a
/// running size used to decide when to flush.
pub struct MemTable {
    map: ByteKeyMap<Vec<u8>>,
    size: usize,
}

/// Total length of the values of an entry list.
pub open spec fn value_bytes(entries: Seq<(Vec<u8>, Vec<u8>)>) -> nat
    decreases entries.len(),
{
    if entries.len() == 0 {
        0
    } else {
        value_bytes(entries.drop_last()) + entries.last().1@.len()
    }
}

/// Replacing one entry changes the total by the difference of the values'
/// lengths.
pub proof fn lemma_value_bytes_update(entries: Seq<(Vec<u8>, Vec<u8>)>, i: int, e: (Vec<u8>, Vec<u8>))
    requires
        0 <= i < entries.len(),
    ensures
        value_bytes(entries.update(i, e)) + entries[i].1@.len() == value_bytes(entries) + e.1@.len(),
    decreases entries.len(),
{
    let u = entries.update(i, e);
    if i == entries.len() - 1 {
        assert(u.drop_last() =~= entries.drop_last());
    } else {
        assert(u.drop_last() =~= entries.drop_last().update(i, e));
        lemma_value_bytes_update(entries.drop_last(), i, e);
    }
}

/// Inserting one entry adds the length of its value to the total.
pub proof fn lemma_value_bytes_insert(entries: Seq<(Vec<u8>, Vec<u8>)>, i: int, e: (Vec<u8>, Vec<u8>))
    requires
        0 <= i <= entries.len(),
    ensures
        value_bytes(entries.insert(i, e)) == value_bytes(entries) + e.1@.len(),
    decreases entries.len(),
{
    let u = entries.insert(i, e);
    if i == entries.len() {
        assert(u.drop_last() =~= entries);
    } else {
        assert(u.drop_last() =~= entries.drop_last().insert(i, e));
        lemma_value_bytes_insert(entries.drop_last(), i, e);
    }
}

impl MemTable {
    pub closed spec fn entries(&self) -> Seq<(Vec<u8>, Vec<u8>)> {
        self.map.entries()
    }

    pub closed spec fn size_spec(&self) -> usize {
        self.size
    }

    /// Ids in order, and the running size is the total length of the
    /// pending values.
    pub open spec fn wf(&self) -> bool {
        &&& sorted_keys(self.entries())
        &&& self.size_spec() == value_bytes(self.entries())
    }

    /// The pending writes as a map from id to stored bytes.
    pub open spec fn contents(&self) -> Map<Seq<u8>, Vec<u8>> {
        entries_map(self.entries())
    }

    pub fn new() -> (r: Self)
        ensures
            r.wf(),
            r.entries() == Seq::<(Vec<u8>, Vec<u8>)>::empty(),
            r.size_spec() == 0,
    {
        Self { map: ByteKeyMap::new(), size: 0 }
    }

    /// Record `bytes` for `id`. The running size drops the length of a
    /// replaced value and adds the length of the inserted one, so it stays
    /// the total length of the pending values. The total must fit in memory's
    /// address range.
    pub fn insert(&mut self, id: Vec<u8>, bytes: Vec<u8>)
        requires
            old(self).wf(),
            old(self).size_spec() + bytes@.len() <= usize::MAX,
        ensures
            final(self).wf(),
            final(self).contents() == old(self).contents().insert(id@, bytes),
            final(self).entries().len() > 0,
            final(self).size_spec() == if old(self).contents().dom().contains(id@) {
                old(self).size_spec() - old(self).contents()[id@]@.len() + bytes@.len()
            } else {
                old(self).size_spec() + bytes@.len()
            },
    {
        let ghost k = id@;
        let ghost before = self.map.entries();
        let ghost pair = (id, bytes);
        let n = bytes.len();
        match self.map.insert(id, bytes) {
            Some(prev) => {
                proof {
                    let i = choose|i: int|
                        0 <= i <= before.len() && i < before.len() && before[i].0@ == k
                            && self.map.entries() == before.update(i, pair);
                    lemma_value_bytes_update(before, i, pair);
                    lemma_entries_map_at(before, i);
                }
                self.size = (self.size + n) - prev.len();
            },
            None => {
                proof {
                    let i = choose|i: int|
                        0 <= i <= before.len() && self.map.entries() == before.insert(i, pair);
                    lemma_value_bytes_insert(before, i, pair);
                }
                self.size = self.size + n;
            },
        }
        proof {
            assert(self.map.map().dom().contains(k));
            assert(self.map.entries().len() > 0);
        }
    }

    /// The pending bytes for `id`, if any.
    pub fn get(&self, id: &[u8]) -> (r: Option<&Vec<u8>>)
        requires
            self.wf(),
        ensures
            match r {
                Some(v) => self.contents().dom().contains(id@) && *v == self.contents()[id@],
                None => !self.contents().dom().contains(id@),
            },
    {
        self.map.get(id)
    }

    pub fn size(&self) -> (r: usize)
        ensures
            r == self.size_spec(),
    {
        self.size
    }

    pub fn is_empty(&self) -> (r: bool)
        ensures
            r == (self.entries().len() == 0),
    {
        self.map.is_empty()
    }

    /// Hand out every pending write in id order and empty the table.
    pub fn drain(&mut self) -> (r: Vec<(Vec<u8>, Vec<u8>)>)
        requires
            old(self).wf(),
        ensures
            final(self).wf(),
            r@ == old(self).entries(),
            final(self).entries() == Seq::<(Vec<u8>, Vec<u8>)>::empty(),
            final(self).size_spec() == 0,
    {
        let items = self.map.take_all();
        self.size = 0;
        items
    }
}

impl LsmrConfig {
    /// A write leaves the memtable in place while its size is below the
    /// threshold; otherwise the memtable is flushed.
    pub fn needs_flush(&self, mem: &MemTable) -> (r: bool)
        ensures
            r == (mem.size_spec() >= self.memtable_threshold),
    {
        !(mem.size() < self.memtable_threshold)
    }
}

/// Little-endian encoding of `x` in `n` bytes.
pub open spec fn le_bytes(x: nat, n: nat) -> Seq<u8>
    decreases n,
{
    if n == 0 {
        Seq::empty()
    } else {
        seq![(x % 256) as u8] + le_bytes(x / 256, (n - 1) as nat)
    }
}

pub proof fn lemma_le_bytes_len(x: nat, n: nat)
    ensures
        le_bytes(x, n).len() == n,
    decreases n,
{
    if n > 0 {
        lemma_le_bytes_len(x / 256, (n - 1) as nat);
    }
}

/// Append the 8-byte little-endian encoding of `x`.
pub fn push_u64_le(out: &mut Vec<u8>, x: u64)
    ensures
        final(out)@ == old(out)@ + le_bytes(x as nat, 8),
{
    let mut v = x;
    let mut i: usize = 0;
    while i < 8
        invariant
            i <= 8,
            out@ + le_bytes(v as nat, (8 - i) as nat) == old(out)@ + le_bytes(x as nat, 8),
        decreases 8 - i,
    {
        let ghost before = out@;
        out.push((v % 256) as u8);
        proof {
            assert(le_bytes(v as nat, (8 - i) as nat) == seq![(v % 256) as u8] + le_bytes(
                (v / 256) as nat,
                (8 - i - 1) as nat,
            ));
            assert(before + (seq![(v % 256) as u8] + le_bytes((v / 256) as nat, (8 - i - 1) as nat))
                =~= out@ + le_bytes((v / 256) as nat, (8 - i - 1) as nat));
        }
        v = v / 256;
        i = i + 1;
    }
    assert(out@ + le_bytes(v as nat, 0) =~= out@);
}

/// One record of a segment: key length (8 bytes LE), key, tombstone flag
/// (1 byte), payload length (8 bytes LE), payload.
pub open spec fn record(key: Seq<u8>, flag: u8, payload: Seq<u8>) -> Seq<u8> {
    le_bytes(key.len(), 8) + key + seq![flag] + le_bytes(payload.len(), 8) + payload
}

/// Record written when a pending write is flushed: a tombstone is written
/// with flag 1 and an empty payload.
pub open spec fn flush_record(key: Seq<u8>, value: Seq<u8>) -> Seq<u8> {
    if value == tombstone() {
        record(key, 1, Seq::empty())
    } else {
        record(key, 0, value)
    }
}

/// Byte pairs of owned pairs.
pub open spec fn pair_views(items: Seq<(Vec<u8>, Vec<u8>)>) -> Seq<(Seq<u8>, Seq<u8>)> {
    items.map_values(|p: (Vec<u8>, Vec<u8>)| (p.0@, p.1@))
}

/// Segment image written by a flush of `items`, in order.
pub open spec fn flush_image(items: Seq<(Seq<u8>, Seq<u8>)>) -> Seq<u8>
    decreases items.len(),
{
    if items.len() == 0 {
        Seq::empty()
    } else {
        flush_image(items.drop_last()) + flush_record(items.last().0, items.last().1)
    }
}

/// Payload length recorded for a flushed value.
pub open spec fn flush_payload_len(value: Seq<u8>) -> nat {
    if value == tombstone() {
        0
    } else {
        value.len()
    }
}

/// Index entry of the `i`-th flushed item: where its payload starts and
/// how long it is.
pub open spec fn flush_entry(items: Seq<(Seq<u8>, Seq<u8>)>, i: int) -> SegmentIndexEntry {
    SegmentIndexEntry {
        offset: (flush_image(items.take(i)).len() + 17 + items[i].0.len()) as u64,
        len: flush_payload_len(items[i].1) as u64,
    }
}

/// Location of a payload inside a segment's data.
#[derive(Debug, Clone, Copy, PartialEq, Eq, Structural)]
pub struct SegmentIndexEntry {
    pub offset: u64,
    pub len: u64,
}

/// Segment metadata persisted alongside segment data.
pub struct SegmentMeta {
    pub filename: String,
    pub index: ByteKeyMap<SegmentIndexEntry>,
    pub size: u64,
    pub version: u32,
}

/// A record laid after `prefix` keeps `prefix` in front.
pub proof fn lemma_flush_image_prefix(items: Seq<(Seq<u8>, Seq<u8>)>, i: int)
    requires
        0 <= i <= items.len(),
    ensures
        flush_image(items.take(i)).len() <= flush_image(items).len(),
        flush_image(items) =~= flush_image(items.take(i)) + flush_image(items).subrange(
            flush_image(items.take(i)).len() as int,
            flush_image(items).len() as int,
        ),
    decreases items.len() - i,
{
    if i < items.len() {
        lemma_flush_image_prefix(items, i + 1);
        let t = items.take(i + 1);
        assert(t.drop_last() =~= items.take(i));
        assert(flush_image(t) == flush_image(items.take(i)) + flush_record(t.last().0, t.last().1));
    } else {
        assert(items.take(i) =~= items);
    }
}

/// Read-after-write for a flushed segment: the payload an index entry points
/// at is the value that was written, and a tombstone points at nothing.
pub proof fn law_flush_read_back(items: Seq<(Seq<u8>, Seq<u8>)>, i: int)
    requires
        0 <= i < items.len(),
        flush_image(items).len() <= u64::MAX,
    ensures
        ({
            let e = flush_entry(items, i);
            &&& e.offset + e.len <= flush_image(items).len()
            &&& items[i].1 != tombstone() ==> flush_image(items).subrange(
                e.offset as int,
                e.offset + e.len,
            ) == items[i].1
            &&& items[i].1 == tombstone() ==> e.len == 0
        }),
{
    let t = items.take(i + 1);
    assert(t.drop_last() =~= items.take(i));
    assert(t.last() == items[i]);
    let pre = flush_image(items.take(i));
    let key = items[i].0;
    let value = items[i].1;
    let rec = flush_record(key, value);
    assert(flush_image(t) == pre + rec);
    lemma_flush_image_prefix(items, i + 1);
    lemma_le_bytes_len(key.len(), 8);
    let payload = if value == tombstone() { Seq::<u8>::empty() } else { value };
    lemma_le_bytes_len(payload.len(), 8);
    let flag: u8 = if value == tombstone() { 1 } else { 0 };
    assert(rec =~= le_bytes(key.len(), 8) + key + seq![flag] + le_bytes(payload.len(), 8) + payload);
    let whole = flush_image(items);
    let off: int = (pre.len() + 17 + key.len()) as int;
    let ks: int = (17 + key.len()) as int;
    assert(whole.subrange(0, flush_image(t).len() as int) =~= pre + rec);
    if value != tombstone() {
        assert(whole.subrange(off, off + value.len()) =~= rec.subrange(ks, rec.len() as int));
        assert(rec.subrange(ks, rec.len() as int) =~= value);
    }
}

/// Encode flushed items into segment data and its index. Items come in
/// strictly increasing id order.
pub fn encode_flush(items: &Vec<(Vec<u8>, Vec<u8>)>) -> (r: (Vec<u8>, ByteKeyMap<
    SegmentIndexEntry,
>, u64))
    requires
        sorted_keys(items@),
    ensures
        r.0@ == flush_image(pair_views(items@)),
        r.1.wf(),
        r.1.entries().len() == items@.len(),
        forall|i: int|
            0 <= i < items@.len() ==> (#[trigger] r.1.entries()[i]).0@ == items@[i].0@ && r.1.entries()[i].1
                == flush_entry(pair_views(items@), i),
        r.2 == r.0@.len(),
{
    let ghost pv = pair_views(items@);
    let mut data: Vec<u8> = Vec::new();
    let mut index: ByteKeyMap<SegmentIndexEntry> = ByteKeyMap::new();
    let mut i: usize = 0;
    while i < items.len()
        invariant
            i <= items@.len(),
            pv == pair_views(items@),
            sorted_keys(items@),
            data@ == flush_image(pv.take(i as int)),
            index.wf(),
            index.entries().len() == i,
            forall|j: int|
                0 <= j < i ==> (#[trigger] index.entries()[j]).0@ == items@[j].0@ && index.entries()[j].1
                    == flush_entry(pv, j),
        decreases items@.len() - i,
    {
        let key = &items[i].0;
        let value = &items[i].1;
        let tomb = is_tombstone(value.as_slice());
        let ghost before = data@;
        push_u64_le(&mut data, key.len() as u64);
        let mut k: usize = 0;
        while k < key.len()
            invariant
                k <= key@.len(),
                data@ == before + le_bytes(key@.len(), 8) + key@.subrange(0, k as int),
            decreases key@.len() - k,
        {
            data.push(key[k]);
            k = k + 1;
            proof {
                assert(data@ =~= before + le_bytes(key@.len(), 8) + key@.subrange(0, k as int));
            }
        }
        assert(key@.subrange(0, key@.len() as int) =~= key@);
        data.push(if tomb { 1u8 } else { 0u8 });
        let payload_len: u64 = if tomb { 0 } else { value.len() as u64 };
        push_u64_le(&mut data, payload_len);
        let entry_offset = data.len() as u64;
        let ghost mid = data@;
        if !tomb {
            let mut m: usize = 0;
            while m < value.len()
                invariant
                    m <= value@.len(),
                    data@ == mid + value@.subrange(0, m as int),
                decreases value@.len() - m,
            {
                data.push(value[m]);
                m = m + 1;
                proof {
                    assert(data@ =~= mid + value@.subrange(0, m as int));
                }
            }
            assert(value@.subrange(0, value@.len() as int) =~= value@);
        }
        proof {
            lemma_le_bytes_len(key@.len(), 8);
            lemma_le_bytes_len(payload_len as nat, 8);
            let t = pv.take(i + 1);
            assert(t.drop_last() =~= pv.take(i as int));
            assert(t.last() == (key@, value@));
            if tomb {
                assert(data@ =~= before + flush_record(key@, value@));
            } else {
                assert(data@ =~= before + flush_record(key@, value@));
            }
            assert(data@ == flush_image(t));
            assert(entry_offset == before.len() + 17 + key@.len());
        }
        let entry = SegmentIndexEntry { offset: entry_offset, len: payload_len };
        proof {
            if i > 0 {
                assert(index.entries().last().0@ == items@[i - 1].0@);
            }
        }
        index.push_last(key.clone(), entry);
        proof {
            assert(index.entries()[i as int].0@ == items@[i as int].0@);
        }
        i = i + 1;
    }
    assert(pv.take(items@.len() as int) =~= pv);
    let size = data.len() as u64;
    (data, index, size)
}

/// Payload bytes an index entry points at.
pub open spec fn payload_of(data: Seq<u8>, e: SegmentIndexEntry) -> Seq<u8> {
    data.subrange(e.offset as int, e.offset + e.len)
}

/// Whether an index entry holds a live value: in version 1 segments a
/// tombstone is the stored `null`, from version 2 on it is an empty payload.
pub open spec fn entry_live(version: u32, e: SegmentIndexEntry, payload: Seq<u8>) -> bool {
    !(version <= 1 && payload == tombstone()) && !(version >= 2 && e.len == 0)
}

/// Every entry points inside the segment's data.
pub open spec fn entries_in_bounds(entries: Seq<(Vec<u8>, SegmentIndexEntry)>, len: nat) -> bool {
    forall|i: int| 0 <= i < entries.len() ==> (#[trigger] entries[i]).1.offset + entries[i].1.len <= len
}

/// The newest record of each key once the entries of one segment, in
/// index order, are laid over the records `m` of older segments: the
/// payload of a live entry, `None` for a deletion.
pub open spec fn lay_segment(
    m: Map<Seq<u8>, Option<Seq<u8>>>,
    entries: Seq<(Vec<u8>, SegmentIndexEntry)>,
    data: Seq<u8>,
    version: u32,
) -> Map<Seq<u8>, Option<Seq<u8>>>
    decreases entries.len(),
{
    if entries.len() == 0 {
        m
    } else {
        let e = entries.last();
        let payload = payload_of(data, e.1);
        lay_segment(m, entries.drop_last(), data, version).insert(
            e.0@,
            if entry_live(version, e.1, payload) {
                Some(payload)
            } else {
                None
            },
        )
    }
}

/// The newest record of each key over the first `n` segments, oldest
/// segment first.
pub open spec fn newest_records(segs: Seq<SegmentMeta>, data: Seq<Vec<u8>>, n: int) -> Map<
    Seq<u8>,
    Option<Seq<u8>>,
>
    decreases n,
{
    if n <= 0 {
        Map::empty()
    } else {
        lay_segment(
            newest_records(segs, data, n - 1),
            segs[n - 1].index.entries(),
            data[n - 1]@,
            segs[n - 1].version,
        )
    }
}

/// The keys whose newest record is live, with that record's payload: a
/// deletion hides every older value of its key.
pub open spec fn surviving(m: Map<Seq<u8>, Option<Seq<u8>>>) -> Map<Seq<u8>, Seq<u8>> {
    Map::new(|k: Seq<u8>| m.dom().contains(k) && m[k] is Some, |k: Seq<u8>| m[k]->0)
}

/// A stored record as plain bytes.
pub open spec fn opt_bytes(o: Option<Vec<u8>>) -> Option<Seq<u8>> {
    match o {
        Some(v) => Some(v@),
        None => None,
    }
}

/// Records by key, as plain bytes.
pub open spec fn records_view(m: Map<Seq<u8>, Option<Vec<u8>>>) -> Map<Seq<u8>, Option<Seq<u8>>> {
    m.map_values(|o: Option<Vec<u8>>| opt_bytes(o))
}

/// Keys strictly increasing in lexicographic order.
pub open spec fn strictly_sorted(items: Seq<(Seq<u8>, Seq<u8>)>) -> bool {
    forall|a: int, b: int|
        0 <= a < b < items.len() ==> lex_lt((#[trigger] items[a]).0, (#[trigger] items[b]).0)
}

/// Segment image written by a compaction: each pair as a record with flag
/// 0, in order.
pub open spec fn compact_image(items: Seq<(Seq<u8>, Seq<u8>)>) -> Seq<u8>
    decreases items.len(),
{
    if items.len() == 0 {
        Seq::empty()
    } else {
        compact_image(items.drop_last()) + record(items.last().0, 0, items.last().1)
    }
}

/// Index entry of the `j`-th compacted pair.
pub open spec fn compact_entry(items: Seq<(Seq<u8>, Seq<u8>)>, j: int) -> SegmentIndexEntry {
    SegmentIndexEntry {
        offset: (compact_image(items.take(j)).len() + 17 + items[j].0.len()) as u64,
        len: items[j].1.len() as u64,
    }
}

/// Index of the compacted segment after its first `n` pairs: a later pair
/// replaces the entry of an earlier pair with the same key.
pub open spec fn compact_index(items: Seq<(Seq<u8>, Seq<u8>)>, n: int) -> Map<
    Seq<u8>,
    SegmentIndexEntry,
>
    decreases n,
{
    if n <= 0 {
        Map::empty()
    } else {
        compact_index(items, n - 1).insert(items[n - 1].0, compact_entry(items, n - 1))
    }
}

/// The payload of the last of the first `n` pairs for each key.
pub open spec fn newest_payloads(items: Seq<(Seq<u8>, Seq<u8>)>, n: int) -> Map<Seq<u8>, Seq<u8>>
    decreases n,
{
    if n <= 0 {
        Map::empty()
    } else {
        newest_payloads(items, n - 1).insert(items[n - 1].0, items[n - 1].1)
    }
}

pub proof fn lemma_compact_image_prefix(items: Seq<(Seq<u8>, Seq<u8>)>, i: int)
    requires
        0 <= i <= items.len(),
    ensures
        compact_image(items.take(i)).len() <= compact_image(items).len(),
        compact_image(items) =~= compact_image(items.take(i)) + compact_image(items).subrange(
            compact_image(items.take(i)).len() as int,
            compact_image(items).len() as int,
        ),
    decreases items.len() - i,
{
    if i < items.len() {
        lemma_compact_image_prefix(items, i + 1);
        let t = items.take(i + 1);
        assert(t.drop_last() =~= items.take(i));
    } else {
        assert(items.take(i) =~= items);
    }
}

/// The payload of the `j`-th compacted pair sits where its entry points.
pub proof fn lemma_compact_record_at(items: Seq<(Seq<u8>, Seq<u8>)>, j: int)
    requires
        0 <= j < items.len(),
        compact_image(items).len() <= u64::MAX,
    ensures
        ({
            let e = compact_entry(items, j);
            &&& e.offset + e.len <= compact_image(items).len()
            &&& compact_image(items).subrange(e.offset as int, e.offset + e.len) == items[j].1
        }),
{
    let t = items.take(j + 1);
    assert(t.drop_last() =~= items.take(j));
    assert(t.last() == items[j]);
    let pre = compact_image(items.take(j));
    let key = items[j].0;
    let value = items[j].1;
    let rec = record(key, 0, value);
    assert(compact_image(t) == pre + rec);
    lemma_compact_image_prefix(items, j + 1);
    lemma_le_bytes_len(key.len(), 8);
    lemma_le_bytes_len(value.len(), 8);
    let whole = compact_image(items);
    let off: int = (pre.len() + 17 + key.len()) as int;
    let ks: int = (17 + key.len()) as int;
    assert(whole.subrange(0, compact_image(t).len() as int) =~= pre + rec);
    assert(whole.subrange(off, off + value.len()) =~= rec.subrange(ks, rec.len() as int));
    assert(rec.subrange(ks, rec.len() as int) =~= value);
}

/// Read-after-compaction: every key of the compacted index points at the
/// payload of the last pair written for that key, and the index holds
/// exactly the keys of the pairs.
pub proof fn law_compact_read_back(items: Seq<(Seq<u8>, Seq<u8>)>, n: int)
    requires
        0 <= n <= items.len(),
        compact_image(items).len() <= u64::MAX,
    ensures
        compact_index(items, n).dom() == newest_payloads(items, n).dom(),
        forall|k: Seq<u8>| #[trigger]
            compact_index(items, n).dom().contains(k) ==> {
                let e = compact_index(items, n)[k];
                &&& e.offset + e.len <= compact_image(items).len()
                &&& compact_image(items).subrange(e.offset as int, e.offset + e.len)
                    == newest_payloads(items, n)[k]
            },
    decreases n,
{
    if n > 0 {
        law_compact_read_back(items, n - 1);
        lemma_compact_record_at(items, n - 1);
        assert(compact_index(items, n).dom() =~= newest_payloads(items, n).dom());
    } else {
        assert(compact_index(items, n).dom() =~= newest_payloads(items, n).dom());
    }
}

/// The map of a sorted entry list grows by its last entry.
pub proof fn lemma_entries_map_last<V>(es: Seq<(Vec<u8>, V)>)
    requires
        sorted_keys(es),
        es.len() > 0,
    ensures
        entries_map(es) =~= entries_map(es.drop_last()).insert(es.last().0@, es.last().1),
{
    let pre = es.drop_last();
    let k = es.last().0@;
    let n = es.len() - 1;
    assert(sorted_keys(pre)) by {
        assert forall|i: int, j: int| 0 <= i < j < pre.len() implies lex_lt(
            (#[trigger] pre[i]).0@,
            (#[trigger] pre[j]).0@,
        ) by {
            assert(pre[i] == es[i]);
            assert(pre[j] == es[j]);
        }
    }
    assert forall|kk: Seq<u8>| #[trigger] entries_map(es).dom().contains(kk) <==> entries_map(
        pre,
    ).insert(k, es.last().1).dom().contains(kk) by {
        if has_key(es, kk) && kk != k {
            let j = choose|j: int| 0 <= j < es.len() && (#[trigger] es[j]).0@ == kk;
            assert(pre[j].0@ == kk);
        }
        if has_key(pre, kk) {
            let j = choose|j: int| 0 <= j < pre.len() && (#[trigger] pre[j]).0@ == kk;
            assert(es[j].0@ == kk);
        }
        if kk == k {
            assert(es[n].0@ == kk);
        }
    }
    assert forall|kk: Seq<u8>| #[trigger] entries_map(es).dom().contains(kk) implies entries_map(es)[kk]
        == entries_map(pre).insert(k, es.last().1)[kk] by {
        let j = choose|j: int| 0 <= j < es.len() && (#[trigger] es[j]).0@ == kk;
        lemma_entries_map_at(es, j);
        if j < n {
            assert(pre[j] == es[j]);
            lemma_entries_map_at(pre, j);
            assert(kk != k) by {
                assert(lex_lt(es[j].0@, es[n].0@));
                lemma_lex_irreflexive(kk);
            }
        } else {
            assert(es[n] == es.last());
        }
    }
}

/// The newest payloads of a prefix do not depend on what follows it.
pub proof fn lemma_newest_payloads_push(items: Seq<(Seq<u8>, Seq<u8>)>, x: (Seq<u8>, Seq<u8>), n: int)
    requires
        0 <= n <= items.len(),
    ensures
        newest_payloads(items.push(x), n) == newest_payloads(items, n),
    decreases n,
{
    if n > 0 {
        lemma_newest_payloads_push(items, x, n - 1);
        assert(items.push(x)[n - 1] == items[n - 1]);
    }
}

/// The newest record of every key of the given segments, oldest segment
/// first and each segment in index order; `data[s]` holds the bytes of
/// `segs[s]`.
fn gather_newest(segs: &Vec<SegmentMeta>, data: &Vec<Vec<u8>>) -> (r: ByteKeyMap<Option<Vec<u8>>>)
    requires
        segs@.len() == data@.len(),
        forall|s: int|
            0 <= s < segs@.len() ==> entries_in_bounds(
                (#[trigger] segs@[s]).index.entries(),
                data@[s]@.len(),
            ),
    ensures
        r.wf(),
        records_view(r.map()) == newest_records(segs@, data@, segs@.len() as int),
{
    let mut acc: ByteKeyMap<Option<Vec<u8>>> = ByteKeyMap::new();
    proof {
        assert(acc.map() =~= Map::<Seq<u8>, Option<Vec<u8>>>::empty());
        assert(records_view(acc.map()) =~= newest_records(segs@, data@, 0));
    }
    let mut s: usize = 0;
    while s < segs.len()
        invariant
            s <= segs@.len(),
            segs@.len() == data@.len(),
            forall|t: int|
                0 <= t < segs@.len() ==> entries_in_bounds(
                    (#[trigger] segs@[t]).index.entries(),
                    data@[t]@.len(),
                ),
            acc.wf(),
            records_view(acc.map()) == newest_records(segs@, data@, s as int),
        decreases segs@.len() - s,
    {
        let seg = &segs[s];
        let bytes = &data[s];
        let ghost entries = seg.index.entries();
        let ghost base = newest_records(segs@, data@, s as int);
        let n = seg.index.len();
        let mut j: usize = 0;
        assert(entries.take(0) =~= Seq::<(Vec<u8>, SegmentIndexEntry)>::empty());
        while j < n
            invariant
                j <= n,
                n == entries.len(),
                entries == seg.index.entries(),
                entries_in_bounds(entries, bytes@.len()),
                acc.wf(),
                records_view(acc.map()) == lay_segment(base, entries.take(j as int), bytes@, seg.version),
            decreases n - j,
        {
            let (key, entry) = seg.index.entry_at(j);
            let blen = bytes.len();
            proof {
                assert(entries[j as int].1.offset + entries[j as int].1.len <= bytes@.len());
            }
            let off = entry.offset as usize;
            let len = entry.len as usize;
            let payload = copy_range(bytes.as_slice(), off, len);
            let live = !(seg.version <= 1 && is_tombstone(payload.as_slice())) && !(seg.version >= 2
                && entry.len == 0);
            let ghost pv = payload@;
            assert(pv == payload_of(bytes@, entries[j as int].1));
            let rec = if live {
                Some(payload)
            } else {
                None
            };
            let ghost rv = opt_bytes(rec);
            let ghost before = acc.map();
            let k = key.clone();
            assert(k@ == key@);
            acc.insert(k, rec);
            proof {
                let t = entries.take(j + 1);
                assert(t.drop_last() =~= entries.take(j as int));
                assert(t.last() == entries[j as int]);
                assert(pv == payload_of(bytes@, entries[j as int].1));
                assert(rv == if entry_live(seg.version, entries[j as int].1, pv) {
                    Some(pv)
                } else {
                    None
                });
                assert(records_view(acc.map()) =~= records_view(before).insert(key@, rv));
            }
            j = j + 1;
        }
        assert(entries.take(n as int) =~= entries);
        s = s + 1;
    }
    acc
}

/// The live records of a record map, in key order.
fn surviving_pairs(m: &ByteKeyMap<Option<Vec<u8>>>) -> (r: Vec<(Vec<u8>, Vec<u8>)>)
    requires
        m.wf(),
    ensures
        strictly_sorted(pair_views(r@)),
        newest_payloads(pair_views(r@), r@.len() as int) == surviving(records_view(m.map())),
{
    let ghost es = m.entries();
    let mut out: Vec<(Vec<u8>, Vec<u8>)> = Vec::new();
    let mut i: usize = 0;
    let n = m.len();
    proof {
        assert(es.take(0) =~= Seq::<(Vec<u8>, Option<Vec<u8>>)>::empty());
        assert(entries_map(es.take(0)) =~= Map::<Seq<u8>, Option<Vec<u8>>>::empty());
        assert(surviving(records_view(entries_map(es.take(0)))) =~= Map::<Seq<u8>, Seq<u8>>::empty());
    }
    while i < n
        invariant
            i <= n,
            n == es.len(),
            es == m.entries(),
            m.wf(),
            strictly_sorted(pair_views(out@)),
            out@.len() > 0 ==> exists|j: int|
                0 <= j < i && (#[trigger] es[j]).0@ == out@[out@.len() - 1].0@,
            newest_payloads(pair_views(out@), out@.len() as int) == surviving(
                records_view(entries_map(es.take(i as int))),
            ),
        decreases n - i,
    {
        let (key, val) = m.entry_at(i);
        let ghost before = out@;
        let ghost pre = entries_map(es.take(i as int));
        proof {
            let t = es.take(i + 1);
            assert(sorted_keys(t)) by {
                assert forall|a: int, b: int| 0 <= a < b < t.len() implies lex_lt(
                    (#[trigger] t[a]).0@,
                    (#[trigger] t[b]).0@,
                ) by {
                    assert(t[a] == es[a]);
                    assert(t[b] == es[b]);
                }
            }
            assert(t.drop_last() =~= es.take(i as int));
            assert(t.last() == es[i as int]);
            lemma_entries_map_last(t);
            assert(!pre.dom().contains(key@)) by {
                if pre.dom().contains(key@) {
                    let j = choose|j: int|
                        0 <= j < es.take(i as int).len() && (#[trigger] es.take(i as int)[j]).0@
                            == key@;
                    assert(es[j].0@ == key@);
                    assert(lex_lt(es[j].0@, es[i as int].0@));
                    lemma_lex_irreflexive(key@);
                }
            }
        }
        match val {
            Some(v) => {
                let k = key.clone();
                let w = v.clone();
                assert(k@ == key@ && w@ == v@);
                out.push((k, w));
                proof {
                    let pv0 = pair_views(before);
                    let pv1 = pair_views(out@);
                    assert(pv1 =~= pv0.push((key@, v@)));
                    lemma_newest_payloads_push(pv0, (key@, v@), pv0.len() as int);
                    assert(surviving(records_view(pre.insert(key@, Some(*v)))) =~= surviving(
                        records_view(pre),
                    ).insert(key@, v@));
                    assert(strictly_sorted(pv1)) by {
                        assert forall|a: int, b: int| 0 <= a < b < pv1.len() implies lex_lt(
                            (#[trigger] pv1[a]).0,
                            (#[trigger] pv1[b]).0,
                        ) by {
                            if b == pv1.len() - 1 {
                                let j = choose|j: int|
                                    0 <= j < i && (#[trigger] es[j]).0@ == before[before.len()
                                        - 1].0@;
                                assert(lex_lt(es[j].0@, es[i as int].0@));
                                assert(pv0[pv0.len() - 1].0 == es[j].0@);
                                if a < pv0.len() - 1 {
                                    assert(lex_lt(pv0[a].0, pv0[pv0.len() - 1].0));
                                    lemma_lex_transitive(pv0[a].0, es[j].0@, es[i as int].0@);
                                }
                            } else {
                                assert(pv1[a] == pv0[a]);
                                assert(pv1[b] == pv0[b]);
                            }
                        }
                    }
                    assert(es[i as int].0@ == out@[out@.len() - 1].0@);
                }
            },
            None => {
                proof {
                    assert(surviving(records_view(pre.insert(key@, None))) =~= surviving(
                        records_view(pre),
                    ));
                }
            },
        }
        i = i + 1;
    }
    proof {
        assert(es.take(n as int) =~= es);
    }
    out
}

/// Encode compacted pairs into segment data and its index.
pub fn encode_compact(items: &Vec<(Vec<u8>, Vec<u8>)>) -> (r: (Vec<u8>, ByteKeyMap<
    SegmentIndexEntry,
>, u64))
    ensures
        r.0@ == compact_image(pair_views(items@)),
        r.1.wf(),
        r.1.map() == compact_index(pair_views(items@), items@.len() as int),
        r.2 == r.0@.len(),
{
    let ghost pv = pair_views(items@);
    let mut data: Vec<u8> = Vec::new();
    let mut index: ByteKeyMap<SegmentIndexEntry> = ByteKeyMap::new();
    let mut i: usize = 0;
    proof {
        assert(index.map() =~= compact_index(pv, 0));
    }
    while i < items.len()
        invariant
            i <= items@.len(),
            pv == pair_views(items@),
            data@ == compact_image(pv.take(i as int)),
            index.wf(),
            index.map() == compact_index(pv, i as int),
        decreases items@.len() - i,
    {
        let key = &items[i].0;
        let value = &items[i].1;
        let ghost before = data@;
        push_u64_le(&mut data, key.len() as u64);
        let mut k: usize = 0;
        while k < key.len()
            invariant
                k <= key@.len(),
                data@ == before + le_bytes(key@.len(), 8) + key@.subrange(0, k as int),
            decreases key@.len() - k,
        {
            data.push(key[k]);
            k = k + 1;
            proof {
                assert(data@ =~= before + le_bytes(key@.len(), 8) + key@.subrange(0, k as int));
            }
        }
        assert(key@.subrange(0, key@.len() as int) =~= key@);
        data.push(0u8);
        let payload_len = value.len() as u64;
        push_u64_le(&mut data, payload_len);
        let entry_offset = data.len() as u64;
        let ghost mid = data@;
        let mut m: usize = 0;
        while m < value.len()
            invariant
                m <= value@.len(),
                data@ == mid + value@.subrange(0, m as int),
            decreases value@.len() - m,
        {
            data.push(value[m]);
            m = m + 1;
            proof {
                assert(data@ =~= mid + value@.subrange(0, m as int));
            }
        }
        assert(value@.subrange(0, value@.len() as int) =~= value@);
        proof {
            lemma_le_bytes_len(key@.len(), 8);
            lemma_le_bytes_len(payload_len as nat, 8);
            let t = pv.take(i + 1);
            assert(t.drop_last() =~= pv.take(i as int));
            assert(t.last() == (key@, value@));
            assert(data@ =~= before + record(key@, 0, value@));
            assert(data@ == compact_image(t));
            assert(entry_offset == before.len() + 17 + key@.len());
        }
        let entry = SegmentIndexEntry { offset: entry_offset, len: payload_len };
        index.insert(key.clone(), entry);
        proof {
            assert(pv[i as int] == (key@, value@));
            assert(compact_entry(pv, i as int) == entry);
            assert(index.map() =~= compact_index(pv, i + 1));
        }
        i = i + 1;
    }
    assert(pv.take(items@.len() as int) =~= pv);
    let size = data.len() as u64;
    (data, index, size)
}

/// Merge segments (oldest first) into the data and index of one segment
/// that keeps, for each key, its newest record when that record is live: a
/// deletion hides every older value of its key, and is itself dropped, as
/// the merged segment has nothing older beneath it. `data[s]` holds the
/// bytes of `segs[s]`. The records are written in key order.
pub fn merge_segments(segs: &Vec<SegmentMeta>, data: &Vec<Vec<u8>>) -> (r: (Vec<u8>, ByteKeyMap<
    SegmentIndexEntry,
>, u64))
    requires
        segs@.len() == data@.len(),
        forall|s: int|
            0 <= s < segs@.len() ==> entries_in_bounds(
                (#[trigger] segs@[s]).index.entries(),
                data@[s]@.len(),
            ),
    ensures
        ({
            let kept = surviving(newest_records(segs@, data@, segs@.len() as int));
            &&& r.1.wf()
            &&& r.2 == r.0@.len()
            &&& r.1.map().dom() == kept.dom()
            &&& forall|k: Seq<u8>| #[trigger]
                r.1.map().dom().contains(k) ==> {
                    &&& r.1.map()[k].offset + r.1.map()[k].len <= r.0@.len()
                    &&& payload_of(r.0@, r.1.map()[k]) == kept[k]
                }
            &&& exists|items: Seq<(Seq<u8>, Seq<u8>)>|
                {
                    &&& strictly_sorted(items)
                    &&& newest_payloads(items, items.len() as int) == kept
                    &&& r.0@ == compact_image(items)
                    &&& r.1.map() == compact_index(items, items.len() as int)
                }
        }),
{
    let recs = gather_newest(segs, data);
    let items = surviving_pairs(&recs);
    let r = encode_compact(&items);
    proof {
        let pv = pair_views(items@);
        assert(pv.len() == items@.len());
        assert(r.0@.len() <= u64::MAX);
        law_compact_read_back(pv, pv.len() as int);
        let kept = surviving(newest_records(segs@, data@, segs@.len() as int));
        assert(r.1.map().dom() =~= kept.dom());
    }
    r
}

/// Newest of the first `n` segments whose index holds `id`.
pub open spec fn newest_holder(segs: Seq<SegmentMeta>, id: Seq<u8>, n: int) -> Option<int>
    decreases n,
{
    if n <= 0 {
        None
    } else if segs[n - 1].index.map().dom().contains(id) {
        Some(n - 1)
    } else {
        newest_holder(segs, id, n - 1)
    }
}

/// The value stored bytes stand for: version 2 segments mark a deletion by
/// an empty payload, older ones by the tombstone marker.
pub open spec fn decode_spec(version: u32, payload: Seq<u8>) -> Option<Seq<u8>> {
    if version >= 2 {
        if payload.len() == 0 {
            None
        } else {
            Some(payload)
        }
    } else if payload == tombstone() {
        None
    } else {
        Some(payload)
    }
}

/// What a read of `id` finds: the memtable first, then segments from the
/// newest to the oldest; `data[s]` holds the bytes of `segs[s]`.
pub open spec fn read_spec(
    contents: Map<Seq<u8>, Vec<u8>>,
    segs: Seq<SegmentMeta>,
    data: Seq<Vec<u8>>,
    id: Seq<u8>,
) -> Option<Seq<u8>> {
    if contents.dom().contains(id) {
        if contents[id]@ == tombstone() {
            None
        } else {
            Some(contents[id]@)
        }
    } else {
        match newest_holder(segs, id, segs.len() as int) {
            None => None,
            Some(s) => decode_spec(segs[s].version, payload_of(data[s]@, segs[s].index.map()[id])),
        }
    }
}

/// Where a read of a document has to look.
pub enum Located {
    /// No write for the id is known.
    Missing,
    /// The newest write for the id in the memtable is a deletion.
    Deleted,
    /// The pending bytes of the id.
    InMemory(Vec<u8>),
    /// The payload is in a segment's data at the entry.
    OnDisk { segment: usize, entry: SegmentIndexEntry, version: u32 },
}

/// Find where the newest write of `id` lives.
pub fn locate(mem: &MemTable, segs: &Vec<SegmentMeta>, id: &[u8]) -> (r: Located)
    requires
        mem.wf(),
        forall|s: int| 0 <= s < segs@.len() ==> (#[trigger] segs@[s]).index.wf(),
    ensures
        mem.contents().dom().contains(id@) && mem.contents()[id@]@ == tombstone() ==> r is Deleted,
        mem.contents().dom().contains(id@) && mem.contents()[id@]@ != tombstone() ==> (r matches Located::InMemory(v) && v@ == mem.contents()[id@]@),
        !mem.contents().dom().contains(id@) ==> match newest_holder(segs@, id@, segs@.len() as int) {
            None => r is Missing,
            Some(s) => r == (Located::OnDisk {
                segment: s as usize,
                entry: segs@[s].index.map()[id@],
                version: segs@[s].version,
            }),
        },
{
    match mem.get(id) {
        Some(v) => {
            if is_tombstone(v.as_slice()) {
                return Located::Deleted;
            } else {
                return Located::InMemory(v.clone());
            }
        },
        None => {},
    }
    let mut s: usize = segs.len();
    while s > 0
        invariant
            s <= segs@.len(),
            !mem.contents().dom().contains(id@),
            forall|t: int| 0 <= t < segs@.len() ==> (#[trigger] segs@[t]).index.wf(),
            newest_holder(segs@, id@, segs@.len() as int) == newest_holder(segs@, id@, s as int),
        decreases s,
    {
        match segs[s - 1].index.get(id) {
            Some(e) => {
                return Located::OnDisk { segment: s - 1, entry: *e, version: segs[s - 1].version };
            },
            None => {},
        }
        s = s - 1;
    }
    Located::Missing
}

/// The document bytes a segment payload stands for, `None` for a deletion.
pub fn decode_stored(version: u32, payload: &[u8]) -> (r: Option<Vec<u8>>)
    ensures
        match decode_spec(version, payload@) {
            None => r is None,
            Some(p) => r matches Some(v) && v@ == p,
        },
{
    let present = if version >= 2 {
        payload.len() != 0
    } else {
        !is_tombstone(payload)
    };
    if present {
        let mut v: Vec<u8> = Vec::with_capacity(payload.len());
        let mut i: usize = 0;
        while i < payload.len()
            invariant
                i <= payload@.len(),
                v@ == payload@.subrange(0, i as int),
            decreases payload@.len() - i,
        {
            v.push(payload[i]);
            i = i + 1;
            proof {
                assert(v@ =~= payload@.subrange(0, i as int));
            }
        }
        assert(payload@.subrange(0, payload@.len() as int) =~= payload@);
        Some(v)
    } else {
        None
    }
}

/// Read-your-writes: once a write of `v` for `id` sits in the memtable, a
/// read of `id` gives `v` back, or nothing when `v` is the tombstone.
pub proof fn law_read_your_write(
    contents: Map<Seq<u8>, Vec<u8>>,
    segs: Seq<SegmentMeta>,
    data: Seq<Vec<u8>>,
    id: Seq<u8>,
    v: Vec<u8>,
)
    ensures
        read_spec(contents.insert(id, v), segs, data, id) == if v@ == tombstone() {
            None::<Seq<u8>>
        } else {
            Some(v@)
        },
{
}

/// A write of one id leaves the reads of every other id unchanged.
pub proof fn law_write_isolated(
    contents: Map<Seq<u8>, Vec<u8>>,
    segs: Seq<SegmentMeta>,
    data: Seq<Vec<u8>>,
    id: Seq<u8>,
    other: Seq<u8>,
    v: Vec<u8>,
)
    requires
        id != other,
    ensures
        read_spec(contents.insert(id, v), segs, data, other) == read_spec(contents, segs, data, other),
{
    assert(contents.insert(id, v).dom().contains(other) == contents.dom().contains(other));
}

/// Drop the oldest segments until at most `max` remain; returns the
/// dropped segments, oldest first.
pub fn enforce_retention(segs: &mut Vec<SegmentMeta>, max: Option<usize>) -> (r: Vec<SegmentMeta>)
    ensures
        max is None ==> final(segs)@ == old(segs)@ && r@.len() == 0,
        max matches Some(m) ==> (old(segs)@.len() > m ==> final(segs)@ == old(segs)@.subrange(
            old(segs)@.len() - m,
            old(segs)@.len() as int,
        ) && r@ == old(segs)@.subrange(0, old(segs)@.len() - m)),
        max matches Some(m) ==> (old(segs)@.len() <= m ==> final(segs)@ == old(segs)@ && r@.len()
            == 0),
{
    let mut removed: Vec<SegmentMeta> = Vec::new();
    match max {
        None => {
            return removed;
        },
        Some(m) => {
            let ghost orig = segs@;
            while segs.len() > m
                invariant
                    removed@.len() <= orig.len(),
                    segs@ == orig.subrange(removed@.len() as int, orig.len() as int),
                    removed@ == orig.subrange(0, removed@.len() as int),
                    orig == old(segs)@,
                    orig.len() > m ==> segs@.len() >= m,
                    orig.len() <= m ==> removed@.len() == 0,
                decreases segs@.len(),
            {
                let old_seg = segs.remove(0);
                let ghost k: int = removed@.len() as int;
                removed.push(old_seg);
                proof {
                    assert(removed@ =~= orig.subrange(0, k + 1));
                    assert(segs@ =~= orig.subrange(k + 1, orig.len() as int));
                }
            }
        },
    }
    removed
}

/// Take every segment but the newest as the inputs of a compaction; with
/// one segment or none nothing is taken.
pub fn take_compaction_inputs(segs: &mut Vec<SegmentMeta>) -> (r: Vec<SegmentMeta>)
    ensures
        old(segs)@.len() <= 1 ==> final(segs)@ == old(segs)@ && r@.len() == 0,
        old(segs)@.len() > 1 ==> final(segs)@ == seq![old(segs)@.last()] && r@ == old(segs)@.drop_last(),
{
    let mut taken: Vec<SegmentMeta> = Vec::new();
    if segs.len() <= 1 {
        return taken;
    }
    let ghost orig = segs@;
    while segs.len() > 1
        invariant
            taken@.len() < orig.len(),
            orig.len() > 1,
            segs@ == orig.subrange(taken@.len() as int, orig.len() as int),
            taken@ == orig.subrange(0, taken@.len() as int),
            orig == old(segs)@,
        decreases segs@.len(),
    {
        let s = segs.remove(0);
        let ghost k: int = taken@.len() as int;
        taken.push(s);
        proof {
            assert(taken@ =~= orig.subrange(0, k + 1));
            assert(segs@ =~= orig.subrange(k + 1, orig.len() as int));
        }
    }
    assert(taken@ =~= orig.drop_last());
    assert(segs@ =~= seq![orig.last()]);
    taken
}

/// Put the merged segment in front, so that the newest segment stays last.
pub fn install_merged(segs: &mut Vec<SegmentMeta>, merged: SegmentMeta)
    ensures
        final(segs)@ == seq![merged] + old(segs)@,
{
    segs.insert(0, merged);
    assert(segs@ =~= seq![merged] + old(segs)@);
}

/// File names of one segment.
pub struct SegmentFileNames {
    pub data: String,
    pub meta: String,
    pub tmp_data: String,
    pub tmp_meta: String,
}

/// The names derived from a segment stem: `<stem>.data`,
/// `<stem>.data.meta.json`, `<stem>.tmp.data`, `<stem>.tmp.meta.json`.
pub open spec fn names_of_stem(names: SegmentFileNames, stem: Seq<char>) -> bool {
    &&& names.data@ == stem + ".data"@
    &&& names.meta@ == stem + ".data"@ + ".meta.json"@
    &&& names.tmp_data@ == stem + ".tmp.data"@
    &&& names.tmp_meta@ == stem + ".tmp.meta.json"@
}

fn names_from_stem(stem: &String) -> (r: SegmentFileNames)
    ensures
        names_of_stem(r, stem@),
{
    let mut data = stem.clone();
    data.append(".data");
    let mut meta = data.clone();
    meta.append(".meta.json");
    let mut tmp_data = stem.clone();
    tmp_data.append(".tmp.data");
    let mut tmp_meta = stem.clone();
    tmp_meta.append(".tmp.meta.json");
    SegmentFileNames { data, meta, tmp_data, tmp_meta }
}

/// Names of a flushed segment: its stem is `segment_` followed by the
/// timestamp in nanoseconds, zero-padded to 20 characters.
pub fn flush_file_names(nanos: i64) -> (r: SegmentFileNames)
    ensures
        names_of_stem(r, "segment_"@ + signed_zero_padded(nanos as int, 20)),
{
    let mut stem = String::from_str("segment_");
    push_signed_zero_padded(&mut stem, nanos, 20);
    names_from_stem(&stem)
}

/// Names of a compacted segment: its stem is `segment_` followed by the
/// timestamp in nanoseconds, unpadded.
pub fn compact_file_names(nanos: i64) -> (r: SegmentFileNames)
    ensures
        names_of_stem(r, "segment_"@ + signed_decimal(nanos as int)),
{
    let mut stem = String::from_str("segment_");
    push_signed_decimal(&mut stem, nanos);
    names_from_stem(&stem)
}

/// Name of the metadata file of a segment data file.
pub fn meta_file_name(data_name: &String) -> (r: String)
    ensures
        r@ == data_name@ + ".meta.json"@,
{
    let mut m = data_name.clone();
    m.append(".meta.json");
    m
}

/// The bytes of a segment's file name.
pub open spec fn name_bytes(seg: SegmentMeta) -> Seq<u8> {
    encode_utf8(seg.filename@)
}

/// A flushed segment's name carries a stamp of exactly 20 characters
/// (`segment_`, the stamp, `.data`: 33 bytes); a compacted segment's stamp
/// is unpadded, so its name has another length.
pub open spec fn compacted_name(name: Seq<u8>) -> bool {
    name.len() != 33
}

/// Rank of a segment when the store is reopened: the compacted segment,
/// which holds the oldest data, before every flushed one.
pub open spec fn restore_rank(seg: SegmentMeta) -> int {
    if compacted_name(name_bytes(seg)) {
        0
    } else {
        1
    }
}

/// Whether `a` is restored before `b`: by rank, then by name, whose zero
/// padded stamp orders flushed segments by the time they were written.
pub open spec fn restores_before(a: SegmentMeta, b: SegmentMeta) -> bool {
    restore_rank(a) < restore_rank(b) || (restore_rank(a) == restore_rank(b) && lex_lt(
        name_bytes(a),
        name_bytes(b),
    ))
}

/// Segments in restore order: oldest first, newest last.
pub open spec fn restore_sorted(segs: Seq<SegmentMeta>) -> bool {
    forall|i: int, j: int|
        0 <= i < j < segs.len() ==> !restores_before(#[trigger] segs[j], #[trigger] segs[i])
}

proof fn lemma_restores_before_order(a: SegmentMeta, b: SegmentMeta, c: SegmentMeta)
    ensures
        restores_before(a, b) ==> !restores_before(b, a),
        restores_before(a, b) && restores_before(b, c) ==> restores_before(a, c),
{
    if restores_before(a, b) && restore_rank(a) == restore_rank(b) {
        lemma_lex_asymmetric(name_bytes(a), name_bytes(b));
    }
    if restores_before(a, b) && restores_before(b, c) && restore_rank(a) == restore_rank(b)
        && restore_rank(b) == restore_rank(c) {
        lemma_lex_transitive(name_bytes(a), name_bytes(b), name_bytes(c));
    }
}

fn restores_before_exec(a: &SegmentMeta, b: &SegmentMeta) -> (r: bool)
    ensures
        r == restores_before(*a, *b),
{
    let an = a.filename.as_str().as_bytes();
    let bn = b.filename.as_str().as_bytes();
    let ra: u8 = if an.len() != 33 {
        0
    } else {
        1
    };
    let rb: u8 = if bn.len() != 33 {
        0
    } else {
        1
    };
    ra < rb || (ra == rb && lex_compare(an, bn) < 0)
}

/// The segments found when the store is reopened, put in the order the
/// store keeps them: the compacted segment first, then the flushed ones by
/// the stamp in their names, so that the newest segment comes last. The
/// result holds the same segments.
pub fn restore_order(segs: Vec<SegmentMeta>) -> (r: Vec<SegmentMeta>)
    ensures
        restore_sorted(r@),
        r@.to_multiset() == segs@.to_multiset(),
{
    broadcast use vstd::seq_lib::group_to_multiset_ensures;

    let ghost orig = segs@;
    let mut rest = segs;
    let mut out: Vec<SegmentMeta> = Vec::new();
    while rest.len() > 0
        invariant
            restore_sorted(out@),
            out@.to_multiset().add(rest@.to_multiset()) == orig.to_multiset(),
        decreases rest@.len(),
    {
        let ghost before_rest = rest@;
        let x = rest.pop().unwrap();
        proof {
            assert(before_rest =~= rest@.push(x));
        }
        let mut p: usize = 0;
        while p < out.len()
            invariant
                p <= out@.len(),
                forall|q: int| 0 <= q < p ==> !restores_before(x, #[trigger] out@[q]),
            ensures
                p <= out@.len(),
                forall|q: int| 0 <= q < p ==> !restores_before(x, #[trigger] out@[q]),
                p < out@.len() ==> restores_before(x, out@[p as int]),
            decreases out@.len() - p,
        {
            if restores_before_exec(&x, &out[p]) {
                break;
            }
            p = p + 1;
        }
        let ghost old_out = out@;
        let ghost found = p < old_out.len();
        proof {
            if found {
                assert(restores_before(x, old_out[p as int]));
            }
        }
        out.insert(p, x);
        proof {
            let n = out@;
            assert(n =~= old_out.insert(p as int, x));
            assert(restore_sorted(n)) by {
                assert forall|i: int, j: int| 0 <= i < j < n.len() implies !restores_before(
                    #[trigger] n[j],
                    #[trigger] n[i],
                ) by {
                    if j < p {
                        assert(n[i] == old_out[i] && n[j] == old_out[j]);
                    } else if j == p {
                        assert(n[i] == old_out[i]);
                    } else if i == p {
                        assert(n[j] == old_out[j - 1]);
                        lemma_restores_before_order(old_out[j - 1], x, old_out[p as int]);
                        if j - 1 > p {
                            assert(!restores_before(old_out[j - 1], old_out[p as int]));
                        }
                    } else if i < p {
                        assert(n[i] == old_out[i] && n[j] == old_out[j - 1]);
                    } else {
                        assert(n[i] == old_out[i - 1] && n[j] == old_out[j - 1]);
                    }
                }
            }
            assert(n.remove(p as int) =~= old_out);
            assert(n[p as int] == x);
            n.to_multiset_ensures();
            rest@.to_multiset_ensures();
            assert(n.remove(p as int).to_multiset() =~= n.to_multiset().remove(n[p as int]));
            assert(n.contains(x));
            assert(n.to_multiset().count(x) > 0);
            assert(n.to_multiset() =~= old_out.to_multiset().insert(x));
            assert(rest@.push(x).to_multiset() =~= rest@.to_multiset().insert(x));
            assert(n.to_multiset().add(rest@.to_multiset()) =~= orig.to_multiset());
        }
    }
    assert(rest@.to_multiset() =~= vstd::multiset::Multiset::<SegmentMeta>::empty());
    out
}

/// Segments in strict restore order: each is restored before the next.
pub open spec fn strictly_restore_sorted(segs: Seq<SegmentMeta>) -> bool {
    forall|i: int, j: int|
        0 <= i < j < segs.len() ==> restores_before(#[trigger] segs[i], #[trigger] segs[j])
}

/// A list of segments in strict restore order is the only ordering of them
/// that is in restore order.
pub proof fn lemma_restore_order_unique(segs: Seq<SegmentMeta>, found: Seq<SegmentMeta>)
    requires
        strictly_restore_sorted(segs),
        restore_sorted(found),
        found.to_multiset() == segs.to_multiset(),
    ensures
        found == segs,
    decreases segs.len(),
{
    broadcast use vstd::seq_lib::group_to_multiset_ensures;

    found.to_multiset_ensures();
    segs.to_multiset_ensures();
    assert(found.len() == segs.len());
    if segs.len() == 0 {
        assert(found =~= segs);
    } else {
        let n = segs.len() - 1;
        let x = segs[n];
        let z = found[n];
        assert(segs.contains(x)) by {
            assert(segs[n] == x);
        }
        assert(segs.to_multiset().count(x) > 0);
        assert(found.to_multiset().count(x) > 0);
        assert(found.contains(x));
        assert(found.contains(z)) by {
            assert(found[n] == z);
        }
        assert(found.to_multiset().count(z) > 0);
        assert(segs.to_multiset().count(z) > 0);
        assert(segs.contains(z));
        if z != x {
            let j = choose|j: int| 0 <= j < segs.len() && segs[j] == z;
            let p = choose|p: int| 0 <= p < found.len() && found[p] == x;
            assert(j != n);
            assert(restores_before(segs[j], segs[n]));
            assert(p != n);
            assert(!restores_before(found[n], found[p]));
            assert(false);
        }
        let fs = found.drop_last();
        let ss = segs.drop_last();
        assert(found =~= fs.push(x));
        assert(segs =~= ss.push(x));
        fs.to_multiset_ensures();
        ss.to_multiset_ensures();
        assert(fs.to_multiset() =~= ss.to_multiset()) by {
            assert(fs.push(x).to_multiset() == fs.to_multiset().insert(x));
            assert(ss.push(x).to_multiset() == ss.to_multiset().insert(x));
            assert forall|y: SegmentMeta| #[trigger] fs.to_multiset().count(y) == ss.to_multiset().count(
                y,
            ) by {
                assert(fs.to_multiset().insert(x).count(y) == ss.to_multiset().insert(x).count(y));
            }
        }
        assert(strictly_restore_sorted(ss)) by {
            assert forall|i: int, j: int| 0 <= i < j < ss.len() implies restores_before(
                #[trigger] ss[i],
                #[trigger] ss[j],
            ) by {
                assert(ss[i] == segs[i] && ss[j] == segs[j]);
            }
        }
        assert(restore_sorted(fs)) by {
            assert forall|i: int, j: int| 0 <= i < j < fs.len() implies !restores_before(
                #[trigger] fs[j],
                #[trigger] fs[i],
            ) by {
                assert(fs[i] == found[i] && fs[j] == found[j]);
            }
        }
        lemma_restore_order_unique(ss, fs);
    }
}

/// The store's list stays in strict restore order: after a flush that
/// appends a segment restored after every present one, and after a
/// compaction that leaves the merged segment (a compacted name) in front of
/// the newest flushed one (a flushed name).
pub proof fn lemma_writes_keep_restore_order(segs: Seq<SegmentMeta>, flushed: SegmentMeta, merged: SegmentMeta)
    requires
        strictly_restore_sorted(segs),
    ensures
        (forall|i: int| 0 <= i < segs.len() ==> restores_before(#[trigger] segs[i], flushed))
            ==> strictly_restore_sorted(segs.push(flushed)),
        compacted_name(name_bytes(merged)) && !compacted_name(name_bytes(flushed))
            ==> strictly_restore_sorted(seq![merged, flushed]),
{
    if forall|i: int| 0 <= i < segs.len() ==> restores_before(#[trigger] segs[i], flushed) {
        let t = segs.push(flushed);
        assert forall|i: int, j: int| 0 <= i < j < t.len() implies restores_before(
            #[trigger] t[i],
            #[trigger] t[j],
        ) by {
            assert(t[i] == segs[i]);
            if j < segs.len() {
                assert(t[j] == segs[j]);
            }
        }
    }
}

/// Reopening preserves every read: when the store kept its segments in
/// strict restore order (the compacted one first, then the flushed ones by
/// their stamps), putting the segments found on disk in restore order, as
/// `restore_order` does, gives back the same list, so a read of any id
/// gives what it gave before.
pub proof fn law_reopen_preserves_reads(
    contents: Map<Seq<u8>, Vec<u8>>,
    segs: Seq<SegmentMeta>,
    found: Seq<SegmentMeta>,
    data: Seq<Vec<u8>>,
    id: Seq<u8>,
)
    requires
        strictly_restore_sorted(segs),
        restore_sorted(found),
        found.to_multiset() == segs.to_multiset(),
    ensures
        found == segs,
        read_spec(contents, found, data, id) == read_spec(contents, segs, data, id),
{
    lemma_restore_order_unique(segs, found);
}

/// Kinds of files found in the store's directory.
#[derive(Debug, Clone, Copy, PartialEq, Eq, Structural)]
pub enum DirEntryKind {
    /// Left behind by an interrupted flush or compaction; removed on open.
    TempLeftover,
    /// Segment metadata, loaded on open.
    SegmentMetaFile,
    /// Anything else; ignored.
    Other,
}

pub open spec fn ends_with(s: Seq<u8>, suffix: Seq<u8>) -> bool {
    s.len() >= suffix.len() && s.subrange(s.len() - suffix.len(), s.len() as int) == suffix
}

fn bytes_end_with(s: &[u8], suffix: &[u8]) -> (r: bool)
    ensures
        r == ends_with(s@, suffix@),
{
    if s.len() < suffix.len() {
        return false;
    }
    let start = s.len() - suffix.len();
    let n = s.len();
    let mut i: usize = 0;
    while i < suffix.len()
        invariant
            i <= suffix@.len(),
            n == s@.len(),
            start + suffix@.len() == s@.len(),
            forall|k: int| 0 <= k < i ==> s@[start + k] == suffix@[k],
        decreases suffix@.len() - i,
    {
        if s[start + i] != suffix[i] {
            return false;
        }
        i = i + 1;
    }
    assert(s@.subrange(start as int, s@.len() as int) =~= suffix@);
    true
}

/// Classification of a directory entry by the bytes of its name.
pub open spec fn dir_entry_kind(name: Seq<u8>) -> DirEntryKind {
    if ends_with(name, ".tmp.data".spec_bytes()) || ends_with(name, ".tmp.meta.json".spec_bytes()) {
        DirEntryKind::TempLeftover
    } else if ends_with(name, ".meta.json".spec_bytes()) {
        DirEntryKind::SegmentMetaFile
    } else {
        DirEntryKind::Other
    }
}

/// Classify a file found in the store's directory on open.
pub fn classify_dir_entry(name: &str) -> (r: DirEntryKind)
    ensures
        r == dir_entry_kind(name.spec_bytes()),
{
    let b = name.as_bytes();
    if bytes_end_with(b, ".tmp.data".as_bytes()) || bytes_end_with(b, ".tmp.meta.json".as_bytes()) {
        DirEntryKind::TempLeftover
    } else if bytes_end_with(b, ".meta.json".as_bytes()) {
        DirEntryKind::SegmentMetaFile
    } else {
        DirEntryKind::Other
    }
}

/// Appending a segment does not change which of the first `n` segments
/// holds a key.
pub proof fn lemma_newest_holder_push(segs: Seq<SegmentMeta>, x: SegmentMeta, id: Seq<u8>, n: int)
    requires
        0 <= n <= segs.len(),
    ensures
        newest_holder(segs.push(x), id, n) == newest_holder(segs, id, n),
    decreases n,
{
    if n > 0 {
        assert(segs.push(x)[n - 1] == segs[n - 1]);
        lemma_newest_holder_push(segs, x, id, n - 1);
    }
}

/// A flush preserves every read: with the memtable's entries written as a
/// new newest segment (version 2, its index as `encode_flush` builds it) and
/// the memtable emptied, a read of any id gives what it gave before. This
/// holds when no pending value is empty; an empty value comes back as a
/// deletion once flushed.
pub proof fn law_flush_preserves_reads(
    mem: Seq<(Vec<u8>, Vec<u8>)>,
    segs: Seq<SegmentMeta>,
    data: Seq<Vec<u8>>,
    flushed: SegmentMeta,
    image: Vec<u8>,
    id: Seq<u8>,
)
    requires
        sorted_keys(mem),
        forall|i: int| 0 <= i < mem.len() ==> (#[trigger] mem[i]).1@.len() > 0,
        segs.len() == data.len(),
        flushed.version == 2,
        flushed.index.wf(),
        flushed.index.entries().len() == mem.len(),
        forall|i: int|
            0 <= i < mem.len() ==> (#[trigger] flushed.index.entries()[i]).0@ == mem[i].0@
                && flushed.index.entries()[i].1 == flush_entry(pair_views(mem), i),
        image@ == flush_image(pair_views(mem)),
        image@.len() <= u64::MAX,
    ensures
        read_spec(entries_map(mem), segs, data, id) == read_spec(
            Map::<Seq<u8>, Vec<u8>>::empty(),
            segs.push(flushed),
            data.push(image),
            id,
        ),
{
    let n = segs.len() as int;
    let ns = segs.push(flushed);
    let nd = data.push(image);
    let fe = flushed.index.entries();
    let pv = pair_views(mem);
    assert(ns[n] == flushed);
    assert(nd[n] == image);
    if entries_map(mem).dom().contains(id) {
        let i = crate::database::keymap::index_of(mem, id);
        assert(mem[i].0@ == id);
        crate::database::keymap::lemma_entries_map_at(mem, i);
        crate::database::keymap::lemma_entries_map_at(fe, i);
        assert(fe[i].0@ == id);
        assert(flushed.index.map().dom().contains(id));
        assert(newest_holder(ns, id, n + 1) == Some(n));
        assert(pv[i] == (mem[i].0@, mem[i].1@));
        law_flush_read_back(pv, i);
        let e = flush_entry(pv, i);
        assert(flushed.index.map()[id] == e);
        if mem[i].1@ == tombstone() {
            assert(payload_of(image@, e).len() == 0);
        } else {
            assert(payload_of(image@, e) == mem[i].1@);
        }
    } else {
        assert(!flushed.index.map().dom().contains(id)) by {
            if flushed.index.map().dom().contains(id) {
                let j = crate::database::keymap::index_of(fe, id);
                assert(fe[j].0@ == id);
                assert(mem[j].0@ == id);
            }
        }
        lemma_newest_holder_push(segs, flushed, id, n);
        assert(newest_holder(ns, id, n + 1) == newest_holder(segs, id, n));
        match newest_holder(segs, id, n) {
            Some(s) => {
                assert(0 <= s < n) by {
                    lemma_newest_holder_range(segs, id, n);
                }
                assert(ns[s] == segs[s]);
                assert(nd[s] == data[s]);
            },
            None => {},
        }
    }
}

/// A holder found among the first `n` segments is one of them, and holds
/// the id.
pub proof fn lemma_newest_holder_range(segs: Seq<SegmentMeta>, id: Seq<u8>, n: int)
    ensures
        newest_holder(segs, id, n) matches Some(s) ==> 0 <= s < n && segs[s].index.map().dom().contains(
            id,
        ),
    decreases n,
{
    if n > 0 {
        lemma_newest_holder_range(segs, id, n - 1);
    }
}

/// The record an index entry of a segment of `version` stands for: its
/// payload when live, `None` for a deletion.
pub open spec fn entry_record(version: u32, e: SegmentIndexEntry, data: Seq<u8>) -> Option<Seq<u8>> {
    let payload = payload_of(data, e);
    if entry_live(version, e, payload) {
        Some(payload)
    } else {
        None
    }
}

/// Laying a segment over older records: a key of the segment takes the
/// record of its entry, any other key keeps its older record.
pub proof fn lemma_lay_segment(
    m: Map<Seq<u8>, Option<Seq<u8>>>,
    es: Seq<(Vec<u8>, SegmentIndexEntry)>,
    data: Seq<u8>,
    version: u32,
    k: Seq<u8>,
)
    requires
        sorted_keys(es),
    ensures
        entries_map(es).dom().contains(k) ==> {
            &&& lay_segment(m, es, data, version).dom().contains(k)
            &&& lay_segment(m, es, data, version)[k] == entry_record(version, entries_map(es)[k], data)
        },
        !entries_map(es).dom().contains(k) ==> {
            &&& lay_segment(m, es, data, version).dom().contains(k) == m.dom().contains(k)
            &&& m.dom().contains(k) ==> lay_segment(m, es, data, version)[k] == m[k]
        },
    decreases es.len(),
{
    if es.len() > 0 {
        let pre = es.drop_last();
        lemma_entries_map_last(es);
        assert(sorted_keys(pre)) by {
            assert forall|i: int, j: int| 0 <= i < j < pre.len() implies lex_lt(
                (#[trigger] pre[i]).0@,
                (#[trigger] pre[j]).0@,
            ) by {
                assert(pre[i] == es[i]);
                assert(pre[j] == es[j]);
            }
        }
        lemma_lay_segment(m, pre, data, version, k);
    } else {
        assert(!entries_map(es).dom().contains(k));
    }
}

/// A stored entry read as a record: `decode_spec` on its payload is the
/// record it stands for, when the entry lies inside the data.
pub proof fn lemma_decode_is_record(version: u32, e: SegmentIndexEntry, data: Seq<u8>)
    requires
        e.offset + e.len <= data.len(),
    ensures
        decode_spec(version, payload_of(data, e)) == entry_record(version, e, data),
{
}

/// The newest record of a key over the first `n` segments is the record
/// of its entry in the newest segment that holds it, if any.
pub proof fn lemma_newest_records(segs: Seq<SegmentMeta>, data: Seq<Vec<u8>>, n: int, k: Seq<u8>)
    requires
        0 <= n <= segs.len(),
        n <= data.len(),
        forall|s: int| 0 <= s < n ==> (#[trigger] segs[s]).index.wf(),
    ensures
        match newest_holder(segs, k, n) {
            None => !newest_records(segs, data, n).dom().contains(k),
            Some(s) => newest_records(segs, data, n).dom().contains(k) && newest_records(
                segs,
                data,
                n,
            )[k] == entry_record(segs[s].version, segs[s].index.map()[k], data[s]@),
        },
    decreases n,
{
    if n > 0 {
        assert(segs[n - 1].index.wf());
        lemma_newest_records(segs, data, n - 1, k);
        lemma_lay_segment(
            newest_records(segs, data, n - 1),
            segs[n - 1].index.entries(),
            data[n - 1]@,
            segs[n - 1].version,
            k,
        );
    }
}

/// Compaction preserves every read: with the older segments `inputs`
/// replaced by one merged segment (version 2 or later) that holds, for each
/// key, the payload of its newest record when that record is live, as
/// `merge_segments` builds it, a read of any id gives what it gave before:
/// a deletion in a merged segment keeps hiding the older values of its key.
/// This holds when no surviving payload is empty; an empty value of a
/// version 1 segment comes back as a deletion once merged.
pub proof fn law_compaction_preserves_reads(
    contents: Map<Seq<u8>, Vec<u8>>,
    inputs: Seq<SegmentMeta>,
    idata: Seq<Vec<u8>>,
    newest: SegmentMeta,
    ndata: Vec<u8>,
    merged: SegmentMeta,
    image: Vec<u8>,
    id: Seq<u8>,
)
    requires
        inputs.len() == idata.len(),
        forall|s: int|
            0 <= s < inputs.len() ==> (#[trigger] inputs[s]).index.wf() && entries_in_bounds(
                inputs[s].index.entries(),
                idata[s]@.len(),
            ),
        merged.version >= 2,
        ({
            let kept = surviving(newest_records(inputs, idata, inputs.len() as int));
            &&& merged.index.map().dom() == kept.dom()
            &&& forall|k: Seq<u8>| #[trigger]
                merged.index.map().dom().contains(k) ==> {
                    &&& merged.index.map()[k].offset + merged.index.map()[k].len <= image@.len()
                    &&& payload_of(image@, merged.index.map()[k]) == kept[k]
                    &&& kept[k].len() > 0
                }
        }),
    ensures
        read_spec(contents, inputs.push(newest), idata.push(ndata), id) == read_spec(
            contents,
            seq![merged, newest],
            seq![image, ndata],
            id,
        ),
{
    let n = inputs.len() as int;
    let os = inputs.push(newest);
    let od = idata.push(ndata);
    let ns = seq![merged, newest];
    let nd = seq![image, ndata];
    assert(os[n] == newest);
    assert(od[n] == ndata);
    assert(ns[1] == newest && ns[0] == merged);
    assert(nd[1] == ndata && nd[0] == image);
    if !contents.dom().contains(id) && !newest.index.map().dom().contains(id) {
        lemma_newest_holder_push(inputs, newest, id, n);
        assert(newest_holder(os, id, n + 1) == newest_holder(inputs, id, n));
        let recs = newest_records(inputs, idata, n);
        let kept = surviving(recs);
        lemma_newest_records(inputs, idata, n, id);
        assert(newest_holder(ns, id, 0) == None::<int>);
        assert(newest_holder(ns, id, 1) == if merged.index.map().dom().contains(id) {
            Some(0int)
        } else {
            None::<int>
        });
        match newest_holder(inputs, id, n) {
            Some(s) => {
                lemma_newest_holder_range(inputs, id, n);
                assert(os[s] == inputs[s]);
                assert(od[s] == idata[s]);
                let e = inputs[s].index.map()[id];
                assert(e.offset + e.len <= idata[s]@.len()) by {
                    let es = inputs[s].index.entries();
                    assert(inputs[s].index.wf() && entries_in_bounds(es, idata[s]@.len()));
                    assert(inputs[s].index.map().dom().contains(id));
                    assert(has_key(es, id));
                    let j = choose|j: int| 0 <= j < es.len() && (#[trigger] es[j]).0@ == id;
                    lemma_entries_map_at(es, j);
                    assert(es[j].1 == e);
                    assert(es[j].1.offset + es[j].1.len <= idata[s]@.len());
                }
                lemma_decode_is_record(inputs[s].version, e, idata[s]@);
                if recs[id] is Some {
                    assert(kept.dom().contains(id));
                    let me = merged.index.map()[id];
                    assert(payload_of(image@, me).len() > 0);
                    assert(payload_of(image@, me).len() == me.len);
                } else {
                    assert(!kept.dom().contains(id));
                }
            },
            None => {
                assert(!kept.dom().contains(id));
            },
        }
    }
}

} // verus!
