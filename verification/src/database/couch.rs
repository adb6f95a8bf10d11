//! The index of a document store kept as an append-only data file: where
//! the newest version of each document lies in the file, and its revision.
use vstd::prelude::*;
use crate::database::keymap::ByteKeyMap;
use vstd::string::StringSliceAdditionalSpecFns;

verus! {

/// Where a document's bytes lie in the data file, and its revision.
pub struct IndexEntry {
    pub offset: u64,
    pub len: u64,
    pub rev: String,
}

/// Location and revision of an entry, as plain values.
pub open spec fn entry_view(e: IndexEntry) -> (u64, u64, Seq<char>) {
    (e.offset, e.len, e.rev@)
}

impl IndexEntry {
    pub fn new(offset: u64, len: u64, rev: String) -> (r: Self)
        ensures
            entry_view(r) == (offset, len, rev@),
    {
        Self { offset, len, rev }
    }

    pub fn duplicate(&self) -> (r: Self)
        ensures
            entry_view(r) == entry_view(*self),
    {
        Self { offset: self.offset, len: self.len, rev: self.rev.clone() }
    }
}

/// The index seen as a map from document ids (their bytes) to locations.
pub open spec fn index_view(m: Map<Seq<u8>, IndexEntry>) -> Map<Seq<u8>, (u64, u64, Seq<char>)> {
    m.map_values(|e: IndexEntry| entry_view(e))
}

/// Document id to location of its newest version.
pub struct CouchIndex {
    entries: ByteKeyMap<IndexEntry>,
}

impl CouchIndex {
    pub closed spec fn wf(&self) -> bool {
        self.entries.wf()
    }

    pub closed spec fn view_map(&self) -> Map<Seq<u8>, (u64, u64, Seq<char>)> {
        index_view(self.entries.map())
    }

    pub fn new() -> (r: Self)
        ensures
            r.wf(),
            r.view_map() == Map::<Seq<u8>, (u64, u64, Seq<char>)>::empty(),
    {
        let r = Self { entries: ByteKeyMap::new() };
        proof {
            assert(r.entries.map() =~= Map::<Seq<u8>, IndexEntry>::empty());
            assert(index_view(r.entries.map()) =~= Map::<Seq<u8>, (u64, u64, Seq<char>)>::empty());
        }
        r
    }

    /// Record that the newest version of `id` was appended at `offset`.
    pub fn record_put(&mut self, id: &str, offset: u64, len: u64, rev: String)
        requires
            old(self).wf(),
        ensures
            final(self).wf(),
            final(self).view_map() == old(self).view_map().insert(id.spec_bytes(), (offset, len, rev@)),
    {
        let ghost rv = rev@;
        let key = slice_to_vec(id.as_bytes());
        let ghost before = self.entries.map();
        self.entries.insert(key, IndexEntry { offset, len, rev });
        proof {
            assert(index_view(self.entries.map()) =~= index_view(before).insert(
                id.spec_bytes(),
                (offset, len, rv),
            ));
        }
    }

    /// The location of the newest version of `id`, if indexed.
    pub fn lookup(&self, id: &str) -> (r: Option<IndexEntry>)
        requires
            self.wf(),
        ensures
            match r {
                Some(e) => self.view_map().dom().contains(id.spec_bytes()) && entry_view(e)
                    == self.view_map()[id.spec_bytes()],
                None => !self.view_map().dom().contains(id.spec_bytes()),
            },
    {
        match self.entries.get(id.as_bytes()) {
            Some(e) => Some(e.duplicate()),
            None => None,
        }
    }

    /// Forget `id`; `true` when it was indexed.
    pub fn remove(&mut self, id: &str) -> (r: bool)
        requires
            old(self).wf(),
        ensures
            final(self).wf(),
            r == old(self).view_map().dom().contains(id.spec_bytes()),
            final(self).view_map() == old(self).view_map().remove(id.spec_bytes()),
    {
        let ghost before = self.entries.map();
        let r = self.entries.remove(id.as_bytes());
        proof {
            assert(index_view(self.entries.map()) =~= index_view(before).remove(id.spec_bytes()));
        }
        r.is_some()
    }

    /// Number of indexed documents.
    pub closed spec fn count(&self) -> nat {
        self.entries.entries().len()
    }

    pub fn len(&self) -> (r: usize)
        ensures
            r == self.count(),
    {
        self.entries.len()
    }

    /// The id (as bytes) and entry at position `i` in id order.
    pub fn entry_at(&self, i: usize) -> (r: (&Vec<u8>, &IndexEntry))
        requires
            self.wf(),
            i < self.count(),
        ensures
            self.view_map().dom().contains(r.0@),
            self.view_map()[r.0@] == entry_view(*r.1),
    {
        let r = self.entries.entry_at(i);
        proof {
            crate::database::keymap::lemma_entries_map_at(self.entries.entries(), i as int);
        }
        r
    }
}

fn slice_to_vec(s: &[u8]) -> (r: Vec<u8>)
    ensures
        r@ == s@,
{
    let mut v: Vec<u8> = Vec::with_capacity(s.len());
    let mut i: usize = 0;
    while i < s.len()
        invariant
            i <= s@.len(),
            v@ == s@.subrange(0, i as int),
        decreases s@.len() - i,
    {
        v.push(s[i]);
        i = i + 1;
        proof {
            assert(v@ =~= s@.subrange(0, i as int));
        }
    }
    assert(s@.subrange(0, s@.len() as int) =~= s@);
    v
}

/// The byte range `[offset, offset + len)` of an indexed document inside a
/// mapped data file of `file_len` bytes, or the error the store reports
/// when the entry reaches past the end of the file.
pub fn document_range(entry: &IndexEntry, file_len: usize) -> (r: Result<(usize, usize), String>)
    requires
        entry.offset + entry.len <= usize::MAX,
    ensures
        entry.offset + entry.len <= file_len ==> r == Ok::<(usize, usize), String>(
            (entry.offset as usize, (entry.offset + entry.len) as usize),
        ),
        entry.offset + entry.len > file_len ==> (r matches Err(e) && e@
            == "index entry out of bounds"@),
{
    let start = entry.offset as usize;
    let end = start + entry.len as usize;
    if end > file_len {
        return Err(String::from_str("index entry out of bounds"));
    }
    Ok((start, end))
}

/// A document is found where it was last put: after recording a put of
/// `id`, looking `id` up gives that location and revision, and every other
/// id keeps its entry.
pub proof fn law_index_read_your_put(
    m: Map<Seq<u8>, (u64, u64, Seq<char>)>,
    id: Seq<u8>,
    other: Seq<u8>,
    loc: (u64, u64, Seq<char>),
)
    requires
        other != id,
    ensures
        m.insert(id, loc).dom().contains(id),
        m.insert(id, loc)[id] == loc,
        m.insert(id, loc).dom().contains(other) == m.dom().contains(other),
        m.dom().contains(other) ==> m.insert(id, loc)[other] == m[other],
        !m.remove(id).dom().contains(id),
{
}

} // verus!
