//! The in-memory index: for each live record id, where its record lies in
//! the store file and what the record header said of it.

use vstd::prelude::*;
use std::collections::HashMap;
use vstd::std_specs::iter::IteratorSpec;
use vstd::bytes::{
    spec_u32_to_le_bytes, spec_u32_from_le_bytes, spec_u64_to_le_bytes, spec_u64_from_le_bytes,
    lemma_auto_spec_u32_to_from_le_bytes, lemma_auto_spec_u64_to_from_le_bytes,
};
use crate::bytes::{push_u32_le, push_u64_le, read_u32_le, read_u64_le};
use crate::types::{
    DataType, Priority, FIELD_DATA_LENGTH_SIZE, FIELD_DATA_TYPE_SIZE, FIELD_ID_SIZE,
    FIELD_OFFSET_SIZE, FIELD_PRIORITY_SIZE, FIELD_RECORD_TYPE_SIZE, FIELD_SESSION_ID_SIZE,
    FIELD_TIMESTAMP_SIZE,
};

verus! {

broadcast use vstd::std_specs::hash::group_hash_axioms;

/// Size of one entry of the index file.
pub const INDEX_ENTRY_SIZE: usize = FIELD_ID_SIZE + FIELD_OFFSET_SIZE + FIELD_DATA_LENGTH_SIZE
    + FIELD_DATA_TYPE_SIZE + FIELD_PRIORITY_SIZE + FIELD_RECORD_TYPE_SIZE + FIELD_SESSION_ID_SIZE
    + FIELD_TIMESTAMP_SIZE;

/// Size of the index file's header: latest id, data file length, entry count.
pub const INDEX_FILE_HEADER_SIZE: usize = 24;

/// Where a live record lies and what its header said.
#[derive(Debug, Clone, Copy, PartialEq, Eq, Structural)]
pub struct IndexEntry {
    pub offset: u64,
    pub data_length: u32,
    pub data_type: DataType,
    pub record_type: u8,
    pub session_id: u64,
    pub timestamp: u64,
    pub priority: Priority,
}

/// Map from record id to its index entry.
pub struct Index {
    entries: HashMap<u64, IndexEntry>,
}

/// Index file layout of one entry, little-endian: id, offset, data_length,
/// data_type, priority, record_type, session_id, timestamp.
pub open spec fn spec_index_entry_bytes(id: u64, e: IndexEntry) -> Seq<u8> {
    spec_u64_to_le_bytes(id) + spec_u64_to_le_bytes(e.offset) + spec_u32_to_le_bytes(e.data_length)
        + seq![e.data_type.spec_to_u8(), e.priority.spec_to_u8(), e.record_type]
        + spec_u64_to_le_bytes(e.session_id) + spec_u64_to_le_bytes(e.timestamp)
}

/// The entries of `m` for the ids in `ids`, in that order.
pub open spec fn spec_index_entries_bytes(ids: Seq<u64>, m: Map<u64, IndexEntry>) -> Seq<u8>
    decreases ids.len(),
{
    if ids.len() == 0 {
        seq![]
    } else {
        spec_index_entries_bytes(ids.drop_last(), m) + spec_index_entry_bytes(ids.last(), m[ids.last()])
    }
}

/// The index file: latest id, data file length, entry count, then the entries in the order `ids`.
pub open spec fn spec_index_file_bytes(ids: Seq<u64>, m: Map<u64, IndexEntry>, latest_id: u64, max_offset: u64) -> Seq<u8> {
    spec_u64_to_le_bytes(latest_id) + spec_u64_to_le_bytes(max_offset)
        + spec_u64_to_le_bytes(ids.len() as u64) + spec_index_entries_bytes(ids, m)
}

/// The `k`-th entry of an index file image; an unknown data type reads as
/// `Bytes`, an unknown priority as `Normal`.
pub open spec fn spec_index_entry_at(b: Seq<u8>, k: int) -> (u64, IndexEntry) {
    let o = INDEX_FILE_HEADER_SIZE + INDEX_ENTRY_SIZE * k;
    let data_type = match DataType::spec_from_u8(b[o + 20]) {
        Some(d) => d,
        None => DataType::Bytes,
    };
    let priority = match Priority::spec_from_u8(b[o + 21]) {
        Some(p) => p,
        None => Priority::Normal,
    };
    (
        spec_u64_from_le_bytes(b.subrange(o, o + 8)),
        IndexEntry {
            offset: spec_u64_from_le_bytes(b.subrange(o + 8, o + 16)),
            data_length: spec_u32_from_le_bytes(b.subrange(o + 16, o + 20)),
            data_type,
            record_type: b[o + 22],
            session_id: spec_u64_from_le_bytes(b.subrange(o + 23, o + 31)),
            timestamp: spec_u64_from_le_bytes(b.subrange(o + 31, o + 39)),
            priority,
        },
    )
}

/// The map built by inserting the first `n` entries in file order; a later
/// entry for the same id replaces an earlier one.
pub open spec fn spec_decode_index_entries(b: Seq<u8>, n: nat) -> Map<u64, IndexEntry>
    decreases n,
{
    if n == 0 {
        Map::empty()
    } else {
        let (id, e) = spec_index_entry_at(b, n - 1);
        spec_decode_index_entries(b, (n - 1) as nat).insert(id, e)
    }
}

/// What an index file image decodes to: `None` when it is shorter than its
/// header or than the entries its count announces; bytes after them are ignored.
pub open spec fn spec_decode_index_file(b: Seq<u8>) -> Option<(Map<u64, IndexEntry>, u64, u64)> {
    if b.len() < INDEX_FILE_HEADER_SIZE {
        None
    } else {
        let count = spec_u64_from_le_bytes(b.subrange(16, 24));
        if INDEX_FILE_HEADER_SIZE + INDEX_ENTRY_SIZE * count > b.len() {
            None
        } else {
            Some(
                (
                    spec_decode_index_entries(b, count as nat),
                    spec_u64_from_le_bytes(b.subrange(0, 8)),
                    spec_u64_from_le_bytes(b.subrange(8, 16)),
                ),
            )
        }
    }
}

proof fn lemma_index_entry_layout(id: u64, e: IndexEntry)
    ensures
        spec_index_entry_bytes(id, e).len() == INDEX_ENTRY_SIZE,
        ({
            let b = spec_index_entry_bytes(id, e);
            &&& spec_u64_from_le_bytes(b.subrange(0, 8)) == id
            &&& spec_u64_from_le_bytes(b.subrange(8, 16)) == e.offset
            &&& spec_u32_from_le_bytes(b.subrange(16, 20)) == e.data_length
            &&& b[20] == e.data_type.spec_to_u8()
            &&& b[21] == e.priority.spec_to_u8()
            &&& b[22] == e.record_type
            &&& spec_u64_from_le_bytes(b.subrange(23, 31)) == e.session_id
            &&& spec_u64_from_le_bytes(b.subrange(31, 39)) == e.timestamp
        }),
{
    lemma_auto_spec_u32_to_from_le_bytes();
    lemma_auto_spec_u64_to_from_le_bytes();
    let b = spec_index_entry_bytes(id, e);
    assert(b.subrange(0, 8) =~= spec_u64_to_le_bytes(id));
    assert(b.subrange(8, 16) =~= spec_u64_to_le_bytes(e.offset));
    assert(b.subrange(16, 20) =~= spec_u32_to_le_bytes(e.data_length));
    assert(b.subrange(23, 31) =~= spec_u64_to_le_bytes(e.session_id));
    assert(b.subrange(31, 39) =~= spec_u64_to_le_bytes(e.timestamp));
}

proof fn lemma_index_entries_layout(ids: Seq<u64>, m: Map<u64, IndexEntry>, k: int)
    requires
        0 <= k < ids.len(),
    ensures
        spec_index_entries_bytes(ids, m).len() == INDEX_ENTRY_SIZE * ids.len(),
        spec_index_entries_bytes(ids, m).subrange(INDEX_ENTRY_SIZE * k, INDEX_ENTRY_SIZE * k + INDEX_ENTRY_SIZE)
            == spec_index_entry_bytes(ids[k], m[ids[k]]),
    decreases ids.len(),
{
    let n = ids.len() as int;
    let front = spec_index_entries_bytes(ids.drop_last(), m);
    lemma_index_entry_layout(ids.last(), m[ids.last()]);
    if n == 1 {
        assert(front =~= Seq::<u8>::empty());
        assert(spec_index_entries_bytes(ids, m) =~= spec_index_entry_bytes(ids.last(), m[ids.last()]));
        assert(spec_index_entries_bytes(ids, m).subrange(0, 39) =~= spec_index_entries_bytes(ids, m));
    } else {
        if k < n - 1 {
            lemma_index_entries_layout(ids.drop_last(), m, k);
            assert(ids.drop_last()[k] == ids[k]);
            assert(spec_index_entries_bytes(ids, m).subrange(39 * k, 39 * k + 39)
                =~= front.subrange(39 * k, 39 * k + 39));
        } else {
            lemma_index_entries_layout(ids.drop_last(), m, 0);
            assert(spec_index_entries_bytes(ids, m).subrange(39 * k, 39 * k + 39)
                =~= spec_index_entry_bytes(ids.last(), m[ids.last()]));
        }
    }
}

proof fn lemma_entries_len(ids: Seq<u64>, m: Map<u64, IndexEntry>)
    ensures
        spec_index_entries_bytes(ids, m).len() == INDEX_ENTRY_SIZE * ids.len(),
{
    if ids.len() > 0 {
        lemma_index_entries_layout(ids, m, 0);
    }
}

/// An index file written for a map decodes back to that map, with the
/// latest id and data file length it was written with, whatever order the
/// entries were written in.
pub proof fn lemma_index_file_round_trip(ids: Seq<u64>, m: Map<u64, IndexEntry>, latest_id: u64, max_offset: u64)
    requires
        ids.no_duplicates(),
        ids.to_set() == m.dom(),
        ids.len() <= u64::MAX,
    ensures
        spec_decode_index_file(spec_index_file_bytes(ids, m, latest_id, max_offset)) == Some((m, latest_id, max_offset)),
{
    lemma_auto_spec_u64_to_from_le_bytes();
    let b = spec_index_file_bytes(ids, m, latest_id, max_offset);
    let body = spec_index_entries_bytes(ids, m);
    lemma_entries_len(ids, m);
    assert(b.subrange(0, 8) =~= spec_u64_to_le_bytes(latest_id));
    assert(b.subrange(8, 16) =~= spec_u64_to_le_bytes(max_offset));
    assert(b.subrange(16, 24) =~= spec_u64_to_le_bytes(ids.len() as u64));
    assert(b.len() == 24 + 39 * ids.len());
    // Each decoded entry is the written one.
    assert forall|k: int| 0 <= k < ids.len() implies #[trigger] spec_index_entry_at(b, k) == (ids[k], m[ids[k]]) by {
        lemma_index_entries_layout(ids, m, k);
        let e = m[ids[k]];
        lemma_index_entry_layout(ids[k], e);
        let eb = spec_index_entry_bytes(ids[k], e);
        let o = 24 + 39 * k;
        assert(b.subrange(o, o + 39) =~= body.subrange(39 * k, 39 * k + 39));
        assert(b.subrange(o, o + 8) =~= eb.subrange(0, 8));
        assert(b.subrange(o + 8, o + 16) =~= eb.subrange(8, 16));
        assert(b.subrange(o + 16, o + 20) =~= eb.subrange(16, 20));
        assert(b.subrange(o + 23, o + 31) =~= eb.subrange(23, 31));
        assert(b.subrange(o + 31, o + 39) =~= eb.subrange(31, 39));
        assert(b[o + 20] == eb[20]);
        assert(b[o + 21] == eb[21]);
        assert(b[o + 22] == eb[22]);
    }
    lemma_decode_entries_prefix(b, ids, m, ids.len());
    assert(spec_decode_index_entries(b, ids.len()) =~= m) by {
        assert forall|k: u64| #[trigger] m.dom().contains(k) implies ids.take(ids.len() as int).contains(k) by {
            assert(ids.to_set().contains(k));
            assert(ids.take(ids.len() as int) =~= ids);
        }
        assert forall|k: u64| ids.take(ids.len() as int).contains(k) implies #[trigger] m.dom().contains(k) by {
            assert(ids.take(ids.len() as int) =~= ids);
            assert(ids.to_set().contains(k));
        }
    }
}

proof fn lemma_room(avail: int, count: int, room: int)
    requires
        avail >= 0,
        count >= 0,
        room == avail / 39,
    ensures
        count <= room <==> 39 * count <= avail,
{
    assert(count <= avail / 39 <==> 39 * count <= avail) by (nonlinear_arith)
        requires
            avail >= 0,
            count >= 0,
    ;
}

/// Decoding the first `n` entries of an image whose entries are those of
/// `m` for `ids` gives `m` on the first `n` ids.
proof fn lemma_decode_entries_prefix(b: Seq<u8>, ids: Seq<u64>, m: Map<u64, IndexEntry>, n: nat)
    requires
        n <= ids.len(),
        ids.to_set() == m.dom(),
        forall|k: int| 0 <= k < ids.len() ==> #[trigger] spec_index_entry_at(b, k) == (ids[k], m[ids[k]]),
    ensures
        spec_decode_index_entries(b, n).dom() == ids.take(n as int).to_set(),
        forall|k: u64| #[trigger] spec_decode_index_entries(b, n).contains_key(k) ==> spec_decode_index_entries(b, n)[k] == m[k],
    decreases n,
{
    if n == 0 {
        assert(ids.take(0).to_set() =~= Set::<u64>::empty());
    } else {
        lemma_decode_entries_prefix(b, ids, m, (n - 1) as nat);
        assert(spec_index_entry_at(b, n - 1) == (ids[n - 1], m[ids[n - 1]]));
        assert(ids.take(n as int) =~= ids.take(n - 1).push(ids[n - 1]));
        assert(ids.take(n as int).to_set() =~= ids.take(n - 1).to_set().insert(ids[n - 1])) by {
            ids.take(n - 1).lemma_push_to_set_commute(ids[n - 1]);
        }
    }
}

impl View for Index {
    type V = Map<u64, IndexEntry>;

    closed spec fn view(&self) -> Map<u64, IndexEntry> {
        self.entries@
    }
}

impl Default for Index {
    fn default() -> (r: Index)
        ensures
            r@ == Map::<u64, IndexEntry>::empty(),
    {
        Index::new()
    }
}

impl Index {
    /// An empty index.
    pub fn new() -> (r: Index)
        ensures
            r@ == Map::<u64, IndexEntry>::empty(),
    {
        Index { entries: HashMap::new() }
    }

    /// Sets the entry of `id`, replacing any entry it had.
    pub fn insert(&mut self, id: u64, entry: IndexEntry)
        ensures
            final(self)@ == old(self)@.insert(id, entry),
    {
        self.entries.insert(id, entry);
    }

    /// The entry of `id`, if it has one.
    pub fn get(&self, id: u64) -> (r: Option<&IndexEntry>)
        ensures
            match r {
                Some(e) => self@.contains_key(id) && *e == self@[id],
                None => !self@.contains_key(id),
            },
    {
        self.entries.get(&id)
    }

    /// Removes the entry of `id` and returns it, if it had one.
    pub fn remove(&mut self, id: u64) -> (r: Option<IndexEntry>)
        ensures
            final(self)@ == old(self)@.remove(id),
            match r {
                Some(e) => old(self)@.contains_key(id) && e == old(self)@[id],
                None => !old(self)@.contains_key(id),
            },
    {
        self.entries.remove(&id)
    }

    /// Whether `id` has an entry.
    pub fn contains(&self, id: u64) -> (r: bool)
        ensures
            r == self@.contains_key(id),
    {
        self.entries.contains_key(&id)
    }

    /// Number of entries.
    pub fn len(&self) -> (n: usize)
        ensures
            n == self@.len(),
    {
        self.entries.len()
    }

    /// Whether there are no entries.
    pub fn is_empty(&self) -> (r: bool)
        ensures
            r == (self@.len() == 0),
    {
        let r = self.entries.is_empty();
        proof {
            if !r {
                assert(self@.dom().len() > 0) by {
                    let k = self@.dom().choose();
                    assert(self@.dom().contains(k));
                }
            }
        }
        r
    }

    /// Every id that has an entry, each once, in no particular order.
    pub fn keys(&self) -> (ks: Vec<u64>)
        ensures
            ks@.no_duplicates(),
            ks@.to_set() == self@.dom(),
            ks@.len() == self@.len(),
    {
        let mut ks: Vec<u64> = Vec::new();
        let ghost all = vstd::std_specs::hash::spec_keys_iter(&self.entries).remaining().unref();
        for k in it: self.entries.keys()
            invariant
                it.seq().unref() == all,
                ks@ == all.take(it.index()),
        {
            ks.push(*k);
            proof {
                assert(it.seq()[it.index()] == k);
                assert(all.take(it.index() + 1) =~= all.take(it.index()).push(*k));
            }
        }
        assert(ks@ =~= all);
        ks
    }

    /// Encodes the index file: latest id, data file length, entry count,
    /// then every entry, in no particular order.
    pub fn encode_file(&self, latest_id: u64, max_offset: u64) -> (out: Vec<u8>)
        ensures
            exists|ids: Seq<u64>|
                {
                    &&& ids.no_duplicates()
                    &&& ids.to_set() == self@.dom()
                    &&& ids.len() == self@.len()
                    &&& #[trigger] spec_index_file_bytes(ids, self@, latest_id, max_offset) == out@
                },
            spec_decode_index_file(out@) == Some((self@, latest_id, max_offset)),
    {
        let keys = self.keys();
        let count = keys.len() as u64;
        let mut out: Vec<u8> = Vec::new();
        push_u64_le(&mut out, latest_id);
        push_u64_le(&mut out, max_offset);
        push_u64_le(&mut out, count);
        let ghost head = out@;
        let mut i: usize = 0;
        while i < keys.len()
            invariant
                i <= keys@.len(),
                keys@.to_set() == self@.dom(),
                out@ == head + spec_index_entries_bytes(keys@.take(i as int), self@),
            decreases keys@.len() - i,
        {
            let id = keys[i];
            proof {
                assert(keys@.to_set().contains(keys@[i as int]));
            }
            let e = match self.get(id) {
                Some(e) => *e,
                None => {
                    proof {
                        assert(false);
                    }
                    return out;
                },
            };
            push_u64_le(&mut out, id);
            push_u64_le(&mut out, e.offset);
            push_u32_le(&mut out, e.data_length);
            out.push(e.data_type.to_u8());
            out.push(e.priority.to_u8());
            out.push(e.record_type);
            push_u64_le(&mut out, e.session_id);
            push_u64_le(&mut out, e.timestamp);
            proof {
                let t = keys@.take(i + 1);
                assert(t.drop_last() =~= keys@.take(i as int));
                assert(t.last() == id);
                assert(out@ =~= head + spec_index_entries_bytes(t, self@));
            }
            i = i + 1;
        }
        assert(keys@.take(i as int) =~= keys@);
        assert(spec_index_file_bytes(keys@, self@, latest_id, max_offset) == out@);
        proof {
            lemma_index_file_round_trip(keys@, self@, latest_id, max_offset);
        }
        out
    }

    /// Decodes an index file image: `None` when it is shorter than its
    /// header or than the entries its count announces.
    pub fn decode_file(bytes: &[u8]) -> (r: Option<(Index, u64, u64)>)
        ensures
            match r {
                Some((idx, latest_id, max_offset)) => spec_decode_index_file(bytes@) == Some((idx@, latest_id, max_offset)),
                None => spec_decode_index_file(bytes@) is None,
            },
    {
        if bytes.len() < INDEX_FILE_HEADER_SIZE {
            return None;
        }
        let latest_id = read_u64_le(bytes, 0);
        let max_offset = read_u64_le(bytes, 8);
        let count = read_u64_le(bytes, 16);
        let room = (bytes.len() - INDEX_FILE_HEADER_SIZE) / INDEX_ENTRY_SIZE;
        proof {
            lemma_room(bytes@.len() - 24, count as int, room as int);
        }
        if count > room as u64 {
            return None;
        }
        let mut idx = Index::new();
        let mut k: u64 = 0;
        while k < count
            invariant
                k <= count,
                count <= room,
                24 + 39 * count <= bytes.len(),
                bytes@.len() == bytes.len(),
                count == spec_u64_from_le_bytes(bytes@.subrange(16, 24)),
                idx@ == spec_decode_index_entries(bytes@, k as nat),
            decreases count - k,
        {
            let o: usize = INDEX_FILE_HEADER_SIZE + INDEX_ENTRY_SIZE * (k as usize);
            let id = read_u64_le(bytes, o);
            let offset = read_u64_le(bytes, o + 8);
            let data_length = read_u32_le(bytes, o + 16);
            let data_type = match DataType::from_u8(bytes[o + 20]) {
                Some(d) => d,
                None => DataType::Bytes,
            };
            let priority = match Priority::from_u8(bytes[o + 21]) {
                Some(p) => p,
                None => Priority::Normal,
            };
            let record_type = bytes[o + 22];
            let session_id = read_u64_le(bytes, o + 23);
            let timestamp = read_u64_le(bytes, o + 31);
            idx.insert(id, IndexEntry { offset, data_length, data_type, record_type, session_id, timestamp, priority });
            k = k + 1;
        }
        Some((idx, latest_id, max_offset))
    }
}

} // verus!
