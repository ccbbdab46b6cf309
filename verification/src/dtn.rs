//! Delay-tolerant networking: chunking, acknowledgements and the spool.

use crate::double::Double;
use crate::hexcode;
use crate::sealing;
use crate::sorting;
use crate::sorting::Keyed;
use crate::text;
use crate::timestamp;
use crate::timestamp::Timestamp;
use crate::vault;
use std::collections::HashMap;
use vstd::prelude::*;
use vstd::slice::slice_subrange;
use vstd::slice::slice_to_vec;
use vstd::string::StringExecFns;

verus! {

/// Default chunk size: 1 MB.
pub const DEFAULT_CHUNK_SIZE: usize = 1_048_576;

/// Topic for outbound telemetry chunks.
pub const TOPIC_TX: &'static str = "spaceorb/dtn/tx";

/// Topic for inbound ACKs.
pub const TOPIC_ACK: &'static str = "spaceorb/dtn/ack";

/// Topic for state broadcasts (500 ms interval).
pub const TOPIC_STATE: &'static str = "spaceorb/state";

/// The ground station unless configured otherwise.
pub const DEFAULT_ENDPOINT: &'static str = "tcp/127.0.0.1:7447";

/// Where interrupted transfers are spooled.
pub const SPOOL_DIR: &'static str = "/var/lib/spaceorb/spool";

/// A single chunk ready for transmission.
#[derive(Clone, Debug)]
pub struct DtnChunk {
    /// Parent payload id (the sealed file id).
    pub payload_id: String,
    /// Sequence number within this payload.
    pub sequence: u64,
    /// Number of chunks in this payload.
    pub total_chunks: u64,
    /// SHA-256 hash of this chunk's data, in hexadecimal.
    pub chunk_hash: String,
    /// The chunk data.
    pub data: Vec<u8>,
    /// When this chunk was created.
    pub created_at: Timestamp,
}

/// A chunk with its texts and bytes taken by their views.
#[verifier::ext_equal]
pub struct ChunkView {
    pub payload_id: Seq<char>,
    pub sequence: u64,
    pub total_chunks: u64,
    pub chunk_hash: Seq<char>,
    pub data: Seq<u8>,
    pub created_at: Timestamp,
}

impl View for DtnChunk {
    type V = ChunkView;

    open spec fn view(&self) -> ChunkView {
        ChunkView {
            payload_id: self.payload_id@,
            sequence: self.sequence,
            total_chunks: self.total_chunks,
            chunk_hash: self.chunk_hash@,
            data: self.data@,
            created_at: self.created_at,
        }
    }
}

impl Keyed for DtnChunk {
    open spec fn key(&self) -> int {
        self.sequence as int
    }

    fn sort_key(&self) -> (k: i128) {
        self.sequence as i128
    }
}

/// Cryptographic ACK from the ground station.
#[derive(Clone, Debug)]
pub struct DtnAck {
    /// Payload id being acknowledged.
    pub payload_id: String,
    /// Sequence number of the acknowledged chunk.
    pub sequence: u64,
    /// SHA-256 hash that the receiver computed.
    pub received_hash: String,
    /// When the chunk was acknowledged.
    pub acked_at: Timestamp,
}

/// Transmission state for a single payload.
#[derive(Debug)]
pub struct PayloadTransmitState {
    /// Payload id.
    pub payload_id: String,
    /// All chunks for this payload.
    pub chunks: Vec<DtnChunk>,
    /// Acknowledged sequence numbers.
    pub acked: HashMap<u64, bool>,
    /// Whether the entire payload is transmitted.
    pub complete: bool,
}

/// How many chunks of a size cover a payload of a length.
pub open spec fn chunk_count(len: int, size: int) -> int {
    (len + size - 1) / size
}

/// The bytes of a payload that its chunk with a number carries.
pub open spec fn chunk_bytes(data: Seq<u8>, size: int, i: int) -> Seq<u8> {
    let end = if (i + 1) * size < data.len() { (i + 1) * size } else { data.len() as int };
    data.subrange(i * size, end)
}

/// The chunk of a payload with a number.
pub open spec fn nth_chunk(
    payload_id: Seq<char>,
    data: Seq<u8>,
    size: int,
    now: Timestamp,
    i: int,
) -> ChunkView {
    ChunkView {
        payload_id,
        sequence: i as u64,
        total_chunks: chunk_count(data.len() as int, size) as u64,
        chunk_hash: vault::provenance(chunk_bytes(data, size, i)),
        data: chunk_bytes(data, size, i),
        created_at: now,
    }
}

/// The chunks of a payload.
pub open spec fn chunked(
    payload_id: Seq<char>,
    data: Seq<u8>,
    size: int,
    now: Timestamp,
) -> Seq<ChunkView> {
    Seq::new(
        chunk_count(data.len() as int, size) as nat,
        |i: int| nth_chunk(payload_id, data, size, now, i),
    )
}

/// The views of chunks.
pub open spec fn chunk_views(chunks: Seq<DtnChunk>) -> Seq<ChunkView> {
    chunks.map_values(|c: DtnChunk| c@)
}

/// A chunk number is one of a payload's exactly where the chunk begins inside the payload.
proof fn lemma_chunk_starts_inside(len: int, size: int, i: int)
    requires
        0 <= len,
        0 < size,
        0 <= i,
    ensures
        i < chunk_count(len, size) <==> i * size < len,
{
    let count = chunk_count(len, size);
    assert(count * size <= len + size - 1 < count * size + size) by (nonlinear_arith)
        requires
            0 < size,
            count == (len + size - 1) / size,
    ;
    if i < count {
        assert(i * size <= (count - 1) * size) by (nonlinear_arith)
            requires
                i <= count - 1,
                0 < size,
        ;
        assert((count - 1) * size == count * size - size) by (nonlinear_arith);
    } else {
        assert(i * size >= count * size) by (nonlinear_arith)
            requires
                i >= count,
                0 < size,
        ;
    }
}

/// Two ways to count chunks.
proof fn lemma_chunk_count(len: int, size: int)
    requires
        0 <= len,
        0 < size,
    ensures
        chunk_count(len, size) == if len == 0 {
            0
        } else {
            (len - 1) / size + 1
        },
        chunk_count(len, size) <= len,
{
    if len == 0 {
        assert((size - 1) / size == 0) by (nonlinear_arith)
            requires
                0 < size,
        ;
    } else {
        assert((len - 1 + size) / size == (len - 1) / size + 1) by (nonlinear_arith)
            requires
                0 < size,
        ;
        assert((len - 1) / size <= len - 1) by (nonlinear_arith)
            requires
                0 < size,
                0 <= len - 1,
        ;
    }
}

/// Splits a payload into chunks with cryptographic hashes, stamped with the time of the call.
pub fn chunk_payload(payload_id: &str, data: &[u8], chunk_size: usize) -> (chunks: Vec<DtnChunk>)
    requires
        0 < chunk_size,
    ensures
        exists|now: Timestamp|
            timestamp::is_reading(now) && chunk_views(chunks@) == #[trigger] chunked(
                payload_id@,
                data@,
                chunk_size as int,
                now,
            ),
        forall|i: int| 0 <= i < chunks@.len() ==> (#[trigger] chunks@[i]).chunk_hash@.len() == 64,
{
    let now = timestamp::read_clock();
    chunk_payload_at(payload_id, data, chunk_size, now)
}

/// Splits a payload into chunks with cryptographic hashes. All have the given size, but for the
/// last, which has what is left.
pub fn chunk_payload_at(
    payload_id: &str,
    data: &[u8],
    chunk_size: usize,
    now: Timestamp,
) -> (chunks: Vec<DtnChunk>)
    requires
        0 < chunk_size,
    ensures
        chunk_views(chunks@) == chunked(payload_id@, data@, chunk_size as int, now),
        forall|i: int| 0 <= i < chunks@.len() ==> (#[trigger] chunks@[i]).chunk_hash@.len() == 64,
{
    let ghost all = chunked(payload_id@, data@, chunk_size as int, now);
    let total: usize = if data.len() == 0 { 0 } else { (data.len() - 1) / chunk_size + 1 };
    proof {
        lemma_chunk_count(data@.len() as int, chunk_size as int);
    }
    let mut chunks: Vec<DtnChunk> = Vec::new();
    let mut start: usize = 0;
    let mut i: usize = 0;
    while i < total
        invariant
            0 < chunk_size,
            total == chunk_count(data@.len() as int, chunk_size as int),
            all == chunked(payload_id@, data@, chunk_size as int, now),
            i <= total,
            start == (if i * chunk_size < data@.len() { i * chunk_size } else { data@.len() as int }),
            chunk_views(chunks@) == all.take(i as int),
            forall|j: int|
                0 <= j < chunks@.len() ==> (#[trigger] chunks@[j]).chunk_hash@.len() == 64,
        decreases total - i,
    {
        proof {
            lemma_chunk_starts_inside(data@.len() as int, chunk_size as int, i as int);
            assert((i + 1) * chunk_size == i * chunk_size + chunk_size) by (nonlinear_arith);
        }
        let rest: usize = data.len() - start;
        let end: usize = if rest <= chunk_size { data.len() } else { start + chunk_size };
        let part = slice_subrange(data, start, end);
        let chunk = DtnChunk {
            payload_id: payload_id.to_owned(),
            sequence: i as u64,
            total_chunks: total as u64,
            chunk_hash: vault::sha256_hex(part),
            data: slice_to_vec(part),
            created_at: now,
        };
        assert(part@ =~= chunk_bytes(data@, chunk_size as int, i as int));
        assert(chunk@ =~= all[i as int]);
        let ghost before = chunks@;
        chunks.push(chunk);
        assert(chunk_views(chunks@) =~= chunk_views(before).push(all[i as int]));
        assert(all.take(i + 1) =~= all.take(i as int).push(all[i as int]));
        start = end;
        i += 1;
    }
    assert(all.take(total as int) =~= all);
    chunks
}

/// Whether an ACK echoes a chunk: its payload, its number and its hash.
pub open spec fn ack_matches(
    chunk: ChunkView,
    payload_id: Seq<char>,
    sequence: u64,
    hash: Seq<char>,
) -> bool {
    payload_id == chunk.payload_id && sequence == chunk.sequence && hash == chunk.chunk_hash
}

/// Verifies a received ACK against the expected chunk.
pub fn verify_ack(chunk: &DtnChunk, ack: &DtnAck) -> (valid: bool)
    ensures
        valid == ack_matches(chunk@, ack.payload_id@, ack.sequence, ack.received_hash@),
{
    ack.payload_id == chunk.payload_id && ack.sequence == chunk.sequence && ack.received_hash
        == chunk.chunk_hash
}

/// The payload that chunks carry, one after the other.
pub open spec fn joined(chunks: Seq<ChunkView>) -> Seq<u8>
    decreases chunks.len(),
{
    if chunks.len() == 0 {
        Seq::empty()
    } else {
        joined(chunks.drop_last()) + chunks.last().data
    }
}

proof fn lemma_joined_prefix(
    payload_id: Seq<char>,
    data: Seq<u8>,
    size: int,
    now: Timestamp,
    i: int,
)
    requires
        0 < size,
        0 <= i <= chunk_count(data.len() as int, size),
    ensures
        joined(chunked(payload_id, data, size, now).take(i)) == data.take(
            if i * size < data.len() {
                i * size
            } else {
                data.len() as int
            },
        ),
    decreases i,
{
    let all = chunked(payload_id, data, size, now);
    if i == 0 {
        assert(i * size == 0) by (nonlinear_arith)
            requires
                i == 0,
        ;
        assert(all.take(0).len() == 0);
        assert(joined(all.take(0)) =~= data.take(0));
    } else {
        lemma_joined_prefix(payload_id, data, size, now, i - 1);
        lemma_chunk_starts_inside(data.len() as int, size, i - 1);
        assert(i * size == (i - 1) * size + size) by (nonlinear_arith);
        assert((i - 1) * size >= 0) by (nonlinear_arith)
            requires
                i >= 1,
                size > 0,
        ;
        assert(all.take(i).drop_last() =~= all.take(i - 1));
        assert(all.take(i).last() == all[i - 1]);
        assert(joined(all.take(i)) =~= data.take(
            if i * size < data.len() {
                i * size
            } else {
                data.len() as int
            },
        ));
    }
}

/// The chunks of a payload, one after the other, are the payload.
pub proof fn law_chunks_rejoin(payload_id: Seq<char>, data: Seq<u8>, size: int, now: Timestamp)
    requires
        0 < size,
    ensures
        joined(chunked(payload_id, data, size, now)) == data,
{
    let all = chunked(payload_id, data, size, now);
    let count = chunk_count(data.len() as int, size);
    assert(count >= 0) by (nonlinear_arith)
        requires
            0 < size,
            count == (data.len() + size - 1) / size,
    ;
    lemma_joined_prefix(payload_id, data, size, now, count);
    lemma_chunk_starts_inside(data.len() as int, size, count);
    assert(all.take(count) =~= all);
    assert(data.take(data.len() as int) =~= data);
}

/// Every chunk of a payload but the last has the chunk size, and the last is not empty and not
/// larger.
pub proof fn law_chunks_are_uniform(
    payload_id: Seq<char>,
    data: Seq<u8>,
    size: int,
    now: Timestamp,
    i: int,
)
    requires
        0 < size,
        0 <= i < chunked(payload_id, data, size, now).len(),
    ensures
        0 < chunked(payload_id, data, size, now)[i].data.len() <= size,
        i < chunked(payload_id, data, size, now).len() - 1 ==> chunked(
            payload_id,
            data,
            size,
            now,
        )[i].data.len() == size,
{
    lemma_chunk_starts_inside(data.len() as int, size, i);
    lemma_chunk_starts_inside(data.len() as int, size, i + 1);
    assert((i + 1) * size == i * size + size) by (nonlinear_arith);
    assert(i * size >= 0) by (nonlinear_arith)
        requires
            i >= 0,
            size > 0,
    ;
}

/// An ACK is accepted for a chunk of a payload exactly when it names the payload and the
/// chunk's number and carries the hash of the chunk's bytes.
pub proof fn law_ack_proves_receipt(
    payload_id: Seq<char>,
    data: Seq<u8>,
    size: int,
    now: Timestamp,
    i: int,
    acked_id: Seq<char>,
    acked: u64,
    hash: Seq<char>,
)
    requires
        0 < size,
        data.len() <= u64::MAX,
        0 <= i < chunked(payload_id, data, size, now).len(),
    ensures
        ack_matches(chunked(payload_id, data, size, now)[i], acked_id, acked, hash) <==> acked_id
            == payload_id && acked == i && hash == vault::provenance(chunk_bytes(data, size, i)),
{
    lemma_chunk_starts_inside(data.len() as int, size, i);
    assert(i <= i * size) by (nonlinear_arith)
        requires
            i >= 0,
            size >= 1,
    ;
}

/// The name of the spool file of a chunk.
pub open spec fn spool_name(payload_id: Seq<char>, sequence: u64) -> Seq<char> {
    payload_id + "_"@ + text::padded_decimal(sequence as nat, 6) + ".chunk"@
}

/// Whether a spool file's name is one that a payload's chunks can have.
pub open spec fn names_chunk_of(payload_id: Seq<char>, name: Seq<char>) -> bool {
    text::has_prefix(name, payload_id + "_"@) && text::has_suffix(name, ".chunk"@)
}

/// Writes the name of the spool file of a chunk.
fn write_spool_name(payload_id: &str, sequence: u64) -> (name: String)
    ensures
        name@ == spool_name(payload_id@, sequence),
{
    let mut name = payload_id.to_owned();
    name.append("_");
    name.append(text::write_padded(sequence, 6).as_str());
    name.append(".chunk");
    name
}

/// Spools chunks that await their ACK to persistent storage during link outages.
pub struct SpoolManager {
    spool_dir: String,
}

impl SpoolManager {
    /// The spool directory.
    pub closed spec fn dir(&self) -> Seq<char> {
        self.spool_dir@
    }

    /// Creates a spool manager at the given directory.
    pub fn new(spool_dir: String) -> (spool: SpoolManager)
        ensures
            spool.dir() == spool_dir@,
    {
        SpoolManager { spool_dir }
    }

    /// The spool directory.
    pub fn spool_dir(&self) -> (dir: &str)
        ensures
            dir@ == self.dir(),
    {
        self.spool_dir.as_str()
    }

    /// The file of the spool directory that a chunk is written to for later resumption.
    pub fn spool_chunk(&self, chunk: &DtnChunk) -> (name: String)
        ensures
            name@ == spool_name(chunk.payload_id@, chunk.sequence),
    {
        write_spool_name(chunk.payload_id.as_str(), chunk.sequence)
    }

    /// The files of the spool directory to read for a payload, out of all that it holds.
    pub fn spooled_names(&self, payload_id: &str, names: &Vec<String>) -> (found: Vec<String>)
        ensures
            text::names_view(found@) == text::names_view(names@).filter(
                |name: Seq<char>| names_chunk_of(payload_id@, name),
            ),
    {
        let ghost wanted = |name: Seq<char>| names_chunk_of(payload_id@, name);
        let ghost all = text::names_view(names@);
        let mut prefix = payload_id.to_owned();
        prefix.append("_");
        let mut found: Vec<String> = Vec::new();
        let mut i: usize = 0;
        proof {
            reveal(Seq::filter);
            assert(text::names_view(found@) =~= all.take(0).filter(wanted));
        }
        while i < names.len()
            invariant
                i <= names@.len(),
                prefix@ == payload_id@ + "_"@,
                all == text::names_view(names@),
                wanted == (|name: Seq<char>| names_chunk_of(payload_id@, name)),
                text::names_view(found@) == all.take(i as int).filter(wanted),
            decreases names@.len() - i,
        {
            let ghost before = found@;
            let name = names[i].as_str();
            if text::starts_with(name, prefix.as_str()) && text::ends_with(name, ".chunk") {
                found.push(names[i].clone());
                assert(text::names_view(found@) =~= text::names_view(before).push(all[i as int]));
            }
            proof {
                reveal(Seq::filter);
                assert(all.take(i + 1).drop_last() =~= all.take(i as int));
            }
            i += 1;
        }
        assert(all.take(all.len() as int) =~= all);
        found
    }

    /// The chunks of a payload out of those that were read from the spool, by sequence number.
    pub fn load_spooled(&self, payload_id: &str, read: Vec<DtnChunk>) -> (chunks: Vec<DtnChunk>)
        ensures
            sorting::stably_sorted(
                chunks@,
                read@.filter(|c: DtnChunk| c.payload_id@ == payload_id@),
            ),
    {
        let wanted_id = payload_id.to_owned();
        let ghost mine = |c: DtnChunk| c.payload_id@ == payload_id@;
        let ghost all = read@;
        let mut own: Vec<DtnChunk> = Vec::new();
        proof {
            reveal(Seq::filter);
            assert(own@ =~= all.take(0).filter(mine));
        }
        for chunk in iter: read
            invariant
                wanted_id@ == payload_id@,
                iter.seq() == all,
                mine == (|c: DtnChunk| c.payload_id@ == payload_id@),
                own@ == all.take(iter.index() as int).filter(mine),
        {
            proof {
                reveal(Seq::filter);
                assert(all.take(iter.index() + 1).drop_last() =~= all.take(iter.index() as int));
            }
            if chunk.payload_id == wanted_id {
                own.push(chunk);
            }
        }
        assert(all.take(all.len() as int) =~= all);
        sorting::stable_sort(own)
    }

    /// How many chunks wait in the spool, out of all files that its directory holds.
    pub fn chunks_pending(&self, names: &Vec<String>) -> (count: u64)
        ensures
            count == text::count_with_suffix(text::names_view(names@), ".chunk"@),
    {
        text::count_suffix(names, ".chunk")
    }

    /// The file of the spool directory to remove after a chunk's ACK.
    pub fn remove_spooled(&self, payload_id: &str, sequence: u64) -> (name: String)
        ensures
            name@ == spool_name(payload_id@, sequence),
    {
        write_spool_name(payload_id, sequence)
    }
}

/// Two chunks share a spool file only when they are the same chunk of the same payload.
pub proof fn law_spool_names_are_distinct(
    id_a: Seq<char>,
    sequence_a: u64,
    id_b: Seq<char>,
    sequence_b: u64,
)
    requires
        spool_name(id_a, sequence_a) == spool_name(id_b, sequence_b),
    ensures
        id_a == id_b,
        sequence_a == sequence_b,
{
    reveal_strlit("_");
    reveal_strlit(".chunk");
    let a = text::padded_decimal(sequence_a as nat, 6);
    let b = text::padded_decimal(sequence_b as nat, 6);
    text::lemma_padded_denotes(sequence_a as nat, 6);
    text::lemma_padded_denotes(sequence_b as nat, 6);
    let name = spool_name(id_a, sequence_a);
    let stem = name.len() - 6;
    if a.len() < b.len() {
        assert(name[stem - a.len() - 1] == '_');
        assert(name[stem - a.len() - 1] == b[b.len() - a.len() - 1]);
    } else if b.len() < a.len() {
        assert(name[stem - b.len() - 1] == '_');
        assert(name[stem - b.len() - 1] == a[a.len() - b.len() - 1]);
    }
    assert(name.subrange(stem - a.len(), stem) =~= a);
    assert(name.subrange(stem - b.len(), stem) =~= b);
    assert(name.take(stem - a.len() - 1) =~= id_a);
    assert(name.take(stem - b.len() - 1) =~= id_b);
}

/// The file that a chunk is spooled to is among those that are read for its payload.
pub proof fn law_spooled_chunk_is_found(payload_id: Seq<char>, sequence: u64)
    ensures
        names_chunk_of(payload_id, spool_name(payload_id, sequence)),
{
    let name = spool_name(payload_id, sequence);
    assert(name.take((payload_id + "_"@).len() as int) =~= payload_id + "_"@);
    assert(name.skip(name.len() - ".chunk"@.len()) =~= ".chunk"@);
}

/// Equal multisets stay equal when every item is mapped.
proof fn lemma_mapped_multiset<A, B>(x: Seq<A>, y: Seq<A>, f: spec_fn(A) -> B)
    requires
        x.to_multiset() == y.to_multiset(),
    ensures
        x.map_values(f).to_multiset() == y.map_values(f).to_multiset(),
    decreases x.len(),
{
    broadcast use vstd::seq_lib::group_to_multiset_ensures;
    assert(x.len() == x.to_multiset().len() && y.len() == y.to_multiset().len());
    if x.len() == 0 {
        assert(x.map_values(f) =~= y.map_values(f));
    } else {
        let a = x.last();
        assert(x.contains(a));
        assert(y.to_multiset().count(a) > 0);
        assert(y.contains(a));
        let j = choose|j: int| 0 <= j < y.len() && y[j] == a;
        let rest = x.drop_last();
        assert(rest =~= x.remove(x.len() - 1));
        lemma_mapped_multiset(rest, y.remove(j), f);
        assert(x.map_values(f).remove(x.len() - 1) =~= rest.map_values(f));
        assert(y.map_values(f).remove(j) =~= y.remove(j).map_values(f));
        let mx = x.map_values(f);
        let my = y.map_values(f);
        assert(mx.contains(mx[x.len() - 1]));
        assert(my.contains(my[j]));
        assert(mx.to_multiset() =~= mx.remove(x.len() - 1).to_multiset().insert(f(a)));
        assert(my.to_multiset() =~= my.remove(j).to_multiset().insert(f(a)));
    }
}

/// A transfer that was interrupted resumes where it stood: whatever the order in which a
/// payload's chunks come out of the spool, also among chunks of other payloads, loading them
/// gives the payload's chunks in their order, and with them the payload.
pub proof fn law_spool_restores_the_payload(
    payload_id: Seq<char>,
    data: Seq<u8>,
    size: int,
    now: Timestamp,
    read: Seq<DtnChunk>,
    loaded: Seq<DtnChunk>,
)
    requires
        0 < size,
        data.len() <= u64::MAX,
        chunk_views(read.filter(|c: DtnChunk| c.payload_id@ == payload_id)).to_multiset()
            == chunked(payload_id, data, size, now).to_multiset(),
        sorting::stably_sorted(loaded, read.filter(|c: DtnChunk| c.payload_id@ == payload_id)),
    ensures
        chunk_views(loaded) == chunked(payload_id, data, size, now),
        joined(chunk_views(loaded)) == data,
{
    broadcast use vstd::seq_lib::group_to_multiset_ensures;

    let own = read.filter(|c: DtnChunk| c.payload_id@ == payload_id);
    let sent = chunked(payload_id, data, size, now);
    let got = chunk_views(loaded);
    lemma_mapped_multiset(loaded, own, |c: DtnChunk| c@);
    assert(got.to_multiset() == sent.to_multiset());
    let number = |c: ChunkView| c.sequence as int;
    lemma_mapped_multiset(got, sent, number);
    let leq = |a: int, b: int| a <= b;
    let got_numbers = got.map_values(number);
    let sent_numbers = sent.map_values(number);
    assert forall|i: int| 0 <= i < sent.len() implies sent_numbers[i] == i by {
        lemma_chunk_starts_inside(data.len() as int, size, i);
        assert(i <= i * size) by (nonlinear_arith)
            requires
                i >= 0,
                size >= 1,
        ;
    }
    assert forall|i: int, j: int| 0 <= i < j < got_numbers.len() implies #[trigger] leq(
        got_numbers[i],
        got_numbers[j],
    ) by {
        assert(loaded[i].key() <= loaded[j].key());
    }
    assert(vstd::relations::sorted_by(got_numbers, leq));
    assert(vstd::relations::sorted_by(sent_numbers, leq));
    assert(vstd::relations::total_ordering(leq));
    vstd::seq_lib::lemma_sorted_unique(got_numbers, sent_numbers, leq);
    assert forall|i: int| 0 <= i < sent.len() implies got[i] == sent[i] by {
        assert(got.contains(got[i]));
        assert(got.to_multiset().count(got[i]) > 0);
        assert(sent.contains(got[i]));
        let k = choose|k: int| 0 <= k < sent.len() && sent[k] == got[i];
        assert(sent_numbers[k] == k);
        assert(got_numbers[i] == sent_numbers[i]);
    }
    assert(got =~= sent);
    law_chunks_rejoin(payload_id, data, size, now);
}

/// DTN session configuration.
#[derive(Clone, Debug)]
pub struct DtnConfig {
    /// Zenoh endpoint (e.g. "tcp/127.0.0.1:7447").
    pub endpoint: String,
    /// Chunk size in bytes (default: 1 MB).
    pub chunk_size: usize,
    /// Spool directory for interrupted transfers.
    pub spool_dir: String,
}

/// The chunk size that a text sets: the number that it denotes, or the default.
pub open spec fn configured_chunk_size(value: Option<Seq<char>>) -> usize {
    match value {
        Some(text) => match text::parsed_usize(text) {
            Some(size) => size,
            None => DEFAULT_CHUNK_SIZE,
        },
        None => DEFAULT_CHUNK_SIZE,
    }
}

impl DtnConfig {
    /// Makes the configuration of the values that the environment variables have: the ground
    /// station's endpoint and the chunk size, both with defaults.
    pub fn from_env(endpoint: Option<String>, chunk_size: Option<String>) -> (config: DtnConfig)
        ensures
            config.endpoint@ == text::set_or(text::opt_view(endpoint), DEFAULT_ENDPOINT@),
            config.chunk_size == configured_chunk_size(text::opt_view(chunk_size)),
            config.spool_dir@ == SPOOL_DIR@,
    {
        let size: usize = match chunk_size {
            Some(value) => match text::parse_usize(value.as_str()) {
                Some(size) => size,
                None => DEFAULT_CHUNK_SIZE,
            },
            None => DEFAULT_CHUNK_SIZE,
        };
        DtnConfig {
            endpoint: text::value_or(endpoint, DEFAULT_ENDPOINT),
            chunk_size: size,
            spool_dir: SPOOL_DIR.to_owned(),
        }
    }
}

/// State broadcast payload (sent every 500 ms to mission control).
#[derive(Clone, Debug)]
pub struct SystemStateBroadcast {
    /// Current virtual epoch timestamp.
    pub epoch: Timestamp,
    /// Number of entries in the priority queue.
    pub queue_depth: usize,
    /// Number of sealed files in the vault.
    pub vault_sealed_count: u64,
    /// Current state of charge (battery simulation percentage).
    pub soc_percent: Double,
    /// Current power state.
    pub power_state: String,
    /// Active anomalies.
    pub active_anomalies: u32,
    /// DTN link status.
    pub dtn_link_active: bool,
    /// Chunks pending transmission.
    pub chunks_pending: u64,
    /// USB primary utilization percentage.
    pub usb_primary_util: Double,
    /// USB mirror utilization percentage.
    pub usb_mirror_util: Double,
}

/// Every chunk announces how many there are, and is numbered by its place: its sequence is its
/// index, below the total that it announces, which is the number of chunks. It carries the id of
/// the payload, the time, its own bytes of the data and nothing else, and their hash.
pub proof fn law_every_chunk_announces_how_many(
    payload_id: Seq<char>,
    data: Seq<u8>,
    size: int,
    now: Timestamp,
    i: int,
)
    requires
        0 < size,
        data.len() <= u64::MAX,
        0 <= i < chunked(payload_id, data, size, now).len(),
    ensures
        ({
            let chunks = chunked(payload_id, data, size, now);
            &&& chunks[i].total_chunks == chunks.len()
            &&& chunks[i].sequence == i
            &&& chunks[i].sequence < chunks[i].total_chunks
            &&& chunks[i].payload_id == payload_id
            &&& chunks[i].created_at == now
            &&& chunks[i].chunk_hash == hexcode::hex_text(sealing::sha256(chunks[i].data))
            &&& i * size + chunks[i].data.len() <= data.len()
            &&& chunks[i].data == data.subrange(i * size, i * size + chunks[i].data.len())
            &&& chunks[i].data.len() == size || i == chunks.len() - 1
        }),
{
    let len = data.len() as int;
    lemma_chunk_count(len, size);
    lemma_chunk_starts_inside(len, size, i);
    lemma_chunk_starts_inside(len, size, i + 1);
    assert((i + 1) * size == i * size + size) by (nonlinear_arith);
    assert(0 <= i * size) by (nonlinear_arith)
        requires
            0 <= i,
            0 < size,
    ;
    let bytes = chunk_bytes(data, size, i);
    assert(bytes =~= data.subrange(i * size, i * size + bytes.len()));
}

/// There are as many chunks as it takes: they reach the end of the data, and one fewer would not.
pub proof fn law_chunks_are_as_many_as_needed(
    payload_id: Seq<char>,
    data: Seq<u8>,
    size: int,
    now: Timestamp,
)
    requires
        0 < size,
    ensures
        ({
            let count = chunked(payload_id, data, size, now).len() as int;
            &&& data.len() <= count * size
            &&& count > 0 ==> (count - 1) * size < data.len()
            &&& data.len() == 0 ==> count == 0
        }),
{
    let len = data.len() as int;
    let count = chunk_count(len, size);
    lemma_chunk_count(len, size);
    assert(count >= 0) by (nonlinear_arith)
        requires
            0 < size,
            0 <= len,
            count == (len + size - 1) / size,
    ;
    lemma_chunk_starts_inside(len, size, count);
    if count > 0 {
        lemma_chunk_starts_inside(len, size, count - 1);
    }
}

/// Whatever chunks a call of `chunk_payload_at` gives: each announces their number and its own
/// place among them, carries the id, the time and the hash of its bytes, and their bytes in turn
/// are the data.
pub proof fn law_chunking_describes_the_payload(
    payload_id: &str,
    data: &[u8],
    chunk_size: usize,
    now: Timestamp,
    chunks: Vec<DtnChunk>,
)
    requires
        0 < chunk_size,
        call_ensures(chunk_payload_at, (payload_id, data, chunk_size, now), chunks),
    ensures
        forall|i: int|
            0 <= i < chunks@.len() ==> {
                let chunk = #[trigger] chunks@[i];
                &&& chunk.total_chunks == chunks@.len()
                &&& chunk.sequence == i
                &&& chunk.payload_id@ == payload_id@
                &&& chunk.created_at == now
                &&& chunk.chunk_hash@ == hexcode::hex_text(sealing::sha256(chunk.data@))
                &&& chunk.data@.len() <= chunk_size
                &&& chunk.data@ == data@.subrange(
                    i * chunk_size,
                    i * chunk_size + chunk.data@.len(),
                )
            },
        joined(chunk_views(chunks@)) == data@,
        data@.len() <= chunks@.len() * chunk_size,
        chunks@.len() > 0 ==> (chunks@.len() - 1) * chunk_size < data@.len(),
{
    let all = chunked(payload_id@, data@, chunk_size as int, now);
    assert(chunk_views(chunks@).len() == chunks@.len());
    assert(data.len() == data@.len());
    assert forall|i: int| 0 <= i < chunks@.len() implies {
        let chunk = #[trigger] chunks@[i];
        &&& chunk.total_chunks == chunks@.len()
        &&& chunk.sequence == i
        &&& chunk.payload_id@ == payload_id@
        &&& chunk.created_at == now
        &&& chunk.chunk_hash@ == hexcode::hex_text(sealing::sha256(chunk.data@))
        &&& chunk.data@.len() <= chunk_size
        &&& chunk.data@ == data@.subrange(i * chunk_size, i * chunk_size + chunk.data@.len())
    } by {
        assert(chunk_views(chunks@)[i] == chunks@[i]@);
        assert(all[i] == chunks@[i]@);
        law_every_chunk_announces_how_many(payload_id@, data@, chunk_size as int, now, i);
        law_chunks_are_uniform(payload_id@, data@, chunk_size as int, now, i);
    }
    law_chunks_rejoin(payload_id@, data@, chunk_size as int, now);
    law_chunks_are_as_many_as_needed(payload_id@, data@, chunk_size as int, now);
}

/// An acknowledgement counts exactly if it names the payload, the sequence and the hash of the
/// chunk, all three.
pub proof fn law_ack_needs_all_three(chunk: &DtnChunk, ack: &DtnAck, valid: bool)
    requires
        call_ensures(verify_ack, (chunk, ack), valid),
    ensures
        valid <==> ack.payload_id@ == chunk.payload_id@ && ack.sequence == chunk.sequence
            && ack.received_hash@ == chunk.chunk_hash@,
{
}

/// The name of a spooled chunk is the id, an underscore, the sequence in at least six digits, and
/// `.chunk`: the digits denote the sequence, whatever it is.
pub proof fn law_spool_names_tell_id_and_sequence(payload_id: Seq<char>, sequence: u64)
    ensures
        ({
            let name = spool_name(payload_id, sequence);
            let digits = name.subrange(
                payload_id.len() as int + "_"@.len(),
                name.len() - ".chunk"@.len(),
            );
            &&& text::has_prefix(name, payload_id + "_"@)
            &&& text::has_suffix(name, ".chunk"@)
            &&& text::all_digits(digits)
            &&& text::digits_value(digits) == sequence
            &&& digits.len() >= 6
            &&& digits.len() > 6 ==> digits[0] != '0'
        }),
{
    let name = spool_name(payload_id, sequence);
    let head = payload_id + "_"@;
    let digits = text::padded_decimal(sequence as nat, 6);
    assert(name.take(head.len() as int) =~= head);
    assert(name.skip(name.len() - ".chunk"@.len()) =~= ".chunk"@);
    assert(name.subrange(head.len() as int, name.len() - ".chunk"@.len()) =~= digits);
    text::law_decimals_denote_their_number(sequence as nat, 6);
    if digits.len() > 6 {
        assert(digits == text::decimal(sequence as nat));
        assert(sequence > 0);
    }
}

/// A spool name belongs to a payload exactly if it starts with the id and an underscore and ends
/// in `.chunk`.
pub proof fn law_spool_names_belong_to_one_id(payload_id: Seq<char>, name: Seq<char>)
    ensures
        names_chunk_of(payload_id, name) <==> text::has_prefix(name, payload_id + "_"@)
            && text::has_suffix(name, ".chunk"@),
{
}

/// Loading the spool gives the chunks of the payload that were read, all of them and no others,
/// by ascending sequence.
pub proof fn law_loading_keeps_every_chunk_of_the_payload(
    spool: &SpoolManager,
    payload_id: &str,
    read: Vec<DtnChunk>,
    chunks: Vec<DtnChunk>,
    chunk: DtnChunk,
)
    requires
        call_ensures(SpoolManager::load_spooled, (spool, payload_id, read), chunks),
    ensures
        chunks@.contains(chunk) <==> read@.contains(chunk) && chunk.payload_id@ == payload_id@,
        forall|i: int, j: int|
            0 <= i <= j < chunks@.len() ==> (#[trigger] chunks@[i]).sequence <= (
            #[trigger] chunks@[j]).sequence,
        chunks@.len() <= read@.len(),
{
    broadcast use vstd::seq_lib::group_to_multiset_ensures;

    let wanted = |c: DtnChunk| c.payload_id@ == payload_id@;
    let kept = read@.filter(wanted);
    assert(chunks@.to_multiset() == kept.to_multiset());
    assert(chunks@.to_multiset().count(chunk) == kept.to_multiset().count(chunk));
    assert(chunks@.contains(chunk) <==> kept.contains(chunk));
    assert(chunks@.to_multiset().len() == kept.to_multiset().len());
    read@.lemma_filter_len(wanted);
    if kept.contains(chunk) {
        read@.lemma_filter_contains_rev(wanted, chunk);
        let i = kept.index_of(chunk);
        read@.lemma_filter_pred(wanted, i);
    }
    if read@.contains(chunk) && chunk.payload_id@ == payload_id@ {
        let i = choose|i: int| 0 <= i < read@.len() && read@[i] == chunk;
        read@.lemma_filter_contains(wanted, i);
    }
    assert forall|i: int, j: int| 0 <= i <= j < chunks@.len() implies (
    #[trigger] chunks@[i]).sequence <= (#[trigger] chunks@[j]).sequence by {
        assert(chunks@[i].key() <= chunks@[j].key());
    }
}

/// The configuration takes what is set: an endpoint as it is, and every chunk size that is
/// written in digits and fits. What is not set, and a chunk size that does not parse, has the
/// default. The spool is always in the same place.
pub proof fn law_dtn_configuration_takes_what_is_set(
    endpoint: Option<String>,
    chunk_size: Option<String>,
    config: DtnConfig,
    n: usize,
)
    requires
        call_ensures(DtnConfig::from_env, (endpoint, chunk_size), config),
    ensures
        endpoint matches Some(text) ==> config.endpoint@ == text@,
        endpoint is None ==> config.endpoint@ == "tcp/127.0.0.1:7447"@,
        chunk_size matches Some(text) && text@ == text::decimal(n as nat) ==> config.chunk_size
            == n,
        chunk_size matches Some(text) && text::parsed_usize(text@) is None ==> config.chunk_size
            == 1_048_576,
        chunk_size is None ==> config.chunk_size == 1_048_576,
        config.spool_dir@ == "/var/lib/spaceorb/spool"@,
{
    text::law_parsing_reads_what_was_written(n, Seq::empty());
}

/// The pending count goes up by one with a name that ends in `.chunk` and stays with any other.
pub proof fn law_pending_count_counts_chunk_names(
    spool: &SpoolManager,
    names: &Vec<String>,
    more: &Vec<String>,
    count: u64,
    count_more: u64,
)
    requires
        more@.len() == names@.len() + 1,
        more@.take(names@.len() as int) == names@,
        call_ensures(SpoolManager::chunks_pending, (spool, names), count),
        call_ensures(SpoolManager::chunks_pending, (spool, more), count_more),
    ensures
        text::has_suffix(more@.last()@, ".chunk"@) ==> count_more == count + 1,
        !text::has_suffix(more@.last()@, ".chunk"@) ==> count_more == count,
        names@.len() == 0 ==> count == 0,
{
    text::lemma_count_grows(names@, more@, ".chunk"@);
}

} // verus!
