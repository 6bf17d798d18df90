//! Media assets resolved from HPPR packets: the kind of asset and the byte
//! source of a blob held in memory.

use vstd::prelude::*;

use crate::media_asset::{clamp_byte_range, clamped_range, MediaByteSource};

verus! {

/// How an HPPR media asset is stored: one blob, or a manifest of chunks.
#[derive(Clone, Copy, Debug, PartialEq, Eq)]
pub enum HpprResolvedMediaKind {
    Blob,
    ChunkManifest,
}

/// A byte source over bytes held in memory.
pub struct InMemoryByteSource {
    bytes: Vec<u8>,
}

/// The bytes that a read of `len` bytes from `start` gives from `bytes`:
/// the clamped range, or nothing.
pub open spec fn in_memory_read(bytes: Seq<u8>, start: u64, len: usize) -> Seq<u8> {
    match clamped_range(bytes.len() as u64, start, len) {
        Some((s, e)) => bytes.subrange(s as int, e as int),
        None => Seq::empty(),
    }
}

/// An in-memory read is clamped to the bytes held: it gives at most `len`
/// bytes, exactly as many as lie between `start` and the end when that is
/// fewer, and none when `start` is at or past the end.
pub proof fn lemma_in_memory_read_clamps(bytes: Seq<u8>, start: u64, len: usize)
    requires
        bytes.len() <= u64::MAX,
    ensures
        start >= bytes.len() ==> in_memory_read(bytes, start, len).len() == 0,
        start < bytes.len() && start + len <= bytes.len() ==> in_memory_read(bytes, start, len) == bytes.subrange(
            start as int,
            start + len,
        ),
        start < bytes.len() && start + len > bytes.len() ==> in_memory_read(bytes, start, len) == bytes.subrange(
            start as int,
            bytes.len() as int,
        ),
{
}

impl InMemoryByteSource {
    /// The bytes held.
    pub closed spec fn spec_bytes(&self) -> Seq<u8> {
        self.bytes@
    }

    pub fn new(bytes: Vec<u8>) -> (r: Self)
        ensures
            r.spec_bytes() == bytes@,
    {
        Self { bytes }
    }
}

impl MediaByteSource for InMemoryByteSource {
    /// Reads the clamped range; a read past the end gives no bytes.
    fn read_range(&self, start: u64, len: usize) -> (r: Result<Vec<u8>, String>)
        ensures
            r matches Ok(v) && v@ == in_memory_read(self.spec_bytes(), start, len),
    {
        let (start, end) = match clamp_byte_range(self.bytes.len() as u64, start, len) {
            Some(range) => range,
            None => {
                return Ok(Vec::new());
            },
        };
        let mut out: Vec<u8> = Vec::new();
        let mut i: usize = start as usize;
        while i < end as usize
            invariant
                start <= i <= end <= self.bytes.len(),
                out@ == self.bytes@.subrange(start as int, i as int),
            decreases end - i,
        {
            out.push(self.bytes[i]);
            assert(self.bytes@.subrange(start as int, i + 1) =~= self.bytes@.subrange(start as int, i as int).push(self.bytes@[i as int]));
            i = i + 1;
        }
        Ok(out)
    }
}

/// The message of a chunk lookup that gives no readable byte.
pub open spec fn empty_range_message() -> Seq<char> {
    "chunk loader returned an empty readable range"@
}

/// Whether `fetch_at` may return `res` for the stream position `cursor`: a
/// chunk and the offset of `cursor` within it, or an error.
pub open spec fn may_fetch<F: Fn(u64) -> Result<(Vec<u8>, usize), String>>(
    fetch_at: &F,
    cursor: u64,
    res: Result<(Vec<u8>, usize), String>,
) -> bool {
    call_ensures(*fetch_at, (cursor,), res)
}

/// A result of a chunk lookup, by view.
pub open spec fn result_view(r: Result<Vec<u8>, String>) -> Result<Seq<u8>, Seq<char>> {
    match r {
        Ok(v) => Ok(v@),
        Err(m) => Err(m@),
    }
}

/// How many bytes a chunk gives from offset `off` toward `end`, reading at
/// `cursor`: the bytes left in the chunk, at most `end - cursor`.
pub open spec fn take_len(cursor: int, end: int, chunk_len: int, off: int) -> int {
    let available = if chunk_len >= off {
        chunk_len - off
    } else {
        0
    };
    if end - cursor <= available {
        end - cursor
    } else {
        available
    }
}

/// What one lookup at `cursor` contributes to a read that ends at `end`: a
/// lookup error is passed on; a chunk gives its bytes from the offset, as
/// many as `take_len` allows, and none at all is the empty-range error.
pub open spec fn chunk_step(cursor: int, end: int, fetched: Result<(Vec<u8>, usize), String>) -> Result<Seq<u8>, Seq<char>> {
    match fetched {
        Err(e) => Err(e@),
        Ok((chunk, off)) => {
            let t = take_len(cursor, end, chunk@.len() as int, off as int);
            if t == 0 {
                Err(empty_range_message())
            } else {
                Ok(chunk@.subrange(off as int, off + t))
            }
        },
    }
}

/// The bytes that one lookup contributes to a read at `cursor` that ends at
/// `end` (see `chunk_step`).
pub fn chunk_take(cursor: u64, end: u64, fetched: Result<(Vec<u8>, usize), String>) -> (r: Result<Vec<u8>, String>)
    requires
        cursor < end,
    ensures
        result_view(r) == chunk_step(cursor as int, end as int, fetched),
{
    let (chunk, offset_in_chunk) = match fetched {
        Ok(found) => found,
        Err(e) => {
            return Err(e);
        },
    };
    let remaining = end - cursor;
    let available = chunk.len().saturating_sub(offset_in_chunk);
    let take: usize = if remaining <= available as u64 {
        remaining as usize
    } else {
        available
    };
    if take == 0 {
        let message = "chunk loader returned an empty readable range";
        proof {
            reveal_strlit("chunk loader returned an empty readable range");
        }
        return Err(message.to_string());
    }
    let mut out: Vec<u8> = Vec::new();
    let mut k: usize = 0;
    while k < take
        invariant
            k <= take,
            offset_in_chunk + take <= chunk.len(),
            out@ == chunk@.subrange(offset_in_chunk as int, offset_in_chunk + k),
        decreases take - k,
    {
        out.push(chunk[offset_in_chunk + k]);
        k = k + 1;
        assert(out@ =~= chunk@.subrange(offset_in_chunk as int, offset_in_chunk + k));
    }
    Ok(out)
}

/// One lookup of a chunked read: where it was made, and what it gave.
pub struct ChunkLookup {
    pub cursor: int,
    pub fetched: Result<(Vec<u8>, usize), String>,
}

/// The bytes that the first `n` lookups of a trace contribute, in order.
pub open spec fn trace_bytes(trace: Seq<ChunkLookup>, end: int, n: int) -> Seq<u8>
    decreases n,
{
    if n <= 0 {
        Seq::empty()
    } else {
        trace_bytes(trace, end, n - 1) + match chunk_step(trace[n - 1].cursor, end, trace[n - 1].fetched) {
            Ok(b) => b,
            Err(_) => Seq::empty(),
        }
    }
}

/// Whether `trace` is a possible run of the lookups of a read of
/// `start..end`: the first lookup is at `start`, each one gives what
/// `fetch_at` may give there, every lookup but the last gives bytes and the
/// next one is made where they end, and the last one either fails or
/// reaches `end`.
pub open spec fn lookups_of_read<F: Fn(u64) -> Result<(Vec<u8>, usize), String>>(
    fetch_at: &F,
    start: int,
    end: int,
    trace: Seq<ChunkLookup>,
) -> bool {
    &&& trace.len() >= 1
    &&& trace[0].cursor == start
    &&& forall|k: int| 0 <= k < trace.len() ==> 0 <= (#[trigger] trace[k]).cursor < end && may_fetch(
        fetch_at,
        trace[k].cursor as u64,
        trace[k].fetched,
    )
    &&& forall|k: int| 0 <= k < trace.len() - 1 ==> (#[trigger] chunk_step(trace[k].cursor, end, trace[k].fetched)) is Ok
    &&& forall|k: int| 1 <= k < trace.len() ==> (#[trigger] trace[k]).cursor == start + trace_bytes(trace, end, k).len()
    &&& match chunk_step(trace.last().cursor, end, trace.last().fetched) {
        Ok(b) => start + trace_bytes(trace, end, trace.len() as int).len() == end,
        Err(_) => true,
    }
}

/// What a read that made the lookups of `trace` gives: the last lookup's
/// error, if it failed; otherwise the bytes of all the lookups.
pub open spec fn read_outcome(trace: Seq<ChunkLookup>, end: int) -> Result<Seq<u8>, Seq<char>> {
    match chunk_step(trace.last().cursor, end, trace.last().fetched) {
        Err(m) => Err(m),
        Ok(_) => Ok(trace_bytes(trace, end, trace.len() as int)),
    }
}

/// Reads `len` bytes from `start` of a stream of `total_length` bytes that
/// is stored in chunks, clamped to the stream: `fetch_at(cursor)` gives the
/// chunk holding position `cursor` and the offset of `cursor` in it.
///
/// A read that covers nothing gives no bytes and looks nothing up.
/// Otherwise the first lookup is at the clamped start, and each lookup
/// contributes what `chunk_take` gives: its error ends the read, and its
/// bytes move the next lookup to where they end, until the clamped end.
pub fn read_chunked_range<F: Fn(u64) -> Result<(Vec<u8>, usize), String>>(
    total_length: u64,
    start: u64,
    len: usize,
    fetch_at: &F,
) -> (r: Result<Vec<u8>, String>)
    requires
        forall|c: u64| #[trigger] call_requires(*fetch_at, (c,)),
    ensures
        clamped_range(total_length, start, len) is None ==> (r matches Ok(v) && v@.len() == 0),
        clamped_range(total_length, start, len) matches Some((s, e)) ==> exists|trace: Seq<ChunkLookup>|
            #[trigger] lookups_of_read(fetch_at, s as int, e as int, trace) && result_view(r) == read_outcome(trace, e as int),
{
    let (lo, end) = match clamp_byte_range(total_length, start, len) {
        Some(range) => range,
        None => {
            return Ok(Vec::new());
        },
    };
    let mut cursor = lo;
    let mut out: Vec<u8> = Vec::new();
    let ghost mut trace: Seq<ChunkLookup> = Seq::empty();
    while cursor < end
        invariant
            clamped_range(total_length, start, len) == Some((lo, end)),
            lo < end,
            lo <= cursor <= end,
            forall|c: u64| #[trigger] call_requires(*fetch_at, (c,)),
            out@ == trace_bytes(trace, end as int, trace.len() as int),
            cursor == lo + out@.len(),
            trace.len() == 0 ==> cursor == lo,
            trace.len() > 0 ==> trace[0].cursor == lo,
            forall|k: int| 0 <= k < trace.len() ==> 0 <= (#[trigger] trace[k]).cursor < end && may_fetch(
                fetch_at,
                trace[k].cursor as u64,
                trace[k].fetched,
            ),
            forall|k: int| 0 <= k < trace.len() ==> (#[trigger] chunk_step(trace[k].cursor, end as int, trace[k].fetched)) is Ok,
            forall|k: int| 1 <= k < trace.len() ==> (#[trigger] trace[k]).cursor == lo + trace_bytes(trace, end as int, k).len(),
        decreases end - cursor,
    {
        let fetched = fetch_at(cursor);
        let ghost entry = ChunkLookup { cursor: cursor as int, fetched };
        let ghost t2 = trace.push(entry);
        proof {
            assert(may_fetch(fetch_at, cursor, fetched));
            lemma_trace_bytes_prefix(trace, t2, end as int);
        }
        let step = chunk_take(cursor, end, fetched);
        match step {
            Err(err) => {
                proof {
                    assert(t2.last() == entry);
                    assert(t2[0].cursor == lo);
                    assert forall|k: int| 1 <= k < t2.len() implies (#[trigger] t2[k]).cursor == lo + trace_bytes(t2, end as int, k).len() by {
                        if k < trace.len() {
                            assert(t2[k] == trace[k]);
                        }
                    }
                    assert(lookups_of_read(fetch_at, lo as int, end as int, t2));
                    assert(chunk_step(t2.last().cursor, end as int, t2.last().fetched) == result_view(Err(err)));
                    assert(read_outcome(t2, end as int) == result_view(Err(err)));
                    let cr = clamped_range(total_length, start, len)->0;
                    assert(cr.0 == lo && cr.1 == end);
                    assert(lookups_of_read(fetch_at, cr.0 as int, cr.1 as int, t2));
                }
                return Err(err);
            },
            Ok(bytes) => {
                let ghost before = out@;
                let mut k: usize = 0;
                while k < bytes.len()
                    invariant
                        k <= bytes.len(),
                        out@ == before + bytes@.subrange(0, k as int),
                    decreases bytes.len() - k,
                {
                    out.push(bytes[k]);
                    k = k + 1;
                    assert(out@ =~= before + bytes@.subrange(0, k as int));
                }
                proof {
                    assert(bytes@.subrange(0, bytes.len() as int) =~= bytes@);
                    assert(t2[t2.len() - 1] == entry);
                    assert(trace_bytes(t2, end as int, trace.len() as int) == trace_bytes(trace, end as int, trace.len() as int));
                    assert(chunk_step(entry.cursor, end as int, entry.fetched) == Ok::<Seq<u8>, Seq<char>>(bytes@));
                    assert(trace_bytes(t2, end as int, t2.len() as int) == trace_bytes(t2, end as int, trace.len() as int) + bytes@);
                    assert(out@ == trace_bytes(t2, end as int, t2.len() as int));
                    assert forall|k: int| 1 <= k < t2.len() implies (#[trigger] t2[k]).cursor == lo + trace_bytes(t2, end as int, k).len() by {
                        if k < trace.len() {
                            assert(t2[k] == trace[k]);
                        } else {
                            assert(t2[k] == entry);
                        }
                    }
                    assert forall|k: int| 0 <= k < t2.len() implies (#[trigger] chunk_step(t2[k].cursor, end as int, t2[k].fetched)) is Ok by {
                        if k < trace.len() {
                            assert(t2[k] == trace[k]);
                        }
                    }
                    assert forall|k: int| 0 <= k < t2.len() implies 0 <= (#[trigger] t2[k]).cursor < end && may_fetch(
                        fetch_at,
                        t2[k].cursor as u64,
                        t2[k].fetched,
                    ) by {
                        if k < trace.len() {
                            assert(t2[k] == trace[k]);
                        }
                    }
                    trace = t2;
                }
                cursor = cursor + bytes.len() as u64;
            },
        }
    }
    proof {
        assert(trace.len() > 0);
        assert(trace.last() == trace[trace.len() - 1]);
        assert(lookups_of_read(fetch_at, lo as int, end as int, trace));
    }
    Ok(out)
}

/// The bytes of the first lookups do not change when lookups are added
/// after them.
proof fn lemma_trace_bytes_prefix(trace: Seq<ChunkLookup>, longer: Seq<ChunkLookup>, end: int)
    requires
        trace.len() <= longer.len(),
        forall|k: int| 0 <= k < trace.len() ==> longer[k] == trace[k],
    ensures
        forall|n: int| 0 <= n <= trace.len() ==> #[trigger] trace_bytes(longer, end, n) == trace_bytes(trace, end, n),
{
    assert forall|n: int| 0 <= n <= trace.len() implies #[trigger] trace_bytes(longer, end, n) == trace_bytes(trace, end, n) by {
        lemma_trace_bytes_prefix_at(trace, longer, end, n);
    }
}

proof fn lemma_trace_bytes_prefix_at(trace: Seq<ChunkLookup>, longer: Seq<ChunkLookup>, end: int, n: int)
    requires
        0 <= n <= trace.len() <= longer.len(),
        forall|k: int| 0 <= k < trace.len() ==> longer[k] == trace[k],
    ensures
        trace_bytes(longer, end, n) == trace_bytes(trace, end, n),
    decreases n,
{
    if n > 0 {
        lemma_trace_bytes_prefix_at(trace, longer, end, n - 1);
    }
}

} // verus!
