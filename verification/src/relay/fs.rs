//! Chunks of a file on the bulk channel.
//!
//! A file travels in chunks of 64 KiB, the last one shorter. Each chunk is
//! sent as its offset in the file, eight little-endian bytes, followed by its
//! bytes, so that chunks may arrive in any order.

use vstd::prelude::*;

verus! {

/// Size of every chunk but the last.
pub const TCP_BUFFER_SIZE: u64 = 65536;

/// Which part of a file a chunk is.
#[derive(PartialEq, Eq, Structural, Clone, Copy, Debug)]
pub struct FileChunkInfo {
    pub chunk_size: usize,
    pub chunk_offset: usize,
}

/// Number of chunks of a file of `size` bytes: `size / 65536`, rounded up.
pub open spec fn chunks_of(size: int) -> int {
    if size <= 0 {
        0
    } else {
        (size + 65535) / 65536
    }
}

/// Offset of chunk `index`.
pub open spec fn offset_of(index: int) -> int {
    index * 65536
}

/// Length of chunk `index` of a file of `size` bytes.
pub open spec fn length_of(size: int, index: int) -> int {
    if offset_of(index) + 65536 > size {
        size - offset_of(index)
    } else {
        65536
    }
}

/// `n` as eight little-endian bytes.
pub open spec fn u64_le_bytes(n: u64) -> Seq<u8> {
    let r1 = n / 256;
    let r2 = r1 / 256;
    let r3 = r2 / 256;
    let r4 = r3 / 256;
    let r5 = r4 / 256;
    let r6 = r5 / 256;
    let r7 = r6 / 256;
    seq![
        (n % 256) as u8,
        (r1 % 256) as u8,
        (r2 % 256) as u8,
        (r3 % 256) as u8,
        (r4 % 256) as u8,
        (r5 % 256) as u8,
        (r6 % 256) as u8,
        (r7 % 256) as u8,
    ]
}

/// The number that eight little-endian bytes stand for.
pub open spec fn u64_from_le(b: Seq<u8>) -> int {
    b[0] + 256 * (b[1] + 256 * (b[2] + 256 * (b[3] + 256 * (b[4] + 256 * (b[5] + 256 * (b[6] + 256
        * b[7]))))))
}

/// The payload that carries the bytes `data` found at `offset`.
pub open spec fn chunk_payload_of(offset: u64, data: Seq<u8>) -> Seq<u8> {
    u64_le_bytes(offset) + data
}

/// Reading back the offset that was written gives the same number.
pub proof fn lemma_u64_le_round_trip(n: u64)
    ensures
        u64_le_bytes(n).len() == 8,
        u64_from_le(u64_le_bytes(n)) == n,
{
}

/// Number of chunks that the receiver awaits for a file declared with `size`
/// bytes; none for a size that is not positive.
pub fn expected_chunks(size: i64) -> (r: u64)
    ensures
        r == chunks_of(size as int),
{
    if size <= 0 {
        0
    } else {
        (size as u64 + 65535) / 65536
    }
}

/// Chunk `index` of a file of `file_size` bytes, or nothing behind the last
/// chunk.
pub fn chunk_at(file_size: u64, index: u64) -> (r: Option<FileChunkInfo>)
    requires
        file_size <= usize::MAX,
    ensures
        match r {
            Some(chunk) => {
                &&& 0 <= index < chunks_of(file_size as int)
                &&& chunk.chunk_offset == offset_of(index as int)
                &&& chunk.chunk_size == length_of(file_size as int, index as int)
                &&& 1 <= chunk.chunk_size <= 65536
                &&& chunk.chunk_offset + chunk.chunk_size <= file_size
            },
            None => index >= chunks_of(file_size as int),
        },
{
    if index > file_size / TCP_BUFFER_SIZE {
        return None;
    }
    let chunk_offset: u64 = index * TCP_BUFFER_SIZE;
    if chunk_offset >= file_size {
        return None;
    }
    let chunk_size: u64 = if file_size - chunk_offset < TCP_BUFFER_SIZE {
        file_size - chunk_offset
    } else {
        TCP_BUFFER_SIZE
    };
    Some(FileChunkInfo { chunk_size: chunk_size as usize, chunk_offset: chunk_offset as usize })
}

/// The chunks of a file lie end to end: each starts where the one before it
/// ends, the first at zero, and the last ends where the file ends.
pub proof fn lemma_chunks_tile(size: int, index: int)
    requires
        size > 0,
        0 <= index < chunks_of(size),
    ensures
        offset_of(0) == 0,
        length_of(size, index) >= 1,
        offset_of(index) + length_of(size, index) <= size,
        index + 1 < chunks_of(size) ==> offset_of(index) + length_of(size, index) == offset_of(
            index + 1,
        ),
        index + 1 == chunks_of(size) ==> offset_of(index) + length_of(size, index) == size,
{
}

/// The payload for the bytes `data` found at `offset`: the offset, then the
/// bytes.
pub fn chunk_payload(offset: u64, data: &[u8]) -> (r: Vec<u8>)
    ensures
        r@ == chunk_payload_of(offset, data@),
{
    let r1: u64 = offset / 256;
    let r2: u64 = r1 / 256;
    let r3: u64 = r2 / 256;
    let r4: u64 = r3 / 256;
    let r5: u64 = r4 / 256;
    let r6: u64 = r5 / 256;
    let r7: u64 = r6 / 256;
    let mut buffer: Vec<u8> = Vec::new();
    buffer.push((offset % 256) as u8);
    buffer.push((r1 % 256) as u8);
    buffer.push((r2 % 256) as u8);
    buffer.push((r3 % 256) as u8);
    buffer.push((r4 % 256) as u8);
    buffer.push((r5 % 256) as u8);
    buffer.push((r6 % 256) as u8);
    buffer.push((r7 % 256) as u8);
    proof {
        assert(buffer@ =~= u64_le_bytes(offset));
    }
    let ghost head = buffer@;
    let mut j: usize = 0;
    while j < data.len()
        invariant
            j <= data.len(),
            buffer@ == head + data@.take(j as int),
        decreases data.len() - j,
    {
        buffer.push(data[j]);
        proof {
            assert(buffer@ =~= head + data@.take(j + 1));
        }
        j = j + 1;
    }
    proof {
        assert(data@.take(data.len() as int) =~= data@);
    }
    buffer
}

/// The offset and the bytes that a payload carries, or nothing where the
/// payload is too short to hold an offset.
pub fn parse_chunk(payload: &[u8]) -> (r: Option<(u64, Vec<u8>)>)
    ensures
        match r {
            Some((offset, data)) => payload@.len() >= 8 && offset == u64_from_le(
                payload@.subrange(0, 8),
            ) && data@ == payload@.subrange(8, payload@.len() as int),
            None => payload@.len() < 8,
        },
{
    if payload.len() < 8 {
        return None;
    }
    let b0: u64 = payload[0] as u64;
    let b1: u64 = payload[1] as u64;
    let b2: u64 = payload[2] as u64;
    let b3: u64 = payload[3] as u64;
    let b4: u64 = payload[4] as u64;
    let b5: u64 = payload[5] as u64;
    let b6: u64 = payload[6] as u64;
    let b7: u64 = payload[7] as u64;
    let h6: u64 = b6 + 256 * b7;
    let h5: u64 = b5 + 256 * h6;
    let h4: u64 = b4 + 256 * h5;
    let h3: u64 = b3 + 256 * h4;
    let h2: u64 = b2 + 256 * h3;
    let h1: u64 = b1 + 256 * h2;
    let offset: u64 = b0 + 256 * h1;
    let mut data: Vec<u8> = Vec::new();
    let mut j: usize = 8;
    while j < payload.len()
        invariant
            8 <= j <= payload.len(),
            data@ == payload@.subrange(8, j as int),
        decreases payload.len() - j,
    {
        data.push(payload[j]);
        proof {
            assert(data@ =~= payload@.subrange(8, j + 1));
        }
        j = j + 1;
    }
    Some((offset, data))
}

/// The chunks in which a file of `size` bytes is sent, in their order: chunk
/// `i` starts at `i * 65536` and is 65536 bytes long, but for the last, which
/// ends where the file ends. A file without bytes has no chunk.
pub open spec fn plan_of(size: int) -> Seq<FileChunkInfo> {
    Seq::new(
        chunks_of(size) as nat,
        |i: int|
            FileChunkInfo {
                chunk_size: length_of(size, i) as usize,
                chunk_offset: offset_of(i) as usize,
            },
    )
}

/// The chunks in which a file of `file_size` bytes is streamed, in the order
/// in which they are asked of the disk.
pub fn chunk_plan(file_size: u64) -> (r: Vec<FileChunkInfo>)
    requires
        file_size <= usize::MAX,
    ensures
        r@ == plan_of(file_size as int),
        r@.len() == chunks_of(file_size as int),
        forall|i: int|
            0 <= i < r@.len() ==> (#[trigger] r@[i]).chunk_offset == i * 65536 && r@[i].chunk_size
                == length_of(file_size as int, i),
{
    let mut plan: Vec<FileChunkInfo> = Vec::new();
    let mut index: u64 = 0;
    loop
        invariant
            file_size <= usize::MAX,
            index <= chunks_of(file_size as int),
            plan@ == plan_of(file_size as int).take(index as int),
        decreases chunks_of(file_size as int) - index,
    {
        match chunk_at(file_size, index) {
            Some(chunk) => {
                plan.push(chunk);
                proof {
                    assert(plan@ =~= plan_of(file_size as int).take(index + 1));
                }
                index = index + 1;
            },
            None => {
                proof {
                    assert(plan_of(file_size as int).take(index as int) =~= plan_of(
                        file_size as int,
                    ));
                }
                return plan;
            },
        }
    }
}

/// What was packed is what is unpacked.
pub proof fn lemma_chunk_round_trip(offset: u64, data: Seq<u8>)
    ensures
        ({
            let payload = chunk_payload_of(offset, data);
            &&& payload.len() >= 8
            &&& u64_from_le(payload.subrange(0, 8)) == offset
            &&& payload.subrange(8, payload.len() as int) == data
        }),
{
    let payload = chunk_payload_of(offset, data);
    lemma_u64_le_round_trip(offset);
    assert(payload.subrange(0, 8) =~= u64_le_bytes(offset));
    assert(payload.subrange(8, payload.len() as int) =~= data);
}

} // verus!
