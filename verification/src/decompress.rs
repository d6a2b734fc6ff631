use vstd::prelude::*;
use vstd::slice::slice_subrange;

use crate::cursor::{in_source, read_span};
use crate::error::FormatError;
use crate::utils::{buf_to_le_i32, le_i16};

verus! {

/// The control word at the start of `stream`: a signed 16-bit number.
pub open spec fn control_word(stream: Seq<u8>) -> int {
    le_i16(stream)
}

/// The bytes that the first chunk of `stream` takes: its control word and
/// either that many literal bytes or the one byte to repeat.
pub open spec fn chunk_len(stream: Seq<u8>) -> int {
    if control_word(stream) > 0 {
        2 + control_word(stream)
    } else {
        3
    }
}

/// Whether `stream` holds all of its first chunk.
pub open spec fn chunk_complete(stream: Seq<u8>) -> bool {
    stream.len() >= 2 && stream.len() >= chunk_len(stream)
}

/// What the first chunk of `stream` expands to: the literal bytes after a
/// positive control word, else the following byte as often as the word's
/// absolute value says.
pub open spec fn chunk_output(stream: Seq<u8>) -> Seq<u8> {
    if control_word(stream) > 0 {
        stream.subrange(2, 2 + control_word(stream))
    } else {
        Seq::new((-control_word(stream)) as nat, |i: int| stream[2])
    }
}

/// What `stream` expands to, chunk by chunk. Bytes at the end that do not
/// make a whole chunk add nothing.
pub open spec fn expand(stream: Seq<u8>) -> Seq<u8>
    decreases stream.len(),
{
    if !chunk_complete(stream) {
        Seq::empty()
    } else {
        chunk_output(stream) + expand(stream.skip(chunk_len(stream)))
    }
}

/// What `decompress_data` yields: the expansion of the `data_len` bytes at
/// `position`, or `Truncated` when the source ends before them.
pub open spec fn decompressed(source: Seq<u8>, position: u64, data_len: u64) -> Result<
    Seq<u8>,
    FormatError,
> {
    if in_source(source.len(), position as int, data_len as int) {
        Ok(expand(source.subrange(position as int, position + data_len)))
    } else {
        Err(FormatError::Truncated)
    }
}

/// Expands the run-length compressed stream of `data_len` bytes that starts
/// at `position`.
pub fn decompress_data(res_file: &[u8], position: u64, data_len: u64) -> (unpacked: Result<
    Vec<u8>,
    FormatError,
>)
    ensures
        match decompressed(res_file@, position, data_len) {
            Ok(bytes) => unpacked matches Ok(v) && v@ == bytes,
            Err(e) => unpacked matches Err(x) && x == e,
        },
{
    let data = read_span(res_file, position, data_len)?;
    let total = data.len();
    let mut at: usize = 0;
    let mut unpacked_data: Vec<u8> = Vec::new();
    assert(data@.skip(0) =~= data@);
    while at < total
        invariant
            total == data@.len(),
            at <= total,
            unpacked_data@ + expand(data@.skip(at as int)) == expand(data@),
        ensures
            expand(data@.skip(at as int)) == Seq::<u8>::empty(),
        decreases total - at,
    {
        let ghost rest = data@.skip(at as int);
        if total - at < 2 {
            break ;
        }
        assert(data@.subrange(at as int, at + 2) =~= rest.subrange(0, 2));
        let sword = match buf_to_le_i32(slice_subrange(data, at, at + 2)) {
            Ok(sword) => sword,
            Err(e) => return Err(e),
        };
        assert(sword == control_word(rest));
        let start = at + 2;
        if sword > 0 {
            let run = sword as usize;
            if total - start < run {
                break ;
            }
            let end = start + run;
            let ghost base = unpacked_data@;
            unpacked_data.extend_from_slice(slice_subrange(data, start, end));
            assert(data@.subrange(start as int, end as int) =~= chunk_output(rest));
            assert(rest.skip(chunk_len(rest)) =~= data@.skip(end as int));
            assert((unpacked_data@ + expand(data@.skip(end as int))) =~= (base + (chunk_output(
                rest,
            ) + expand(rest.skip(chunk_len(rest))))));
            at = end;
        } else {
            if total - start < 1 {
                break ;
            }
            let byte = data[start];
            let repeat: i32 = -sword;
            let ghost base = unpacked_data@;
            let mut written: i32 = 0;
            while written < repeat
                invariant
                    0 <= written <= repeat,
                    unpacked_data@ == base + Seq::new(written as nat, |i: int| byte),
                decreases repeat - written,
            {
                unpacked_data.push(byte);
                written = written + 1;
                assert(unpacked_data@ =~= base + Seq::new(written as nat, |i: int| byte));
            }
            assert(Seq::new(repeat as nat, |i: int| byte) =~= chunk_output(rest));
            assert(rest.skip(chunk_len(rest)) =~= data@.skip(start + 1));
            assert((unpacked_data@ + expand(data@.skip(start + 1))) =~= (base + (chunk_output(
                rest,
            ) + expand(rest.skip(chunk_len(rest))))));
            at = start + 1;
        }
    }
    assert(unpacked_data@ + Seq::<u8>::empty() =~= unpacked_data@);
    assert(data@ == res_file@.subrange(position as int, position + data_len));
    Ok(unpacked_data)
}

/// One chunk of a compressed stream, by what it holds.
pub enum Chunk {
    /// Bytes that stand for themselves.
    Literal(Seq<u8>),
    /// A byte and how often it is repeated.
    Repeat(nat, u8),
}

/// Whether a chunk can be written: a literal chunk holds 1 to 32767 bytes,
/// a repeat chunk repeats its byte at most 32768 times.
pub open spec fn chunk_valid(chunk: Chunk) -> bool {
    match chunk {
        Chunk::Literal(bytes) => 1 <= bytes.len() <= 32767,
        Chunk::Repeat(count, _) => count <= 32768,
    }
}

/// The two bytes of a control word, least significant first, negative
/// words in two's complement.
pub open spec fn word_bytes(word: int) -> Seq<u8> {
    seq![(word % 256) as u8, ((word / 256) % 256) as u8]
}

/// The bytes of a chunk in a stream: a literal chunk is its length as the
/// control word and its bytes; a repeat chunk is its count, negated, as the
/// control word and its byte.
pub open spec fn chunk_bytes(chunk: Chunk) -> Seq<u8> {
    match chunk {
        Chunk::Literal(bytes) => word_bytes(bytes.len() as int) + bytes,
        Chunk::Repeat(count, byte) => word_bytes(-(count as int)) + seq![byte],
    }
}

/// The bytes that a chunk stands for.
pub open spec fn chunk_meaning(chunk: Chunk) -> Seq<u8> {
    match chunk {
        Chunk::Literal(bytes) => bytes,
        Chunk::Repeat(count, byte) => Seq::new(count, |i: int| byte),
    }
}

/// The stream that holds `chunks` one after the other.
pub open spec fn stream_of(chunks: Seq<Chunk>) -> Seq<u8>
    decreases chunks.len(),
{
    if chunks.len() == 0 {
        Seq::empty()
    } else {
        chunk_bytes(chunks[0]) + stream_of(chunks.skip(1))
    }
}

/// The bytes that `chunks` stand for, one after the other.
pub open spec fn meaning_of(chunks: Seq<Chunk>) -> Seq<u8>
    decreases chunks.len(),
{
    if chunks.len() == 0 {
        Seq::empty()
    } else {
        chunk_meaning(chunks[0]) + meaning_of(chunks.skip(1))
    }
}

/// A chunk at the start of a stream expands to what it stands for, and
/// what follows it expands as if it stood alone.
pub proof fn lemma_expand_chunk(chunk: Chunk, rest: Seq<u8>)
    requires
        chunk_valid(chunk),
    ensures
        expand(chunk_bytes(chunk) + rest) == chunk_meaning(chunk) + expand(rest),
{
    let stream = chunk_bytes(chunk) + rest;
    match chunk {
        Chunk::Literal(bytes) => {
            let n = bytes.len() as int;
            assert(stream[0] == (n % 256) as u8);
            assert(stream[1] == ((n / 256) % 256) as u8);
            assert(control_word(stream) == n);
            assert(chunk_output(stream) =~= bytes);
            assert(stream.skip(chunk_len(stream)) =~= rest);
        },
        Chunk::Repeat(count, byte) => {
            let w = -(count as int);
            assert(stream[0] == (w % 256) as u8);
            assert(stream[1] == ((w / 256) % 256) as u8);
            assert(stream[2] == byte);
            assert(control_word(stream) == w);
            assert(chunk_output(stream) =~= Seq::new(count, |i: int| byte));
            assert(stream.skip(chunk_len(stream)) =~= rest);
        },
    }
}

/// A stream made of chunks expands to what the chunks stand for, one
/// after the other. So a stream of literal chunks alone expands to their
/// bytes joined, and a stream of repeat chunks alone to their runs.
pub proof fn lemma_expand_stream(chunks: Seq<Chunk>)
    requires
        forall|i: int| 0 <= i < chunks.len() ==> chunk_valid(#[trigger] chunks[i]),
    ensures
        expand(stream_of(chunks)) == meaning_of(chunks),
    decreases chunks.len(),
{
    if chunks.len() == 0 {
        assert(expand(Seq::<u8>::empty()) =~= Seq::<u8>::empty());
    } else {
        let rest = chunks.skip(1);
        assert forall|i: int| 0 <= i < rest.len() implies chunk_valid(#[trigger] rest[i]) by {
            assert(rest[i] == chunks[i + 1]);
        }
        lemma_expand_stream(rest);
        lemma_expand_chunk(chunks[0], stream_of(rest));
    }
}

/// The literal chunks that hold `payloads`, one chunk for each.
pub open spec fn literal_chunks(payloads: Seq<Seq<u8>>) -> Seq<Chunk> {
    Seq::new(payloads.len(), |i: int| Chunk::Literal(payloads[i]))
}

/// `payloads` joined, one after the other.
pub open spec fn joined(payloads: Seq<Seq<u8>>) -> Seq<u8>
    decreases payloads.len(),
{
    if payloads.len() == 0 {
        Seq::empty()
    } else {
        payloads[0] + joined(payloads.skip(1))
    }
}

/// A stream of literal chunks alone expands to their payloads joined.
pub proof fn lemma_expand_literals(payloads: Seq<Seq<u8>>)
    requires
        forall|i: int| 0 <= i < payloads.len() ==> 1 <= (#[trigger] payloads[i]).len() <= 32767,
    ensures
        expand(stream_of(literal_chunks(payloads))) == joined(payloads),
{
    lemma_expand_stream(literal_chunks(payloads));
    lemma_literal_meaning(payloads);
}

/// Literal chunks stand for their payloads joined.
pub proof fn lemma_literal_meaning(payloads: Seq<Seq<u8>>)
    ensures
        meaning_of(literal_chunks(payloads)) == joined(payloads),
    decreases payloads.len(),
{
    if payloads.len() != 0 {
        lemma_literal_meaning(payloads.skip(1));
        assert(literal_chunks(payloads).skip(1) =~= literal_chunks(payloads.skip(1)));
    }
}

/// A single repeat chunk expands to as many copies of its byte as the
/// absolute value of its control word says.
pub proof fn lemma_expand_repeat(count: nat, byte: u8)
    requires
        count <= 32768,
    ensures
        expand(chunk_bytes(Chunk::Repeat(count, byte))) == Seq::new(count, |i: int| byte),
{
    let chunk = Chunk::Repeat(count, byte);
    lemma_expand_chunk(chunk, Seq::empty());
    assert(chunk_bytes(chunk) + Seq::<u8>::empty() =~= chunk_bytes(chunk));
    assert(expand(Seq::<u8>::empty()) =~= Seq::<u8>::empty());
    assert(chunk_meaning(chunk) + Seq::<u8>::empty() =~= chunk_meaning(chunk));
}

/// The longest run of bytes that one literal chunk can hold.
pub const MAX_LITERAL: usize = 32767;

/// A stream that stands for `bytes`: literal chunks of up to 32767 bytes
/// each.
pub open spec fn encode(bytes: Seq<u8>) -> Seq<u8>
    decreases bytes.len(),
{
    if bytes.len() == 0 {
        Seq::empty()
    } else if bytes.len() <= MAX_LITERAL {
        chunk_bytes(Chunk::Literal(bytes))
    } else {
        chunk_bytes(Chunk::Literal(bytes.take(MAX_LITERAL as int))) + encode(
            bytes.skip(MAX_LITERAL as int),
        )
    }
}

/// Expanding the encoding of any bytes gives the bytes back.
pub proof fn lemma_round_trip(bytes: Seq<u8>)
    ensures
        expand(encode(bytes)) == bytes,
    decreases bytes.len(),
{
    if bytes.len() == 0 {
        assert(expand(Seq::<u8>::empty()) =~= bytes);
    } else if bytes.len() <= MAX_LITERAL {
        let chunk = Chunk::Literal(bytes);
        lemma_expand_chunk(chunk, Seq::empty());
        assert(chunk_bytes(chunk) + Seq::<u8>::empty() =~= chunk_bytes(chunk));
        assert(expand(Seq::<u8>::empty()) =~= Seq::<u8>::empty());
        assert(bytes + Seq::<u8>::empty() =~= bytes);
    } else {
        let head = bytes.take(MAX_LITERAL as int);
        let tail = bytes.skip(MAX_LITERAL as int);
        lemma_round_trip(tail);
        lemma_expand_chunk(Chunk::Literal(head), encode(tail));
        assert(head + tail =~= bytes);
    }
}

} // verus!
