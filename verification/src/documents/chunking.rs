//! The mathematical model of cutting text into chunks of bytes, with the
//! facts that hold of every such cut.

use vstd::prelude::*;
use vstd::utf8::*;

verus! {

/// The chunks of `bytes` of `size` bytes each, in order; the last one holds
/// what is left and may be shorter. An empty input has no chunk.
pub open spec fn byte_chunks(bytes: Seq<u8>, size: nat) -> Seq<Seq<u8>>
    decreases bytes.len(),
{
    if bytes.len() == 0 || size == 0 {
        seq![]
    } else if bytes.len() <= size {
        seq![bytes]
    } else {
        seq![bytes.take(size as int)] + byte_chunks(bytes.skip(size as int), size)
    }
}

/// What `String::from_utf8_lossy` makes of `bytes` that are not valid UTF-8:
/// the decoded text with U+FFFD in place of each invalid sequence.
pub uninterp spec fn replaced_utf8(bytes: Seq<u8>) -> Seq<char>;

/// What `String::from_utf8_lossy` makes of `bytes`: valid UTF-8 is decoded
/// as it stands.
pub open spec fn lossy_utf8(bytes: Seq<u8>) -> Seq<char> {
    if valid_utf8(bytes) {
        decode_utf8(bytes)
    } else {
        replaced_utf8(bytes)
    }
}

/// The strings made of the byte chunks of the UTF-8 encoding of `text`.
pub open spec fn text_chunks(text: Seq<char>, size: nat) -> Seq<Seq<char>> {
    byte_chunks(encode_utf8(text), size).map_values(|b: Seq<u8>| lossy_utf8(b))
}

/// The number of chunks of `len` bytes cut `size` at a time: `len / size`
/// rounded up.
pub open spec fn chunk_count(len: nat, size: nat) -> nat
    recommends
        size > 0,
{
    if size == 0 {
        0
    } else {
        ((len + size - 1) / size as int) as nat
    }
}

/// Cutting `bytes` off after `size` bytes peels the first chunk off the chunks.
pub proof fn lemma_byte_chunks_step(bytes: Seq<u8>, size: nat)
    requires
        size > 0,
        bytes.len() > 0,
    ensures
        byte_chunks(bytes, size)[0] == bytes.take(
            if bytes.len() <= size { bytes.len() as int } else { size as int },
        ),
        byte_chunks(bytes, size).drop_first() == byte_chunks(
            bytes.skip(if bytes.len() <= size { bytes.len() as int } else { size as int }),
            size,
        ),
{
    if bytes.len() <= size {
        assert(bytes.take(bytes.len() as int) =~= bytes);
        assert(bytes.skip(bytes.len() as int) =~= Seq::<u8>::empty());
        assert(byte_chunks(bytes, size).drop_first() =~= Seq::<Seq<u8>>::empty());
    } else {
        assert(byte_chunks(bytes, size).drop_first() =~= byte_chunks(
            bytes.skip(size as int),
            size,
        ));
    }
}

/// Joining the chunks of `bytes` back together gives `bytes`.
pub proof fn lemma_byte_chunks_join(bytes: Seq<u8>, size: nat)
    requires
        size > 0,
    ensures
        byte_chunks(bytes, size).flatten() == bytes,
    decreases bytes.len(),
{
    if bytes.len() == 0 {
        assert(byte_chunks(bytes, size).flatten() =~= bytes);
    } else if bytes.len() <= size {
        assert(byte_chunks(bytes, size) =~= seq![bytes]);
        assert(seq![bytes].drop_first() =~= Seq::<Seq<u8>>::empty());
        assert(Seq::<Seq<u8>>::empty().flatten() =~= Seq::<u8>::empty());
        assert(byte_chunks(bytes, size).flatten() =~= bytes);
    } else {
        lemma_byte_chunks_step(bytes, size);
        lemma_byte_chunks_join(bytes.skip(size as int), size);
        assert(bytes.take(size as int) + bytes.skip(size as int) =~= bytes);
    }
}

/// Every chunk but the last holds exactly `size` bytes, the last holds between
/// one and `size` bytes, and there are `len / size` chunks, rounded up.
pub proof fn lemma_byte_chunks_sizes(bytes: Seq<u8>, size: nat)
    requires
        size > 0,
    ensures
        byte_chunks(bytes, size).len() == chunk_count(bytes.len(), size),
        forall|i: int|
            0 <= i < byte_chunks(bytes, size).len() - 1 ==> #[trigger] byte_chunks(
                bytes,
                size,
            )[i].len() == size,
        byte_chunks(bytes, size).len() > 0 ==> 0 < byte_chunks(bytes, size).last().len() <= size,
    decreases bytes.len(),
{
    let chunks = byte_chunks(bytes, size);
    if bytes.len() == 0 {
        assert(chunk_count(0, size) == 0) by (nonlinear_arith)
            requires
                size > 0,
        ;
    } else if bytes.len() <= size {
        assert(chunk_count(bytes.len(), size) == 1) by (nonlinear_arith)
            requires
                size > 0,
                0 < bytes.len() <= size,
        ;
    } else {
        let rest = bytes.skip(size as int);
        lemma_byte_chunks_sizes(rest, size);
        lemma_byte_chunks_step(bytes, size);
        assert(chunk_count(bytes.len(), size) == chunk_count(rest.len(), size) + 1) by (
        nonlinear_arith)
            requires
                size > 0,
                rest.len() == bytes.len() - size,
                bytes.len() > size,
        ;
        assert forall|i: int| 0 <= i < chunks.len() - 1 implies #[trigger] chunks[i].len()
            == size by {
            if i > 0 {
                assert(chunks[i] == byte_chunks(rest, size)[i - 1]);
            }
        }
        assert(chunks.last() == byte_chunks(rest, size).last());
    }
}

} // verus!

verus! {

/// Decoding two valid UTF-8 byte sequences one after the other is decoding
/// their concatenation.
pub proof fn lemma_decode_utf8_concat(a: Seq<u8>, b: Seq<u8>)
    requires
        valid_utf8(a),
        valid_utf8(b),
    ensures
        valid_utf8(a + b),
        decode_utf8(a + b) == decode_utf8(a) + decode_utf8(b),
    decreases a.len(),
{
    broadcast use valid_utf8_concat;

    if a.len() == 0 {
        assert(a + b =~= b);
        assert(decode_utf8(a) =~= Seq::<char>::empty());
        assert(decode_utf8(a) + decode_utf8(b) =~= decode_utf8(b));
    } else {
        let rest = pop_first_scalar(a);
        assert(rest.len() == a.len() - length_of_first_scalar(a));
        assert(pop_first_scalar(a + b) =~= rest + b);
        assert(decode_first_scalar(a + b) == decode_first_scalar(a));
        lemma_decode_utf8_concat(rest, b);
        assert(decode_utf8(a + b) =~= decode_utf8(a) + decode_utf8(b));
    }
}

/// Decoding each of several valid UTF-8 byte sequences and joining the text
/// is decoding their concatenation.
pub proof fn lemma_decode_utf8_flatten(parts: Seq<Seq<u8>>)
    requires
        forall|i: int| 0 <= i < parts.len() ==> valid_utf8(#[trigger] parts[i]),
    ensures
        valid_utf8(parts.flatten()),
        parts.map_values(|b: Seq<u8>| decode_utf8(b)).flatten() == decode_utf8(parts.flatten()),
    decreases parts.len(),
{
    let decoded = parts.map_values(|b: Seq<u8>| decode_utf8(b));
    if parts.len() == 0 {
        assert(decoded.flatten() =~= Seq::<char>::empty());
        assert(decode_utf8(parts.flatten()) =~= Seq::<char>::empty());
    } else {
        let tail = parts.drop_first();
        assert forall|i: int| 0 <= i < tail.len() implies valid_utf8(#[trigger] tail[i]) by {
            assert(tail[i] == parts[i + 1]);
        }
        lemma_decode_utf8_flatten(tail);
        assert(valid_utf8(parts[0]));
        lemma_decode_utf8_concat(parts[0], tail.flatten());
        assert(decoded.drop_first() =~= tail.map_values(|b: Seq<u8>| decode_utf8(b)));
    }
}

/// When no chunk boundary falls inside a character (every chunk is valid
/// UTF-8 on its own), joining the chunks of `text` gives `text` back.
pub proof fn lemma_text_chunks_rejoin(text: Seq<char>, size: nat)
    requires
        size > 0,
        forall|i: int|
            0 <= i < byte_chunks(encode_utf8(text), size).len() ==> valid_utf8(
                #[trigger] byte_chunks(encode_utf8(text), size)[i],
            ),
    ensures
        text_chunks(text, size).flatten() == text,
{
    let chunks = byte_chunks(encode_utf8(text), size);
    lemma_byte_chunks_join(encode_utf8(text), size);
    lemma_decode_utf8_flatten(chunks);
    assert(text_chunks(text, size) =~= chunks.map_values(|b: Seq<u8>| decode_utf8(b)));
    encode_utf8_decode_utf8(text);
}

/// Every chunk of an ASCII text is valid UTF-8 on its own, so joining the
/// chunks of an ASCII text gives the text back.
pub proof fn lemma_ascii_text_chunks_rejoin(text: Seq<char>, size: nat)
    requires
        size > 0,
        is_ascii_chars(text),
    ensures
        text_chunks(text, size).flatten() == text,
{
    let bytes = encode_utf8(text);
    is_ascii_chars_encode_utf8(text);
    assert forall|k: int| 0 <= k < bytes.len() implies #[trigger] bytes[k] < 0x80 by {
        assert(text[k] as u8 == bytes[k]);
    }
    lemma_byte_chunks_below(bytes, size);
    assert forall|i: int| 0 <= i < byte_chunks(bytes, size).len() implies valid_utf8(
        #[trigger] byte_chunks(bytes, size)[i],
    ) by {
        lemma_ascii_bytes_valid_utf8(byte_chunks(bytes, size)[i]);
    }
    lemma_text_chunks_rejoin(text, size);
}

/// Bytes below 0x80 are valid UTF-8, one character each.
pub proof fn lemma_ascii_bytes_valid_utf8(bytes: Seq<u8>)
    requires
        forall|k: int| 0 <= k < bytes.len() ==> #[trigger] bytes[k] < 0x80,
    ensures
        valid_utf8(bytes),
    decreases bytes.len(),
{
    if bytes.len() > 0 {
        let rest = pop_first_scalar(bytes);
        assert(rest =~= bytes.skip(1));
        lemma_ascii_bytes_valid_utf8(rest);
    }
}

/// The chunks of bytes that are all below 0x80 hold only bytes below 0x80.
pub proof fn lemma_byte_chunks_below(bytes: Seq<u8>, size: nat)
    requires
        size > 0,
        forall|k: int| 0 <= k < bytes.len() ==> #[trigger] bytes[k] < 0x80,
    ensures
        forall|i: int, k: int|
            0 <= i < byte_chunks(bytes, size).len() && 0 <= k < byte_chunks(bytes, size)[i].len()
                ==> #[trigger] byte_chunks(bytes, size)[i][k] < 0x80,
    decreases bytes.len(),
{
    if bytes.len() > 0 {
        let cut: int = if bytes.len() <= size { bytes.len() as int } else { size as int };
        let rest = bytes.skip(cut);
        lemma_byte_chunks_step(bytes, size);
        lemma_byte_chunks_below(rest, size);
        assert forall|i: int, k: int|
            0 <= i < byte_chunks(bytes, size).len() && 0 <= k < byte_chunks(bytes, size)[i].len()
                implies #[trigger] byte_chunks(bytes, size)[i][k] < 0x80 by {
            if i == 0 {
                assert(byte_chunks(bytes, size)[0][k] == bytes[k]);
            } else {
                assert(byte_chunks(bytes, size)[i] == byte_chunks(rest, size)[i - 1]);
            }
        }
    }
}

} // verus!
