//! BLE payload framing: inbound writes are reassembled into messages terminated by
//! `END_TAG`; outbound notifications get `END_TAG` appended and are cut into
//! `NOTIFY_CHUNK_SIZE`-byte chunks.
use vstd::prelude::*;
use vstd::slice::{slice_subrange, slice_to_vec};
use crate::text::{
    occurs_at, find_from, contains_seq, split_from, split_seq, lemma_find_from_bounds,
    lemma_find_from_skip, lemma_split_from_last_clean, lemma_split_from_append, lemma_split_clean,
};

verus! {

/// Field separator inside a request (`key%&%ssid%&%password`).
pub const CONCAT_TAG: &'static str = "%&%";

/// Message terminator.
pub const END_TAG: &'static str = "&#&";

/// Outbound notifications are cut into chunks of this many bytes, whatever the MTU.
pub const NOTIFY_CHUNK_SIZE: usize = 20;

/// Pause between two notify chunks, in milliseconds.
pub const NOTIFY_CHUNK_DELAY_MS: u64 = 200;

/// Default cap on the bytes held while waiting for a terminator.
pub const DEFAULT_MAX_REASSEMBLY_BYTES: usize = 16 * 1024;

/// The bytes of `END_TAG`.
pub open spec fn end_tag() -> Seq<u8> {
    seq![38u8, 35u8, 38u8]
}

fn end_tag_bytes() -> (r: [u8; 3])
    ensures
        r@ == end_tag(),
{
    let r = [38u8, 35u8, 38u8];
    assert(r@ =~= end_tag());
    r
}

/// The views of a list of byte vectors.
pub open spec fn byte_views(v: Seq<Vec<u8>>) -> Seq<Seq<u8>> {
    v.map_values(|x: Vec<u8>| x@)
}

/// Reassembly of `input` after the unterminated bytes `pending`: the complete
/// messages (without terminator) and the bytes left over for later.
pub open spec fn reassemble(pending: Seq<u8>, input: Seq<u8>) -> (Seq<Seq<u8>>, Seq<u8>) {
    let pieces = split_seq(pending + input, end_tag());
    (pieces.drop_last(), pieces.last())
}

/// The number of bytes held after appending `input` to `pending`, saturating at `usize::MAX`.
pub open spec fn held_after(pending: Seq<u8>, input: Seq<u8>) -> usize {
    if pending.len() + input.len() > usize::MAX {
        usize::MAX
    } else {
        (pending.len() + input.len()) as usize
    }
}

/// The concatenation of a list of byte strings.
pub open spec fn concat_all(chunks: Seq<Seq<u8>>) -> Seq<u8>
    decreases chunks.len(),
{
    if chunks.len() == 0 {
        Seq::empty()
    } else {
        concat_all(chunks.drop_last()) + chunks.last()
    }
}

/// The chunks of `framed` from offset `start` on, each `NOTIFY_CHUNK_SIZE` bytes but the last.
pub open spec fn chunks_from(framed: Seq<u8>, start: int) -> Seq<Seq<u8>>
    decreases framed.len() - start,
{
    if start < 0 || start >= framed.len() {
        Seq::empty()
    } else if framed.len() - start <= NOTIFY_CHUNK_SIZE {
        seq![framed.subrange(start, framed.len() as int)]
    } else {
        seq![framed.subrange(start, start + NOTIFY_CHUNK_SIZE)] + chunks_from(
            framed,
            start + NOTIFY_CHUNK_SIZE,
        )
    }
}

/// The notify chunks of `message`: the message with `END_TAG` appended, cut every
/// `NOTIFY_CHUNK_SIZE` bytes.
pub open spec fn notify_chunks(message: Seq<u8>) -> Seq<Seq<u8>> {
    chunks_from(message + end_tag(), 0)
}

/// What one push does to a buffer holding `pending` under the cap `max`: `None` when
/// the bytes would overflow it (the buffer is then cleared), else the completed messages
/// and the bytes held afterwards.
pub open spec fn push_spec(pending: Seq<u8>, input: Seq<u8>, max: usize) -> Option<(Seq<Seq<u8>>, Seq<u8>)> {
    if input.len() == 0 {
        Some((Seq::empty(), pending))
    } else if held_after(pending, input) > max {
        None
    } else {
        Some(reassemble(pending, input))
    }
}

/// Pushing `inputs` one after the other: all messages completed, and the bytes held at
/// the end; `None` as soon as a push overflows.
pub open spec fn push_all(pending: Seq<u8>, inputs: Seq<Seq<u8>>, max: usize) -> Option<
    (Seq<Seq<u8>>, Seq<u8>),
>
    decreases inputs.len(),
{
    if inputs.len() == 0 {
        Some((Seq::empty(), pending))
    } else {
        match push_all(pending, inputs.drop_last(), max) {
            None => None,
            Some((msgs, held)) => match push_spec(held, inputs.last(), max) {
                None => None,
                Some((more, rest)) => Some((msgs + more, rest)),
            },
        }
    }
}

/// Error of `ReassemblyBuffer::push`.
#[derive(Debug, Clone, PartialEq, Eq)]
pub enum ReassemblyError {
    /// The buffer would exceed `max_size` after appending the provided bytes; it was cleared.
    Overflow { max_size: usize, attempted: usize },
}

/// Incremental buffer that reassembles chunked writes terminated by `END_TAG`.
#[derive(Debug)]
pub struct ReassemblyBuffer {
    buf: Vec<u8>,
    max_size: usize,
}

impl ReassemblyBuffer {
    /// Held bytes never contain a complete terminator.
    #[verifier::type_invariant]
    spec fn inv(self) -> bool {
        !contains_seq(self.buf@, end_tag())
    }

    /// Bytes received after the last terminator.
    pub closed spec fn pending(&self) -> Seq<u8> {
        self.buf@
    }

    /// The cap on the bytes held.
    pub closed spec fn max_size(&self) -> usize {
        self.max_size
    }

    pub fn new(max_size: usize) -> (r: Self)
        ensures
            r.pending() == Seq::<u8>::empty(),
            r.max_size() == max_size,
    {
        ReassemblyBuffer { buf: Vec::new(), max_size }
    }

    pub fn with_default_max() -> (r: Self)
        ensures
            r.pending() == Seq::<u8>::empty(),
            r.max_size() == DEFAULT_MAX_REASSEMBLY_BYTES,
    {
        Self::new(DEFAULT_MAX_REASSEMBLY_BYTES)
    }

    pub fn clear(&mut self)
        ensures
            final(self).pending() == Seq::<u8>::empty(),
            final(self).max_size() == old(self).max_size(),
    {
        self.buf = Vec::new();
    }

    pub fn len(&self) -> (r: usize)
        ensures
            r == self.pending().len(),
    {
        self.buf.len()
    }

    pub fn is_empty(&self) -> (r: bool)
        ensures
            r == (self.pending().len() == 0),
    {
        self.buf.len() == 0
    }

    /// The bytes held while waiting for the next terminator.
    pub fn buffered(&self) -> (r: &[u8])
        ensures
            r@ == self.pending(),
    {
        self.buf.as_slice()
    }

    /// Append `bytes` and return every message completed by them, without `END_TAG`.
    /// Bytes after the last terminator stay for the next call. If the held bytes
    /// would exceed `max_size`, the buffer is cleared and an error returned.
    pub fn push(&mut self, bytes: &[u8]) -> (r: Result<Vec<Vec<u8>>, ReassemblyError>)
        ensures
            final(self).max_size() == old(self).max_size(),
            !contains_seq(final(self).pending(), end_tag()),
            bytes@.len() == 0 ==> (r matches Ok(msgs) && msgs@.len() == 0
                && final(self).pending() == old(self).pending()),
            bytes@.len() > 0 && held_after(old(self).pending(), bytes@) > old(self).max_size() ==> r
                == Err::<Vec<Vec<u8>>, ReassemblyError>(
                ReassemblyError::Overflow {
                    max_size: old(self).max_size(),
                    attempted: held_after(old(self).pending(), bytes@),
                },
            ) && final(self).pending() == Seq::<u8>::empty(),
            bytes@.len() > 0 && held_after(old(self).pending(), bytes@) <= old(self).max_size() ==> (
            r matches Ok(msgs) && byte_views(msgs@) == reassemble(old(self).pending(), bytes@).0
                && final(self).pending() == reassemble(old(self).pending(), bytes@).1),
            match push_spec(old(self).pending(), bytes@, old(self).max_size()) {
                Some((done, rest)) => r matches Ok(msgs) && byte_views(msgs@) == done
                    && final(self).pending() == rest,
                None => r is Err && final(self).pending() == Seq::<u8>::empty(),
            },
    {
        proof {
            use_type_invariant(&*self);
        }
        if bytes.len() == 0 {
            return Ok(Vec::new());
        }
        let attempted = self.buf.len().saturating_add(bytes.len());
        if attempted > self.max_size {
            self.buf = Vec::new();
            return Err(ReassemblyError::Overflow { max_size: self.max_size, attempted });
        }
        let mut data: Vec<u8> = Vec::new();
        std::mem::swap(&mut data, &mut self.buf);
        let ghost joined = data@ + bytes@;
        data.extend_from_slice(bytes);
        assert(data@ =~= joined);

        let end = end_tag_bytes();
        let ghost sep = end_tag();
        let mut out: Vec<Vec<u8>> = Vec::new();
        let mut start: usize = 0;
        assert(byte_views(out@) + split_from(joined, sep, 0) =~= split_seq(joined, sep));
        loop
            invariant
                data@ == joined,
                end@ == sep,
                sep == end_tag(),
                start <= data@.len(),
                byte_views(out@) + split_from(joined, sep, start as int) == split_seq(joined, sep),
            ensures
                start <= data@.len(),
                find_from(joined, sep, start as int) is None,
                byte_views(out@) + seq![joined.subrange(start as int, joined.len() as int)]
                    == split_seq(joined, sep),
            decreases data@.len() + 1 - start,
        {
            let tail = slice_subrange(data.as_slice(), start, data.len());
            let found = find_subslice(tail, &end);
            proof {
                assert(tail@ =~= joined.skip(start as int));
                lemma_find_from_skip(joined, sep, start as int, 0);
                lemma_find_from_bounds(joined, sep, start as int);
            }
            match found {
                None => {
                    break;
                },
                Some(rel) => {
                    let pos = start + rel;
                    let piece = slice_to_vec(slice_subrange(data.as_slice(), start, pos));
                    let ghost old_out = out@;
                    out.push(piece);
                    proof {
                        assert(byte_views(out@) =~= byte_views(old_out).push(
                            joined.subrange(start as int, pos as int),
                        ));
                        let rest = split_from(joined, sep, pos + 3);
                        assert(split_from(joined, sep, start as int) == seq![
                            joined.subrange(start as int, pos as int),
                        ] + rest);
                        assert(byte_views(out@) + rest =~= byte_views(old_out) + split_from(
                            joined,
                            sep,
                            start as int,
                        ));
                    }
                    start = pos + 3;
                },
            }
        }
        proof {
            lemma_split_from_last_clean(joined, sep, start as int);
            let pieces = split_seq(joined, sep);
            assert(pieces.drop_last() =~= byte_views(out@));
        }
        if start > 0 {
            let rest = data.split_off(start);
            self.buf = rest;
        } else {
            self.buf = data;
        }
        Ok(out)
    }
}

impl Clone for ReassemblyBuffer {
    fn clone(&self) -> (r: Self)
        ensures
            r.pending() == self.pending(),
            r.max_size() == self.max_size(),
    {
        proof {
            use_type_invariant(self);
        }
        let buf = slice_to_vec(self.buf.as_slice());
        ReassemblyBuffer { buf, max_size: self.max_size }
    }
}

impl Default for ReassemblyBuffer {
    fn default() -> (r: Self)
        ensures
            r.pending() == Seq::<u8>::empty(),
            r.max_size() == DEFAULT_MAX_REASSEMBLY_BYTES,
    {
        Self::with_default_max()
    }
}

/// Frame an outbound message for notify: append `END_TAG` and cut into
/// `NOTIFY_CHUNK_SIZE`-byte chunks.
pub fn frame_notify_message(message: &[u8]) -> (r: Vec<Vec<u8>>)
    requires
        message@.len() + 3 <= usize::MAX,
    ensures
        byte_views(r@) == notify_chunks(message@),
{
    let mut framed: Vec<u8> = slice_to_vec(message);
    let end = end_tag_bytes();
    framed.extend_from_slice(&end);
    let ghost f = message@ + end_tag();
    assert(framed@ =~= f);
    let mut out: Vec<Vec<u8>> = Vec::new();
    let mut start: usize = 0;
    while start < framed.len()
        invariant
            framed@ == f,
            start <= framed@.len(),
            start < framed@.len() ==> byte_views(out@) + chunks_from(f, start as int)
                == chunks_from(f, 0),
            start >= framed@.len() ==> byte_views(out@) == chunks_from(f, 0),
        decreases framed@.len() - start,
    {
        let remaining = framed.len() - start;
        let stop = if remaining <= NOTIFY_CHUNK_SIZE {
            framed.len()
        } else {
            start + NOTIFY_CHUNK_SIZE
        };
        let chunk = slice_to_vec(slice_subrange(framed.as_slice(), start, stop));
        let ghost old_out = out@;
        out.push(chunk);
        proof {
            assert(byte_views(out@) =~= byte_views(old_out).push(f.subrange(start as int, stop as int)));
            if remaining <= NOTIFY_CHUNK_SIZE {
                assert(chunks_from(f, start as int) == seq![f.subrange(start as int, stop as int)]);
                assert(byte_views(out@) =~= byte_views(old_out) + chunks_from(f, start as int));
            } else {
                let rest = chunks_from(f, stop as int);
                assert(chunks_from(f, start as int) == seq![f.subrange(start as int, stop as int)] + rest);
                assert(byte_views(out@) + rest =~= byte_views(old_out) + chunks_from(f, start as int));
            }
        }
        start = stop;
    }
    out
}


/// Messages with their terminator put back.
pub open spec fn terminated(msgs: Seq<Seq<u8>>) -> Seq<Seq<u8>> {
    msgs.map_values(|m: Seq<u8>| m + end_tag())
}

/// Writes `inputs` one after the other into a buffer holding `pending`:
/// all messages completed along the way, and the bytes held at the end.
pub open spec fn reassemble_writes(pending: Seq<u8>, inputs: Seq<Seq<u8>>) -> (Seq<Seq<u8>>, Seq<u8>)
    decreases inputs.len(),
{
    if inputs.len() == 0 {
        (Seq::empty(), pending)
    } else {
        let (before, held) = reassemble_writes(pending, inputs.drop_last());
        let (now, rest) = reassemble(held, inputs.last());
        (before + now, rest)
    }
}

proof fn lemma_concat_all_append(a: Seq<Seq<u8>>, b: Seq<Seq<u8>>)
    ensures
        concat_all(a + b) == concat_all(a) + concat_all(b),
    decreases b.len(),
{
    if b.len() == 0 {
        assert(a + b =~= a);
        assert(concat_all(a) + concat_all(b) =~= concat_all(a));
    } else {
        lemma_concat_all_append(a, b.drop_last());
        assert((a + b).drop_last() =~= a + b.drop_last());
        assert((a + b).last() == b.last());
        assert(concat_all(a + b) =~= concat_all(a) + concat_all(b));
    }
}

proof fn lemma_concat_all_single(x: Seq<u8>)
    ensures
        concat_all(seq![x]) == x,
{
    reveal_with_fuel(concat_all, 2);
    assert(seq![x].drop_last() =~= Seq::<Seq<u8>>::empty());
    assert(Seq::<u8>::empty() + x =~= x);
}

proof fn lemma_chunks_from_concat(f: Seq<u8>, start: int)
    requires
        0 <= start <= f.len(),
    ensures
        concat_all(chunks_from(f, start)) == f.subrange(start, f.len() as int),
        forall|i: int| 0 <= i < chunks_from(f, start).len() ==> {
            let c = #[trigger] chunks_from(f, start)[i];
            &&& 0 < c.len() <= NOTIFY_CHUNK_SIZE
            &&& i + 1 < chunks_from(f, start).len() ==> c.len() == NOTIFY_CHUNK_SIZE
        },
    decreases f.len() - start,
{
    if start >= f.len() {
        assert(f.subrange(start, f.len() as int) =~= Seq::<u8>::empty());
    } else if f.len() - start <= NOTIFY_CHUNK_SIZE {
        lemma_concat_all_single(f.subrange(start, f.len() as int));
    } else {
        let head = f.subrange(start, start + NOTIFY_CHUNK_SIZE);
        let rest = chunks_from(f, start + NOTIFY_CHUNK_SIZE);
        lemma_chunks_from_concat(f, start + NOTIFY_CHUNK_SIZE);
        lemma_concat_all_append(seq![head], rest);
        lemma_concat_all_single(head);
        assert(head + f.subrange(start + NOTIFY_CHUNK_SIZE, f.len() as int) =~= f.subrange(
            start,
            f.len() as int,
        ));
        assert forall|i: int| 0 <= i < chunks_from(f, start).len() implies {
            let c = #[trigger] chunks_from(f, start)[i];
            &&& 0 < c.len() <= NOTIFY_CHUNK_SIZE
            &&& i + 1 < chunks_from(f, start).len() ==> c.len() == NOTIFY_CHUNK_SIZE
        } by {
            if i > 0 {
                assert(chunks_from(f, start)[i] == rest[i - 1]);
            }
        }
    }
}

proof fn lemma_split_lossless(h: Seq<u8>, start: int)
    requires
        0 <= start <= h.len(),
    ensures
        concat_all(terminated(split_from(h, end_tag(), start).drop_last())) + split_from(
            h,
            end_tag(),
            start,
        ).last() == h.subrange(start, h.len() as int),
    decreases h.len() + 1 - start,
{
    let sep = end_tag();
    lemma_find_from_bounds(h, sep, start);
    match find_from(h, sep, start) {
        Some(p) => {
            let head = h.subrange(start, p);
            let rest = split_from(h, sep, p + 3);
            lemma_split_lossless(h, p + 3);
            lemma_split_from_last_clean(h, sep, p + 3);
            let pieces = seq![head] + rest;
            assert(pieces.drop_last() =~= seq![head] + rest.drop_last());
            assert(terminated(pieces.drop_last()) =~= seq![head + sep] + terminated(
                rest.drop_last(),
            ));
            lemma_concat_all_append(seq![head + sep], terminated(rest.drop_last()));
            lemma_concat_all_single(head + sep);
            assert(h.subrange(p, p + 3) == sep);
            assert(head + sep + h.subrange(p + 3, h.len() as int) =~= h.subrange(
                start,
                h.len() as int,
            ));
        },
        None => {
            let pieces = split_from(h, sep, start);
            assert(pieces.drop_last() =~= Seq::<Seq<u8>>::empty());
            assert(terminated(pieces.drop_last()) =~= Seq::<Seq<u8>>::empty());
            assert(Seq::<u8>::empty() + pieces.last() =~= pieces.last());
        },
    }
}

/// Reassembly loses no byte: the held bytes and the input are exactly the completed
/// messages, each followed by `END_TAG`, then the bytes held afterwards; no completed
/// message and no held byte sequence contains `END_TAG`.
pub proof fn law_reassemble_lossless(pending: Seq<u8>, input: Seq<u8>)
    ensures
        pending + input == concat_all(terminated(reassemble(pending, input).0)) + reassemble(
            pending,
            input,
        ).1,
        !contains_seq(reassemble(pending, input).1, end_tag()),
        forall|i: int|
            0 <= i < reassemble(pending, input).0.len() ==> !contains_seq(
                #[trigger] reassemble(pending, input).0[i],
                end_tag(),
            ),
{
    let h = pending + input;
    lemma_split_lossless(h, 0);
    lemma_split_from_last_clean(h, end_tag(), 0);
    assert(h.subrange(0, h.len() as int) =~= h);
    lemma_split_pieces_clean(h, 0);
}

proof fn lemma_split_pieces_clean(h: Seq<u8>, start: int)
    requires
        0 <= start <= h.len(),
    ensures
        forall|i: int|
            0 <= i < split_from(h, end_tag(), start).len() - 1 ==> !contains_seq(
                #[trigger] split_from(h, end_tag(), start)[i],
                end_tag(),
            ),
    decreases h.len() + 1 - start,
{
    let sep = end_tag();
    lemma_find_from_bounds(h, sep, start);
    match find_from(h, sep, start) {
        Some(p) => {
            lemma_split_pieces_clean(h, p + 3);
            let head = h.subrange(start, p);
            let rest = split_from(h, sep, p + 3);
            assert forall|i: int|
                0 <= i < split_from(h, sep, start).len() - 1 implies !contains_seq(
                #[trigger] split_from(h, sep, start)[i],
                sep,
            ) by {
                if i == 0 {
                    lemma_find_from_bounds(head, sep, 0);
                    if contains_seq(head, sep) {
                        let q = find_from(head, sep, 0)->0;
                        assert(h.subrange(start + q, start + q + 3) =~= head.subrange(q, q + 3));
                        assert(occurs_at(h, sep, start + q));
                    }
                } else {
                    assert(split_from(h, sep, start)[i] == rest[i - 1]);
                }
            }
        },
        None => {},
    }
}

/// Feeding the stream in pieces changes nothing: writing `x` then `y` completes the
/// same messages and holds the same bytes as writing `x + y` at once.
pub proof fn law_reassemble_streaming(pending: Seq<u8>, x: Seq<u8>, y: Seq<u8>)
    ensures
        ({
            let (first, held) = reassemble(pending, x);
            let (second, rest) = reassemble(held, y);
            reassemble(pending, x + y) == (first + second, rest)
        }),
{
    let a = pending + x;
    let sep = end_tag();
    lemma_split_from_append(a, y, sep, 0);
    lemma_split_from_last_clean(a, sep, 0);
    lemma_split_from_last_clean(split_seq(a, sep).last() + y, sep, 0);
    assert(pending + (x + y) =~= a + y);
    let pa = split_seq(a, sep);
    let pb = split_seq(pa.last() + y, sep);
    assert((pa.drop_last() + pb).drop_last() =~= pa.drop_last() + pb.drop_last());
    assert((pa.drop_last() + pb).last() == pb.last());
}

/// Any sequence of writes into a buffer in a reachable state (holding no `END_TAG`)
/// completes the messages of their concatenation.
pub proof fn law_reassemble_writes(pending: Seq<u8>, inputs: Seq<Seq<u8>>)
    requires
        !contains_seq(pending, end_tag()),
    ensures
        reassemble_writes(pending, inputs) == reassemble(pending, concat_all(inputs)),
    decreases inputs.len(),
{
    if inputs.len() == 0 {
        lemma_split_reassemble_clean(pending);
        reveal_with_fuel(concat_all, 1);
    } else {
        law_reassemble_writes(pending, inputs.drop_last());
        law_reassemble_streaming(pending, concat_all(inputs.drop_last()), inputs.last());
    }
}

proof fn lemma_split_reassemble_clean(pending: Seq<u8>)
    ensures
        !contains_seq(pending, end_tag()) ==> reassemble(pending, Seq::empty()) == (
            Seq::<Seq<u8>>::empty(),
            pending,
        ),
{
    assert(pending + Seq::<u8>::empty() =~= pending);
    if !contains_seq(pending, end_tag()) {
        lemma_split_clean(pending, end_tag());
        assert(seq![pending].drop_last() =~= Seq::<Seq<u8>>::empty());
    }
}

/// The notify chunks of a message are its bytes followed by `END_TAG`; every chunk is
/// non-empty and at most `NOTIFY_CHUNK_SIZE` bytes, all but the last exactly that many.
pub proof fn law_notify_chunks(message: Seq<u8>)
    ensures
        concat_all(notify_chunks(message)) == message + end_tag(),
        notify_chunks(message).len() >= 1,
        forall|i: int| 0 <= i < notify_chunks(message).len() ==> {
            let c = #[trigger] notify_chunks(message)[i];
            &&& 0 < c.len() <= NOTIFY_CHUNK_SIZE
            &&& i + 1 < notify_chunks(message).len() ==> c.len() == NOTIFY_CHUNK_SIZE
        },
{
    let f = message + end_tag();
    lemma_chunks_from_concat(f, 0);
    assert(f.subrange(0, f.len() as int) =~= f);
}

/// A framed notification written chunk by chunk into an empty buffer comes back as the
/// message itself, leaving the buffer empty, unless `END_TAG` shows up in the framed
/// bytes before the terminator that framing appended.
pub proof fn law_frame_then_reassemble(message: Seq<u8>)
    requires
        find_from(message + end_tag(), end_tag(), 0) == Some(message.len() as int),
    ensures
        reassemble_writes(Seq::empty(), notify_chunks(message)) == (
            seq![message],
            Seq::<u8>::empty(),
        ),
{
    let f = message + end_tag();
    law_notify_chunks(message);
    assert(find_from(Seq::<u8>::empty(), end_tag(), 0) is None);
    law_reassemble_writes(Seq::empty(), notify_chunks(message));
    assert(Seq::<u8>::empty() + f =~= f);
    let m = message.len() as int;
    assert(f.subrange(0, m) =~= message);
    let rest = split_from(f, end_tag(), m + 3);
    assert(f.subrange(m + 3, f.len() as int) =~= Seq::<u8>::empty());
    assert(rest == seq![Seq::<u8>::empty()]);
    assert(split_seq(f, end_tag()) == seq![message] + rest);
    assert((seq![message] + rest).drop_last() =~= seq![message]);
}

proof fn lemma_push_all_within(inputs: Seq<Seq<u8>>, max: usize)
    requires
        concat_all(inputs).len() <= max,
    ensures
        push_all(Seq::empty(), inputs, max) == Some(reassemble_writes(Seq::empty(), inputs)),
        reassemble_writes(Seq::empty(), inputs).1.len() <= concat_all(inputs).len(),
        !contains_seq(reassemble_writes(Seq::empty(), inputs).1, end_tag()),
    decreases inputs.len(),
{
    if inputs.len() == 0 {
        assert(find_from(Seq::<u8>::empty(), end_tag(), 0) is None);
    } else {
        let init = inputs.drop_last();
        let last = inputs.last();
        assert(concat_all(inputs) == concat_all(init) + last);
        lemma_push_all_within(init, max);
        let (done, held) = reassemble_writes(Seq::empty(), init);
        law_reassemble_lossless(held, last);
        if last.len() == 0 {
            lemma_split_reassemble_clean(held);
        }
        assert(held.len() + last.len() <= max);
    }
}

/// Writing the chunks of a framed notification into an empty buffer whose cap admits
/// the framed message never overflows, and completes exactly the message, leaving the
/// buffer empty, unless `END_TAG` shows up in the framed bytes before the terminator
/// that framing appended.
pub proof fn law_frame_then_push(message: Seq<u8>, max: usize)
    requires
        message.len() + 3 <= max,
        find_from(message + end_tag(), end_tag(), 0) == Some(message.len() as int),
    ensures
        push_all(Seq::empty(), notify_chunks(message), max) == Some(
            (seq![message], Seq::<u8>::empty()),
        ),
{
    law_notify_chunks(message);
    lemma_push_all_within(notify_chunks(message), max);
    law_frame_then_reassemble(message);
}

/// The first index where `needle` occurs in `haystack`.
fn find_subslice(haystack: &[u8], needle: &[u8]) -> (r: Option<usize>)
    ensures
        match r {
            Some(p) => find_from(haystack@, needle@, 0) == Some(p as int),
            None => find_from(haystack@, needle@, 0) is None,
        },
{
    if needle.len() == 0 {
        assert(haystack@.subrange(0, 0) =~= needle@);
        return Some(0);
    }
    if needle.len() > haystack.len() {
        return None;
    }
    let first = needle[0];
    let max = haystack.len() - needle.len();
    let mut i: usize = 0;
    while i <= max
        invariant
            max == haystack@.len() - needle@.len(),
            needle@.len() > 0,
            first == needle@[0],
            i <= max + 1,
            find_from(haystack@, needle@, 0) == find_from(haystack@, needle@, i as int),
        decreases max + 1 - i,
    {
        if haystack[i] == first && bytes_match_at(haystack, needle, i) {
            return Some(i);
        }
        proof {
            if haystack@[i as int] != first {
                assert(haystack@.subrange(i as int, i + needle@.len())[0] != needle@[0]);
            }
        }
        i += 1;
    }
    None
}

/// `needle` occurs in `haystack` at `i`.
fn bytes_match_at(haystack: &[u8], needle: &[u8], i: usize) -> (r: bool)
    requires
        i + needle@.len() <= haystack@.len(),
    ensures
        r == occurs_at(haystack@, needle@, i as int),
{
    let n = haystack.len();
    let mut j: usize = 0;
    while j < needle.len()
        invariant
            n == haystack@.len(),
            i + needle@.len() <= haystack@.len(),
            j <= needle@.len(),
            forall|k: int| 0 <= k < j ==> haystack@[i + k] == needle@[k],
        decreases needle@.len() - j,
    {
        if haystack[i + j] != needle[j] {
            assert(haystack@.subrange(i as int, i + needle@.len())[j as int] != needle@[j as int]);
            return false;
        }
        j += 1;
    }
    assert(haystack@.subrange(i as int, i + needle@.len()) =~= needle@);
    true
}

} // verus!
