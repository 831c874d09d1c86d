//! Chunked file transfer.
//!
//! Uploads and downloads are streamed in fixed-size chunks to bound
//! memory. This module owns the arithmetic of that streaming: how a
//! payload is cut into chunks and how arriving chunks are reassembled.
//! The round-trip law — reassembling the chunks of a payload yields
//! exactly that payload — is proved here.

use vstd::prelude::*;
use vstd::slice::{slice_subrange, slice_to_vec};

verus! {

/// Size of one transfer chunk in bytes.
pub const TRANSFER_CHUNK: usize = 32768;

/// The chunks a payload is streamed as: full chunks of
/// [`TRANSFER_CHUNK`] bytes, then the remainder, if any.
pub open spec fn chunks_of(data: Seq<u8>) -> Seq<Seq<u8>>
    decreases data.len(),
{
    if data.len() == 0 {
        Seq::empty()
    } else if data.len() <= TRANSFER_CHUNK {
        seq![data]
    } else {
        seq![data.take(TRANSFER_CHUNK as int)] + chunks_of(data.skip(TRANSFER_CHUNK as int))
    }
}

/// Law (round trip): concatenating the chunks of a payload gives back
/// exactly that payload, for every payload — empty, shorter than one
/// chunk, or spanning many chunks.
pub proof fn lemma_chunks_round_trip(data: Seq<u8>)
    ensures
        chunks_of(data).flatten() == data,
    decreases data.len(),
{
    if data.len() == 0 {
        assert(chunks_of(data).flatten() =~= data);
    } else if data.len() <= TRANSFER_CHUNK {
        seq![data].lemma_flatten_one_element();
    } else {
        let head = data.take(TRANSFER_CHUNK as int);
        let tail = data.skip(TRANSFER_CHUNK as int);
        lemma_chunks_round_trip(tail);
        vstd::seq_lib::lemma_flatten_concat(seq![head], chunks_of(tail));
        seq![head].lemma_flatten_one_element();
        assert(head + tail =~= data);
    }
}

/// Cuts a payload into transfer chunks. Every chunk is non-empty and at
/// most [`TRANSFER_CHUNK`] bytes; together, in order, the chunks are
/// exactly the payload.
pub fn split_into_chunks(data: &[u8]) -> (r: Vec<Vec<u8>>)
    ensures
        r@.map_values(|c: Vec<u8>| c@) == chunks_of(data@),
        r@.map_values(|c: Vec<u8>| c@).flatten() == data@,
{
    let n = data.len();
    let mut r: Vec<Vec<u8>> = Vec::new();
    let mut i: usize = 0;
    proof {
        assert(r@.map_values(|c: Vec<u8>| c@) =~= Seq::<Seq<u8>>::empty());
        assert(data@.skip(0) =~= data@);
        assert(Seq::<Seq<u8>>::empty() + chunks_of(data@) =~= chunks_of(data@));
    }
    while i < n
        invariant
            n == data@.len(),
            i <= n,
            i < n ==> i % TRANSFER_CHUNK == 0,
            r@.map_values(|c: Vec<u8>| c@) + chunks_of(data@.skip(i as int)) == chunks_of(data@),
        decreases n - i,
    {
        let end = if n - i > TRANSFER_CHUNK {
            i + TRANSFER_CHUNK
        } else {
            n
        };
        let chunk = slice_to_vec(slice_subrange(data, i, end));
        let ghost rpre = r@;
        r.push(chunk);
        proof {
            let rest = data@.skip(i as int);
            assert(rest.len() == n - i);
            if n - i > TRANSFER_CHUNK {
                assert(chunks_of(rest) == seq![rest.take(TRANSFER_CHUNK as int)]
                    + chunks_of(rest.skip(TRANSFER_CHUNK as int)));
                assert(rest.take(TRANSFER_CHUNK as int) =~= data@.subrange(i as int, end as int));
                assert(rest.skip(TRANSFER_CHUNK as int) =~= data@.skip(end as int));
            } else {
                assert(chunks_of(rest) == seq![rest]);
                assert(rest =~= data@.subrange(i as int, end as int));
                assert(chunks_of(data@.skip(end as int)) =~= Seq::<Seq<u8>>::empty());
            }
            assert(r@.map_values(|c: Vec<u8>| c@) =~=
                rpre.map_values(|c: Vec<u8>| c@).push(data@.subrange(i as int, end as int)));
            assert(r@.map_values(|c: Vec<u8>| c@) + chunks_of(data@.skip(end as int)) =~=
                chunks_of(data@));
        }
        i = end;
    }
    proof {
        assert(data@.skip(i as int) =~= Seq::<u8>::empty());
        assert(r@.map_values(|c: Vec<u8>| c@) =~= chunks_of(data@));
        lemma_chunks_round_trip(data@);
    }
    r
}

/// Reassembles arriving chunks in order. Together with
/// [`split_into_chunks`] and [`lemma_chunks_round_trip`], downloading
/// what was uploaded yields exactly the original bytes.
pub fn assemble_chunks(chunks: &Vec<Vec<u8>>) -> (r: Vec<u8>)
    ensures
        r@ == chunks@.map_values(|c: Vec<u8>| c@).flatten(),
{
    let mut r: Vec<u8> = Vec::new();
    let n = chunks.len();
    let mut i: usize = 0;
    while i < n
        invariant
            n == chunks@.len(),
            i <= n,
            r@ == chunks@.map_values(|c: Vec<u8>| c@).take(i as int).flatten(),
        decreases n - i,
    {
        let ghost rpre = r@;
        r.extend_from_slice(chunks[i].as_slice());
        proof {
            let m = chunks@.map_values(|c: Vec<u8>| c@);
            assert(r@ =~= rpre + m[i as int]);
            assert(m.take(i + 1) =~= m.take(i as int).push(m[i as int]));
            m.take(i as int).lemma_flatten_push(m[i as int]);
        }
        i += 1;
    }
    proof {
        let m = chunks@.map_values(|c: Vec<u8>| c@);
        assert(m.take(n as int) =~= m);
    }
    r
}

/// The byte count a transfer reports: exactly the payload size.
pub fn transfer_byte_count(data: &[u8]) -> (r: u64)
    requires
        data@.len() <= u64::MAX,
    ensures
        r == data@.len(),
{
    data.len() as u64
}

} // verus!
