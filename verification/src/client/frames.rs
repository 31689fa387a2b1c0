//! The watch stream's framing: one JSON object per line.
//!
//! A stream arrives in chunks that end anywhere. Bytes are kept until their
//! line is complete; only a newline releases a frame for decoding.
use vstd::prelude::*;
use crate::client::error::{APIError, WatcherError, WatcherErrorKind};
use crate::client::json::{decode_watch_frame, watch_frame_of, WatchFrame};

verus! {

/// The byte that ends a frame.
pub const NEWLINE: u8 = 10;

/// The frames that `chunk` completes, in order, when `pending` holds the
/// bytes kept from before. A frame is what stands between two newlines,
/// without them.
pub open spec fn frames_after(pending: Seq<u8>, chunk: Seq<u8>) -> Seq<Seq<u8>>
    decreases chunk.len(),
{
    if chunk.len() == 0 {
        Seq::empty()
    } else if chunk.last() == NEWLINE {
        frames_after(pending, chunk.drop_last()).push(pending_after(pending, chunk.drop_last()))
    } else {
        frames_after(pending, chunk.drop_last())
    }
}

/// The bytes that are kept after `chunk`: what follows its last newline,
/// behind `pending` where it holds none.
pub open spec fn pending_after(pending: Seq<u8>, chunk: Seq<u8>) -> Seq<u8>
    decreases chunk.len(),
{
    if chunk.len() == 0 {
        pending
    } else if chunk.last() == NEWLINE {
        Seq::empty()
    } else {
        pending_after(pending, chunk.drop_last()).push(chunk.last())
    }
}

/// The frames, each with its newline put back, one after the other.
pub open spec fn joined(frames: Seq<Seq<u8>>) -> Seq<u8>
    decreases frames.len(),
{
    if frames.len() == 0 {
        Seq::empty()
    } else {
        joined(frames.drop_last()) + frames.last().push(NEWLINE)
    }
}

/// No byte of `bytes` is a newline.
pub open spec fn newline_free(bytes: Seq<u8>) -> bool {
    forall|i: int| 0 <= i < bytes.len() ==> bytes[i] != NEWLINE
}

/// Framing loses and invents nothing: the frames with their newlines,
/// followed by what is kept, are the bytes that came in.
pub proof fn lemma_framing_keeps_bytes(pending: Seq<u8>, chunk: Seq<u8>)
    ensures
        joined(frames_after(pending, chunk)) + pending_after(pending, chunk) == pending + chunk,
    decreases chunk.len(),
{
    if chunk.len() == 0 {
        assert(pending + chunk == pending);
        assert(joined(frames_after(pending, chunk)) + pending == pending);
    } else {
        let before = chunk.drop_last();
        lemma_framing_keeps_bytes(pending, before);
        assert(pending + chunk == (pending + before).push(chunk.last()));
        if chunk.last() == NEWLINE {
            let frames = frames_after(pending, chunk);
            assert(frames.drop_last() == frames_after(pending, before));
            assert(frames.last() == pending_after(pending, before));
            assert(joined(frames) + Seq::<u8>::empty() == joined(frames));
            assert(joined(frames_after(pending, before)) + pending_after(pending, before).push(
                NEWLINE,
            ) == (joined(frames_after(pending, before)) + pending_after(pending, before)).push(
                NEWLINE,
            ));
        } else {
            assert(joined(frames_after(pending, before)) + pending_after(pending, before).push(
                chunk.last(),
            ) == (joined(frames_after(pending, before)) + pending_after(pending, before)).push(
                chunk.last(),
            ));
        }
    }
}

/// A frame never holds a newline, nor does what is kept: a line is handed
/// on whole or not at all.
pub proof fn lemma_frames_are_lines(pending: Seq<u8>, chunk: Seq<u8>)
    requires
        newline_free(pending),
    ensures
        newline_free(pending_after(pending, chunk)),
        forall|i: int|
            0 <= i < frames_after(pending, chunk).len() ==> newline_free(
                #[trigger] frames_after(pending, chunk)[i],
            ),
    decreases chunk.len(),
{
    if chunk.len() > 0 {
        let before = chunk.drop_last();
        lemma_frames_are_lines(pending, before);
        let frames = frames_after(pending, chunk);
        assert forall|i: int| 0 <= i < frames.len() implies newline_free(#[trigger] frames[i]) by {
            if i < frames_after(pending, before).len() {
                assert(frames[i] == frames_after(pending, before)[i]);
            } else {
                assert(frames[i] == pending_after(pending, before));
            }
        }
    }
}

/// A chunk without a newline completes no frame: all of it is kept.
pub proof fn lemma_partial_chunk_is_kept(pending: Seq<u8>, chunk: Seq<u8>)
    requires
        newline_free(chunk),
    ensures
        frames_after(pending, chunk).len() == 0,
        pending_after(pending, chunk) == pending + chunk,
    decreases chunk.len(),
{
    if chunk.len() == 0 {
        assert(pending + chunk == pending);
    } else {
        let before = chunk.drop_last();
        assert(newline_free(before)) by {
            assert forall|i: int| 0 <= i < before.len() implies before[i] != NEWLINE by {
                assert(before[i] == chunk[i]);
            }
        }
        lemma_partial_chunk_is_kept(pending, before);
        assert(chunk.last() == chunk[chunk.len() - 1]);
        assert(pending + chunk == (pending + before).push(chunk.last()));
    }
}

/// Takes `chunk` into the framing: returns the frames that it completes
/// and keeps the rest in `pending` for the next chunk.
pub fn split_frames(pending: &mut Vec<u8>, chunk: &[u8]) -> (frames: Vec<Vec<u8>>)
    ensures
        frames.len() == frames_after(old(pending)@, chunk@).len(),
        forall|i: int|
            0 <= i < frames.len() ==> (#[trigger] frames[i])@ == frames_after(
                old(pending)@,
                chunk@,
            )[i],
        final(pending)@ == pending_after(old(pending)@, chunk@),
{
    let mut frames: Vec<Vec<u8>> = Vec::new();
    let mut i: usize = 0;
    assert(chunk@.take(0) == Seq::<u8>::empty());
    while i < chunk.len()
        invariant
            i <= chunk.len(),
            frames.len() == frames_after(old(pending)@, chunk@.take(i as int)).len(),
            forall|k: int|
                0 <= k < frames.len() ==> (#[trigger] frames[k])@ == frames_after(
                    old(pending)@,
                    chunk@.take(i as int),
                )[k],
            pending@ == pending_after(old(pending)@, chunk@.take(i as int)),
        decreases chunk.len() - i,
    {
        let byte = chunk[i];
        proof {
            let next = chunk@.take(i + 1);
            assert(next.drop_last() == chunk@.take(i as int));
            assert(next.last() == byte);
        }
        if byte == NEWLINE {
            let mut frame: Vec<u8> = Vec::new();
            std::mem::swap(pending, &mut frame);
            frames.push(frame);
        } else {
            pending.push(byte);
        }
        i += 1;
    }
    assert(chunk@.take(i as int) == chunk@);
    frames
}

/// Every frame of `frames` decodes.
pub open spec fn all_decode(frames: Seq<Seq<u8>>) -> bool {
    forall|i: int| 0 <= i < frames.len() ==> watch_frame_of(#[trigger] frames[i]) is Some
}

/// Decodes complete frames, in order. The first frame that is no watch
/// event fails them all: the stream's position can no longer be trusted.
pub fn decode_frames(frames: &Vec<Vec<u8>>) -> (decoded: Result<Vec<WatchFrame>, WatcherError>)
    ensures
        decoded is Ok <==> all_decode(frames@.map_values(|f: Vec<u8>| f@)),
        decoded is Ok ==> decoded->Ok_0.len() == frames.len() && forall|i: int|
            0 <= i < frames.len() ==> Some(#[trigger] decoded->Ok_0[i]) == watch_frame_of(
                frames[i]@,
            ),
        decoded is Err ==> decoded->Err_0.cause == WatcherErrorKind::StreamNextError
            && decoded->Err_0.error is JsonParse,
{
    let ghost lines = frames@.map_values(|f: Vec<u8>| f@);
    let mut events: Vec<WatchFrame> = Vec::new();
    let mut i: usize = 0;
    while i < frames.len()
        invariant
            i <= frames.len(),
            lines == frames@.map_values(|f: Vec<u8>| f@),
            events.len() == i,
            forall|k: int|
                0 <= k < i ==> Some(#[trigger] events[k]) == watch_frame_of(frames[k]@),
        decreases frames.len() - i,
    {
        match decode_watch_frame(frames[i].as_slice()) {
            Ok(event) => {
                events.push(event);
            },
            Err(e) => {
                assert(lines[i as int] == frames[i as int]@);
                assert(!all_decode(lines));
                return Err(WatcherError::next(APIError::JsonParse(e)));
            },
        }
        i += 1;
    }
    assert(all_decode(lines)) by {
        assert forall|k: int| 0 <= k < lines.len() implies watch_frame_of(
            #[trigger] lines[k],
        ) is Some by {
            assert(lines[k] == frames[k]@);
            assert(Some(events[k]) == watch_frame_of(frames[k]@));
        }
    }
    Ok(events)
}

/// Reads one chunk of the stream: frames it, then decodes the frames that
/// it completed. What the chunk leaves unfinished stays in `pending`.
pub fn get_events(pending: &mut Vec<u8>, chunk: &[u8]) -> (events: Result<
    Vec<WatchFrame>,
    WatcherError,
>)
    ensures
        final(pending)@ == pending_after(old(pending)@, chunk@),
        events is Ok <==> all_decode(frames_after(old(pending)@, chunk@)),
        events is Ok ==> events->Ok_0.len() == frames_after(old(pending)@, chunk@).len()
            && forall|i: int|
            0 <= i < events->Ok_0.len() ==> Some(#[trigger] events->Ok_0[i]) == watch_frame_of(
                frames_after(old(pending)@, chunk@)[i],
            ),
        events is Err ==> events->Err_0.cause == WatcherErrorKind::StreamNextError
            && events->Err_0.error is JsonParse,
{
    let frames = split_frames(pending, chunk);
    assert(frames@.map_values(|f: Vec<u8>| f@) == frames_after(old(pending)@, chunk@));
    decode_frames(&frames)
}

} // verus!
