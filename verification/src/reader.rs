//! The connection reader: turns the bytes of a stream, in whatever pieces
//! they arrive, into the frames they hold.
//!
//! A read may bring part of a frame, several frames, or the end of one frame
//! and the start of the next. The reader keeps what has arrived and not yet
//! been used, and hands out frames from its front.

use crate::error::DeserializerError;
use crate::frame::{lemma_parse_frame_shape, parse_frame, Frame, FrameView};
use crate::protocols::Catalog;
use crate::wire::write_bytes;
use vstd::prelude::*;

verus! {

/// What the front of the accumulated bytes holds.
#[derive(Debug, Clone, PartialEq, Eq)]
pub enum ReadOutcome {
    /// A complete frame, which has been taken out of the reader.
    Frame(Frame),
    /// The frame at the front is not complete yet: more bytes are needed.
    Incomplete,
    /// The bytes at the front are no frame and never will be. The stream
    /// cannot be read any further.
    Corrupt(DeserializerError),
}

/// The bytes of one connection that have arrived and not yet been used.
#[derive(Debug)]
pub struct FrameReader {
    buffer: Vec<u8>,
}

/// What taking frames from the front of `data`, as long as there are whole
/// ones, gives: the frames, the bytes left, and the reason the stream cannot
/// be read any further, if there is one.
pub open spec fn drain(data: Seq<u8>, catalog: Catalog) -> (Seq<FrameView>, Seq<u8>, Option<
    DeserializerError,
>)
    decreases data.len(),
{
    match parse_frame(data, catalog) {
        Ok((frame, n)) => {
            if 0 < n <= data.len() {
                let (frames, rest, fatal) = drain(data.skip(n), catalog);
                (seq![frame] + frames, rest, fatal)
            } else {
                (Seq::empty(), data, None)
            }
        },
        Err(DeserializerError::TruncatedFrame) => (Seq::empty(), data, None),
        Err(e) => (Seq::empty(), data, Some(e)),
    }
}

/// The views of a list of frames.
pub open spec fn frame_views(frames: Seq<Frame>) -> Seq<FrameView> {
    Seq::new(frames.len(), |i: int| frames[i]@)
}

/// Whatever is decided about a buffer, other than that it is too short,
/// stays decided when more bytes arrive.
pub proof fn lemma_parse_frame_extension(data: Seq<u8>, more: Seq<u8>, catalog: Catalog)
    requires
        parse_frame(data, catalog) != Err::<(FrameView, int), _>(
            DeserializerError::TruncatedFrame,
        ),
    ensures
        parse_frame(data + more, catalog) == parse_frame(data, catalog),
{
    let longer = data + more;
    assert(longer[0] == data[0]);
    if catalog.spec_field_count(data[0]) is Some {
        assert(longer.subrange(1, 9) =~= data.subrange(1, 9));
        assert(longer.subrange(9, 13) =~= data.subrange(9, 13));
        assert(longer.subrange(13, 17) =~= data.subrange(13, 17));
        let n = crate::wire::u32_of_le(data.subrange(13, 17)) as int;
        assert(longer.subrange(17, 17 + n) =~= data.subrange(17, 17 + n));
    }
}

/// Reading a stream does not depend on how it was cut into pieces: the
/// frames of two pieces put together are the frames of the first piece,
/// followed by the frames of what the first piece left and the second.
pub proof fn lemma_drain_in_pieces(first: Seq<u8>, second: Seq<u8>, catalog: Catalog)
    ensures
        ({
            let (frames, rest, fatal) = drain(first, catalog);
            let (more_frames, more_rest, more_fatal) = drain(rest + second, catalog);
            fatal is None ==> drain(first + second, catalog) == (
                frames + more_frames,
                more_rest,
                more_fatal,
            )
        }),
    decreases first.len(),
{
    let (frames, rest, fatal) = drain(first, catalog);
    let (more_frames, more_rest, more_fatal) = drain(rest + second, catalog);
    match parse_frame(first, catalog) {
        Ok((frame, n)) => {
            lemma_parse_frame_shape(first, catalog);
            lemma_parse_frame_extension(first, second, catalog);
            lemma_drain_in_pieces(first.skip(n), second, catalog);
            assert((first + second).skip(n) =~= first.skip(n) + second);
            let (inner, _, _) = drain(first.skip(n), catalog);
            assert(seq![frame] + (inner + more_frames) =~= (seq![frame] + inner) + more_frames);
        },
        Err(DeserializerError::TruncatedFrame) => {
            assert(Seq::<FrameView>::empty() + more_frames =~= more_frames);
        },
        Err(e) => {},
    }
}

impl View for FrameReader {
    type V = Seq<u8>;

    /// The bytes that have arrived and not yet been used.
    closed spec fn view(&self) -> Seq<u8> {
        self.buffer@
    }
}

impl FrameReader {
    /// A reader that holds no bytes.
    pub fn new() -> (reader: Self)
        ensures
            reader@ == Seq::<u8>::empty(),
    {
        FrameReader { buffer: Vec::new() }
    }

    /// The number of bytes that have arrived and not yet been used.
    pub fn pending(&self) -> (n: usize)
        ensures
            n == self@.len(),
    {
        self.buffer.len()
    }

    /// Takes in the bytes of one read.
    pub fn push_bytes(&mut self, bytes: &[u8])
        ensures
            final(self)@ == old(self)@ + bytes@,
    {
        write_bytes(&mut self.buffer, bytes);
    }

    /// Takes the frame at the front out of the reader, if a whole one is
    /// there. Otherwise the reader is left as it is.
    pub fn next_frame(&mut self, catalog: Catalog) -> (outcome: ReadOutcome)
        ensures
            match parse_frame(old(self)@, catalog) {
                Ok((frame, n)) => outcome matches ReadOutcome::Frame(f) && f@ == frame
                    && final(self)@ == old(self)@.skip(n),
                Err(DeserializerError::TruncatedFrame) => outcome is Incomplete && final(self)@
                    == old(self)@,
                Err(e) => outcome == ReadOutcome::Corrupt(e) && final(self)@ == old(self)@,
            },
    {
        match Frame::decode(self.buffer.as_slice(), catalog) {
            Ok((frame, used)) => {
                proof {
                    lemma_parse_frame_shape(self.buffer@, catalog);
                }
                let rest = self.buffer.split_off(used);
                self.buffer = rest;
                assert(self.buffer@ =~= old(self)@.skip(used as int));
                ReadOutcome::Frame(frame)
            },
            Err(DeserializerError::TruncatedFrame) => ReadOutcome::Incomplete,
            Err(e) => ReadOutcome::Corrupt(e),
        }
    }

    /// Takes in the bytes of one read and takes out every whole frame that
    /// the reader then holds, in order. The second part of the result is the
    /// reason the stream cannot be read any further, if there is one.
    pub fn feed(&mut self, bytes: &[u8], catalog: Catalog) -> (r: (
        Vec<Frame>,
        Option<DeserializerError>,
    ))
        ensures
            ({
                let (frames, rest, fatal) = drain(old(self)@ + bytes@, catalog);
                &&& frame_views(r.0@) == frames
                &&& final(self)@ == rest
                &&& r.1 == fatal
            }),
    {
        self.push_bytes(bytes);
        let ghost start = self@;
        let mut frames: Vec<Frame> = Vec::new();
        let mut fatal: Option<DeserializerError> = None;
        proof {
            let (fs, _, _) = drain(start, catalog);
            assert(frame_views(frames@) + fs =~= fs);
        }
        loop
            invariant_except_break
                fatal is None,
                ({
                    let (fs, rest, err) = drain(self@, catalog);
                    drain(start, catalog) == (frame_views(frames@) + fs, rest, err)
                }),
            ensures
                drain(start, catalog) == (frame_views(frames@), self@, fatal),
            decreases self@.len(),
        {
            let ghost before = self@;
            match self.next_frame(catalog) {
                ReadOutcome::Frame(frame) => {
                    proof {
                        lemma_parse_frame_shape(before, catalog);
                        let (fs, _, _) = drain(self@, catalog);
                        assert(frame_views(frames@.push(frame)) =~= frame_views(frames@)
                            + seq![frame@]);
                        assert(frame_views(frames@) + (seq![frame@] + fs) =~= frame_views(
                            frames@.push(frame),
                        ) + fs);
                    }
                    frames.push(frame);
                },
                ReadOutcome::Incomplete => {
                    proof {
                        assert(frame_views(frames@) + Seq::<FrameView>::empty() =~= frame_views(
                            frames@,
                        ));
                    }
                    break ;
                },
                ReadOutcome::Corrupt(e) => {
                    proof {
                        assert(frame_views(frames@) + Seq::<FrameView>::empty() =~= frame_views(
                            frames@,
                        ));
                    }
                    fatal = Some(e);
                    break ;
                },
            }
        }
        (frames, fatal)
    }
}

} // verus!
