//! The framed stream adapter: a byte-stream view over AEAD frames.
//!
//! The writer side is `Encrypter::enc_aead_frame`: one frame per write.
//! The reader side is `FrameReader`: transport bytes are staged however
//! they happen to arrive, whole frames are extracted and decrypted, and
//! their plaintexts are delivered in order as one byte stream. A frame
//! larger than the staging capacity, and any frame that fails to decode,
//! is fatal to the adapter.

use vstd::prelude::*;

use crate::codec::{decode_spec, slice_range, CodecError, Encrypter};
use crate::packet::push_bytes;

verus! {

/// Capacity of the staging buffer, which bounds the largest frame the
/// reader accepts.
pub const STAGING_CAP: usize = 16192;

/// The whole-frame size named by a length prefix: the two length bytes
/// plus the value they hold.
pub open spec fn frame_size(s: Seq<u8>) -> int {
    2 + (s[0] as int) * 256 + (s[1] as int)
}

/// What one draining pass over staged bytes yields: the plaintext of every
/// whole frame in order, the bytes left staged, and the error that stopped
/// the pass, if one did.
#[verifier::ext_equal]
pub ghost struct DrainResult {
    pub out: Seq<u8>,
    pub rest: Seq<u8>,
    pub err: Option<CodecError>,
}

/// Drains staged bytes: while a whole frame is at the front, decode it and
/// append its plaintext; stop at a partial frame, keeping it staged. A
/// frame announcing more than the staging capacity, or one that fails to
/// decode, stops the pass with its error and stays staged.
pub open spec fn drain(key: Seq<u8>, s: Seq<u8>) -> DrainResult
    decreases s.len(),
{
    if s.len() < 2 {
        DrainResult { out: Seq::empty(), rest: s, err: None }
    } else {
        let fl = frame_size(s);
        if fl > STAGING_CAP {
            DrainResult { out: Seq::empty(), rest: s, err: Some(CodecError::Protocol) }
        } else if s.len() < fl {
            DrainResult { out: Seq::empty(), rest: s, err: None }
        } else {
            match decode_spec(key, s.take(fl)) {
                Ok(p) => {
                    let d = drain(key, s.skip(fl));
                    DrainResult { out: p + d.out, rest: d.rest, err: d.err }
                },
                Err(e) => DrainResult { out: Seq::empty(), rest: s, err: Some(e) },
            }
        }
    }
}

/// The reader half of the adapter: staged transport bytes, decoded
/// plaintext not yet taken by the caller, and the codec.
pub struct FrameReader {
    enc: Encrypter,
    staging: Vec<u8>,
    out: Vec<u8>,
}

impl FrameReader {
    /// The reader is well formed when its codec is and its staging buffer
    /// respects the capacity.
    pub closed spec fn wf(&self) -> bool {
        &&& self.enc.wf()
        &&& self.staging@.len() <= STAGING_CAP
    }

    /// The key frames are decoded under.
    pub closed spec fn key(&self) -> Seq<u8> {
        self.enc.key()
    }

    /// The transport bytes staged and not yet part of a whole frame.
    pub closed spec fn staging(&self) -> Seq<u8> {
        self.staging@
    }

    /// The decoded plaintext the caller has not taken yet.
    pub closed spec fn out(&self) -> Seq<u8> {
        self.out@
    }

    pub fn new(enc: Encrypter) -> (r: Self)
        requires
            enc.wf(),
        ensures
            r.wf(),
            r.key() == enc.key(),
            r.staging() == Seq::<u8>::empty(),
            r.out() == Seq::<u8>::empty(),
    {
        FrameReader { enc, staging: Vec::new(), out: Vec::new() }
    }

    /// How many more transport bytes the reader can stage.
    pub fn staging_vacant(&self) -> (r: usize)
        requires
            self.wf(),
        ensures
            r == STAGING_CAP - self.staging().len(),
    {
        STAGING_CAP - self.staging.len()
    }

    /// How much decoded plaintext is ready to take.
    pub fn available(&self) -> (r: usize)
        ensures
            r == self.out().len(),
    {
        self.out.len()
    }

    /// Stages one chunk of transport bytes, however the transport split
    /// them, and drains every whole frame now present: exactly the `drain`
    /// pass over the staged bytes. An error is fatal to the adapter.
    pub fn push_transport_bytes(&mut self, chunk: &[u8]) -> (r: Result<(), CodecError>)
        requires
            old(self).wf(),
            old(self).staging().len() + chunk@.len() <= STAGING_CAP,
        ensures
            final(self).wf(),
            final(self).key() == old(self).key(),
            ({
                let d = drain(old(self).key(), old(self).staging() + chunk@);
                &&& final(self).out() == old(self).out() + d.out
                &&& final(self).staging() == d.rest
                &&& match r {
                    Ok(u) => d.err is None,
                    Err(e) => d.err == Some(e),
                }
            }),
    {
        let ghost key = self.enc.key();
        let ghost whole = self.staging@ + chunk@;
        let ghost out0 = self.out@;
        push_bytes(&mut self.staging, chunk);
        let ghost mut acc: Seq<u8> = Seq::empty();
        proof {
            assert(out0 + acc =~= out0);
        }
        loop
            invariant
                self.enc == old(self).enc,
                key == old(self).key(),
                out0 == old(self).out(),
                whole == old(self).staging() + chunk@,
                self.enc.wf(),
                self.enc.key() == key,
                self.staging@.len() <= STAGING_CAP,
                self.out@ == out0 + acc,
                drain(key, whole).out == acc + drain(key, self.staging@).out,
                drain(key, whole).rest == drain(key, self.staging@).rest,
                drain(key, whole).err == drain(key, self.staging@).err,
            decreases self.staging@.len(),
        {
            if self.staging.len() < 2 {
                proof {
                    assert(drain(key, self.staging@) == DrainResult {
                        out: Seq::<u8>::empty(),
                        rest: self.staging@,
                        err: None,
                    });
                    assert(acc + Seq::<u8>::empty() =~= acc);
                }
                return Ok(());
            }
            let fl = crate::codec::frame_len(self.staging[0], self.staging[1]);
            if fl > STAGING_CAP {
                proof {
                    assert(drain(key, self.staging@) == DrainResult {
                        out: Seq::<u8>::empty(),
                        rest: self.staging@,
                        err: Some(CodecError::Protocol),
                    });
                    assert(acc + Seq::<u8>::empty() =~= acc);
                }
                return Err(CodecError::Protocol);
            }
            if self.staging.len() < fl {
                proof {
                    assert(drain(key, self.staging@) == DrainResult {
                        out: Seq::<u8>::empty(),
                        rest: self.staging@,
                        err: None,
                    });
                    assert(acc + Seq::<u8>::empty() =~= acc);
                }
                return Ok(());
            }
            let frame = slice_range(self.staging.as_slice(), 0, fl);
            proof {
                assert(frame@ =~= self.staging@.take(fl as int));
            }
            let ghost sold = self.staging@;
            let ghost acc0 = acc;
            match self.enc.dec_aead_frame(frame.as_slice()) {
                Ok(p) => {
                    let rest = slice_range(self.staging.as_slice(), fl, self.staging.len());
                    proof {
                        assert(rest@ =~= sold.skip(fl as int));
                    }
                    push_bytes(&mut self.out, p.as_slice());
                    self.staging = rest;
                    proof {
                        acc = acc0 + p@;
                        let dnew = drain(key, sold.skip(fl as int));
                        assert(drain(key, sold) == DrainResult {
                            out: p@ + dnew.out,
                            rest: dnew.rest,
                            err: dnew.err,
                        });
                        assert((out0 + acc0) + p@ =~= out0 + (acc0 + p@));
                        assert(acc0 + (p@ + dnew.out) =~= (acc0 + p@) + dnew.out);
                    }
                },
                Err(e) => {
                    proof {
                        assert(drain(key, sold) == DrainResult {
                            out: Seq::<u8>::empty(),
                            rest: sold,
                            err: Some(e),
                        });
                        assert(acc0 + Seq::<u8>::empty() =~= acc0);
                    }
                    return Err(e);
                },
            }
        }
    }

    /// Takes up to `max` bytes of decoded plaintext, in order.
    pub fn take_output(&mut self, max: usize) -> (r: Vec<u8>)
        ensures
            final(self).wf() == old(self).wf(),
            final(self).key() == old(self).key(),
            final(self).staging() == old(self).staging(),
            ({
                let n = if max <= old(self).out().len() {
                    max as int
                } else {
                    old(self).out().len() as int
                };
                &&& r@ == old(self).out().take(n)
                &&& final(self).out() == old(self).out().skip(n)
            }),
    {
        let n = if max <= self.out.len() {
            max
        } else {
            self.out.len()
        };
        let taken = slice_range(self.out.as_slice(), 0, n);
        let rest = slice_range(self.out.as_slice(), n, self.out.len());
        proof {
            assert(taken@ =~= self.out@.take(n as int));
            assert(rest@ =~= self.out@.skip(n as int));
        }
        self.out = rest;
        taken
    }
}

/// A well-formed frame under a key: its length prefix names its own
/// length, it fits the staging buffer, and it decodes to `plain`. This is
/// what `Encrypter::enc_aead_frame` ensures of every frame it returns.
pub open spec fn frame_ok(key: Seq<u8>, f: Seq<u8>, plain: Seq<u8>) -> bool {
    &&& 2 <= f.len() <= STAGING_CAP
    &&& frame_size(f) == f.len()
    &&& decode_spec(key, f) == Ok::<Seq<u8>, CodecError>(plain)
}

/// Every frame the encoder returns satisfies `frame_ok` for its
/// plaintext, provided it fits the staging buffer: the hypothesis of the
/// framing-boundary law holds of encoded frames. The three cipher facts
/// in the hypothesis are what `Encrypter::enc_aead_frame` ensures of
/// every frame it returns, for the nonce it drew.
pub proof fn lemma_encoded_frame_ok(key: Seq<u8>, nonce: Seq<u8>, plain: Seq<u8>)
    requires
        nonce.len() == crate::codec::NONCE_LEN,
        plain.len() + 42 <= STAGING_CAP,
        crate::codec::seal_of(key, nonce, plain).len() == plain.len() + crate::codec::TAG_LEN,
        crate::codec::open_of(key, nonce, crate::codec::seal_of(key, nonce, plain)) == Some(plain),
    ensures
        frame_ok(key, crate::codec::frame_of(key, nonce, plain), plain),
{
    crate::codec::lemma_codec_round_trip(key, nonce, plain);
    let f = crate::codec::frame_of(key, nonce, plain);
    let len = crate::codec::NONCE_LEN + plain.len() + crate::codec::TAG_LEN;
    assert(f[0] == (len / 256) as u8 && f[1] == (len % 256) as u8);
    assert((f[0] as int) * 256 + (f[1] as int) == len);
}

/// The concatenation of a sequence of byte strings.
pub open spec fn concat_all(xs: Seq<Seq<u8>>) -> Seq<u8>
    decreases xs.len(),
{
    if xs.len() == 0 {
        Seq::empty()
    } else {
        xs[0] + concat_all(xs.skip(1))
    }
}

/// The reader's state between pushes: staged bytes, plaintext delivered
/// so far, and the error that stopped it, if any.
#[verifier::ext_equal]
pub ghost struct ReaderState {
    pub staging: Seq<u8>,
    pub out: Seq<u8>,
    pub err: Option<CodecError>,
}

/// The reader run over a sequence of transport chunks: each step stages
/// one chunk and drains, exactly as one `push_transport_bytes` call does;
/// an error ends the run.
pub open spec fn run_reader(key: Seq<u8>, st: ReaderState, chunks: Seq<Seq<u8>>) -> ReaderState
    decreases chunks.len(),
{
    if chunks.len() == 0 || st.err is Some {
        st
    } else {
        let d = drain(key, st.staging + chunks[0]);
        run_reader(
            key,
            ReaderState { staging: d.rest, out: st.out + d.out, err: d.err },
            chunks.skip(1),
        )
    }
}

/// Draining bytes and then more bytes equals draining them together: the
/// pass is insensitive to where the transport split its deliveries.
proof fn lemma_drain_compose(key: Seq<u8>, s: Seq<u8>, t: Seq<u8>)
    requires
        drain(key, s).err is None,
    ensures
        ({
            let d1 = drain(key, s);
            let d2 = drain(key, d1.rest + t);
            &&& drain(key, s + t).out == d1.out + d2.out
            &&& drain(key, s + t).rest == d2.rest
            &&& drain(key, s + t).err == d2.err
        }),
    decreases s.len(),
{
    let d1 = drain(key, s);
    if s.len() < 2 {
        assert(s + t =~= d1.rest + t);
        assert(Seq::<u8>::empty() + drain(key, d1.rest + t).out =~= drain(key, d1.rest + t).out);
    } else {
        let fl = frame_size(s);
        if s.len() < fl {
            assert(s + t =~= d1.rest + t);
            assert(Seq::<u8>::empty() + drain(key, d1.rest + t).out =~= drain(
                key,
                d1.rest + t,
            ).out);
        } else {
            assert((s + t)[0] == s[0] && (s + t)[1] == s[1]);
            assert(frame_size(s + t) == fl);
            assert((s + t).take(fl) =~= s.take(fl));
            match decode_spec(key, s.take(fl)) {
                Ok(p) => {
                    assert((s + t).skip(fl) =~= s.skip(fl) + t);
                    let dr = drain(key, s.skip(fl));
                    lemma_drain_compose(key, s.skip(fl), t);
                    let d2 = drain(key, dr.rest + t);
                    assert(p + (dr.out + d2.out) =~= (p + dr.out) + d2.out);
                },
                Err(e) => {
                    assert(false);
                },
            }
        }
    }
}

/// Draining any prefix of a stream of well-formed frames never errors:
/// whole frames at the front decode, and a partial frame waits.
proof fn lemma_drain_prefix_ok(key: Seq<u8>, frames: Seq<Seq<u8>>, plains: Seq<Seq<u8>>, p: Seq<
    u8,
>)
    requires
        frames.len() == plains.len(),
        forall|i: int| 0 <= i < frames.len() ==> frame_ok(key, #[trigger] frames[i], plains[i]),
        p.is_prefix_of(concat_all(frames)),
    ensures
        drain(key, p).err is None,
    decreases frames.len(),
{
    if p.len() >= 2 {
        if frames.len() == 0 {
            assert(concat_all(frames).len() == 0);
            assert(false);
        }
        let f0 = frames[0];
        assert(frame_ok(key, f0, plains[0]));
        assert(concat_all(frames) == f0 + concat_all(frames.skip(1)));
        assert(p[0] == f0[0] && p[1] == f0[1]);
        let fl = frame_size(p);
        assert(fl == frame_size(f0));
        assert(fl == f0.len());
        if p.len() >= fl {
            assert(p.take(fl) =~= f0);
            assert(decode_spec(key, p.take(fl)) == Ok::<Seq<u8>, CodecError>(plains[0]));
            assert(p.skip(fl).is_prefix_of(concat_all(frames.skip(1)))) by {
                assert(p.skip(fl) =~= concat_all(frames.skip(1)).subrange(
                    0,
                    p.len() - fl,
                ));
            }
            assert(forall|i: int|
                0 <= i < frames.skip(1).len() ==> frame_ok(
                    key,
                    #[trigger] frames.skip(1)[i],
                    plains.skip(1)[i],
                ));
            lemma_drain_prefix_ok(key, frames.skip(1), plains.skip(1), p.skip(fl));
        }
    }
}

/// Draining a whole stream of well-formed frames yields the concatenation
/// of their plaintexts and leaves nothing staged.
proof fn lemma_drain_stream(key: Seq<u8>, frames: Seq<Seq<u8>>, plains: Seq<Seq<u8>>)
    requires
        frames.len() == plains.len(),
        forall|i: int| 0 <= i < frames.len() ==> frame_ok(key, #[trigger] frames[i], plains[i]),
    ensures
        drain(key, concat_all(frames)).out == concat_all(plains),
        drain(key, concat_all(frames)).rest == Seq::<u8>::empty(),
        drain(key, concat_all(frames)).err is None,
    decreases frames.len(),
{
    let s = concat_all(frames);
    if frames.len() == 0 {
        assert(s =~= Seq::<u8>::empty());
        assert(drain(key, s).rest =~= Seq::<u8>::empty());
        assert(concat_all(plains) =~= Seq::<u8>::empty());
    } else {
        let f0 = frames[0];
        assert(frame_ok(key, f0, plains[0]));
        assert(s == f0 + concat_all(frames.skip(1)));
        assert(s[0] == f0[0] && s[1] == f0[1]);
        let fl = frame_size(s);
        assert(fl == frame_size(f0));
        assert(fl == f0.len());
        assert(s.take(fl) =~= f0);
        assert(decode_spec(key, s.take(fl)) == Ok::<Seq<u8>, CodecError>(plains[0]));
        assert(s.skip(fl) =~= concat_all(frames.skip(1)));
        assert(forall|i: int|
            0 <= i < frames.skip(1).len() ==> frame_ok(
                key,
                #[trigger] frames.skip(1)[i],
                plains.skip(1)[i],
            ));
        lemma_drain_stream(key, frames.skip(1), plains.skip(1));
        assert(concat_all(plains) == plains[0] + concat_all(plains.skip(1)));
    }
}

/// One step of the run from a state reached by draining a prefix `done`
/// of the stream lands on the state reached by draining `done` plus the
/// next chunk; iterated, the run lands on the drain of the whole stream.
proof fn lemma_run_steps(
    key: Seq<u8>,
    frames: Seq<Seq<u8>>,
    plains: Seq<Seq<u8>>,
    chunks: Seq<Seq<u8>>,
    done: Seq<u8>,
    o0: Seq<u8>,
)
    requires
        frames.len() == plains.len(),
        forall|i: int| 0 <= i < frames.len() ==> frame_ok(key, #[trigger] frames[i], plains[i]),
        done + concat_all(chunks) == concat_all(frames),
    ensures
        ({
            let d = drain(key, done);
            let w = drain(key, concat_all(frames));
            run_reader(key, ReaderState { staging: d.rest, out: o0 + d.out, err: None }, chunks)
                == ReaderState { staging: w.rest, out: o0 + w.out, err: None }
        }),
    decreases chunks.len(),
{
    let whole = concat_all(frames);
    assert(done.is_prefix_of(whole)) by {
        assert(done =~= whole.subrange(0, done.len() as int));
    }
    lemma_drain_prefix_ok(key, frames, plains, done);
    let d = drain(key, done);
    if chunks.len() == 0 {
        assert(done =~= whole);
    } else {
        let c0 = chunks[0];
        let done2 = done + c0;
        lemma_drain_compose(key, done, c0);
        let d2 = drain(key, d.rest + c0);
        assert(done2 + concat_all(chunks.skip(1)) =~= whole) by {
            assert(concat_all(chunks) == c0 + concat_all(chunks.skip(1)));
        }
        lemma_drain_prefix_ok(key, frames, plains, done2);
        assert(drain(key, done2).err == d2.err);
        assert(d2.err is None);
        assert((o0 + d.out) + d2.out =~= o0 + (d.out + d2.out));
        assert(ReaderState { staging: d2.rest, out: (o0 + d.out) + d2.out, err: d2.err }
            =~= ReaderState { staging: drain(key, done2).rest, out: o0 + drain(key, done2).out, err: None });
        lemma_run_steps(key, frames, plains, chunks.skip(1), done2, o0);
    }
}

/// Framing boundary: however the transport chunks its deliveries, a
/// reader that starts empty and receives chunks carrying a whole sequence
/// of well-formed frames delivers exactly the concatenation of their
/// plaintexts, in order, with nothing left staged and no error. Each
/// `run_reader` step is exactly what one `push_transport_bytes` call
/// does, and `frame_ok` is what `enc_aead_frame` ensures of each frame.
pub proof fn lemma_framing_boundary(
    key: Seq<u8>,
    frames: Seq<Seq<u8>>,
    plains: Seq<Seq<u8>>,
    chunks: Seq<Seq<u8>>,
)
    requires
        frames.len() == plains.len(),
        forall|i: int| 0 <= i < frames.len() ==> frame_ok(key, #[trigger] frames[i], plains[i]),
        concat_all(chunks) == concat_all(frames),
    ensures
        ({
            let fin = run_reader(
                key,
                ReaderState { staging: Seq::empty(), out: Seq::empty(), err: None },
                chunks,
            );
            &&& fin.err is None
            &&& fin.out == concat_all(plains)
            &&& fin.staging == Seq::<u8>::empty()
        }),
{
    let empty = Seq::<u8>::empty();
    assert(empty + concat_all(chunks) =~= concat_all(frames));
    lemma_run_steps(key, frames, plains, chunks, empty, empty);
    lemma_drain_stream(key, frames, plains);
    let d = drain(key, empty);
    assert(d.rest =~= empty && d.out =~= empty);
    assert(ReaderState { staging: d.rest, out: empty + d.out, err: None } =~= ReaderState {
        staging: empty,
        out: empty,
        err: None,
    });
    let w = drain(key, concat_all(frames));
    assert(empty + w.out =~= w.out);
}

} // verus!
