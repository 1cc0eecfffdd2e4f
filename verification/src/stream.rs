//! Decoding a whole IVF stream, and the model of such a decode: the payloads an IVF stream
//! holds, and the ways a Rust backend can go through them.
use vstd::prelude::*;
use crate::backend::BackendKind;
use crate::backend::rust::{RustDecoder, spec_decode_step, spec_info_tracks_header, lemma_decode_tracks_header, spec_same_state, spec_same_image, spec_plane_bytes, lemma_decode_is_deterministic};
use crate::decoder::{Decoder, DecoderError, Image, OwnedFrame, StreamInfo};
use crate::decoder::api::spec_owned_copy;
use crate::ivf::{spec_ivf_header, spec_next_frame, IvfError, IvfErrorKind, IvfReader, DEFAULT_MAX_FRAME_SIZE};

verus! {

/// The payloads read from position `pos` of IVF bytes `d` with frame limit `max`, in order, up
/// to the end of the stream or to the first record that fails to read, and that failure.
pub open spec fn spec_ivf_payloads(d: Seq<u8>, pos: int, max: usize) -> (Seq<Seq<u8>>, Option<(IvfErrorKind, Seq<char>)>)
    decreases d.len() - pos,
{
    if pos < 0 || pos > d.len() {
        (Seq::empty(), None)
    } else {
        let (res, next) = spec_next_frame(d, pos, max);
        match res {
            Ok(None) => (Seq::empty(), None),
            Err(e) => (Seq::empty(), Some(e)),
            Ok(Some((_, p))) => if next <= pos || next > d.len() {
                (seq![p], None)
            } else {
                let (rest, end) = spec_ivf_payloads(d, next, max);
                (seq![p] + rest, end)
            },
        }
    }
}

/// The images that asking state `d` for its frames hands out: the pending frame, once.
pub open spec fn spec_ready(d: RustDecoder) -> Seq<Image> {
    if !d.frame_iter_active && d.pending_frame is Some {
        seq![d.pending_frame.unwrap().image]
    } else {
        Seq::empty()
    }
}

/// The state after asking `d` for its frames.
pub open spec fn spec_after_ready(d: RustDecoder) -> RustDecoder {
    if !d.frame_iter_active && d.pending_frame is Some {
        RustDecoder { frame_iter_active: true, ..d }
    } else {
        d
    }
}

/// Whether `frames` are the owned copies of `imgs`, one for one.
pub open spec fn spec_owned_copies(imgs: Seq<Image>, frames: Seq<OwnedFrame>) -> bool {
    frames.len() == imgs.len() && forall|k: int| 0 <= k < imgs.len() ==> spec_owned_copy(imgs[k], #[trigger] frames[k])
}

/// The stream information a run records: the first that a packet's decode makes available.
pub open spec fn spec_first_info(before: Option<StreamInfo>, d: RustDecoder) -> Option<StreamInfo> {
    if before is Some { before } else { d.stream_info }
}

/// The state a run starting in `d0` is in before its packet `i`, given the states `mids` that
/// the decodes of its packets ended in: the start, or the state after the previous packet's
/// frames were asked for.
pub open spec fn spec_state_before(d0: RustDecoder, mids: Seq<RustDecoder>, i: int) -> RustDecoder {
    if i <= 0 { d0 } else { spec_after_ready(mids[i - 1]) }
}

/// Whether `mids` are the states that decoding each of the payloads `ps` can end in, starting
/// from `d0`, with every packet accepted.
pub open spec fn spec_valid_run(d0: RustDecoder, ps: Seq<Seq<u8>>, mids: Seq<RustDecoder>) -> bool {
    &&& mids.len() == ps.len()
    &&& forall|i: int| 0 <= i < ps.len() ==> spec_decode_step(spec_state_before(d0, mids, i), ps[i], Ok(()), #[trigger] mids[i])
}

/// The images a run hands out: those ready after each packet, in order.
pub open spec fn spec_run_images(mids: Seq<RustDecoder>) -> Seq<Image>
    decreases mids.len(),
{
    if mids.len() == 0 { Seq::empty() } else { spec_run_images(mids.drop_last()) + spec_ready(mids.last()) }
}

/// The first stream information a run makes available after one of its packets.
pub open spec fn spec_run_info(mids: Seq<RustDecoder>) -> Option<StreamInfo>
    decreases mids.len(),
{
    if mids.len() == 0 { None } else { spec_first_info(spec_run_info(mids.drop_last()), mids.last()) }
}

/// Whether decoding payload `k` of `ps` can fail with `e` after the earlier payloads were all
/// accepted.
pub open spec fn spec_fails_at(d0: RustDecoder, ps: Seq<Seq<u8>>, k: int, e: DecoderError) -> bool {
    0 <= k < ps.len() && exists|mids: Seq<RustDecoder>, ds: RustDecoder|
        #![trigger spec_valid_run(d0, ps.take(k), mids), spec_decode_step(spec_state_before(d0, mids, k), ps[k], Err::<(), DecoderError>(e), ds)]
        spec_valid_run(d0, ps.take(k), mids) && spec_decode_step(spec_state_before(d0, mids, k), ps[k], Err::<(), DecoderError>(e), ds)
}

/// Whether `r` is a result that decoding the IVF stream from position `pos` of `d` (frame limit
/// `max`) with a fresh Rust backend can give: the owned copies of every frame handed out when
/// all payloads are read and accepted; else the read error that ends the payloads after they
/// were all accepted; else the decode error of one payload, all earlier ones accepted.
pub open spec fn spec_stream_result(d: Seq<u8>, pos: int, max: usize, r: Result<Vec<OwnedFrame>, StreamError>) -> bool {
    let (ps, end) = spec_ivf_payloads(d, pos, max);
    let d0 = RustDecoder::spec_initial();
    match r {
        Ok(frames) => end is None && exists|mids: Seq<RustDecoder>|
            #[trigger] spec_valid_run(d0, ps, mids) && spec_owned_copies(spec_run_images(mids), frames@),
        Err(StreamError::Ivf(e)) => end == Some((e.kind, e.message@)) && exists|mids: Seq<RustDecoder>|
            #[trigger] spec_valid_run(d0, ps, mids),
        Err(StreamError::Decoder(e)) => exists|k: int| #[trigger] spec_fails_at(d0, ps, k, e),
    }
}

/// Whether the states `ds` are a trace of a Rust backend: each next state is what decoding the
/// packet `ps[i]` can leave (with outcome `rs[i]`), the state after its frames are asked for,
/// or the same state (a flush or a query).
pub open spec fn spec_trace(ds: Seq<RustDecoder>, ps: Seq<Seq<u8>>, rs: Seq<Result<(), DecoderError>>) -> bool {
    &&& ds.len() == ps.len() + 1
    &&& rs.len() == ps.len()
    &&& forall|i: int| 0 <= i < ps.len() ==> {
        ||| spec_decode_step(ds[i], #[trigger] ps[i], rs[i], ds[i + 1])
        ||| ds[i + 1] == spec_after_ready(ds[i])
        ||| ds[i + 1] == ds[i]
    }
}

/// In every state a Rust backend reaches from its initial state, the stream information is
/// that of the sequence header it holds, absent until one is parsed, and a sequence header was
/// seen exactly when one is held; so asking for the stream information gives the latest
/// sequence header's information once one is parsed, and an error before.
pub proof fn lemma_stream_info_tracks_header(ds: Seq<RustDecoder>, ps: Seq<Seq<u8>>, rs: Seq<Result<(), DecoderError>>)
    requires
        spec_trace(ds, ps, rs),
        ds[0] == RustDecoder::spec_initial(),
    ensures
        forall|i: int| 0 <= i < ds.len() ==> spec_info_tracks_header(#[trigger] ds[i]),
    decreases ps.len(),
{
    if ps.len() > 0 {
        let n = ps.len() - 1;
        lemma_stream_info_tracks_header(ds.drop_last(), ps.drop_last(), rs.drop_last());
        assert(ds.drop_last()[n] == ds[n]);
        assert(spec_info_tracks_header(ds[n]));
        let p = ps[n];
        if spec_decode_step(ds[n], p, rs[n], ds[n + 1]) {
            lemma_decode_tracks_header(ds[n], p, rs[n], ds[n + 1]);
        }
        assert forall|i: int| 0 <= i < ds.len() implies spec_info_tracks_header(#[trigger] ds[i]) by {
            if i <= n {
                assert(ds.drop_last()[i] == ds[i]);
            }
        }
    }
}

/// Reading one more payload: the payloads from `pos` are that payload followed by those from
/// the next record, when the read at `pos` yields a payload.
pub proof fn lemma_payloads_step(d: Seq<u8>, pos: int, max: usize)
    requires
        0 <= pos <= d.len(),
        spec_next_frame(d, pos, max).0 matches Ok(Some(_)),
        pos < spec_next_frame(d, pos, max).1 <= d.len(),
    ensures
        ({
            let (ps, end) = spec_ivf_payloads(d, pos, max);
            let (rest, end2) = spec_ivf_payloads(d, spec_next_frame(d, pos, max).1, max);
            ps == seq![spec_next_frame(d, pos, max).0->Ok_0->Some_0.1] + rest && end == end2
        }),
{
}

/// Error of a whole-stream decode: the IVF reader's or the decoder's.
#[derive(Debug, Clone, PartialEq, Eq)]
pub enum StreamError {
    Ivf(IvfError),
    Decoder(DecoderError),
}

impl StreamError {
    pub open spec fn spec_message(&self) -> Seq<char> {
        match self {
            StreamError::Ivf(e) => "I/O error: "@ + e.message@,
            StreamError::Decoder(e) => "decoder error: "@ + e.spec_message(),
        }
    }

    /// The human-readable description of the error.
    pub fn message(&self) -> (s: String)
        ensures
            s@ == self.spec_message(),
    {
        let (prefix, rest): (&str, String) = match self {
            StreamError::Ivf(e) => ("I/O error: ", e.message.clone()),
            StreamError::Decoder(e) => ("decoder error: ", e.message()),
        };
        let mut s = String::from_str(prefix);
        s.append(rest.as_str());
        proof {
            reveal_strlit("I/O error: ");
            reveal_strlit("decoder error: ");
        }
        s
    }
}

/// Ask the decoder for its ready frames and append their owned copies to `frames`.
pub fn drain_frames(decoder: &mut Decoder, frames: &mut Vec<OwnedFrame>)
    ensures
        final(decoder).backend_state() == spec_after_ready(old(decoder).backend_state()),
        final(frames)@.len() == old(frames)@.len() + spec_ready(old(decoder).backend_state()).len(),
        final(frames)@.subrange(0, old(frames)@.len() as int) == old(frames)@,
        spec_owned_copies(spec_ready(old(decoder).backend_state()),
            final(frames)@.subrange(old(frames)@.len() as int, final(frames)@.len() as int)),
{
    let ghost ready_imgs = spec_ready(decoder.backend_state());
    let ghost n = frames@.len();
    let ready = decoder.get_frames();
    let mut i: usize = 0;
    while i < ready.len()
        invariant
            i <= ready@.len(),
            ready@.len() == ready_imgs.len(),
            forall|k: int| 0 <= k < ready@.len() ==> (#[trigger] ready@[k]).image() == ready_imgs[k],
            n == old(frames)@.len(),
            frames@.len() == n + i,
            frames@.subrange(0, n as int) == old(frames)@,
            forall|k: int| 0 <= k < i ==> spec_owned_copy(ready_imgs[k], #[trigger] frames@[n + k]),
        decreases ready@.len() - i,
    {
        let frame = &ready[i];
        let ghost before = frames@;
        frames.push(frame.to_owned());
        proof {
            assert(frames@.subrange(0, n as int) =~= before.subrange(0, n as int));
        }
        i = i + 1;
    }
    proof {
        let tail = frames@.subrange(n as int, frames@.len() as int);
        assert forall|k: int| 0 <= k < ready_imgs.len() implies spec_owned_copy(ready_imgs[k], #[trigger] tail[k]) by {
            assert(tail[k] == frames@[n + k]);
        }
        assert(spec_owned_copies(ready_imgs, tail));
    }
}

/// Appending copies: the owned copies of `a` followed by those of `b` are the copies of `a + b`.
pub proof fn lemma_owned_copies_append(a: Seq<Image>, fa: Seq<OwnedFrame>, b: Seq<Image>, fb: Seq<OwnedFrame>)
    requires
        spec_owned_copies(a, fa),
        spec_owned_copies(b, fb),
    ensures
        spec_owned_copies(a + b, fa + fb),
{
    assert forall|k: int| 0 <= k < (a + b).len() implies spec_owned_copy((a + b)[k], #[trigger] (fa + fb)[k]) by {
        if k < a.len() {
            assert((a + b)[k] == a[k] && (fa + fb)[k] == fa[k]);
        } else {
            assert((a + b)[k] == b[k - a.len()] && (fa + fb)[k] == fb[k - a.len()]);
        }
    }
}

/// A run extended by one more accepted packet.
pub proof fn lemma_run_step(d0: RustDecoder, ps: Seq<Seq<u8>>, mids: Seq<RustDecoder>, p: Seq<u8>, ds: RustDecoder)
    requires
        spec_valid_run(d0, ps, mids),
        spec_decode_step(spec_state_before(d0, mids, mids.len() as int), p, Ok(()), ds),
    ensures
        spec_valid_run(d0, ps.push(p), mids.push(ds)),
        spec_run_images(mids.push(ds)) == spec_run_images(mids) + spec_ready(ds),
        spec_run_info(mids.push(ds)) == spec_first_info(spec_run_info(mids), ds),
        spec_state_before(d0, mids.push(ds), mids.len() + 1int) == spec_after_ready(ds),
{
    let q = ps.push(p);
    let m = mids.push(ds);
    assert(m.drop_last() =~= mids);
    assert forall|i: int| 0 <= i < q.len() implies spec_decode_step(spec_state_before(d0, m, i), q[i], Ok(()), #[trigger] m[i]) by {
        if i < ps.len() {
            assert(m[i] == mids[i] && q[i] == ps[i]);
            assert(spec_state_before(d0, m, i) == spec_state_before(d0, mids, i));
        } else {
            assert(spec_state_before(d0, m, i) == spec_state_before(d0, mids, mids.len() as int));
        }
    }
}

/// After a run whose packets were all accepted, the decoder has no frame left to hand out.
pub proof fn lemma_run_drained(d0: RustDecoder, mids: Seq<RustDecoder>)
    requires
        d0.pending_frame is None,
    ensures
        spec_ready(spec_state_before(d0, mids, mids.len() as int)).len() == 0,
{
}

/// Decode every frame of an IVF stream with the given backend: each packet is decoded and its
/// frames copied out, then the decoder is flushed and drained. Stops at the first error.
#[verifier::spinoff_prover]
pub fn decode_ivf_with_backend(ivf: IvfReader, backend: BackendKind, threads: Option<u32>)
    -> (r: Result<Vec<OwnedFrame>, StreamError>)
    requires
        ivf.position() <= ivf.bytes().len(),
    ensures
        backend == BackendKind::Libavm ==> r == Err::<Vec<OwnedFrame>, StreamError>(
            StreamError::Decoder(DecoderError::BackendUnavailable(BackendKind::Libavm))),
        backend == BackendKind::Rust ==> spec_stream_result(ivf.bytes(), ivf.position() as int, ivf.max_frame_size(), r),
{
    let ghost bytes = ivf.bytes();
    let ghost max = ivf.max_frame_size();
    let ghost start = ivf.position() as int;
    let ghost all = spec_ivf_payloads(bytes, start, max).0;
    let ghost d0 = RustDecoder::spec_initial();
    let mut reader = ivf;
    let mut builder = Decoder::builder().backend(backend);
    if let Some(t) = threads {
        builder = builder.threads(t);
    }
    let mut decoder = match builder.build() {
        Ok(d) => d,
        Err(e) => {
            return Err(StreamError::Decoder(e));
        },
    };
    let mut frames: Vec<OwnedFrame> = Vec::new();
    let ghost mut consumed: Seq<Seq<u8>> = Seq::empty();
    let ghost mut mids: Seq<RustDecoder> = Seq::empty();
    proof {
        assert(all =~= consumed + spec_ivf_payloads(bytes, start, max).0);
    }
    loop
        invariant
            reader.bytes() == bytes,
            reader.max_frame_size() == max,
            reader.position() <= bytes.len(),
            bytes == ivf.bytes(),
            max == ivf.max_frame_size(),
            start == ivf.position() as int,
            backend == BackendKind::Rust,
            d0 == RustDecoder::spec_initial(),
            all == spec_ivf_payloads(bytes, start, max).0,
            all == consumed + spec_ivf_payloads(bytes, reader.position() as int, max).0,
            spec_ivf_payloads(bytes, start, max).1 == spec_ivf_payloads(bytes, reader.position() as int, max).1,
            spec_valid_run(d0, consumed, mids),
            decoder.backend_state() == spec_state_before(d0, mids, mids.len() as int),
            spec_owned_copies(spec_run_images(mids), frames@),
        ensures
            all == consumed,
            spec_ivf_payloads(bytes, start, max).1 is None,
        decreases bytes.len() - reader.position(),
    {
        let ghost pos = reader.position() as int;
        let ghost dm = decoder.backend_state();
        let packet = match reader.next_frame() {
            Ok(Some(p)) => p,
            Ok(None) => {
                proof {
                    assert(all =~= consumed);
                }
                break;
            },
            Err(e) => {
                proof {
                    assert(all =~= consumed);
                    assert(spec_ivf_payloads(bytes, pos, max).1 == Some((e.kind, e.message@)));
                    assert(spec_valid_run(d0, all, mids));
                }
                return Err(StreamError::Ivf(e));
            },
        };
        proof {
            lemma_payloads_step(bytes, pos, max);
            assert(all.take(consumed.len() as int) =~= consumed);
            assert(all[consumed.len() as int] == packet.data@);
        }
        let res = decoder.decode(packet.data.as_slice());
        match res {
            Ok(u) => {
                assert(u == ());
            },
            Err(e) => {
                proof {
                    let k = consumed.len() as int;
                    let ds = decoder.backend_state();
                    assert(spec_valid_run(d0, all.take(k), mids));
                    assert(spec_decode_step(spec_state_before(d0, mids, k), all[k], Err::<(), DecoderError>(e), ds));
                    assert(spec_fails_at(d0, all, k, e));
                }
                return Err(StreamError::Decoder(e));
            },
        }
        let ghost ds = decoder.backend_state();
        assert(res == Ok::<(), DecoderError>(()));
        let ghost before = frames@;
        drain_frames(&mut decoder, &mut frames);
        proof {
            lemma_run_step(d0, consumed, mids, packet.data@, ds);
            let tail = frames@.subrange(before.len() as int, frames@.len() as int);
            assert(frames@ =~= before + tail);
            lemma_owned_copies_append(spec_run_images(mids), before, spec_ready(ds), tail);
            assert(all =~= consumed.push(packet.data@) + spec_ivf_payloads(bytes, reader.position() as int, max).0);
            consumed = consumed.push(packet.data@);
            mids = mids.push(ds);
        }
    }
    match decoder.flush() {
        Ok(()) => {},
        Err(e) => {
            return Err(StreamError::Decoder(e));
        },
    }
    proof {
        lemma_run_drained(d0, mids);
    }
    let ghost before = frames@;
    drain_frames(&mut decoder, &mut frames);
    proof {
        assert(frames@ =~= before);
        assert(spec_valid_run(d0, all, mids));
    }
    Ok(frames)
}

/// Decode every frame of an IVF stream with the default decoder configuration.
pub fn decode_ivf(ivf: IvfReader) -> (r: Result<Vec<OwnedFrame>, StreamError>)
    requires
        ivf.position() <= ivf.bytes().len(),
    ensures
        r == Err::<Vec<OwnedFrame>, StreamError>(StreamError::Decoder(DecoderError::BackendUnavailable(BackendKind::Libavm))),
{
    decode_ivf_with_backend(ivf, BackendKind::Libavm, None)
}

/// Open an IVF stream from the bytes of a file and decode it with the default configuration.
pub fn decode_ivf_reader(data: Vec<u8>) -> (r: Result<Vec<OwnedFrame>, StreamError>)
    ensures
        match spec_ivf_header(data@) {
            Ok(_) => r == Err::<Vec<OwnedFrame>, StreamError>(StreamError::Decoder(DecoderError::BackendUnavailable(BackendKind::Libavm))),
            Err((kind, msg)) => r matches Err(StreamError::Ivf(e)) && e.kind == kind && e.message@ == msg,
        },
{
    let ivf = match IvfReader::new(data) {
        Ok(r) => r,
        Err(e) => {
            return Err(StreamError::Ivf(e));
        },
    };
    decode_ivf(ivf)
}

/// Two owned frames hold the same picture: the same metadata, strides and plane contents.
pub open spec fn spec_same_owned(a: OwnedFrame, b: OwnedFrame) -> bool {
    &&& a.width == b.width && a.height == b.height && a.bit_depth == b.bit_depth
    &&& a.format == b.format && a.format_raw == b.format_raw && a.monochrome == b.monochrome
    &&& a.color_range == b.color_range && a.chroma_sample_position == b.chroma_sample_position
    &&& a.bytes_per_sample == b.bytes_per_sample
    &&& forall|i: int| 0 <= i < 3 ==> (#[trigger] a.planes[i])@ == b.planes[i]@ && a.strides[i] == b.strides[i]
}

/// Two lists of owned frames hold the same pictures, in order.
pub open spec fn spec_same_frames(a: Seq<OwnedFrame>, b: Seq<OwnedFrame>) -> bool {
    a.len() == b.len() && forall|k: int| 0 <= k < a.len() ==> spec_same_owned(#[trigger] a[k], b[k])
}

/// Two lists of images describe the same pictures, in order.
pub open spec fn spec_same_images(a: Seq<Image>, b: Seq<Image>) -> bool {
    a.len() == b.len() && forall|k: int| 0 <= k < a.len() ==> spec_same_image(#[trigger] a[k], b[k])
}

/// Images that describe the same picture have the same valid planes.
pub(crate) proof fn lemma_same_image_planes(a: Image, b: Image)
    requires
        spec_same_image(a, b),
    ensures
        forall|i: int| #[trigger] a.spec_plane(i) == b.spec_plane(i),
{
    assert forall|i: int| #[trigger] a.spec_plane(i) == b.spec_plane(i) by {
        if 0 <= i < 3 {
            assert(spec_plane_bytes(a.planes[i]) == spec_plane_bytes(b.planes[i]));
            assert(a.stride[i] == b.stride[i]);
        }
    }
}

/// Owned copies of images that describe the same picture hold the same picture.
pub(crate) proof fn lemma_copies_agree(ia: Image, oa: OwnedFrame, ib: Image, ob: OwnedFrame)
    requires
        spec_same_image(ia, ib),
        spec_owned_copy(ia, oa),
        spec_owned_copy(ib, ob),
    ensures
        spec_same_owned(oa, ob),
{
    lemma_same_image_planes(ia, ib);
    assert forall|i: int| 0 <= i < 3 implies (#[trigger] oa.planes[i])@ == ob.planes[i]@ && oa.strides[i] == ob.strides[i] by {
        assert(ia.spec_plane(i) == ib.spec_plane(i));
        assert(ia.stride[i] == ib.stride[i]);
    }
}

/// Every state agrees with itself.
pub(crate) proof fn lemma_same_state_reflexive(d: RustDecoder)
    ensures
        spec_same_state(d, d),
{
}

/// Asking states that agree for their frames hands out the same pictures and leaves states
/// that agree.
pub(crate) proof fn lemma_ready_agrees(a: RustDecoder, b: RustDecoder)
    requires
        spec_same_state(a, b),
    ensures
        spec_same_state(spec_after_ready(a), spec_after_ready(b)),
        spec_same_images(spec_ready(a), spec_ready(b)),
{
    if !a.frame_iter_active && a.pending_frame is Some {
        let ia = a.pending_frame.unwrap().image;
        let ib = b.pending_frame.unwrap().image;
        lemma_same_image_planes(ia, ib);
        assert(spec_ready(a) =~= seq![ia]);
        assert(spec_ready(b) =~= seq![ib]);
        assert(spec_ready(a)[0] == ia && spec_ready(b)[0] == ib);
        assert(spec_same_image(spec_ready(a)[0], spec_ready(b)[0]));
    }
}

/// Runs from one start over the same payloads go through states that agree, packet by packet.
pub(crate) proof fn lemma_runs_agree(d0: RustDecoder, pa: Seq<Seq<u8>>, ma: Seq<RustDecoder>, pb: Seq<Seq<u8>>, mb: Seq<RustDecoder>, n: int)
    requires
        spec_valid_run(d0, pa, ma),
        spec_valid_run(d0, pb, mb),
        0 <= n <= ma.len(),
        n <= mb.len(),
        forall|i: int| 0 <= i < n ==> pa[i] == pb[i],
    ensures
        forall|i: int| 0 <= i < n ==> spec_same_state(#[trigger] ma[i], mb[i]),
        spec_same_state(spec_state_before(d0, ma, n), spec_state_before(d0, mb, n)),
    decreases n,
{
    if n == 0 {
        lemma_same_state_reflexive(d0);
    } else {
        lemma_runs_agree(d0, pa, ma, pb, mb, n - 1);
        let k = n - 1;
        assert(spec_decode_step(spec_state_before(d0, ma, k), pa[k], Ok(()), ma[k]));
        assert(spec_decode_step(spec_state_before(d0, mb, k), pb[k], Ok(()), mb[k]));
        lemma_decode_is_deterministic(spec_state_before(d0, ma, k), spec_state_before(d0, mb, k), pa[k], Ok(()), ma[k], Ok(()), mb[k]);
        lemma_ready_agrees(ma[k], mb[k]);
    }
}

/// Runs through states that agree hand out the same pictures.
pub(crate) proof fn lemma_run_images_agree(ma: Seq<RustDecoder>, mb: Seq<RustDecoder>)
    requires
        ma.len() == mb.len(),
        forall|i: int| 0 <= i < ma.len() ==> spec_same_state(#[trigger] ma[i], mb[i]),
    ensures
        spec_same_images(spec_run_images(ma), spec_run_images(mb)),
    decreases ma.len(),
{
    if ma.len() > 0 {
        lemma_run_images_agree(ma.drop_last(), mb.drop_last());
        lemma_ready_agrees(ma.last(), mb.last());
        let xa = spec_run_images(ma.drop_last());
        let xb = spec_run_images(mb.drop_last());
        let ya = spec_ready(ma.last());
        let yb = spec_ready(mb.last());
        assert forall|k: int| 0 <= k < (xa + ya).len() implies spec_same_image(#[trigger] (xa + ya)[k], (xb + yb)[k]) by {
            if k < xa.len() {
                assert((xa + ya)[k] == xa[k] && (xb + yb)[k] == xb[k]);
            } else {
                assert((xa + ya)[k] == ya[k - xa.len()] && (xb + yb)[k] == yb[k - xa.len()]);
            }
        }
    }
}

/// Owned copies of the same pictures hold the same pictures.
pub(crate) proof fn lemma_copy_lists_agree(ia: Seq<Image>, fa: Seq<OwnedFrame>, ib: Seq<Image>, fb: Seq<OwnedFrame>)
    requires
        spec_same_images(ia, ib),
        spec_owned_copies(ia, fa),
        spec_owned_copies(ib, fb),
    ensures
        spec_same_frames(fa, fb),
{
    assert forall|k: int| 0 <= k < fa.len() implies spec_same_owned(#[trigger] fa[k], fb[k]) by {
        lemma_copies_agree(ia[k], fa[k], ib[k], fb[k]);
    }
}

/// When a run accepts packet `k`, any other run of the same payloads that reaches packet `k`
/// accepts it too.
pub(crate) proof fn lemma_accepted_packet_is_accepted(
    d0: RustDecoder,
    pa: Seq<Seq<u8>>,
    ma: Seq<RustDecoder>,
    ps: Seq<Seq<u8>>,
    k: int,
    mb: Seq<RustDecoder>,
    r: Result<(), DecoderError>,
    ds: RustDecoder,
)
    requires
        spec_valid_run(d0, pa, ma),
        0 <= k < pa.len(),
        k < ps.len(),
        forall|i: int| 0 <= i <= k ==> pa[i] == ps[i],
        spec_valid_run(d0, ps.take(k), mb),
        spec_decode_step(spec_state_before(d0, mb, k), ps[k], r, ds),
    ensures
        r is Ok,
{
    lemma_runs_agree(d0, pa, ma, ps.take(k), mb, k);
    assert(spec_decode_step(spec_state_before(d0, ma, k), pa[k], Ok(()), ma[k]));
    lemma_decode_is_deterministic(spec_state_before(d0, ma, k), spec_state_before(d0, mb, k), ps[k], Ok(()), ma[k], r, ds);
}

/// Runs through states that agree make the same stream information available.
pub(crate) proof fn lemma_run_info_agrees(ma: Seq<RustDecoder>, mb: Seq<RustDecoder>)
    requires
        ma.len() == mb.len(),
        forall|i: int| 0 <= i < ma.len() ==> spec_same_state(#[trigger] ma[i], mb[i]),
    ensures
        spec_run_info(ma) == spec_run_info(mb),
    decreases ma.len(),
{
    if ma.len() > 0 {
        lemma_run_info_agrees(ma.drop_last(), mb.drop_last());
        assert(spec_same_state(ma[ma.len() - 1], mb[ma.len() - 1]));
    }
}

/// Two results of one IVF stream agree: the same pictures, or the same read error (its kind and
/// message), or the same decoder error.
pub open spec fn spec_same_result(ra: Result<Vec<OwnedFrame>, StreamError>, rb: Result<Vec<OwnedFrame>, StreamError>) -> bool {
    match (ra, rb) {
        (Ok(fa), Ok(fb)) => spec_same_frames(fa@, fb@),
        (Err(StreamError::Ivf(ea)), Err(StreamError::Ivf(eb))) => ea.kind == eb.kind && ea.message@ == eb.message@,
        (Err(StreamError::Decoder(ea)), Err(StreamError::Decoder(eb))) => ea == eb,
        _ => false,
    }
}

/// Decoding an IVF stream is deterministic: every result that decoding the same bytes from the
/// same position can give holds the same pictures, or stops with the same error.
pub proof fn lemma_stream_result_is_deterministic(d: Seq<u8>, pos: int, max: usize, ra: Result<Vec<OwnedFrame>, StreamError>, rb: Result<Vec<OwnedFrame>, StreamError>)
    requires
        spec_stream_result(d, pos, max, ra),
        spec_stream_result(d, pos, max, rb),
    ensures
        spec_same_result(ra, rb),
{
    let (ps, end) = spec_ivf_payloads(d, pos, max);
    let d0 = RustDecoder::spec_initial();
    // A run over every payload rules out a failure at any packet.
    assert forall|mids: Seq<RustDecoder>, k: int, e: DecoderError|
        #[trigger] spec_valid_run(d0, ps, mids) && #[trigger] spec_fails_at(d0, ps, k, e) implies false by {
        let (mb, ds) = choose|mb: Seq<RustDecoder>, ds: RustDecoder|
            spec_valid_run(d0, ps.take(k), mb) && spec_decode_step(spec_state_before(d0, mb, k), ps[k], Err::<(), DecoderError>(e), ds);
        lemma_accepted_packet_is_accepted(d0, ps, mids, ps, k, mb, Err(e), ds);
    }
    match (ra, rb) {
        (Ok(fa), Ok(fb)) => {
            let ma = choose|mids: Seq<RustDecoder>| spec_valid_run(d0, ps, mids) && spec_owned_copies(spec_run_images(mids), fa@);
            let mb = choose|mids: Seq<RustDecoder>| spec_valid_run(d0, ps, mids) && spec_owned_copies(spec_run_images(mids), fb@);
            lemma_runs_agree(d0, ps, ma, ps, mb, ps.len() as int);
            lemma_run_images_agree(ma, mb);
            lemma_copy_lists_agree(spec_run_images(ma), fa@, spec_run_images(mb), fb@);
        },
        (Err(StreamError::Decoder(ea)), Err(StreamError::Decoder(eb))) => {
            let ka = choose|k: int| #[trigger] spec_fails_at(d0, ps, k, ea);
            let kb = choose|k: int| #[trigger] spec_fails_at(d0, ps, k, eb);
            let (ma, sa) = choose|mb: Seq<RustDecoder>, ds: RustDecoder|
                spec_valid_run(d0, ps.take(ka), mb) && spec_decode_step(spec_state_before(d0, mb, ka), ps[ka], Err::<(), DecoderError>(ea), ds);
            let (mb, sb) = choose|mb: Seq<RustDecoder>, ds: RustDecoder|
                spec_valid_run(d0, ps.take(kb), mb) && spec_decode_step(spec_state_before(d0, mb, kb), ps[kb], Err::<(), DecoderError>(eb), ds);
            let xa = Err::<(), DecoderError>(ea);
            let xb = Err::<(), DecoderError>(eb);
            if ka < kb {
                lemma_accepted_packet_is_accepted(d0, ps.take(kb), mb, ps, ka, ma, xa, sa);
            } else if kb < ka {
                lemma_accepted_packet_is_accepted(d0, ps.take(ka), ma, ps, kb, mb, xb, sb);
            } else {
                lemma_runs_agree(d0, ps.take(ka), ma, ps.take(kb), mb, ka);
                lemma_decode_is_deterministic(spec_state_before(d0, ma, ka), spec_state_before(d0, mb, ka), ps[ka], xa, sa, xb, sb);
            }
        },
        _ => {},
    }
}

} // verus!
