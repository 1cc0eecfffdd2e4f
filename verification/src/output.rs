//! The decoder's output stream: the bytes written for the frames (Y4M, or raw samples), and
//! the MD5 digest of that stream.
use vstd::prelude::*;
use vstd::utf8::encode_utf8;
use crate::decoder::{Decoder, Frame, Image};
use crate::stream::{spec_after_ready, spec_ready};
use crate::diff::{char_str, hex_digit, spec_hex_digit};
use crate::y4m::{frame_output, spec_frame_output, spec_y4m_frame_marker, spec_y4m_header, y4m_frame_marker, y4m_header};

verus! {

/// The MD5 digest of `data`.
pub uninterp spec fn spec_md5(data: Seq<u8>) -> Seq<u8>;

/// The MD5 digest of `data`, from `md5::compute`. The digest is named by `spec_md5`; the
/// algorithm is not restated.
#[verifier::external_body]
fn md5_digest(data: &[u8]) -> (d: [u8; 16])
    ensures
        d@ == spec_md5(data@),
{
    md5::compute(data).0
}

/// The bytes written for the frame `img`: the stream header line first when `header` is set,
/// then the frame marker (neither for raw video), then the frame's samples.
pub open spec fn spec_frame_chunk(img: Image, header: bool, rate_num: u32, rate_den: u32, raw_video: bool) -> Seq<u8> {
    (if header && !raw_video { encode_utf8(spec_y4m_header(img, rate_num, rate_den)) } else { Seq::empty() })
        + (if raw_video { Seq::empty() } else { encode_utf8(spec_y4m_frame_marker()) })
        + spec_frame_output(img)
}

/// The output stream for `frames` in order, each frame with whether the stream header line
/// goes before it.
pub open spec fn spec_output_stream(frames: Seq<(Image, bool)>, rate_num: u32, rate_den: u32, raw_video: bool) -> Seq<u8>
    decreases frames.len(),
{
    if frames.len() == 0 {
        Seq::empty()
    } else {
        spec_output_stream(frames.drop_last(), rate_num, rate_den, raw_video)
            + spec_frame_chunk(frames.last().0, frames.last().1, rate_num, rate_den, raw_video)
    }
}

/// The digest as `{:x}` prints it: two lowercase hexadecimal digits per byte.
pub open spec fn spec_digest_hex(d: Seq<u8>) -> Seq<char>
    decreases d.len(),
{
    if d.len() == 0 {
        Seq::empty()
    } else {
        spec_digest_hex(d.drop_last()) + seq![spec_hex_digit((d.last() / 16) as nat), spec_hex_digit((d.last() % 16) as nat)]
    }
}

/// The digest in lowercase hexadecimal.
pub fn digest_hex(d: &[u8; 16]) -> (s: String)
    ensures
        s@ == spec_digest_hex(d@),
{
    let mut s = String::new();
    let mut i: usize = 0;
    while i < 16
        invariant
            i <= 16,
            d@.len() == 16,
            s@ == spec_digest_hex(d@.take(i as int)),
        decreases 16 - i,
    {
        let v = d[i];
        s.append(char_str(hex_digit(v / 16)));
        s.append(char_str(hex_digit(v % 16)));
        proof {
            assert(d@.take(i + 1).drop_last() =~= d@.take(i as int));
            assert(d@.take(i + 1).last() == v);
        }
        i = i + 1;
    }
    proof {
        assert(d@.take(16) =~= d@);
    }
    s
}

/// Append `b` to `out`.
fn append_bytes(out: &mut Vec<u8>, b: &[u8])
    ensures
        final(out)@ == old(out)@ + b@,
{
    let mut x: usize = 0;
    while x < b.len()
        invariant
            x <= b@.len(),
            out@ == old(out)@ + b@.subrange(0, x as int),
        decreases b@.len() - x,
    {
        out.push(b[x]);
        proof {
            assert(b@.subrange(0, x + 1) =~= b@.subrange(0, x as int).push(b@[x as int]));
        }
        x = x + 1;
    }
    proof {
        assert(b@.subrange(0, b@.len() as int) =~= b@);
    }
}

/// The output stream of a decode: the bytes written so far, for the frames written so far.
pub struct OutputStream {
    bytes: Vec<u8>,
    frames: Ghost<Seq<(Image, bool)>>,
    rate_num: u32,
    rate_den: u32,
    raw_video: bool,
}

impl OutputStream {
    /// The frames written so far, each with whether the header line went before it.
    pub closed spec fn frames(&self) -> Seq<(Image, bool)> {
        self.frames@
    }

    pub closed spec fn spec_rate_num(&self) -> u32 {
        self.rate_num
    }

    pub closed spec fn spec_rate_den(&self) -> u32 {
        self.rate_den
    }

    pub closed spec fn spec_raw_video(&self) -> bool {
        self.raw_video
    }

    /// The bytes held are the output stream of the frames written.
    pub closed spec fn wf(&self) -> bool {
        self.bytes@ == spec_output_stream(self.frames@, self.rate_num, self.rate_den, self.raw_video)
    }

    /// The output stream of the frames written so far.
    pub open spec fn spec_bytes(&self) -> Seq<u8> {
        spec_output_stream(self.frames(), self.spec_rate_num(), self.spec_rate_den(), self.spec_raw_video())
    }

    /// An empty output stream for Y4M at frame rate `rate_num / rate_den`, or raw video.
    pub fn new(rate_num: u32, rate_den: u32, raw_video: bool) -> (o: Self)
        ensures
            o.wf(),
            o.frames() == Seq::<(Image, bool)>::empty(),
            o.spec_rate_num() == rate_num,
            o.spec_rate_den() == rate_den,
            o.spec_raw_video() == raw_video,
    {
        OutputStream { bytes: Vec::new(), frames: Ghost(Seq::empty()), rate_num, rate_den, raw_video }
    }

    /// Write the frame `img`, preceded by the stream header line when `header` is set, and
    /// return the bytes written for it.
    pub fn put_frame(&mut self, img: &Frame, header: bool) -> (chunk: Vec<u8>)
        requires
            old(self).wf(),
        ensures
            final(self).wf(),
            final(self).frames() == old(self).frames().push((img.image(), header)),
            final(self).spec_rate_num() == old(self).spec_rate_num(),
            final(self).spec_rate_den() == old(self).spec_rate_den(),
            final(self).spec_raw_video() == old(self).spec_raw_video(),
            chunk@ == spec_frame_chunk(img.image(), header, old(self).spec_rate_num(), old(self).spec_rate_den(),
                old(self).spec_raw_video()),
    {
        let mut chunk: Vec<u8> = Vec::new();
        if header && !self.raw_video {
            let line = y4m_header(img, self.rate_num, self.rate_den);
            append_bytes(&mut chunk, line.as_str().as_bytes());
        }
        let ghost after_header = chunk@;
        if !self.raw_video {
            append_bytes(&mut chunk, y4m_frame_marker().as_bytes());
        }
        let ghost after_marker = chunk@;
        let samples = frame_output(img);
        append_bytes(&mut chunk, samples.as_slice());
        append_bytes(&mut self.bytes, chunk.as_slice());
        let ghost frames = self.frames@.push((img.image(), header));
        proof {
            assert(chunk@ =~= spec_frame_chunk(img.image(), header, self.rate_num, self.rate_den, self.raw_video));
            assert(frames.drop_last() =~= self.frames@);
        }
        self.frames = Ghost(frames);
        chunk
    }

    /// The output stream of the frames written so far.
    pub fn bytes(&self) -> (b: &[u8])
        requires
            self.wf(),
        ensures
            b@ == self.spec_bytes(),
    {
        self.bytes.as_slice()
    }

    /// The MD5 digest of the output stream of the frames written so far.
    pub fn md5(&self) -> (d: [u8; 16])
        requires
            self.wf(),
        ensures
            d@ == spec_md5(self.spec_bytes()),
    {
        md5_digest(self.bytes.as_slice())
    }
}

/// The format code, bit depth and size of a frame, for reporting.
#[derive(Debug, Clone, Copy, PartialEq, Eq)]
pub struct FrameSummary {
    pub format_raw: u32,
    pub bit_depth: u32,
    pub width: u32,
    pub height: u32,
}

/// The summary of an image.
pub open spec fn spec_summary(img: Image) -> FrameSummary {
    FrameSummary { format_raw: img.fmt, bit_depth: img.bit_depth, width: img.d_w, height: img.d_h }
}

/// The images `imgs`, the first flagged to carry the stream header line when `header_first`.
pub open spec fn spec_flagged(imgs: Seq<Image>, header_first: bool) -> Seq<(Image, bool)> {
    Seq::new(imgs.len(), |k: int| (imgs[k], header_first && k == 0))
}

/// Ask the decoder for its ready frames and write each into `stream`, the first preceded by
/// the stream header line when `header_first` is set. Returns the bytes written for them and
/// their summaries, in order.
pub fn write_ready_frames(decoder: &mut Decoder, stream: &mut OutputStream, header_first: bool) -> (r: (Vec<u8>, Vec<FrameSummary>))
    requires
        old(stream).wf(),
    ensures
        final(decoder).backend_state() == spec_after_ready(old(decoder).backend_state()),
        final(stream).wf(),
        final(stream).spec_rate_num() == old(stream).spec_rate_num(),
        final(stream).spec_rate_den() == old(stream).spec_rate_den(),
        final(stream).spec_raw_video() == old(stream).spec_raw_video(),
        final(stream).frames() == old(stream).frames() + spec_flagged(spec_ready(old(decoder).backend_state()), header_first),
        final(stream).spec_bytes() == old(stream).spec_bytes() + r.0@,
        r.1@ == spec_ready(old(decoder).backend_state()).map_values(|img: Image| spec_summary(img)),
{
    let ghost ready_imgs = spec_ready(decoder.backend_state());
    let ghost flagged = spec_flagged(ready_imgs, header_first);
    let ghost frames0 = stream.frames();
    let ready = decoder.get_frames();
    let mut bytes: Vec<u8> = Vec::new();
    let mut summaries: Vec<FrameSummary> = Vec::new();
    let mut i: usize = 0;
    while i < ready.len()
        invariant
            i <= ready@.len(),
            ready@.len() == ready_imgs.len(),
            forall|k: int| 0 <= k < ready@.len() ==> (#[trigger] ready@[k]).image() == ready_imgs[k],
            flagged == spec_flagged(ready_imgs, header_first),
            stream.wf(),
            stream.spec_rate_num() == old(stream).spec_rate_num(),
            stream.spec_rate_den() == old(stream).spec_rate_den(),
            stream.spec_raw_video() == old(stream).spec_raw_video(),
            frames0 == old(stream).frames(),
            stream.frames() == frames0 + flagged.take(i as int),
            stream.spec_bytes() == old(stream).spec_bytes() + bytes@,
            summaries@ == ready_imgs.take(i as int).map_values(|img: Image| spec_summary(img)),
        decreases ready@.len() - i,
    {
        let frame = &ready[i];
        let ghost before_frames = stream.frames();
        let ghost before_bytes = bytes@;
        let chunk = stream.put_frame(frame, header_first && i == 0);
        let mut k: usize = 0;
        while k < chunk.len()
            invariant
                k <= chunk@.len(),
                bytes@ == before_bytes + chunk@.subrange(0, k as int),
            decreases chunk@.len() - k,
        {
            bytes.push(chunk[k]);
            proof {
                assert(chunk@.subrange(0, k + 1) =~= chunk@.subrange(0, k as int).push(chunk@[k as int]));
            }
            k = k + 1;
        }
        summaries.push(FrameSummary { format_raw: frame.format_raw(), bit_depth: frame.bit_depth(), width: frame.width(), height: frame.height() });
        proof {
            assert(chunk@.subrange(0, chunk@.len() as int) =~= chunk@);
            assert(flagged[i as int] == (ready_imgs[i as int], header_first && i == 0));
            assert(stream.frames() =~= frames0 + flagged.take(i + 1));
            assert(stream.frames().drop_last() =~= before_frames);
            assert(bytes@ =~= before_bytes + chunk@);
            assert(ready_imgs.take(i + 1).map_values(|img: Image| spec_summary(img))
                =~= ready_imgs.take(i as int).map_values(|img: Image| spec_summary(img)).push(spec_summary(ready_imgs[i as int])));
        }
        i = i + 1;
    }
    proof {
        assert(flagged.take(ready_imgs.len() as int) =~= flagged);
        assert(ready_imgs.take(ready_imgs.len() as int) =~= ready_imgs);
    }
    (bytes, summaries)
}

} // verus!
