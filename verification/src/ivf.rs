//! IVF container parsing over an in-memory byte buffer.
use vstd::prelude::*;
use crate::text::{decimal_u64, spec_decimal};

verus! {

/// Default upper bound on one frame's payload: 64 MiB.
pub const DEFAULT_MAX_FRAME_SIZE: usize = 67108864;

/// The IVF file header.
#[derive(Debug, Clone, Copy, PartialEq, Eq)]
pub struct IvfHeader {
    pub fourcc: [u8; 4],
    pub width: u16,
    pub height: u16,
    pub framerate_num: u32,
    pub framerate_den: u32,
    pub num_frames: u32,
}

/// One IVF frame: its timestamp and payload.
#[derive(Debug, Clone, PartialEq, Eq)]
pub struct IvfFrame {
    pub timestamp: u64,
    pub data: Vec<u8>,
}

/// Why reading IVF data failed.
#[derive(Debug, Clone, Copy, PartialEq, Eq, Structural)]
pub enum IvfErrorKind {
    /// The bytes are not a well-formed IVF stream.
    InvalidData,
    /// The stream ended inside a header or a frame.
    UnexpectedEof,
}

/// An IVF reading error: its kind and a description.
#[derive(Debug, Clone, PartialEq, Eq)]
pub struct IvfError {
    pub kind: IvfErrorKind,
    pub message: String,
}

/// IVF reader over the bytes of a whole file.
#[derive(Debug)]
pub struct IvfReader {
    data: Vec<u8>,
    pos: usize,
    header: IvfHeader,
    max_frame_size: usize,
}

/// The little-endian 16-bit value at `i`.
pub open spec fn spec_u16le(d: Seq<u8>, i: int) -> u16 {
    (d[i] as int + 256 * d[i + 1] as int) as u16
}

/// The little-endian 32-bit value at `i`.
pub open spec fn spec_u32le(d: Seq<u8>, i: int) -> u32 {
    (d[i] as int + 256 * d[i + 1] as int + 65536 * d[i + 2] as int + 16777216 * d[i + 3] as int) as u32
}

/// The little-endian 64-bit value at `i`.
pub open spec fn spec_u64le(d: Seq<u8>, i: int) -> u64 {
    (spec_u32le(d, i) as int + 4294967296 * spec_u32le(d, i + 4) as int) as u64
}

/// The message of an end of stream inside a read.
pub open spec fn spec_eof_message() -> Seq<char> {
    "failed to fill whole buffer"@
}

/// The header of an IVF file, or the kind and message of the error that rejects it.
pub open spec fn spec_ivf_header(d: Seq<u8>) -> Result<IvfHeader, (IvfErrorKind, Seq<char>)> {
    if d.len() < 4 {
        Err((IvfErrorKind::UnexpectedEof, spec_eof_message()))
    } else if d.subrange(0, 4) != "DKIF"@.map_values(|c: char| c as u8) {
        Err((IvfErrorKind::InvalidData, "Not an IVF file"@))
    } else if d.len() < 32 {
        Err((IvfErrorKind::UnexpectedEof, spec_eof_message()))
    } else if spec_u16le(d, 4) != 0 {
        Err((IvfErrorKind::InvalidData, "unsupported IVF version "@ + spec_decimal(spec_u16le(d, 4) as nat)))
    } else if spec_u16le(d, 6) != 32 {
        Err((IvfErrorKind::InvalidData, "unexpected IVF header length "@ + spec_decimal(spec_u16le(d, 6) as nat)))
    } else if spec_u16le(d, 12) == 0 || spec_u16le(d, 14) == 0 {
        Err((IvfErrorKind::InvalidData, "IVF header has zero dimension"@))
    } else {
        Ok(IvfHeader {
            fourcc: [d[8], d[9], d[10], d[11]],
            width: spec_u16le(d, 12),
            height: spec_u16le(d, 14),
            framerate_num: spec_u32le(d, 16),
            framerate_den: spec_u32le(d, 20),
            num_frames: spec_u32le(d, 24),
        })
    }
}

/// The frame record at `pos` of an IVF stream with frame limit `max`: the outcome (a frame's
/// timestamp and payload, the end of the stream, or an error) and the position after it.
pub open spec fn spec_next_frame(d: Seq<u8>, pos: int, max: usize)
    -> (Result<Option<(u64, Seq<u8>)>, (IvfErrorKind, Seq<char>)>, int) {
    if d.len() - pos < 4 {
        (Ok(None), d.len() as int)
    } else {
        let size = spec_u32le(d, pos);
        if size > max {
            (Err((IvfErrorKind::InvalidData, "IVF frame size "@ + spec_decimal(size as nat) + " exceeds limit "@
                + spec_decimal(max as nat))), pos + 4)
        } else if d.len() - (pos + 4) < 8 {
            (Err((IvfErrorKind::UnexpectedEof, spec_eof_message())), d.len() as int)
        } else if d.len() - (pos + 12) < size {
            (Err((IvfErrorKind::UnexpectedEof, spec_eof_message())), d.len() as int)
        } else {
            (Ok(Some((spec_u64le(d, pos + 4), d.subrange(pos + 12, pos + 12 + size)))), pos + 12 + size)
        }
    }
}

/// Every frame read fits the frame limit, and the record that holds it is read past.
pub proof fn lemma_frames_within_limit(d: Seq<u8>, pos: int, max: usize)
    requires
        0 <= pos <= d.len(),
    ensures
        spec_next_frame(d, pos, max).0 matches Ok(Some((_, p))) ==> p.len() <= max
            && spec_next_frame(d, pos, max).1 == pos + 12 + p.len(),
{
}

/// Once a read finds the end of the stream, every later read finds it again.
pub proof fn lemma_end_of_stream_is_sticky(d: Seq<u8>, pos: int, max: usize)
    requires
        spec_next_frame(d, pos, max).0 == Ok::<Option<(u64, Seq<u8>)>, (IvfErrorKind, Seq<char>)>(None),
    ensures
        spec_next_frame(d, spec_next_frame(d, pos, max).1, max) == (Ok::<Option<(u64, Seq<u8>)>, (IvfErrorKind, Seq<char>)>(None), d.len() as int),
{
}

fn u16le(d: &[u8], i: usize) -> (v: u16)
    requires
        i + 2 <= d@.len(),
    ensures
        v == spec_u16le(d@, i as int),
{
    d[i] as u16 + 256 * (d[i + 1] as u16)
}

fn u32le(d: &[u8], i: usize) -> (v: u32)
    requires
        i + 4 <= d@.len(),
    ensures
        v == spec_u32le(d@, i as int),
{
    d[i] as u32 + 256 * (d[i + 1] as u32) + 65536 * (d[i + 2] as u32) + 16777216 * (d[i + 3] as u32)
}

fn u64le(d: &[u8], i: usize) -> (v: u64)
    requires
        i + 8 <= d@.len(),
    ensures
        v == spec_u64le(d@, i as int),
{
    let upper = d.len();
    assert(i + 4 < upper);
    u32le(d, i) as u64 + 4294967296 * (u32le(d, i + 4) as u64)
}

fn eof_error() -> (e: IvfError)
    ensures
        e.kind == IvfErrorKind::UnexpectedEof,
        e.message@ == spec_eof_message(),
{
    IvfError { kind: IvfErrorKind::UnexpectedEof, message: String::from_str("failed to fill whole buffer") }
}

fn invalid(message: String) -> (e: IvfError)
    ensures
        e.kind == IvfErrorKind::InvalidData,
        e.message@ == message@,
{
    IvfError { kind: IvfErrorKind::InvalidData, message }
}

/// `prefix` followed by the decimal digits of `n`.
fn with_number(prefix: &str, n: u64) -> (s: String)
    ensures
        s@ == prefix@ + spec_decimal(n as nat),
{
    let mut s = String::from_str(prefix);
    let digits = decimal_u64(n);
    s.append(digits.as_str());
    s
}

impl IvfReader {
    pub closed spec fn bytes(&self) -> Seq<u8> {
        self.data@
    }

    pub closed spec fn position(&self) -> nat {
        self.pos as nat
    }

    pub closed spec fn spec_header(&self) -> IvfHeader {
        self.header
    }

    pub closed spec fn max_frame_size(&self) -> usize {
        self.max_frame_size
    }

    /// A reader over `data` with the default frame-size limit.
    pub fn new(data: Vec<u8>) -> (r: Result<Self, IvfError>)
        ensures
            match spec_ivf_header(data@) {
                Ok(h) => r matches Ok(rd) && rd.spec_header() == h && rd.bytes() == data@ && rd.position() == 32
                    && rd.max_frame_size() == DEFAULT_MAX_FRAME_SIZE,
                Err((kind, msg)) => r matches Err(e) && e.kind == kind && e.message@ == msg,
            },
    {
        Self::with_max_frame_size(data, DEFAULT_MAX_FRAME_SIZE)
    }

    /// A reader over `data` whose frames may not exceed `max` bytes.
    pub fn with_max_frame_size(data: Vec<u8>, max: usize) -> (r: Result<Self, IvfError>)
        ensures
            match spec_ivf_header(data@) {
                Ok(h) => r matches Ok(rd) && rd.spec_header() == h && rd.bytes() == data@ && rd.position() == 32
                    && rd.max_frame_size() == max,
                Err((kind, msg)) => r matches Err(e) && e.kind == kind && e.message@ == msg,
            },
    {
        let d = data.as_slice();
        if d.len() < 4 {
            return Err(eof_error());
        }
        let sig_ok = d[0] == 0x44 && d[1] == 0x4b && d[2] == 0x49 && d[3] == 0x46;
        proof {
            reveal_strlit("DKIF");
            let dk = "DKIF"@.map_values(|c: char| c as u8);
            assert(dk =~= seq![0x44u8, 0x4bu8, 0x49u8, 0x46u8]);
            if sig_ok {
                assert(d@.subrange(0, 4) =~= dk);
            } else {
                if d@.subrange(0, 4) == dk {
                    assert(d@[0] == d@.subrange(0, 4)[0]);
                    assert(d@[1] == d@.subrange(0, 4)[1]);
                    assert(d@[2] == d@.subrange(0, 4)[2]);
                    assert(d@[3] == d@.subrange(0, 4)[3]);
                }
            }
        }
        if !sig_ok {
            proof {
                reveal_strlit("Not an IVF file");
            }
            return Err(invalid(String::from_str("Not an IVF file")));
        }
        if d.len() < 32 {
            return Err(eof_error());
        }
        let version = u16le(d, 4);
        if version != 0 {
            return Err(invalid(with_number("unsupported IVF version ", version as u64)));
        }
        let header_len = u16le(d, 6);
        if header_len != 32 {
            return Err(invalid(with_number("unexpected IVF header length ", header_len as u64)));
        }
        let header = IvfHeader {
            fourcc: [d[8], d[9], d[10], d[11]],
            width: u16le(d, 12),
            height: u16le(d, 14),
            framerate_num: u32le(d, 16),
            framerate_den: u32le(d, 20),
            num_frames: u32le(d, 24),
        };
        if header.width == 0 || header.height == 0 {
            proof {
                reveal_strlit("IVF header has zero dimension");
            }
            return Err(invalid(String::from_str("IVF header has zero dimension")));
        }
        proof {
            reveal_strlit("unsupported IVF version ");
            reveal_strlit("unexpected IVF header length ");
        }
        Ok(IvfReader { data, pos: 32, header, max_frame_size: max })
    }

    /// The file header.
    pub fn header(&self) -> (h: &IvfHeader)
        ensures
            *h == self.spec_header(),
    {
        &self.header
    }

    /// The next frame, `None` at the end of the stream (fewer than four bytes left).
    pub fn next_frame(&mut self) -> (r: Result<Option<IvfFrame>, IvfError>)
        requires
            old(self).position() <= old(self).bytes().len(),
        ensures
            final(self).position() <= final(self).bytes().len(),
            final(self).bytes().len() <= usize::MAX,
            final(self).bytes() == old(self).bytes(),
            final(self).spec_header() == old(self).spec_header(),
            final(self).max_frame_size() == old(self).max_frame_size(),
            ({
                let (res, pos) = spec_next_frame(old(self).bytes(), old(self).position() as int, old(self).max_frame_size());
                &&& final(self).position() == pos
                &&& match res {
                    Ok(None) => r matches Ok(None),
                    Ok(Some((ts, payload))) => r matches Ok(Some(f)) && f.timestamp == ts && f.data@ == payload,
                    Err((kind, msg)) => r matches Err(e) && e.kind == kind && e.message@ == msg,
                }
            }),
    {
        let len = self.data.len();
        if len - self.pos < 4 {
            self.pos = len;
            return Ok(None);
        }
        let size32 = u32le(self.data.as_slice(), self.pos);
        self.pos = self.pos + 4;
        if size32 as u64 > self.max_frame_size as u64 {
            let mut msg = with_number("IVF frame size ", size32 as u64);
            let tail = with_number(" exceeds limit ", self.max_frame_size as u64);
            msg.append(tail.as_str());
            proof {
                reveal_strlit("IVF frame size ");
                reveal_strlit(" exceeds limit ");
            }
            return Err(invalid(msg));
        }
        let size = size32 as usize;
        if len - self.pos < 8 {
            self.pos = len;
            return Err(eof_error());
        }
        let timestamp = u64le(self.data.as_slice(), self.pos);
        self.pos = self.pos + 8;
        if len - self.pos < size {
            self.pos = len;
            return Err(eof_error());
        }
        let data = vstd::slice::slice_to_vec(vstd::slice::slice_subrange(self.data.as_slice(), self.pos, self.pos + size));
        self.pos = self.pos + size;
        Ok(Some(IvfFrame { timestamp, data }))
    }
}

} // verus!
