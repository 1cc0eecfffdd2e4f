//! Splitting packets into OBU records (low-overhead and Annex-B forms).
use vstd::prelude::*;
use super::reader::{ParseError, parse_leb128, spec_leb128, lemma_leb128_from_advances};

verus! {

/// Parsed OBU extension header.
#[derive(Debug, Clone, Copy, PartialEq, Eq, Hash, Structural)]
pub struct ObuExtensionHeader {
    pub temporal_id: u8,
    pub spatial_id: u8,
}

/// Parsed OBU header.
#[derive(Debug, Clone, Copy, PartialEq, Eq, Hash, Structural)]
pub struct ObuHeader {
    /// Raw OBU type field.
    pub obu_type: u8,
    /// Whether an extension header follows.
    pub has_extension: bool,
    /// Whether the OBU explicitly carries a payload size field.
    pub has_size_field: bool,
    /// Parsed extension header, if present.
    pub extension: Option<ObuExtensionHeader>,
}

/// Borrowed OBU view into the source packet.
#[derive(Debug, Clone, Copy)]
pub struct Obu<'a> {
    pub header: ObuHeader,
    pub payload: &'a [u8],
}

/// The mathematical content of an OBU: its header and payload bytes.
pub open spec fn obu_view(o: Obu) -> (ObuHeader, Seq<u8>) {
    (o.header, o.payload@)
}

/// The views of a list of OBUs.
pub open spec fn obus_view(obus: Seq<Obu>) -> Seq<(ObuHeader, Seq<u8>)> {
    obus.map_values(|o: Obu| obu_view(o))
}

/// Header byte of a low-overhead OBU, decoded field by field.
pub open spec fn spec_header_fields(h: u8) -> (u8, bool, bool) {
    ((h >> 3u8) & 0x0fu8, (h & 0x04u8) != 0, (h & 0x02u8) != 0)
}

/// One low-overhead OBU at byte `off` of `d`: its header and the payload bounds.
pub open spec fn spec_obu_at(d: Seq<u8>, off: int) -> Result<(ObuHeader, int, int), ParseError> {
    if !(0 <= off < d.len()) {
        Err(ParseError::TruncatedHeader)
    } else {
        let h = d[off];
        if h & 0x80u8 != 0 || h & 0x01u8 != 0 {
            Err(ParseError::InvalidHeader)
        } else {
            let (obu_type, has_extension, has_size_field) = spec_header_fields(h);
            let ext_res: Result<(Option<ObuExtensionHeader>, int), ParseError> = if has_extension {
                if off + 1 >= d.len() {
                    Err(ParseError::TruncatedExtension)
                } else if d[off + 1] & 0x07u8 != 0 {
                    Err(ParseError::InvalidExtension)
                } else {
                    Ok((Some(ObuExtensionHeader {
                        temporal_id: (d[off + 1] >> 5u8) & 0x07u8,
                        spatial_id: (d[off + 1] >> 3u8) & 0x03u8,
                    }), off + 2))
                }
            } else {
                Ok((None, off + 1))
            };
            match ext_res {
                Err(e) => Err(e),
                Ok((extension, pos)) => {
                    let len_res: Result<(int, int), ParseError> = if has_size_field {
                        match spec_leb128(d, pos) {
                            Err(e) => Err(e),
                            Ok((len, end)) => Ok((len as int, end)),
                        }
                    } else {
                        Ok((d.len() - pos, pos))
                    };
                    match len_res {
                        Err(e) => Err(e),
                        Ok((len, start)) => if len > d.len() - start {
                            Err(ParseError::TruncatedPayload)
                        } else {
                            Ok((ObuHeader { obu_type, has_extension, has_size_field, extension }, start, start + len))
                        },
                    }
                },
            }
        }
    }
}

/// All low-overhead OBUs from byte `off` to the end of `d`.
pub open spec fn spec_parse_obus_from(d: Seq<u8>, off: int) -> Result<Seq<(ObuHeader, Seq<u8>)>, ParseError>
    decreases d.len() - off,
{
    if off >= d.len() || off < 0 {
        Ok(Seq::empty())
    } else {
        match spec_obu_at(d, off) {
            Err(e) => Err(e),
            Ok((header, start, end)) => if end <= off {
                Err(ParseError::TruncatedPayload)
            } else {
                match spec_parse_obus_from(d, end) {
                    Err(e) => Err(e),
                    Ok(rest) => Ok(seq![(header, d.subrange(start, end))] + rest),
                }
            },
        }
    }
}

/// The low-overhead OBU split of a whole packet.
pub open spec fn spec_parse_obus(d: Seq<u8>) -> Result<Seq<(ObuHeader, Seq<u8>)>, ParseError> {
    spec_parse_obus_from(d, 0)
}

pub proof fn lemma_obu_at_bounds(d: Seq<u8>, off: int)
    ensures
        spec_obu_at(d, off) matches Ok((_, start, end)) ==> off < start <= end <= d.len(),
{
    if 0 <= off < d.len() {
        let h = d[off];
        let has_extension = (h & 0x04u8) != 0;
        let pos = if has_extension { off + 2 } else { off + 1 };
        lemma_leb128_from_advances(d, pos, 0, 0);
    }
}

fn parse_one_obu<'a>(data: &'a [u8], off: usize) -> (res: Result<(Obu<'a>, usize), ParseError>)
    requires
        off < data@.len(),
    ensures
        match spec_obu_at(data@, off as int) {
            Err(e) => res == Err::<(Obu<'a>, usize), ParseError>(e),
            Ok((header, start, end)) => res matches Ok((obu, next)) && next == end
                && obu_view(obu) == (header, data@.subrange(start, end)),
        },
{
    proof {
        lemma_obu_at_bounds(data@, off as int);
    }
    let header_byte = data[off];
    if header_byte & 0x80 != 0 || header_byte & 0x01 != 0 {
        return Err(ParseError::InvalidHeader);
    }
    let obu_type = (header_byte >> 3) & 0x0f;
    let has_extension = (header_byte & 0x04) != 0;
    let has_size_field = (header_byte & 0x02) != 0;
    let mut pos = off + 1;
    let extension = if has_extension {
        if pos >= data.len() {
            return Err(ParseError::TruncatedExtension);
        }
        let ext = data[pos];
        pos = pos + 1;
        if ext & 0x07 != 0 {
            return Err(ParseError::InvalidExtension);
        }
        Some(ObuExtensionHeader { temporal_id: (ext >> 5) & 0x07, spatial_id: (ext >> 3) & 0x03 })
    } else {
        None
    };
    let payload_len = if has_size_field {
        proof {
            lemma_leb128_from_advances(data@, pos as int, 0, 0);
        }
        parse_leb128(data, &mut pos)?
    } else {
        data.len() - pos
    };
    if payload_len > data.len() - pos {
        return Err(ParseError::TruncatedPayload);
    }
    let payload = &data[pos..pos + payload_len];
    let header = ObuHeader { obu_type, has_extension, has_size_field, extension };
    Ok((Obu { header, payload }, pos + payload_len))
}

/// Split a packet into OBU records.
pub fn parse_obus<'a>(data: &'a [u8]) -> (res: Result<Vec<Obu<'a>>, ParseError>)
    ensures
        match spec_parse_obus(data@) {
            Err(e) => res == Err::<Vec<Obu<'a>>, ParseError>(e),
            Ok(obus) => res matches Ok(v) && obus_view(v@) == obus,
        },
{
    let mut obus: Vec<Obu<'a>> = Vec::new();
    let mut off: usize = 0;
    while off < data.len()
        invariant
            off <= data@.len(),
            match spec_parse_obus_from(data@, off as int) {
                Err(e) => spec_parse_obus(data@) == Err::<Seq<(ObuHeader, Seq<u8>)>, ParseError>(e),
                Ok(rest) => spec_parse_obus(data@) == Ok::<Seq<(ObuHeader, Seq<u8>)>, ParseError>(obus_view(obus@) + rest),
            },
        decreases data@.len() - off,
    {
        proof {
            lemma_obu_at_bounds(data@, off as int);
        }
        let (obu, next) = parse_one_obu(data, off)?;
        let ghost old_obus = obus@;
        obus.push(obu);
        proof {
            assert(obus_view(obus@) == obus_view(old_obus) + seq![obu_view(obu)]);
            match spec_parse_obus_from(data@, next as int) {
                Err(e) => {},
                Ok(rest) => {
                    assert(obus_view(old_obus) + (seq![obu_view(obu)] + rest) == obus_view(obus@) + rest);
                },
            }
        }
        off = next;
    }
    assert(obus_view(obus@) + Seq::<(ObuHeader, Seq<u8>)>::empty() == obus_view(obus@));
    Ok(obus)
}


/// Header of an Annex-B OBU whose bytes are `obu`: the header and its length in bytes.
pub open spec fn spec_annexb_header(obu: Seq<u8>) -> Result<(ObuHeader, int), ParseError> {
    if obu.len() == 0 {
        Err(ParseError::TruncatedHeader)
    } else {
        let h = obu[0];
        let has_extension = (h & 0x80u8) != 0;
        let obu_type = (h >> 2u8) & 0x1fu8;
        let temporal_id = h & 0x03u8;
        if has_extension {
            if obu.len() < 2 {
                Err(ParseError::TruncatedExtension)
            } else {
                Ok((ObuHeader {
                    obu_type,
                    has_extension,
                    has_size_field: false,
                    extension: Some(ObuExtensionHeader { temporal_id, spatial_id: obu[1] >> 5u8 }),
                }, 2))
            }
        } else {
            Ok((ObuHeader { obu_type, has_extension, has_size_field: false, extension: None }, 1))
        }
    }
}

/// An Annex-B OBU header byte written field by field: the extension flag in the top bit, the
/// 5-bit OBU type in bits 2 to 6, the temporal id in the low two bits.
pub open spec fn spec_annexb_header_byte(obu_type: u8, has_extension: bool, temporal_id: u8) -> u8 {
    ((if has_extension { 0x80u8 } else { 0u8 }) | (obu_type << 2u8) | temporal_id) as u8
}

/// An Annex-B OBU header written field by field parses back to the fields written: its type,
/// its extension flag, and with an extension its temporal id and the spatial id in the top
/// three bits of the extension byte.
pub proof fn lemma_annexb_header_round_trip(obu: Seq<u8>, obu_type: u8, has_extension: bool, temporal_id: u8)
    requires
        obu_type < 32,
        temporal_id < 4,
        obu.len() >= (if has_extension { 2int } else { 1int }),
        obu[0] == spec_annexb_header_byte(obu_type, has_extension, temporal_id),
    ensures
        spec_annexb_header(obu) matches Ok((h, len)) && {
            &&& h.obu_type == obu_type
            &&& h.has_extension == has_extension
            &&& !h.has_size_field
            &&& len == (if has_extension { 2int } else { 1int })
            &&& has_extension ==> h.extension == Some(ObuExtensionHeader { temporal_id, spatial_id: obu[1] >> 5u8 })
            &&& !has_extension ==> h.extension is None
        },
{
    let b = obu[0];
    let e: u8 = if has_extension { 0x80u8 } else { 0u8 };
    assert(b == (e | (obu_type << 2u8) | temporal_id) as u8);
    assert((((e | (obu_type << 2u8) | temporal_id) as u8) >> 2u8) & 0x1fu8 == obu_type) by (bit_vector)
        requires obu_type < 32, temporal_id < 4, e == 0x80u8 || e == 0u8;
    assert(((((e | (obu_type << 2u8) | temporal_id) as u8) & 0x80u8) != 0) == (e == 0x80u8)) by (bit_vector)
        requires obu_type < 32, temporal_id < 4, e == 0x80u8 || e == 0u8;
    assert((((e | (obu_type << 2u8) | temporal_id) as u8) & 0x03u8) == temporal_id) by (bit_vector)
        requires obu_type < 32, temporal_id < 4, e == 0x80u8 || e == 0u8;
}

/// An Annex-B unit of one OBU written as its one-byte length, a header byte for type
/// `obu_type` without an extension, and the payload `p` splits back into that one OBU: its
/// type and its payload.
pub proof fn lemma_annexb_unit_round_trip(p: Seq<u8>, obu_type: u8, temporal_id: u8)
    requires
        obu_type < 32,
        temporal_id < 4,
        p.len() + 1 < 128,
    ensures
        ({
            let h = spec_annexb_header_byte(obu_type, false, temporal_id);
            let d = seq![(p.len() + 1) as u8, h] + p;
            spec_parse_annexb_obus(d) matches Ok(obus) && obus.len() == 1 && obus[0].0.obu_type == obu_type
                && !obus[0].0.has_extension && obus[0].1 == p
        }),
{
    let h = spec_annexb_header_byte(obu_type, false, temporal_id);
    let d = seq![(p.len() + 1) as u8, h] + p;
    let n = (p.len() + 1) as u8;
    assert(d[0] == n);
    assert(n & 0x80u8 == 0u8 && (0usize | (((n & 0x7fu8) as usize) << 0usize)) == n as usize) by (bit_vector)
        requires n < 128;
    let obu = d.subrange(2 - 1, 2 - 1 + (p.len() + 1));
    assert(obu =~= seq![h] + p);
    lemma_annexb_header_round_trip(obu, obu_type, false, temporal_id);
    assert(spec_parse_annexb_from(d, d.len() as int) == Ok::<Seq<(ObuHeader, Seq<u8>)>, ParseError>(Seq::empty()));
    assert(obu.subrange(1, obu.len() as int) =~= p);
}

/// All Annex-B OBUs (each preceded by its LEB128 length) from byte `off` to the end of `d`.
pub open spec fn spec_parse_annexb_from(d: Seq<u8>, off: int) -> Result<Seq<(ObuHeader, Seq<u8>)>, ParseError>
    decreases d.len() - off,
{
    if off >= d.len() || off < 0 {
        Ok(Seq::empty())
    } else {
        match spec_leb128(d, off) {
            Err(e) => Err(e),
            Ok((len, start)) => if start + len > usize::MAX {
                Err(ParseError::SizeOverflow)
            } else if start + len > d.len() {
                Err(ParseError::TruncatedPayload)
            } else if start <= off {
                Err(ParseError::TruncatedSize)
            } else {
                let obu = d.subrange(start, start + len);
                match spec_annexb_header(obu) {
                    Err(e) => Err(e),
                    Ok((header, hlen)) => match spec_parse_annexb_from(d, start + len) {
                        Err(e) => Err(e),
                        Ok(rest) => Ok(seq![(header, obu.subrange(hlen, obu.len() as int))] + rest),
                    },
                }
            },
        }
    }
}

/// The Annex-B OBU split of a whole frame unit.
pub open spec fn spec_parse_annexb_obus(d: Seq<u8>) -> Result<Seq<(ObuHeader, Seq<u8>)>, ParseError> {
    spec_parse_annexb_from(d, 0)
}

/// The packet split that tries the low-overhead form first and falls back to Annex-B.
pub open spec fn spec_parse_obus_auto(d: Seq<u8>) -> Result<Seq<(ObuHeader, Seq<u8>)>, ParseError> {
    match spec_parse_obus(d) {
        Ok(obus) => Ok(obus),
        Err(_) => spec_parse_annexb_obus(d),
    }
}

proof fn lemma_low_overhead_payloads(d: Seq<u8>, off: int)
    ensures
        spec_parse_obus_from(d, off) matches Ok(obus) ==> forall|i: int| 0 <= i < obus.len() ==> (#[trigger] obus[i]).1.len() <= d.len(),
    decreases d.len() - off,
{
    if 0 <= off < d.len() {
        lemma_obu_at_bounds(d, off);
        if let Ok((header, start, end)) = spec_obu_at(d, off) {
            if end > off {
                lemma_low_overhead_payloads(d, end);
                if let Ok(rest) = spec_parse_obus_from(d, end) {
                    let obus = seq![(header, d.subrange(start, end))] + rest;
                    assert forall|i: int| 0 <= i < obus.len() implies (#[trigger] obus[i]).1.len() <= d.len() by {
                        if i > 0 {
                            assert(obus[i] == rest[i - 1]);
                        }
                    }
                }
            }
        }
    }
}

proof fn lemma_annexb_payloads(d: Seq<u8>, off: int)
    ensures
        spec_parse_annexb_from(d, off) matches Ok(obus) ==> forall|i: int| 0 <= i < obus.len() ==> (#[trigger] obus[i]).1.len() <= d.len(),
    decreases d.len() - off,
{
    if 0 <= off < d.len() {
        if let Ok((len, start)) = spec_leb128(d, off) {
            if start + len <= usize::MAX && start + len <= d.len() && start > off {
                let obu = d.subrange(start, start + len);
                if let Ok((header, hlen)) = spec_annexb_header(obu) {
                    lemma_annexb_payloads(d, start + len);
                    if let Ok(rest) = spec_parse_annexb_from(d, start + len) {
                        let obus = seq![(header, obu.subrange(hlen, obu.len() as int))] + rest;
                        assert forall|i: int| 0 <= i < obus.len() implies (#[trigger] obus[i]).1.len() <= d.len() by {
                            if i > 0 {
                                assert(obus[i] == rest[i - 1]);
                            }
                        }
                    }
                }
            }
        }
    }
}

/// Every OBU payload of a packet is no longer than the packet.
pub proof fn lemma_payload_lengths(d: Seq<u8>)
    ensures
        spec_parse_obus_auto(d) matches Ok(obus) ==> forall|i: int| 0 <= i < obus.len() ==> (#[trigger] obus[i]).1.len() <= d.len(),
{
    lemma_low_overhead_payloads(d, 0);
    lemma_annexb_payloads(d, 0);
}

fn parse_annexb_obu_header(data: &[u8]) -> (res: Result<(ObuHeader, usize), ParseError>)
    ensures
        match spec_annexb_header(data@) {
            Err(e) => res == Err::<(ObuHeader, usize), ParseError>(e),
            Ok((h, n)) => res == Ok::<(ObuHeader, usize), ParseError>((h, n as usize)),
        },
{
    if data.len() == 0 {
        return Err(ParseError::TruncatedHeader);
    }
    let header_byte = data[0];
    let has_extension = (header_byte & 0x80) != 0;
    let obu_type = (header_byte >> 2) & 0x1f;
    let temporal_id = header_byte & 0x03;
    let mut header_len: usize = 1;
    let extension = if has_extension {
        if data.len() < 2 {
            return Err(ParseError::TruncatedExtension);
        }
        let ext = data[1];
        header_len = header_len + 1;
        Some(ObuExtensionHeader { temporal_id, spatial_id: ext >> 5 })
    } else {
        None
    };
    Ok((ObuHeader { obu_type, has_extension, has_size_field: false, extension }, header_len))
}

/// Split an Annex-B frame-unit packet into OBU records.
pub fn parse_annexb_obus<'a>(data: &'a [u8]) -> (res: Result<Vec<Obu<'a>>, ParseError>)
    ensures
        match spec_parse_annexb_obus(data@) {
            Err(e) => res == Err::<Vec<Obu<'a>>, ParseError>(e),
            Ok(obus) => res matches Ok(v) && obus_view(v@) == obus,
        },
{
    let mut obus: Vec<Obu<'a>> = Vec::new();
    let mut offset: usize = 0;
    while offset < data.len()
        invariant
            offset <= data@.len(),
            match spec_parse_annexb_from(data@, offset as int) {
                Err(e) => spec_parse_annexb_obus(data@) == Err::<Seq<(ObuHeader, Seq<u8>)>, ParseError>(e),
                Ok(rest) => spec_parse_annexb_obus(data@) == Ok::<Seq<(ObuHeader, Seq<u8>)>, ParseError>(obus_view(obus@) + rest),
            },
        decreases data@.len() - offset,
    {
        let ghost here = offset as int;
        proof {
            lemma_leb128_from_advances(data@, here, 0, 0);
        }
        let obu_len = parse_leb128(data, &mut offset)?;
        if obu_len > usize::MAX - offset {
            return Err(ParseError::SizeOverflow);
        }
        let obu_end = offset + obu_len;
        if obu_end > data.len() {
            return Err(ParseError::TruncatedPayload);
        }
        let obu = &data[offset..obu_end];
        let (header, header_len) = parse_annexb_obu_header(obu)?;
        let payload = &obu[header_len..obu.len()];
        let ghost old_obus = obus@;
        let item = Obu { header, payload };
        obus.push(item);
        proof {
            assert(obus_view(obus@) == obus_view(old_obus) + seq![obu_view(item)]);
            assert(obu@.subrange(header_len as int, obu@.len() as int) == payload@);
            match spec_parse_annexb_from(data@, obu_end as int) {
                Err(e) => {},
                Ok(rest) => {
                    assert(obus_view(old_obus) + (seq![obu_view(item)] + rest) == obus_view(obus@) + rest);
                },
            }
        }
        offset = obu_end;
    }
    assert(obus_view(obus@) + Seq::<(ObuHeader, Seq<u8>)>::empty() == obus_view(obus@));
    Ok(obus)
}

/// Parse OBUs from either low-overhead packet form or Annex-B frame-unit form.
pub fn parse_obus_auto<'a>(data: &'a [u8]) -> (res: Result<Vec<Obu<'a>>, ParseError>)
    ensures
        match spec_parse_obus_auto(data@) {
            Err(e) => res == Err::<Vec<Obu<'a>>, ParseError>(e),
            Ok(obus) => res matches Ok(v) && obus_view(v@) == obus,
        },
{
    match parse_obus(data) {
        Ok(obus) => Ok(obus),
        Err(_) => parse_annexb_obus(data),
    }
}

} // verus!
