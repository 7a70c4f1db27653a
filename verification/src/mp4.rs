//! Minimal ISO-BMFF (MP4) parsing: box-tree walking, the video track's
//! sample tables, codec configuration, and per-sample offset
//! reconstruction.
//!
//! Every parser works on the container bytes held in memory. A box is a
//! 4-byte big-endian size (1 meaning an 8-byte extended size follows
//! the tag), a 4-byte type tag, and a payload. A size of 0 means the
//! box extends to its container's end; an overlong box is clamped to
//! that end; a box that does not strictly advance is malformed.

use vstd::prelude::*;

use crate::error::Error;

verus! {

broadcast use vstd::slice::axiom_spec_len;

/// The sample tables of one video track, extracted from its
/// sample-table box. Built once at open time; immutable thereafter.
#[derive(Debug, Clone)]
pub struct TrackSampleTables {
    /// Per-sample byte sizes (from the sample-size table).
    pub sample_sizes: Vec<u32>,
    /// Absolute file offset of each chunk (from the 32- or 64-bit
    /// chunk-offset table).
    pub chunk_offsets: Vec<u64>,
    /// Chunk-to-sample run table (1-based first-chunk indices).
    pub stsc: Vec<StscEntry>,
    /// NAL length-prefix configuration of the track's codec.
    pub codec: CodecConfig,
}

/// One run of the chunk-to-sample table: chunks from `first_chunk`
/// (1-based) up to the next run's first chunk each hold
/// `samples_per_chunk` samples.
#[derive(Debug, Clone, Copy, PartialEq, Eq, Structural)]
pub struct StscEntry {
    pub first_chunk: u32,
    pub samples_per_chunk: u32,
    pub sample_description_index: u32,
}

/// NAL length-prefix width of the track's codec, from its
/// configuration box.
#[derive(Debug, Clone, Copy, PartialEq, Eq, Structural)]
pub enum CodecConfig {
    Avc { nal_len_size: usize },
    Hevc { nal_len_size: usize },
    Unknown,
}

/// The parsed container: every qualifying video track's sample tables.
#[derive(Debug)]
pub struct Mp4 {
    pub tracks: Vec<TrackSampleTables>,
}

/// Mathematical contents of one track's sample tables.
#[verifier::ext_equal]
pub struct TrackView {
    pub sizes: Seq<u32>,
    pub offsets: Seq<u64>,
    pub stsc: Seq<StscEntry>,
    pub codec: CodecConfig,
}

impl View for TrackSampleTables {
    type V = TrackView;

    open spec fn view(&self) -> TrackView {
        TrackView {
            sizes: self.sample_sizes@,
            offsets: self.chunk_offsets@,
            stsc: self.stsc@,
            codec: self.codec,
        }
    }
}

/// The views of a sequence of tracks.
pub open spec fn tracks_view(ts: Seq<TrackSampleTables>) -> Seq<TrackView> {
    Seq::new(ts.len(), |i: int| ts[i]@)
}

/// Spec-level discriminator for a parse failure, mirrored by the
/// `Error` value the executable parsers return.
pub enum ParseErr {
    /// A read ran off the end of the container data.
    Eof,
    /// A box size/offset invariant was violated.
    BadBox { context: Seq<char>, typ: u32, offset: int },
    /// Required sample tables were absent from the sample-table box.
    Missing { sizes: bool, offsets: bool, runs: bool },
}

/// The names of the absent sample tables, joined for the error report.
pub open spec fn missing_names(sz: bool, off: bool, runs: bool) -> Seq<char> {
    if sz && off && runs {
        "stsz, stco/co64, stsc"@
    } else if sz && off {
        "stsz, stco/co64"@
    } else if sz && runs {
        "stsz, stsc"@
    } else if sz {
        "stsz"@
    } else if off && runs {
        "stco/co64, stsc"@
    } else if off {
        "stco/co64"@
    } else {
        "stsc"@
    }
}

/// The executable error that corresponds to a spec-level parse failure.
pub open spec fn err_matches(e: Error, k: ParseErr) -> bool {
    match k {
        ParseErr::Eof => e is Io,
        ParseErr::BadBox { context, typ, offset } => match e {
            Error::Mp4InvalidBox { context: c, box_type, offset: o, message } => c@ == context
                && box_type == typ && o as int == offset,
            _ => false,
        },
        ParseErr::Missing { sizes, offsets, runs } => match e {
            Error::Mp4MissingSampleTables { missing } => missing@ == missing_names(
                sizes,
                offsets,
                runs,
            ),
            _ => false,
        },
    }
}

/// Big-endian 32-bit value at `i`.
pub open spec fn be32(s: Seq<u8>, i: int) -> int {
    (s[i] as int) * 0x1000000 + (s[i + 1] as int) * 0x10000 + (s[i + 2] as int) * 0x100 + (s[i
        + 3] as int)
}

/// Big-endian 64-bit value at `i`.
pub open spec fn be64(s: Seq<u8>, i: int) -> int {
    be32(s, i) * 0x100000000 + be32(s, i + 4)
}

// Box type tags (big-endian fourcc values).
pub const MOOV: u32 = 0x6D6F6F76;

pub const TRAK: u32 = 0x7472616B;

pub const MDIA: u32 = 0x6D646961;

pub const HDLR: u32 = 0x68646C72;

pub const VIDE: u32 = 0x76696465;

pub const MINF: u32 = 0x6D696E66;

pub const STBL: u32 = 0x7374626C;

pub const STSD: u32 = 0x73747364;

pub const STSZ: u32 = 0x7374737A;

pub const STCO: u32 = 0x7374636F;

pub const CO64: u32 = 0x636F3634;

pub const STSC: u32 = 0x73747363;

pub const AVCC: u32 = 0x61766343;

pub const HVCC: u32 = 0x68766343;

pub const AVC1: u32 = 0x61766331;

pub const HVC1: u32 = 0x68766331;

pub const HEV1: u32 = 0x68657631;

/// The end-of-data error.
fn eof_error() -> (e: Error)
    ensures
        e is Io,
{
    Error::Io { message: "unexpected end of data".to_owned() }
}

/// Big-endian 32-bit read, bounds known to the caller.
fn be_u32_at(data: &[u8], pos: usize) -> (r: u32)
    requires
        pos + 4 <= data@.len(),
    ensures
        r as int == be32(data@, pos as int),
{
    (data[pos] as u32) * 0x1000000 + (data[pos + 1] as u32) * 0x10000 + (data[pos + 2] as u32)
        * 0x100 + (data[pos + 3] as u32)
}

/// One byte at `pos`, or the end-of-data error.
fn read_u8(data: &[u8], pos: usize) -> (r: Result<u8, Error>)
    ensures
        pos < data@.len() ==> r == Ok::<u8, Error>(data@[pos as int]),
        pos >= data@.len() ==> (r matches Err(e) && e is Io),
{
    if pos < data.len() {
        Ok(data[pos])
    } else {
        Err(eof_error())
    }
}

/// Big-endian 32-bit read at `pos`, or the end-of-data error.
fn read_be_u32(data: &[u8], pos: usize) -> (r: Result<u32, Error>)
    ensures
        pos + 4 <= data@.len() ==> (r matches Ok(v) && v as int == be32(data@, pos as int)),
        pos + 4 > data@.len() ==> (r matches Err(e) && e is Io),
{
    if pos < data.len() && 4 <= data.len() - pos {
        Ok(be_u32_at(data, pos))
    } else {
        Err(eof_error())
    }
}

/// Big-endian 64-bit read at `pos`, or the end-of-data error.
fn read_be_u64(data: &[u8], pos: usize) -> (r: Result<u64, Error>)
    ensures
        pos + 8 <= data@.len() ==> (r matches Ok(v) && v as int == be64(data@, pos as int)),
        pos + 8 > data@.len() ==> (r matches Err(e) && e is Io),
{
    if pos < data.len() && 8 <= data.len() - pos {
        let hi = be_u32_at(data, pos);
        let lo = be_u32_at(data, pos + 4);
        Ok((hi as u64) * 0x100000000 + (lo as u64))
    } else {
        Err(eof_error())
    }
}

/// One box header: type tag, total size (32-bit, or extended when the
/// 32-bit field is 1), and the header's own length (8 or 16 bytes).
#[derive(Debug, Clone, Copy, PartialEq, Eq, Structural)]
pub struct BoxHeader {
    pub typ: u32,
    pub size: u64,
    pub header_len: usize,
}

/// The box header at `pos`, or `Eof` when it runs off the data.
pub open spec fn spec_box_header(s: Seq<u8>, pos: int) -> Result<BoxHeader, ParseErr> {
    if pos + 8 > s.len() {
        Err(ParseErr::Eof)
    } else {
        let size32 = be32(s, pos);
        let typ = be32(s, pos + 4) as u32;
        if size32 == 1 {
            if pos + 16 > s.len() {
                Err(ParseErr::Eof)
            } else {
                Ok(BoxHeader { typ, size: be64(s, pos + 8) as u64, header_len: 16 })
            }
        } else {
            Ok(BoxHeader { typ, size: size32 as u64, header_len: 8 })
        }
    }
}

/// Read one box header at `pos`.
pub fn read_box_header(data: &[u8], pos: usize) -> (r: Result<BoxHeader, Error>)
    requires
        pos <= data@.len(),
    ensures
        r matches Ok(h) ==> spec_box_header(data@, pos as int) == Ok::<BoxHeader, ParseErr>(h),
        r matches Err(e) ==> spec_box_header(data@, pos as int) == Err::<BoxHeader, ParseErr>(
            ParseErr::Eof,
        ) && e is Io,
{
    if data.len() - pos < 8 {
        return Err(eof_error());
    }
    let size32 = be_u32_at(data, pos);
    let typ = be_u32_at(data, pos + 4);
    if size32 == 1 {
        if data.len() - pos < 16 {
            return Err(eof_error());
        }
        let size64 = (be_u32_at(data, pos + 8) as u64) * 0x100000000 + (be_u32_at(data, pos + 12) as u64);
        Ok(BoxHeader { typ, size: size64, header_len: 16 })
    } else {
        Ok(BoxHeader { typ, size: size32 as u64, header_len: 8 })
    }
}

/// Where the box starting at `start` ends, inside a container that runs
/// to `limit`: size 0 extends to `limit`, an overlong box is clamped to
/// `limit`, a size smaller than the header or an end that does not
/// strictly advance is malformed.
pub open spec fn spec_box_end(ctx: Seq<char>, hdr: BoxHeader, start: int, limit: int) -> Result<
    int,
    ParseErr,
> {
    let size = if hdr.size == 0 {
        if limit - start >= 0 {
            limit - start
        } else {
            0
        }
    } else {
        hdr.size as int
    };
    if size < hdr.header_len {
        Err(ParseErr::BadBox { context: ctx, typ: hdr.typ, offset: start })
    } else {
        let end = if start + size > limit {
            limit
        } else {
            start + size
        };
        if end <= start {
            Err(ParseErr::BadBox { context: ctx, typ: hdr.typ, offset: start })
        } else {
            Ok(end)
        }
    }
}

/// Compute the box's end, rejecting malformed sizes.
pub fn safe_box_end(ctx: &str, start: usize, hdr: &BoxHeader, limit: usize) -> (r: Result<
    usize,
    Error,
>)
    ensures
        r matches Ok(e) ==> spec_box_end(ctx@, *hdr, start as int, limit as int) == Ok::<
            int,
            ParseErr,
        >(e as int) && start < e <= limit,
        r matches Err(e) ==> spec_box_end(ctx@, *hdr, start as int, limit as int) matches Err(k)
            && err_matches(e, k),
{
    let room = limit.saturating_sub(start);
    let size: u64 = if hdr.size == 0 {
        room as u64
    } else {
        hdr.size
    };
    if size < hdr.header_len as u64 {
        return Err(
            Error::Mp4InvalidBox {
                context: ctx.to_owned(),
                box_type: hdr.typ,
                offset: start,
                message: "size smaller than header length".to_owned(),
            },
        );
    }
    let end: usize = if size >= room as u64 {
        limit
    } else {
        start + (size as usize)
    };
    if end <= start {
        return Err(
            Error::Mp4InvalidBox {
                context: ctx.to_owned(),
                box_type: hdr.typ,
                offset: start,
                message: "box end does not advance".to_owned(),
            },
        );
    }
    Ok(end)
}

/// The sample-size table at payload offset `p`: a non-zero default size
/// yields `count` copies of it; otherwise `count` explicit 32-bit
/// entries follow.
pub open spec fn spec_stsz(s: Seq<u8>, p: int) -> Result<Seq<u32>, ParseErr> {
    if p + 12 > s.len() {
        Err(ParseErr::Eof)
    } else {
        let sample_size = be32(s, p + 4);
        let count = be32(s, p + 8);
        if sample_size != 0 {
            Ok(Seq::new(count as nat, |i: int| sample_size as u32))
        } else if p + 12 + 4 * count > s.len() {
            Err(ParseErr::Eof)
        } else {
            Ok(Seq::new(count as nat, |i: int| be32(s, p + 12 + 4 * i) as u32))
        }
    }
}

/// Parse the sample-size table.
pub fn parse_stsz(data: &[u8], payload_start: usize) -> (r: Result<Vec<u32>, Error>)
    ensures
        r matches Ok(v) ==> spec_stsz(data@, payload_start as int) == Ok::<Seq<u32>, ParseErr>(v@),
        r matches Err(e) ==> spec_stsz(data@, payload_start as int) == Err::<Seq<u32>, ParseErr>(
            ParseErr::Eof,
        ) && e is Io,
{
    let p = payload_start;
    if p >= data.len() || data.len() - p < 12 {
        return Err(eof_error());
    }
    let sample_size = be_u32_at(data, p + 4);
    let count = be_u32_at(data, p + 8);
    if sample_size != 0 {
        let v = vec![sample_size; count as usize];
        assert(v@ =~= Seq::new(count as nat, |i: int| sample_size));
        return Ok(v);
    }
    if (count as u64) * 4 > (data.len() - (p + 12)) as u64 {
        return Err(eof_error());
    }
    let ghost target = Seq::new(count as nat, |i: int| be32(data@, p + 12 + 4 * i) as u32);
    let mut v: Vec<u32> = Vec::new();
    let mut i: usize = 0;
    while i < count as usize
        invariant
            p + 12 + 4 * (count as int) <= data@.len() <= usize::MAX,
            0 <= i <= count as usize,
            target == Seq::new(count as nat, |k: int| be32(data@, p as int + 12 + 4 * k) as u32),
            v@.len() == i,
            forall|k: int| 0 <= k < i ==> v@[k] == target[k],
        decreases count as usize - i,
    {
        v.push(be_u32_at(data, p + 12 + 4 * i));
        i = i + 1;
    }
    assert(v@ =~= target);
    Ok(v)
}

/// The 32-bit chunk-offset table at payload offset `p`.
pub open spec fn spec_stco(s: Seq<u8>, p: int) -> Result<Seq<u64>, ParseErr> {
    if p + 8 > s.len() {
        Err(ParseErr::Eof)
    } else {
        let count = be32(s, p + 4);
        if p + 8 + 4 * count > s.len() {
            Err(ParseErr::Eof)
        } else {
            Ok(Seq::new(count as nat, |i: int| be32(s, p + 8 + 4 * i) as u64))
        }
    }
}

/// Parse the 32-bit chunk-offset table.
pub fn parse_stco(data: &[u8], payload_start: usize) -> (r: Result<Vec<u64>, Error>)
    ensures
        r matches Ok(v) ==> spec_stco(data@, payload_start as int) == Ok::<Seq<u64>, ParseErr>(v@),
        r matches Err(e) ==> spec_stco(data@, payload_start as int) == Err::<Seq<u64>, ParseErr>(
            ParseErr::Eof,
        ) && e is Io,
{
    let p = payload_start;
    if p >= data.len() || data.len() - p < 8 {
        return Err(eof_error());
    }
    let count = be_u32_at(data, p + 4);
    if (count as u64) * 4 > (data.len() - (p + 8)) as u64 {
        return Err(eof_error());
    }
    let ghost target = Seq::new(count as nat, |i: int| be32(data@, p + 8 + 4 * i) as u64);
    let mut v: Vec<u64> = Vec::new();
    let mut i: usize = 0;
    while i < count as usize
        invariant
            p + 8 + 4 * (count as int) <= data@.len() <= usize::MAX,
            0 <= i <= count as usize,
            target == Seq::new(count as nat, |k: int| be32(data@, p as int + 8 + 4 * k) as u64),
            v@.len() == i,
            forall|k: int| 0 <= k < i ==> v@[k] == target[k],
        decreases count as usize - i,
    {
        v.push(be_u32_at(data, p + 8 + 4 * i) as u64);
        i = i + 1;
    }
    assert(v@ =~= target);
    Ok(v)
}

/// The 64-bit chunk-offset table at payload offset `p`.
pub open spec fn spec_co64(s: Seq<u8>, p: int) -> Result<Seq<u64>, ParseErr> {
    if p + 8 > s.len() {
        Err(ParseErr::Eof)
    } else {
        let count = be32(s, p + 4);
        if p + 8 + 8 * count > s.len() {
            Err(ParseErr::Eof)
        } else {
            Ok(Seq::new(count as nat, |i: int| be64(s, p + 8 + 8 * i) as u64))
        }
    }
}

/// Parse the 64-bit chunk-offset table.
pub fn parse_co64(data: &[u8], payload_start: usize) -> (r: Result<Vec<u64>, Error>)
    ensures
        r matches Ok(v) ==> spec_co64(data@, payload_start as int) == Ok::<Seq<u64>, ParseErr>(v@),
        r matches Err(e) ==> spec_co64(data@, payload_start as int) == Err::<Seq<u64>, ParseErr>(
            ParseErr::Eof,
        ) && e is Io,
{
    let p = payload_start;
    if p >= data.len() || data.len() - p < 8 {
        return Err(eof_error());
    }
    let count = be_u32_at(data, p + 4);
    if (count as u64) * 8 > (data.len() - (p + 8)) as u64 {
        return Err(eof_error());
    }
    let ghost target = Seq::new(count as nat, |i: int| be64(data@, p + 8 + 8 * i) as u64);
    let mut v: Vec<u64> = Vec::new();
    let mut i: usize = 0;
    while i < count as usize
        invariant
            p + 8 + 8 * (count as int) <= data@.len() <= usize::MAX,
            0 <= i <= count as usize,
            target == Seq::new(count as nat, |k: int| be64(data@, p as int + 8 + 8 * k) as u64),
            v@.len() == i,
            forall|k: int| 0 <= k < i ==> v@[k] == target[k],
        decreases count as usize - i,
    {
        let hi = be_u32_at(data, p + 8 + 8 * i);
        let lo = be_u32_at(data, p + 8 + 8 * i + 4);
        v.push((hi as u64) * 0x100000000 + (lo as u64));
        i = i + 1;
    }
    assert(v@ =~= target);
    Ok(v)
}

/// The chunk-to-sample run table at payload offset `p`: `count` entries
/// of three 32-bit fields each.
pub open spec fn spec_stsc(s: Seq<u8>, p: int) -> Result<Seq<StscEntry>, ParseErr> {
    if p + 8 > s.len() {
        Err(ParseErr::Eof)
    } else {
        let count = be32(s, p + 4);
        if p + 8 + 12 * count > s.len() {
            Err(ParseErr::Eof)
        } else {
            Ok(
                Seq::new(
                    count as nat,
                    |i: int|
                        StscEntry {
                            first_chunk: be32(s, p + 8 + 12 * i) as u32,
                            samples_per_chunk: be32(s, p + 8 + 12 * i + 4) as u32,
                            sample_description_index: be32(s, p + 8 + 12 * i + 8) as u32,
                        },
                ),
            )
        }
    }
}

/// Parse the chunk-to-sample run table.
pub fn parse_stsc(data: &[u8], payload_start: usize) -> (r: Result<Vec<StscEntry>, Error>)
    ensures
        r matches Ok(v) ==> spec_stsc(data@, payload_start as int) == Ok::<
            Seq<StscEntry>,
            ParseErr,
        >(v@),
        r matches Err(e) ==> spec_stsc(data@, payload_start as int) == Err::<
            Seq<StscEntry>,
            ParseErr,
        >(ParseErr::Eof) && e is Io,
{
    let p = payload_start;
    if p >= data.len() || data.len() - p < 8 {
        return Err(eof_error());
    }
    let count = be_u32_at(data, p + 4);
    if (count as u64) * 12 > (data.len() - (p + 8)) as u64 {
        return Err(eof_error());
    }
    let ghost target = Seq::new(
        count as nat,
        |i: int|
            StscEntry {
                first_chunk: be32(data@, p + 8 + 12 * i) as u32,
                samples_per_chunk: be32(data@, p + 8 + 12 * i + 4) as u32,
                sample_description_index: be32(data@, p + 8 + 12 * i + 8) as u32,
            },
    );
    let mut v: Vec<StscEntry> = Vec::new();
    let mut i: usize = 0;
    while i < count as usize
        invariant
            p + 8 + 12 * (count as int) <= data@.len() <= usize::MAX,
            0 <= i <= count as usize,
            target == Seq::new(
                count as nat,
                |k: int|
                    StscEntry {
                        first_chunk: be32(data@, p as int + 8 + 12 * k) as u32,
                        samples_per_chunk: be32(data@, p as int + 8 + 12 * k + 4) as u32,
                        sample_description_index: be32(data@, p as int + 8 + 12 * k + 8) as u32,
                    },
            ),
            v@.len() == i,
            forall|k: int| 0 <= k < i ==> v@[k] == target[k],
        decreases count as usize - i,
    {
        let e = StscEntry {
            first_chunk: be_u32_at(data, p + 8 + 12 * i),
            samples_per_chunk: be_u32_at(data, p + 8 + 12 * i + 4),
            sample_description_index: be_u32_at(data, p + 8 + 12 * i + 8),
        };
        v.push(e);
        i = i + 1;
    }
    assert(v@ =~= target);
    Ok(v)
}

} // verus!

verus! {

/// Option of a viewable value, viewed.
pub open spec fn opt_view<T: View>(o: Option<T>) -> Option<T::V> {
    match o {
        Option::Some(v) => Some(v@),
        Option::None => None,
    }
}

/// The recognized visual sample-entry types.
pub open spec fn is_visual(entry_type: u32) -> bool {
    entry_type == AVC1 || entry_type == HVC1 || entry_type == HEV1
}

/// Codec assumed when the entry names a known visual codec but no
/// configuration box was found: a four-byte NAL length prefix.
pub open spec fn fallback_codec(entry_type: u32) -> CodecConfig {
    if entry_type == AVC1 {
        CodecConfig::Avc { nal_len_size: 4 }
    } else if entry_type == HVC1 || entry_type == HEV1 {
        CodecConfig::Hevc { nal_len_size: 4 }
    } else {
        CodecConfig::Unknown
    }
}

/// Walk the child boxes of a sample entry from `p`, looking for an AVC
/// or HEVC configuration box; the NAL length-prefix width is the low
/// two bits of the byte at configuration payload offset 4 (AVC) or 21
/// (HEVC), plus one.
pub open spec fn spec_stsd_children(s: Seq<u8>, p: int, entry_end: int, entry_type: u32) -> Result<
    CodecConfig,
    ParseErr,
>
    decreases entry_end - p,
{
    if p + 8 > entry_end {
        Ok(fallback_codec(entry_type))
    } else {
        match spec_box_header(s, p) {
            Result::Err(k) => Err(k),
            Result::Ok(hdr) => match spec_box_end("stsd"@, hdr, p, entry_end) {
                Result::Err(k) => Err(k),
                Result::Ok(child_end) => {
                    let payload = p + hdr.header_len;
                    if hdr.typ == AVCC {
                        if payload + 5 > s.len() {
                            Err(ParseErr::Eof)
                        } else {
                            Ok(CodecConfig::Avc { nal_len_size: ((s[payload + 4] & 3) + 1) as usize })
                        }
                    } else if hdr.typ == HVCC {
                        if payload + 22 > s.len() {
                            Err(ParseErr::Eof)
                        } else {
                            Ok(
                                CodecConfig::Hevc {
                                    nal_len_size: ((s[payload + 21] & 3) + 1) as usize,
                                },
                            )
                        }
                    } else {
                        spec_stsd_children(s, child_end, entry_end, entry_type)
                    }
                },
            },
        }
    }
}

/// The codec configuration of the first sample-description entry: skip
/// the fixed 78-byte visual-sample-entry header for recognized visual
/// types, then scan the entry's child boxes.
pub open spec fn spec_stsd(s: Seq<u8>, payload: int, stsd_end: int) -> Result<
    CodecConfig,
    ParseErr,
> {
    if payload + 8 > s.len() {
        Err(ParseErr::Eof)
    } else {
        let entry_count = be32(s, payload + 4);
        if entry_count == 0 {
            Ok(CodecConfig::Unknown)
        } else {
            let entry_pos = payload + 8;
            if entry_pos + 8 > s.len() {
                Err(ParseErr::Eof)
            } else {
                let entry_size = be32(s, entry_pos);
                let entry_type = be32(s, entry_pos + 4) as u32;
                let entry_end = if entry_size == 0 {
                    stsd_end
                } else {
                    if entry_pos + entry_size < stsd_end {
                        entry_pos + entry_size
                    } else {
                        stsd_end
                    }
                };
                let p0 = if is_visual(entry_type) {
                    entry_pos + 8 + 78
                } else {
                    entry_pos + 8
                };
                let p = if p0 > entry_end {
                    entry_pos + 8
                } else {
                    p0
                };
                spec_stsd_children(s, p, entry_end, entry_type)
            }
        }
    }
}

/// AVC configuration: the NAL length-prefix width from the byte at
/// payload offset 4.
pub fn parse_avcc_nal_len(data: &[u8], payload_start: usize) -> (r: Result<usize, Error>)
    requires
        payload_start <= data@.len(),
    ensures
        payload_start + 5 <= data@.len() ==> r == Ok::<usize, Error>(
            ((data@[payload_start + 4] & 3) + 1) as usize,
        ),
        payload_start + 5 > data@.len() ==> (r matches Err(e) && e is Io),
{
    if data.len() - payload_start < 5 {
        return Err(eof_error());
    }
    let b = data[payload_start + 4];
    let w: usize = (b & 3) as usize + 1;
    assert(w as int == ((data@[payload_start + 4] & 3) + 1) as int);
    Ok(w)
}

/// HEVC configuration: the NAL length-prefix width from the byte at
/// payload offset 21 (after the standard fixed preamble).
pub fn parse_hvcc_nal_len(data: &[u8], payload_start: usize) -> (r: Result<usize, Error>)
    requires
        payload_start <= data@.len(),
    ensures
        payload_start + 22 <= data@.len() ==> r == Ok::<usize, Error>(
            ((data@[payload_start + 21] & 3) + 1) as usize,
        ),
        payload_start + 22 > data@.len() ==> (r matches Err(e) && e is Io),
{
    if data.len() - payload_start < 22 {
        return Err(eof_error());
    }
    let b = data[payload_start + 21];
    let w: usize = (b & 3) as usize + 1;
    assert(w as int == ((data@[payload_start + 21] & 3) + 1) as int);
    Ok(w)
}

/// Determine the codec configuration from the sample-description box.
pub fn parse_stsd_for_codec(data: &[u8], payload_start: usize, stsd_end: usize) -> (r: Result<
    CodecConfig,
    Error,
>)
    requires
        payload_start <= data@.len(),
        stsd_end <= data@.len(),
    ensures
        r matches Ok(c) ==> spec_stsd(data@, payload_start as int, stsd_end as int) == Ok::<
            CodecConfig,
            ParseErr,
        >(c),
        r matches Err(e) ==> (spec_stsd(data@, payload_start as int, stsd_end as int) matches Err(
            k,
        ) && err_matches(e, k)),
{
    let p = payload_start;
    if data.len() - p < 8 {
        return Err(eof_error());
    }
    let entry_count = be_u32_at(data, p + 4);
    if entry_count == 0 {
        return Ok(CodecConfig::Unknown);
    }
    let entry_pos = p + 8;
    if data.len() - entry_pos < 8 {
        return Err(eof_error());
    }
    let entry_size = be_u32_at(data, entry_pos);
    let entry_type = be_u32_at(data, entry_pos + 4);
    let entry_end: usize = if entry_size == 0 {
        stsd_end
    } else {
        if stsd_end < entry_pos || stsd_end - entry_pos < entry_size as usize {
            stsd_end
        } else {
            entry_pos + entry_size as usize
        }
    };
    let is_vis = entry_type == AVC1 || entry_type == HVC1 || entry_type == HEV1;
    let q0: usize = if is_vis {
        if entry_pos > entry_end || entry_end - entry_pos < 86 {
            // The fixed visual header would overrun the entry; fall
            // back to scanning right after the entry's size and type.
            entry_pos + 8
        } else {
            entry_pos + 86
        }
    } else {
        entry_pos + 8
    };
    let ghost spec_p0 = if is_visual(entry_type) {
        entry_pos + 8 + 78
    } else {
        entry_pos + 8
    };
    let ghost spec_q = if spec_p0 > entry_end {
        entry_pos as int + 8
    } else {
        spec_p0
    };
    assert(q0 as int == spec_q);
    let mut q = q0;
    while q < entry_end && entry_end - q >= 8
        invariant
            data@.len() <= usize::MAX,
            entry_end <= stsd_end <= data@.len(),
            q <= data@.len(),
            spec_stsd(data@, payload_start as int, stsd_end as int) == spec_stsd_children(
                data@,
                q as int,
                entry_end as int,
                entry_type,
            ),
        decreases entry_end - q,
    {
        let hdr = match read_box_header(data, q) {
            Ok(h) => h,
            Err(e) => {
                return Err(e);
            },
        };
        let child_end = match safe_box_end("stsd", q, &hdr, entry_end) {
            Ok(e) => e,
            Err(e) => {
                return Err(e);
            },
        };
        let payload = q + hdr.header_len;
        if hdr.typ == AVCC {
            let nal = match parse_avcc_nal_len(data, payload) {
                Ok(n) => n,
                Err(e) => {
                    return Err(e);
                },
            };
            return Ok(CodecConfig::Avc { nal_len_size: nal });
        }
        if hdr.typ == HVCC {
            let nal = match parse_hvcc_nal_len(data, payload) {
                Ok(n) => n,
                Err(e) => {
                    return Err(e);
                },
            };
            return Ok(CodecConfig::Hevc { nal_len_size: nal });
        }
        q = child_end;
    }
    let c = if entry_type == AVC1 {
        CodecConfig::Avc { nal_len_size: 4 }
    } else if entry_type == HVC1 || entry_type == HEV1 {
        CodecConfig::Hevc { nal_len_size: 4 }
    } else {
        CodecConfig::Unknown
    };
    Ok(c)
}

} // verus!

verus! {

/// Walk the sample-table box from `pos`, gathering the four sub-tables;
/// at the end, absent required tables are fatal.
pub open spec fn walk_stbl(
    s: Seq<u8>,
    pos: int,
    end: int,
    sizes: Option<Seq<u32>>,
    offs: Option<Seq<u64>>,
    runs: Option<Seq<StscEntry>>,
    codec: CodecConfig,
) -> Result<TrackView, ParseErr>
    decreases end - pos,
{
    if pos + 8 > end {
        match (sizes, offs, runs) {
            (Option::Some(sz), Option::Some(of), Option::Some(rn)) => Ok(
                TrackView { sizes: sz, offsets: of, stsc: rn, codec },
            ),
            _ => Err(
                ParseErr::Missing {
                    sizes: sizes is None,
                    offsets: offs is None,
                    runs: runs is None,
                },
            ),
        }
    } else {
        match spec_box_header(s, pos) {
            Result::Err(k) => Err(k),
            Result::Ok(hdr) => match spec_box_end("stbl"@, hdr, pos, end) {
                Result::Err(k) => Err(k),
                Result::Ok(box_end) => {
                    let payload = pos + hdr.header_len;
                    if hdr.typ == STSD {
                        match spec_stsd(s, payload, box_end) {
                            Result::Err(k) => Err(k),
                            Result::Ok(c) => walk_stbl(s, box_end, end, sizes, offs, runs, c),
                        }
                    } else if hdr.typ == STSZ {
                        match spec_stsz(s, payload) {
                            Result::Err(k) => Err(k),
                            Result::Ok(v) => walk_stbl(s, box_end, end, Some(v), offs, runs, codec),
                        }
                    } else if hdr.typ == STCO {
                        match spec_stco(s, payload) {
                            Result::Err(k) => Err(k),
                            Result::Ok(v) => walk_stbl(
                                s,
                                box_end,
                                end,
                                sizes,
                                Some(v),
                                runs,
                                codec,
                            ),
                        }
                    } else if hdr.typ == CO64 {
                        match spec_co64(s, payload) {
                            Result::Err(k) => Err(k),
                            Result::Ok(v) => walk_stbl(
                                s,
                                box_end,
                                end,
                                sizes,
                                Some(v),
                                runs,
                                codec,
                            ),
                        }
                    } else if hdr.typ == STSC {
                        match spec_stsc(s, payload) {
                            Result::Err(k) => Err(k),
                            Result::Ok(v) => walk_stbl(
                                s,
                                box_end,
                                end,
                                sizes,
                                offs,
                                Some(v),
                                codec,
                            ),
                        }
                    } else {
                        walk_stbl(s, box_end, end, sizes, offs, runs, codec)
                    }
                },
            },
        }
    }
}

/// Walk a media-information box: the first sample-table box decides.
pub open spec fn walk_minf(s: Seq<u8>, pos: int, end: int) -> Result<Option<TrackView>, ParseErr>
    decreases end - pos,
{
    if pos + 8 > end {
        Ok(None)
    } else {
        match spec_box_header(s, pos) {
            Result::Err(k) => Err(k),
            Result::Ok(hdr) => match spec_box_end("minf"@, hdr, pos, end) {
                Result::Err(k) => Err(k),
                Result::Ok(box_end) => {
                    if hdr.typ == STBL {
                        match walk_stbl(
                            s,
                            pos + hdr.header_len,
                            box_end,
                            None,
                            None,
                            None,
                            CodecConfig::Unknown,
                        ) {
                            Result::Err(k) => Err(k),
                            Result::Ok(t) => Ok(Some(t)),
                        }
                    } else {
                        walk_minf(s, box_end, end)
                    }
                },
            },
        }
    }
}

/// Walk a media box: remember the handler type and the tables of the
/// media-information box; at the end a video handler keeps the tables
/// (re-raising a deferred media-information failure), any other handler
/// yields nothing.
pub open spec fn walk_mdia(
    s: Seq<u8>,
    pos: int,
    end: int,
    handler: Option<u32>,
    stbl: Option<TrackView>,
    minf_err: Option<ParseErr>,
) -> Result<Option<TrackView>, ParseErr>
    decreases end - pos,
{
    if pos + 8 > end {
        if handler == Some(VIDE) {
            match minf_err {
                Option::Some(k) => Err(k),
                Option::None => Ok(stbl),
            }
        } else {
            Ok(None)
        }
    } else {
        match spec_box_header(s, pos) {
            Result::Err(k) => Err(k),
            Result::Ok(hdr) => match spec_box_end("mdia"@, hdr, pos, end) {
                Result::Err(k) => Err(k),
                Result::Ok(box_end) => {
                    let payload = pos + hdr.header_len;
                    if hdr.typ == HDLR {
                        // Handler type: 4 bytes at payload offset 8
                        // (after version/flags and a predefined field).
                        if payload + 12 > s.len() {
                            Err(ParseErr::Eof)
                        } else {
                            walk_mdia(
                                s,
                                box_end,
                                end,
                                Some(be32(s, payload + 8) as u32),
                                stbl,
                                minf_err,
                            )
                        }
                    } else if hdr.typ == MINF {
                        match walk_minf(s, payload, box_end) {
                            Result::Ok(v) => walk_mdia(s, box_end, end, handler, v, minf_err),
                            Result::Err(k) => walk_mdia(s, box_end, end, handler, stbl, Some(k)),
                        }
                    } else {
                        walk_mdia(s, box_end, end, handler, stbl, minf_err)
                    }
                },
            },
        }
    }
}

/// Walk a track box: the first media box decides.
pub open spec fn walk_trak(s: Seq<u8>, pos: int, end: int) -> Result<Option<TrackView>, ParseErr>
    decreases end - pos,
{
    if pos + 8 > end {
        Ok(None)
    } else {
        match spec_box_header(s, pos) {
            Result::Err(k) => Err(k),
            Result::Ok(hdr) => match spec_box_end("trak"@, hdr, pos, end) {
                Result::Err(k) => Err(k),
                Result::Ok(box_end) => {
                    if hdr.typ == MDIA {
                        walk_mdia(s, pos + hdr.header_len, box_end, None, None, None)
                    } else {
                        walk_trak(s, box_end, end)
                    }
                },
            },
        }
    }
}

/// Walk the movie box, collecting every qualifying track.
pub open spec fn walk_moov(s: Seq<u8>, pos: int, end: int, acc: Seq<TrackView>) -> Result<
    Seq<TrackView>,
    ParseErr,
>
    decreases end - pos,
{
    if pos + 8 > end {
        Ok(acc)
    } else {
        match spec_box_header(s, pos) {
            Result::Err(k) => Err(k),
            Result::Ok(hdr) => match spec_box_end("moov"@, hdr, pos, end) {
                Result::Err(k) => Err(k),
                Result::Ok(box_end) => {
                    if hdr.typ == TRAK {
                        match walk_trak(s, pos + hdr.header_len, box_end) {
                            Result::Err(k) => Err(k),
                            Result::Ok(Option::Some(t)) => walk_moov(s, box_end, end, acc.push(t)),
                            Result::Ok(Option::None) => walk_moov(s, box_end, end, acc),
                        }
                    } else {
                        walk_moov(s, box_end, end, acc)
                    }
                },
            },
        }
    }
}

/// Walk the top-level boxes of the container, collecting the tracks of
/// every movie box.
pub open spec fn walk_top(s: Seq<u8>, pos: int, acc: Seq<TrackView>) -> Result<
    Seq<TrackView>,
    ParseErr,
>
    decreases s.len() - pos,
{
    if pos + 8 > s.len() {
        Ok(acc)
    } else {
        match spec_box_header(s, pos) {
            Result::Err(k) => Err(k),
            Result::Ok(hdr) => match spec_box_end("top"@, hdr, pos, s.len() as int) {
                Result::Err(k) => Err(k),
                Result::Ok(box_end) => {
                    if hdr.typ == MOOV {
                        match walk_moov(s, pos + hdr.header_len, box_end, acc) {
                            Result::Err(k) => Err(k),
                            Result::Ok(acc2) => walk_top(s, box_end, acc2),
                        }
                    } else {
                        walk_top(s, box_end, acc)
                    }
                },
            },
        }
    }
}

/// What parsing the whole container yields: the sample tables of every
/// qualifying video track, in file order.
pub open spec fn spec_parse_mp4(s: Seq<u8>) -> Result<Seq<TrackView>, ParseErr> {
    walk_top(s, 0, Seq::empty())
}

} // verus!

verus! {

/// Parse one sample-table box into a track's sample tables.
#[verifier::rlimit(100)]
pub fn parse_stbl(data: &[u8], pos0: usize, end: usize) -> (r: Result<TrackSampleTables, Error>)
    requires
        pos0 <= data@.len(),
        end <= data@.len(),
    ensures
        r matches Ok(t) ==> walk_stbl(
            data@,
            pos0 as int,
            end as int,
            None,
            None,
            None,
            CodecConfig::Unknown,
        ) == Ok::<TrackView, ParseErr>(t@),
        r matches Err(e) ==> (walk_stbl(
            data@,
            pos0 as int,
            end as int,
            None,
            None,
            None,
            CodecConfig::Unknown,
        ) matches Err(k) && err_matches(e, k)),
{
    proof {
        assert(vstd::slice::spec_slice_len(data) == data@.len());
    }
    let mut sample_sizes: Option<Vec<u32>> = None;
    let mut chunk_offsets: Option<Vec<u64>> = None;
    let mut stsc: Option<Vec<StscEntry>> = None;
    let mut codec: CodecConfig = CodecConfig::Unknown;
    let mut pos = pos0;
    while pos < end && end - pos >= 8
        invariant
            data@.len() <= usize::MAX,
            end <= data@.len(),
            pos <= data@.len(),
            walk_stbl(
                data@,
                pos0 as int,
                end as int,
                None,
                None,
                None,
                CodecConfig::Unknown,
            ) == walk_stbl(
                data@,
                pos as int,
                end as int,
                opt_view(sample_sizes),
                opt_view(chunk_offsets),
                opt_view(stsc),
                codec,
            ),
        decreases end - pos,
    {
        let hdr = match read_box_header(data, pos) {
            Ok(h) => h,
            Err(e) => {
                return Err(e);
            },
        };
        let box_end = match safe_box_end("stbl", pos, &hdr, end) {
            Ok(e) => e,
            Err(e) => {
                return Err(e);
            },
        };
        let payload_start = pos + hdr.header_len;
        if hdr.typ == STSD {
            codec = match parse_stsd_for_codec(data, payload_start, box_end) {
                Ok(c) => c,
                Err(e) => {
                    return Err(e);
                },
            };
        } else if hdr.typ == STSZ {
            sample_sizes = match parse_stsz(data, payload_start) {
                Ok(v) => Some(v),
                Err(e) => {
                    return Err(e);
                },
            };
        } else if hdr.typ == STCO {
            chunk_offsets = match parse_stco(data, payload_start) {
                Ok(v) => Some(v),
                Err(e) => {
                    return Err(e);
                },
            };
        } else if hdr.typ == CO64 {
            chunk_offsets = match parse_co64(data, payload_start) {
                Ok(v) => Some(v),
                Err(e) => {
                    return Err(e);
                },
            };
        } else if hdr.typ == STSC {
            stsc = match parse_stsc(data, payload_start) {
                Ok(v) => Some(v),
                Err(e) => {
                    return Err(e);
                },
            };
        }
        pos = box_end;
    }
    let sz_missing = sample_sizes.is_none();
    let off_missing = chunk_offsets.is_none();
    let runs_missing = stsc.is_none();
    if sz_missing || off_missing || runs_missing {
        let missing: String = if sz_missing && off_missing && runs_missing {
            "stsz, stco/co64, stsc".to_owned()
        } else if sz_missing && off_missing {
            "stsz, stco/co64".to_owned()
        } else if sz_missing && runs_missing {
            "stsz, stsc".to_owned()
        } else if sz_missing {
            "stsz".to_owned()
        } else if off_missing && runs_missing {
            "stco/co64, stsc".to_owned()
        } else if off_missing {
            "stco/co64".to_owned()
        } else {
            "stsc".to_owned()
        };
        return Err(Error::Mp4MissingSampleTables { missing });
    }
    let t = TrackSampleTables {
        sample_sizes: match sample_sizes {
            Some(v) => v,
            None => {
                return Err(eof_error());
            },
        },
        chunk_offsets: match chunk_offsets {
            Some(v) => v,
            None => {
                return Err(eof_error());
            },
        },
        stsc: match stsc {
            Some(v) => v,
            None => {
                return Err(eof_error());
            },
        },
        codec,
    };
    Ok(t)
}

/// Parse one media-information box: the tables of its sample-table box,
/// if it has one.
#[verifier::rlimit(100)]
pub fn parse_minf(data: &[u8], pos0: usize, end: usize) -> (r: Result<
    Option<TrackSampleTables>,
    Error,
>)
    requires
        pos0 <= data@.len(),
        end <= data@.len(),
    ensures
        r matches Ok(t) ==> walk_minf(data@, pos0 as int, end as int) == Ok::<
            Option<TrackView>,
            ParseErr,
        >(opt_view(t)),
        r matches Err(e) ==> (walk_minf(data@, pos0 as int, end as int) matches Err(k)
            && err_matches(e, k)),
{
    proof {
        assert(vstd::slice::spec_slice_len(data) == data@.len());
    }
    let mut pos = pos0;
    while pos < end && end - pos >= 8
        invariant
            data@.len() <= usize::MAX,
            end <= data@.len(),
            pos <= data@.len(),
            walk_minf(data@, pos0 as int, end as int) == walk_minf(data@, pos as int, end as int),
        decreases end - pos,
    {
        let hdr = match read_box_header(data, pos) {
            Ok(h) => h,
            Err(e) => {
                return Err(e);
            },
        };
        let box_end = match safe_box_end("minf", pos, &hdr, end) {
            Ok(e) => e,
            Err(e) => {
                return Err(e);
            },
        };
        if hdr.typ == STBL {
            return match parse_stbl(data, pos + hdr.header_len, box_end) {
                Ok(t) => Ok(Some(t)),
                Err(e) => Err(e),
            };
        }
        pos = box_end;
    }
    Ok(None)
}

/// Parse one media box: its tables when its handler is the video
/// handler, nothing otherwise.
#[verifier::rlimit(100)]
pub fn parse_mdia(data: &[u8], pos0: usize, end: usize) -> (r: Result<
    Option<TrackSampleTables>,
    Error,
>)
    requires
        pos0 <= data@.len(),
        end <= data@.len(),
    ensures
        r matches Ok(t) ==> walk_mdia(data@, pos0 as int, end as int, None, None, None) == Ok::<
            Option<TrackView>,
            ParseErr,
        >(opt_view(t)),
        r matches Err(e) ==> (walk_mdia(data@, pos0 as int, end as int, None, None, None
        ) matches Err(k) && err_matches(e, k)),
{
    proof {
        assert(vstd::slice::spec_slice_len(data) == data@.len());
    }
    let mut handler_type: Option<u32> = None;
    let mut stbl_tables: Option<TrackSampleTables> = None;
    let mut minf_err: Option<Error> = None;
    let ghost mut g_err: Option<ParseErr> = None;
    let mut pos = pos0;
    while pos < end && end - pos >= 8
        invariant
            data@.len() <= usize::MAX,
            end <= data@.len(),
            pos <= data@.len(),
            walk_mdia(data@, pos0 as int, end as int, None, None, None) == walk_mdia(
                data@,
                pos as int,
                end as int,
                handler_type,
                opt_view(stbl_tables),
                g_err,
            ),
            g_err is Some <==> minf_err is Some,
            g_err matches Some(k) ==> (minf_err matches Some(e) && err_matches(e, k)),
        decreases end - pos,
    {
        let hdr = match read_box_header(data, pos) {
            Ok(h) => h,
            Err(e) => {
                return Err(e);
            },
        };
        let box_end = match safe_box_end("mdia", pos, &hdr, end) {
            Ok(e) => e,
            Err(e) => {
                return Err(e);
            },
        };
        let payload_start = pos + hdr.header_len;
        if hdr.typ == HDLR {
            if data.len() - payload_start < 12 {
                return Err(eof_error());
            }
            handler_type = Some(be_u32_at(data, payload_start + 8));
        } else if hdr.typ == MINF {
            match parse_minf(data, payload_start, box_end) {
                Ok(v) => {
                    proof {
                        g_err = g_err;
                    }
                    stbl_tables = v;
                },
                Err(e) => {
                    proof {
                        g_err = match walk_minf(data@, payload_start as int, box_end as int) {
                            Result::Err(k) => Some(k),
                            Result::Ok(_) => None,
                        };
                    }
                    minf_err = Some(e);
                },
            }
        }
        pos = box_end;
    }
    let is_vide = match handler_type {
        Some(ht) => ht == VIDE,
        None => false,
    };
    if is_vide {
        match minf_err {
            Some(e) => Err(e),
            None => Ok(stbl_tables),
        }
    } else {
        Ok(None)
    }
}

/// Parse one track box: its media box decides whether it qualifies.
#[verifier::rlimit(100)]
pub fn parse_trak(data: &[u8], pos0: usize, end: usize) -> (r: Result<
    Option<TrackSampleTables>,
    Error,
>)
    requires
        pos0 <= data@.len(),
        end <= data@.len(),
    ensures
        r matches Ok(t) ==> walk_trak(data@, pos0 as int, end as int) == Ok::<
            Option<TrackView>,
            ParseErr,
        >(opt_view(t)),
        r matches Err(e) ==> (walk_trak(data@, pos0 as int, end as int) matches Err(k)
            && err_matches(e, k)),
{
    proof {
        assert(vstd::slice::spec_slice_len(data) == data@.len());
    }
    let mut pos = pos0;
    while pos < end && end - pos >= 8
        invariant
            data@.len() <= usize::MAX,
            end <= data@.len(),
            pos <= data@.len(),
            walk_trak(data@, pos0 as int, end as int) == walk_trak(data@, pos as int, end as int),
        decreases end - pos,
    {
        let hdr = match read_box_header(data, pos) {
            Ok(h) => h,
            Err(e) => {
                return Err(e);
            },
        };
        let box_end = match safe_box_end("trak", pos, &hdr, end) {
            Ok(e) => e,
            Err(e) => {
                return Err(e);
            },
        };
        if hdr.typ == MDIA {
            return parse_mdia(data, pos + hdr.header_len, box_end);
        }
        pos = box_end;
    }
    Ok(None)
}

/// Parse the movie box, appending every qualifying track's tables.
#[verifier::rlimit(100)]
pub fn parse_moov(data: &[u8], pos0: usize, end: usize, tracks: &mut Vec<TrackSampleTables>) -> (r:
    Result<(), Error>)
    requires
        pos0 <= data@.len(),
        end <= data@.len(),
    ensures
        r matches Ok(u) ==> walk_moov(data@, pos0 as int, end as int, tracks_view(old(tracks)@))
            == Ok::<Seq<TrackView>, ParseErr>(tracks_view(final(tracks)@)),
        r matches Err(e) ==> (walk_moov(data@, pos0 as int, end as int, tracks_view(
            old(tracks)@,
        )) matches Err(k) && err_matches(e, k)),
{
    proof {
        assert(vstd::slice::spec_slice_len(data) == data@.len());
    }
    let mut pos = pos0;
    while pos < end && end - pos >= 8
        invariant
            data@.len() <= usize::MAX,
            end <= data@.len(),
            pos <= data@.len(),
            walk_moov(data@, pos0 as int, end as int, tracks_view(old(tracks)@)) == walk_moov(
                data@,
                pos as int,
                end as int,
                tracks_view(tracks@),
            ),
        decreases end - pos,
    {
        let hdr = match read_box_header(data, pos) {
            Ok(h) => h,
            Err(e) => {
                return Err(e);
            },
        };
        let box_end = match safe_box_end("moov", pos, &hdr, end) {
            Ok(e) => e,
            Err(e) => {
                return Err(e);
            },
        };
        if hdr.typ == TRAK {
            match parse_trak(data, pos + hdr.header_len, box_end) {
                Ok(Some(t)) => {
                    let ghost prev = tracks_view(tracks@);
                    let ghost tv = t@;
                    tracks.push(t);
                    assert(tracks_view(tracks@) =~= prev.push(tv));
                },
                Ok(None) => {},
                Err(e) => {
                    return Err(e);
                },
            }
        }
        pos = box_end;
    }
    Ok(())
}

/// Parse the whole container into its qualifying video tracks.
#[verifier::rlimit(100)]
pub fn parse_mp4(data: &[u8]) -> (r: Result<Mp4, Error>)
    ensures
        r matches Ok(m) ==> spec_parse_mp4(data@) == Ok::<Seq<TrackView>, ParseErr>(
            tracks_view(m.tracks@),
        ),
        r matches Err(e) ==> (spec_parse_mp4(data@) matches Err(k) && err_matches(e, k)),
{
    let mut tracks: Vec<TrackSampleTables> = Vec::new();
    let file_len = data.len();
    assert(tracks_view(tracks@) =~= Seq::<TrackView>::empty());
    let mut pos: usize = 0;
    while pos < file_len && file_len - pos >= 8
        invariant
            data@.len() <= usize::MAX,
            file_len == data@.len(),
            pos <= data@.len(),
            walk_top(data@, 0, Seq::empty()) == walk_top(data@, pos as int, tracks_view(tracks@)),
        decreases file_len - pos,
    {
        let hdr = match read_box_header(data, pos) {
            Ok(h) => h,
            Err(e) => {
                return Err(e);
            },
        };
        let box_end = match safe_box_end("top", pos, &hdr, file_len) {
            Ok(e) => e,
            Err(e) => {
                return Err(e);
            },
        };
        if hdr.typ == MOOV {
            match parse_moov(data, pos + hdr.header_len, box_end, &mut tracks) {
                Ok(()) => {},
                Err(e) => {
                    return Err(e);
                },
            }
        }
        pos = box_end;
    }
    Ok(Mp4 { tracks })
}

} // verus!

verus! {

/// Per-chunk sample counts after one run is applied: chunk numbers
/// `c` (1-based) from `c` up to `next` each get `v` samples; numbers
/// outside the table (0, or past its end) are ignored.
pub open spec fn fill_range(cs: Seq<u32>, c: int, next: int, v: u32) -> Seq<u32>
    decreases next - c,
{
    if c >= next {
        cs
    } else {
        let cs2 = if 1 <= c && c - 1 < cs.len() {
            cs.update(c - 1, v)
        } else {
            cs
        };
        fill_range(cs2, c + 1, next, v)
    }
}

/// Per-chunk sample counts after the runs from `i` on are applied, each
/// run extending to the next run's first chunk (the last to one past
/// the final chunk).
pub open spec fn apply_runs(runs: Seq<StscEntry>, i: int, cs: Seq<u32>) -> Seq<u32>
    decreases runs.len() - i,
{
    if i < 0 || i >= runs.len() {
        cs
    } else {
        let next_first = if i + 1 < runs.len() {
            runs[i + 1].first_chunk as int
        } else {
            cs.len() as int + 1
        };
        apply_runs(
            runs,
            i + 1,
            fill_range(cs, runs[i].first_chunk as int, next_first, runs[i].samples_per_chunk),
        )
    }
}

/// Chunks left with a zero count take the nearest preceding non-zero
/// count (tolerates irregular run-table ordering).
pub open spec fn fill_zero_gaps(cs: Seq<u32>, i: int, last: u32) -> Seq<u32>
    decreases cs.len() - i,
{
    if i < 0 || i >= cs.len() {
        cs
    } else if cs[i] == 0 {
        fill_zero_gaps(cs.update(i, last), i + 1, last)
    } else {
        fill_zero_gaps(cs, i + 1, cs[i])
    }
}

/// The per-chunk sample counts of a track with `n` chunks.
pub open spec fn spec_chunk_samples(runs: Seq<StscEntry>, n: int) -> Seq<u32> {
    fill_zero_gaps(apply_runs(runs, 0, Seq::new(n as nat, |i: int| 0u32)), 0, 0)
}

/// `u64` addition clamped at the maximum.
pub open spec fn sat_add_u64(a: u64, b: u64) -> u64 {
    if a + b > u64::MAX {
        u64::MAX
    } else {
        (a + b) as u64
    }
}

/// Offsets of up to `k` samples of one chunk, starting at `off` and
/// advancing by each sample's declared size; emission stops when every
/// sample of the track has an offset.
pub open spec fn emit_chunk(off: u64, sizes: Seq<u32>, k: int, acc: Seq<u64>) -> Seq<u64>
    decreases k,
{
    if k <= 0 || acc.len() >= sizes.len() {
        acc
    } else {
        emit_chunk(sat_add_u64(off, sizes[acc.len() as int] as u64), sizes, k - 1, acc.push(off))
    }
}

/// Offsets of all samples of the chunks from `ci` on, in chunk order.
pub open spec fn emit_chunks(
    offs: Seq<u64>,
    cs: Seq<u32>,
    sizes: Seq<u32>,
    ci: int,
    acc: Seq<u64>,
) -> Seq<u64>
    decreases offs.len() - ci,
{
    if ci < 0 || ci >= offs.len() {
        acc
    } else {
        emit_chunks(offs, cs, sizes, ci + 1, emit_chunk(offs[ci], sizes, cs[ci] as int, acc))
    }
}

/// The reconstructed per-sample absolute file offsets of a track.
pub open spec fn spec_sample_offsets(t: TrackView) -> Seq<u64> {
    emit_chunks(
        t.offsets,
        spec_chunk_samples(t.stsc, t.offsets.len() as int),
        t.sizes,
        0,
        Seq::empty(),
    )
}

/// Pointwise effect of one run: slot `j` (0-based) is overwritten with
/// `v` exactly when chunk number `j + 1` lies in `[c, next)`.
proof fn lemma_fill_range_elts(cs: Seq<u32>, c: int, next: int, v: u32)
    ensures
        fill_range(cs, c, next, v).len() == cs.len(),
        forall|j: int|
            0 <= j < cs.len() ==> fill_range(cs, c, next, v)[j] == if c <= j + 1 < next {
                v
            } else {
                cs[j]
            },
    decreases next - c,
{
    if c < next {
        let cs2 = if 1 <= c && c - 1 < cs.len() {
            cs.update(c - 1, v)
        } else {
            cs
        };
        lemma_fill_range_elts(cs2, c + 1, next, v);
    }
}

/// Reconstruct one absolute file offset per sample from the three
/// compressed tables. The offset table must come out exactly one entry
/// per sample; any other outcome is fatal and reports all three table
/// sizes.
pub fn build_sample_offsets(t: &TrackSampleTables) -> (r: Result<Vec<u64>, Error>)
    ensures
        r is Ok <==> spec_sample_offsets(t@).len() == t@.sizes.len(),
        r matches Ok(v) ==> v@ == spec_sample_offsets(t@) && v@.len() == t@.sizes.len(),
        r matches Err(e) ==> e matches Error::Mp4InconsistentSampleTables {
            sample_sizes,
            sample_offsets,
            chunk_offsets,
        } && sample_sizes == t@.sizes.len() && sample_offsets == spec_sample_offsets(t@).len()
            && chunk_offsets == t@.offsets.len(),
{
    let n = t.chunk_offsets.len();
    let mut chunk_samples: Vec<u32> = vec![0u32; n];
    let ghost init = Seq::new(n as nat, |i: int| 0u32);
    assert(chunk_samples@ =~= init);
    // Expand the run table into one sample count per chunk (1-based run
    // indices map to 0-based slots).
    let mut ri: usize = 0;
    while ri < t.stsc.len()
        invariant
            n == t.chunk_offsets@.len(),
            chunk_samples@.len() == n,
            init == Seq::new(n as nat, |i: int| 0u32),
            0 <= ri <= t.stsc@.len(),
            apply_runs(t.stsc@, 0, init) == apply_runs(t.stsc@, ri as int, chunk_samples@),
        decreases t.stsc@.len() - ri,
    {
        let cur = t.stsc[ri];
        let ghost next_spec: int = if ri + 1 < t.stsc@.len() {
            t.stsc@[ri as int + 1].first_chunk as int
        } else {
            n + 1
        };
        // The chunk numbers of this run that land inside the table are
        // [max(first, 1), min(next, n + 1)), i.e. slots [lo, hi).
        let lo: usize = if cur.first_chunk == 0 {
            0
        } else {
            (cur.first_chunk - 1) as usize
        };
        let hi: usize = if ri + 1 < t.stsc.len() {
            let next = t.stsc[ri + 1].first_chunk;
            if next == 0 {
                0
            } else if ((next - 1) as usize) < n {
                (next - 1) as usize
            } else {
                n
            }
        } else {
            n
        };
        let ghost pre = chunk_samples@;
        let mut idx = lo;
        while idx < hi
            invariant
                lo <= idx <= hi || idx == lo,
                hi <= n,
                chunk_samples@.len() == n,
                pre.len() == n,
                forall|j: int|
                    0 <= j < n ==> chunk_samples@[j] == if lo <= j < idx {
                        cur.samples_per_chunk
                    } else {
                        pre[j]
                    },
            decreases hi - idx,
        {
            chunk_samples[idx] = cur.samples_per_chunk;
            idx = idx + 1;
        }
        proof {
            lemma_fill_range_elts(pre, cur.first_chunk as int, next_spec, cur.samples_per_chunk);
            assert(chunk_samples@ =~= fill_range(
                pre,
                cur.first_chunk as int,
                next_spec,
                cur.samples_per_chunk,
            ));
        }
        ri = ri + 1;
    }
    // Fill remaining zero counts with the nearest preceding non-zero
    // count.
    let ghost after_runs = chunk_samples@;
    let mut last: u32 = 0;
    let mut bi: usize = 0;
    while bi < chunk_samples.len()
        invariant
            chunk_samples@.len() == after_runs.len(),
            0 <= bi <= chunk_samples@.len(),
            fill_zero_gaps(after_runs, 0, 0) == fill_zero_gaps(
                chunk_samples@,
                bi as int,
                last,
            ),
        decreases chunk_samples@.len() - bi,
    {
        if chunk_samples[bi] == 0 {
            chunk_samples[bi] = last;
        } else {
            last = chunk_samples[bi];
        }
        bi = bi + 1;
    }
    let ghost cs_final = chunk_samples@;
    assert(cs_final == spec_chunk_samples(t@.stsc, n as int));
    // Walk chunks in order, accumulating each sample's offset.
    let mut sample_offsets: Vec<u64> = Vec::new();
    let mut ci: usize = 0;
    while ci < t.chunk_offsets.len()
        invariant
            n == t.chunk_offsets@.len(),
            cs_final == chunk_samples@,
            chunk_samples@.len() == n,
            0 <= ci <= n,
            emit_chunks(t.chunk_offsets@, cs_final, t.sample_sizes@, 0, Seq::empty())
                == emit_chunks(
                t.chunk_offsets@,
                cs_final,
                t.sample_sizes@,
                ci as int,
                sample_offsets@,
            ),
        decreases n - ci,
    {
        let spc = chunk_samples[ci] as usize;
        let mut off = t.chunk_offsets[ci];
        let ghost off0 = off;
        let ghost acc0 = sample_offsets@;
        let mut kk: usize = 0;
        while kk < spc && sample_offsets.len() < t.sample_sizes.len()
            invariant
                0 <= kk <= spc,
                emit_chunk(off0, t.sample_sizes@, spc as int, acc0) == emit_chunk(
                    off,
                    t.sample_sizes@,
                    spc as int - kk,
                    sample_offsets@,
                ),
            decreases spc - kk,
        {
            let si = sample_offsets.len();
            sample_offsets.push(off);
            off = off.saturating_add(t.sample_sizes[si] as u64);
            kk = kk + 1;
        }
        proof {
            assert(emit_chunk(off, t.sample_sizes@, spc as int - kk, sample_offsets@)
                == sample_offsets@);
        }
        ci = ci + 1;
    }
    if sample_offsets.len() != t.sample_sizes.len() {
        return Err(
            Error::Mp4InconsistentSampleTables {
                sample_sizes: t.sample_sizes.len(),
                sample_offsets: sample_offsets.len(),
                chunk_offsets: t.chunk_offsets.len(),
            },
        );
    }
    Ok(sample_offsets)
}

} // verus!
