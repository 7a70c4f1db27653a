//! The streaming extractor: a pull cursor over the decoded telemetry
//! events of one container held in memory.
//!
//! Opening parses the box tree once, picks the qualifying video track
//! with the most samples, and reconstructs one absolute file offset per
//! sample. Reading is then sequential (`next_event`), positioned
//! (`seek_sample`), or random-access (`read_sample_events`).

use vstd::prelude::*;

use crate::error::Error;
use crate::mp4::{
    build_sample_offsets, err_matches, parse_mp4, spec_parse_mp4, spec_sample_offsets,
    CodecConfig, TrackView,
};
use crate::pb::SeiMetadata;
use crate::sei::{decode_sei_from_sample, spec_sample_events};

verus! {

broadcast use vstd::slice::axiom_spec_len;

/// A single decoded SEI telemetry event.
///
/// One sample may contain zero, one, or multiple SEI payloads; each
/// decoded payload is surfaced as a separate `SeiEvent`.
#[derive(Debug, Clone, Copy, PartialEq, Eq, Structural)]
pub struct SeiEvent {
    /// The 0-based sample index in the selected track.
    pub sample_index: usize,
    /// Absolute file offset where the sample begins.
    pub file_offset: u64,
    /// The decoded telemetry record.
    pub metadata: SeiMetadata,
}

/// Streaming extractor over an in-memory container.
///
/// The cursor state is a next-sample index plus a pending queue of
/// decoded-but-unemitted records for the sample currently being
/// drained; a seek clears the queue.
#[derive(Debug)]
pub struct SeiExtractor {
    /// The container bytes.
    pub data: Vec<u8>,
    /// Per-sample byte sizes of the selected track.
    pub sample_sizes: Vec<u32>,
    /// Reconstructed absolute file offset of each sample.
    pub sample_offsets: Vec<u64>,
    /// NAL length-prefix configuration of the selected track.
    pub codec: CodecConfig,
    /// Next sample index the sequential cursor will read.
    pub next_sample_index: usize,
    /// File offset of the sample whose records are pending.
    pub pending_offset: u64,
    /// Sample index of the sample whose records are pending.
    pub pending_sample_index: usize,
    /// Decoded records not yet emitted by `next_event`.
    pub pending: Vec<SeiMetadata>,
}

impl SeiExtractor {
    /// Structural soundness: one offset per sample, cursor in range,
    /// and a nonempty pending queue belongs to a real sample whose
    /// recorded offset is that sample's.
    pub open spec fn wf(self) -> bool {
        &&& self.sample_offsets@.len() == self.sample_sizes@.len()
        &&& self.next_sample_index <= self.sample_offsets@.len()
        &&& self.pending@.len() > 0 ==> self.pending_sample_index < self.sample_offsets@.len()
            && self.pending_offset == self.sample_offsets@[self.pending_sample_index as int]
    }
}

/// The records of the `sz`-byte sample at offset `off`, or `None` when
/// the sample runs past the end of the data (an I/O failure in a
/// file-backed reader).
pub open spec fn spec_sample_read(data: Seq<u8>, codec: CodecConfig, off: u64, sz: u32) -> Option<
    Seq<SeiMetadata>,
> {
    if off + sz > data.len() {
        None
    } else {
        Some(spec_sample_events(codec, data.subrange(off as int, off as int + sz)))
    }
}

/// What a sequential scan from sample `i` on finds next.
pub enum Advance {
    /// Sample `idx` is the first from `i` on with decoded records `evs`.
    Event { idx: int, evs: Seq<SeiMetadata> },
    /// No sample from `i` on yields a record: clean end of stream.
    End,
    /// The bytes of sample `idx` run past the end of the data.
    Fail { idx: int },
}

/// Scan samples from `i` on for the first that yields records.
pub open spec fn spec_advance(
    data: Seq<u8>,
    codec: CodecConfig,
    offsets: Seq<u64>,
    sizes: Seq<u32>,
    i: int,
) -> Advance
    decreases offsets.len() - i,
{
    if i < 0 || i >= offsets.len() {
        Advance::End
    } else {
        match spec_sample_read(data, codec, offsets[i], sizes[i]) {
            Option::None => Advance::Fail { idx: i },
            Option::Some(evs) => {
                if evs.len() == 0 {
                    spec_advance(data, codec, offsets, sizes, i + 1)
                } else {
                    Advance::Event { idx: i, evs }
                }
            },
        }
    }
}

/// A scan that finds an event found it at or after where it started,
/// within the table, and with at least one record; a scan that fails
/// failed on a sample whose bytes cannot be read.
pub proof fn lemma_advance_bounds(
    data: Seq<u8>,
    codec: CodecConfig,
    offsets: Seq<u64>,
    sizes: Seq<u32>,
    i: int,
)
    ensures
        spec_advance(data, codec, offsets, sizes, i) matches Advance::Event { idx, evs } ==> i
            <= idx < offsets.len() && evs.len() > 0,
        spec_advance(data, codec, offsets, sizes, i) matches Advance::Fail { idx } ==> i <= idx
            < offsets.len() && spec_sample_read(data, codec, offsets[idx], sizes[idx]) is None,
    decreases offsets.len() - i,
{
    if 0 <= i < offsets.len() {
        lemma_advance_bounds(data, codec, offsets, sizes, i + 1);
    }
}

/// A scan that reaches a clean end read every sample from `i` on
/// successfully (and found no records in any of them).
pub proof fn lemma_advance_end_all_ok(
    data: Seq<u8>,
    codec: CodecConfig,
    offsets: Seq<u64>,
    sizes: Seq<u32>,
    i: int,
)
    requires
        0 <= i,
        spec_advance(data, codec, offsets, sizes, i) is End,
    ensures
        forall|j: int|
            i <= j < offsets.len() ==> ((#[trigger] spec_sample_read(
                data,
                codec,
                offsets[j],
                sizes[j],
            )) matches Some(evs) && evs.len() == 0),
    decreases offsets.len() - i,
{
    if i < offsets.len() {
        lemma_advance_end_all_ok(data, codec, offsets, sizes, i + 1);
    }
}

/// The events of one sample, as `next_event` emits them: the sample's
/// index and file offset with each decoded record in order.
pub open spec fn events_of(idx: int, off: u64, evs: Seq<SeiMetadata>) -> Seq<SeiEvent> {
    Seq::new(
        evs.len(),
        |k: int| SeiEvent { sample_index: idx as usize, file_offset: off, metadata: evs[k] },
    )
}

/// Every event a sequential scan from sample `i` on will emit, in
/// order; a failing read ends the stream (its events up to there are
/// still listed).
pub open spec fn spec_events_from(
    data: Seq<u8>,
    codec: CodecConfig,
    offsets: Seq<u64>,
    sizes: Seq<u32>,
    i: int,
) -> Seq<SeiEvent>
    decreases offsets.len() - i,
    when 0 <= i
    via spec_events_from_decreases
{
    match spec_advance(data, codec, offsets, sizes, i) {
        Advance::End => Seq::empty(),
        Advance::Fail { .. } => Seq::empty(),
        Advance::Event { idx, evs } => events_of(idx, offsets[idx], evs) + spec_events_from(
            data,
            codec,
            offsets,
            sizes,
            idx + 1,
        ),
    }
}

#[via_fn]
proof fn spec_events_from_decreases(
    data: Seq<u8>,
    codec: CodecConfig,
    offsets: Seq<u64>,
    sizes: Seq<u32>,
    i: int,
) {
    lemma_advance_bounds(data, codec, offsets, sizes, i);
}

/// All reads of a container's samples stay inside the data.
pub open spec fn all_reads_ok(
    data: Seq<u8>,
    codec: CodecConfig,
    offsets: Seq<u64>,
    sizes: Seq<u32>,
) -> bool {
    forall|j: int|
        0 <= j < offsets.len() ==> (#[trigger] spec_sample_read(
            data,
            codec,
            offsets[j],
            sizes[j],
        )) is Some
}

/// The full event stream of a container: every event that sequential
/// iteration over a fresh extractor yields, in order. Empty when the
/// container does not open.
pub open spec fn container_events(data: Seq<u8>) -> Seq<SeiEvent> {
    match spec_parse_mp4(data) {
        Result::Err(_) => Seq::empty(),
        Result::Ok(ts) => {
            if ts.len() == 0 {
                Seq::empty()
            } else {
                let tv = ts[best_track(ts)];
                if spec_sample_offsets(tv).len() != tv.sizes.len() {
                    Seq::empty()
                } else {
                    spec_events_from(data, tv.codec, spec_sample_offsets(tv), tv.sizes, 0)
                }
            }
        },
    }
}

/// The index of the qualifying track with the most samples, later
/// tracks winning ties, `besti` the best seen before `i`.
pub open spec fn best_track_from(ts: Seq<TrackView>, i: int, besti: int) -> int
    decreases ts.len() - i,
{
    if i < 0 || i >= ts.len() {
        besti
    } else if ts[i].sizes.len() >= ts[besti].sizes.len() {
        best_track_from(ts, i + 1, i)
    } else {
        best_track_from(ts, i + 1, besti)
    }
}

/// The selected track of a non-empty track list.
pub open spec fn best_track(ts: Seq<TrackView>) -> int {
    best_track_from(ts, 1, 0)
}

/// Create an extractor over the container bytes.
///
/// Fails with `NoTracksFound` when no video track with sample tables
/// exists; selects the video track with the most samples (vendor files
/// may carry a small preview track); reconstructs the per-sample
/// offsets, whose count must equal the sample count.
pub fn extractor_from_reader(data: Vec<u8>) -> (r: Result<SeiExtractor, Error>)
    ensures
        spec_parse_mp4(data@) matches Err(k) ==> (r matches Err(e) && err_matches(e, k)),
        spec_parse_mp4(data@) matches Ok(ts) ==> {
            if ts.len() == 0 {
                r matches Err(e) && e is NoTracksFound
            } else {
                {
                    let tv = ts[best_track(ts)];
                    if spec_sample_offsets(tv).len() == tv.sizes.len() {
                        r matches Ok(ex) && ex.wf() && ex.data@ == data@ && ex.sample_sizes@
                            == tv.sizes && ex.sample_offsets@ == spec_sample_offsets(tv)
                            && ex.codec == tv.codec && ex.next_sample_index == 0 && ex.pending@
                            == Seq::<SeiMetadata>::empty()
                    } else {
                        r matches Err(e) && e matches Error::Mp4InconsistentSampleTables {
                            sample_sizes,
                            sample_offsets,
                            chunk_offsets,
                        } && sample_sizes == tv.sizes.len() && sample_offsets
                            == spec_sample_offsets(tv).len() && chunk_offsets == tv.offsets.len()
                    }
                }
            }
        },
{
    let mp4 = match parse_mp4(data.as_slice()) {
        Ok(m) => m,
        Err(e) => {
            return Err(e);
        },
    };
    let mut tracks = mp4.tracks;
    if tracks.len() == 0 {
        return Err(Error::NoTracksFound);
    }
    let ghost ts = crate::mp4::tracks_view(tracks@);
    let mut best: usize = 0;
    let mut i: usize = 1;
    while i < tracks.len()
        invariant
            ts == crate::mp4::tracks_view(tracks@),
            ts.len() == tracks@.len() >= 1,
            0 <= best < ts.len(),
            1 <= i <= ts.len(),
            best_track(ts) == best_track_from(ts, i as int, best as int),
        decreases ts.len() - i,
    {
        if tracks[i].sample_sizes.len() >= tracks[best].sample_sizes.len() {
            best = i;
        }
        i = i + 1;
    }
    let track = tracks.swap_remove(best);
    assert(track@ == ts[best_track(ts)]);
    let sample_offsets = match build_sample_offsets(&track) {
        Ok(v) => v,
        Err(e) => {
            return Err(e);
        },
    };
    Ok(
        SeiExtractor {
            data,
            sample_sizes: track.sample_sizes,
            sample_offsets,
            codec: track.codec,
            next_sample_index: 0,
            pending_offset: 0,
            pending_sample_index: 0,
            pending: Vec::new(),
        },
    )
}

impl SeiExtractor {
    /// Total number of samples in the selected track.
    pub fn total_samples(&self) -> (r: usize)
        ensures
            r == self.sample_offsets@.len(),
    {
        self.sample_offsets.len()
    }

    /// Reposition the sequential cursor at `sample_index` and clear the
    /// pending queue. Any index up to and including `total_samples()`
    /// is valid (the total itself positions at end-of-stream); beyond
    /// that the request is rejected.
    pub fn seek_sample(&mut self, sample_index: usize) -> (r: Result<(), Error>)
        requires
            old(self).wf(),
        ensures
            final(self).wf(),
            final(self).data == old(self).data,
            final(self).sample_sizes == old(self).sample_sizes,
            final(self).sample_offsets == old(self).sample_offsets,
            final(self).codec == old(self).codec,
            sample_index <= old(self).sample_offsets@.len() ==> (r matches Ok(u)
                && final(self).next_sample_index == sample_index && final(self).pending@ == Seq::<
                SeiMetadata,
            >::empty() && final(self).pending_offset == 0 && final(self).pending_sample_index
                == 0),
            sample_index > old(self).sample_offsets@.len() ==> (r matches Err(e) && e
                matches Error::SampleIndexOutOfRange { sample_index: si, total_samples: t } && si
                == sample_index && t == old(self).sample_offsets@.len() && *final(self) == *old(self)),
    {
        if sample_index > self.sample_offsets.len() {
            return Err(
                Error::SampleIndexOutOfRange {
                    sample_index,
                    total_samples: self.sample_offsets.len(),
                },
            );
        }
        self.next_sample_index = sample_index;
        self.pending.clear();
        self.pending_offset = 0;
        self.pending_sample_index = 0;
        Ok(())
    }

    /// Scan forward from the cursor until one sample yields records,
    /// buffering them in the pending queue. `Ok(true)` means records
    /// are pending; `Ok(false)` means a clean end of stream.
    fn read_next_sample_into_pending(&mut self) -> (r: Result<bool, Error>)
        requires
            old(self).wf(),
        ensures
            final(self).wf(),
            final(self).data == old(self).data,
            final(self).sample_sizes == old(self).sample_sizes,
            final(self).sample_offsets == old(self).sample_offsets,
            final(self).codec == old(self).codec,
            old(self).pending@.len() > 0 ==> (r matches Ok(b) && b && *final(self) == *old(self)),
            old(self).pending@.len() == 0 ==> match spec_advance(
                old(self).data@,
                old(self).codec,
                old(self).sample_offsets@,
                old(self).sample_sizes@,
                old(self).next_sample_index as int,
            ) {
                Advance::End => (r matches Ok(b) && !b) && final(self).pending@ == Seq::<
                    SeiMetadata,
                >::empty() && final(self).next_sample_index == old(self).sample_offsets@.len()
                    && final(self).pending_offset == old(self).pending_offset && final(self).pending_sample_index == old(self).pending_sample_index,
                Advance::Fail { idx } => (r matches Err(e) && e is Io) && final(self).pending@
                    == Seq::<SeiMetadata>::empty() && final(self).next_sample_index == idx,
                Advance::Event { idx, evs } => (r matches Ok(b) && b) && final(self).pending@
                    == evs && final(self).pending_sample_index == idx && final(self).pending_offset == old(self).sample_offsets@[idx] && final(self).next_sample_index == idx + 1,
            },
    {
        if self.pending.len() > 0 {
            return Ok(true);
        }
        let ghost data0 = self.data@;
        let ghost codec0 = self.codec;
        let ghost offs0 = self.sample_offsets@;
        let ghost sizes0 = self.sample_sizes@;
        let ghost cur0 = self.next_sample_index as int;
        while self.next_sample_index < self.sample_offsets.len()
            invariant
                old(self).pending@.len() == 0,
                data0 == old(self).data@,
                codec0 == old(self).codec,
                offs0 == old(self).sample_offsets@,
                sizes0 == old(self).sample_sizes@,
                cur0 == old(self).next_sample_index as int,
                self.wf(),
                self.data@ == data0,
                self.codec == codec0,
                self.sample_offsets@ == offs0,
                self.sample_sizes@ == sizes0,
                self.sample_sizes == old(self).sample_sizes,
                self.sample_offsets == old(self).sample_offsets,
                self.data == old(self).data,
                self.codec == old(self).codec,
                self.pending@ == Seq::<SeiMetadata>::empty(),
                self.pending_offset == old(self).pending_offset,
                self.pending_sample_index == old(self).pending_sample_index,
                cur0 <= self.next_sample_index as int,
                spec_advance(data0, codec0, offs0, sizes0, cur0) == spec_advance(
                    data0,
                    codec0,
                    offs0,
                    sizes0,
                    self.next_sample_index as int,
                ),
            decreases offs0.len() - self.next_sample_index,
        {
            let idx = self.next_sample_index;
            let off = self.sample_offsets[idx];
            let sz = self.sample_sizes[idx];
            if off > self.data.len() as u64 || (sz as u64) > self.data.len() as u64 - off {
                return Err(Error::Io { message: "sample lies beyond the end of the data".to_owned() });
            }
            let start = off as usize;
            let sample = vstd::slice::slice_subrange(
                self.data.as_slice(),
                start,
                start + sz as usize,
            );
            self.next_sample_index = idx + 1;
            let decoded = decode_sei_from_sample(&self.codec, sample);
            if decoded.len() == 0 {
                continue ;
            }
            self.pending_offset = off;
            self.pending_sample_index = idx;
            self.pending = decoded;
            return Ok(true);
        }
        Ok(false)
    }

    /// Pull the next decoded event: scan forward until a sample yields
    /// records, then emit them one per call; a clean end of stream is
    /// `Ok(None)`.
    pub fn next_event(&mut self) -> (r: Result<Option<SeiEvent>, Error>)
        requires
            old(self).wf(),
        ensures
            final(self).wf(),
            final(self).data == old(self).data,
            final(self).sample_sizes == old(self).sample_sizes,
            final(self).sample_offsets == old(self).sample_offsets,
            final(self).codec == old(self).codec,
            old(self).pending@.len() > 0 ==> r == Ok::<Option<SeiEvent>, Error>(
                Some(
                    SeiEvent {
                        sample_index: old(self).pending_sample_index,
                        file_offset: old(self).pending_offset,
                        metadata: old(self).pending@[0],
                    },
                ),
            ) && final(self).pending@ == old(self).pending@.skip(1) && final(self).next_sample_index == old(self).next_sample_index && final(self).pending_sample_index
                == old(self).pending_sample_index && final(self).pending_offset == old(self).pending_offset,
            old(self).pending@.len() == 0 ==> match spec_advance(
                old(self).data@,
                old(self).codec,
                old(self).sample_offsets@,
                old(self).sample_sizes@,
                old(self).next_sample_index as int,
            ) {
                Advance::End => r == Ok::<Option<SeiEvent>, Error>(None) && final(self).pending@
                    == Seq::<SeiMetadata>::empty() && final(self).next_sample_index == old(self).sample_offsets@.len(),
                Advance::Fail { idx } => (r matches Err(e) && e is Io) && final(self).pending@
                    == Seq::<SeiMetadata>::empty() && final(self).next_sample_index == idx,
                Advance::Event { idx, evs } => r == Ok::<Option<SeiEvent>, Error>(
                    Some(
                        SeiEvent {
                            sample_index: idx as usize,
                            file_offset: old(self).sample_offsets@[idx],
                            metadata: evs[0],
                        },
                    ),
                ) && final(self).pending@ == evs.skip(1) && final(self).next_sample_index == idx
                    + 1 && final(self).pending_sample_index == idx && final(self).pending_offset
                    == old(self).sample_offsets@[idx],
            },
    {
        proof {
            lemma_advance_bounds(
                old(self).data@,
                old(self).codec,
                old(self).sample_offsets@,
                old(self).sample_sizes@,
                old(self).next_sample_index as int,
            );
        }
        match self.read_next_sample_into_pending() {
            Ok(_) => {},
            Err(e) => {
                return Err(e);
            },
        }
        if self.pending.len() == 0 {
            return Ok(None);
        }
        let ghost oldp = self.pending@;
        let m = self.pending.remove(0);
        proof {
            assert(self.pending@ =~= oldp.skip(1));
        }
        Ok(
            Some(
                SeiEvent {
                    sample_index: self.pending_sample_index,
                    file_offset: self.pending_offset,
                    metadata: m,
                },
            ),
        )
    }

    /// Decode and return all events of one sample, without moving the
    /// sequential cursor. An index at or beyond the total is rejected.
    pub fn read_sample_events(&mut self, sample_index: usize) -> (r: Result<Vec<SeiEvent>, Error>)
        requires
            old(self).wf(),
        ensures
            *final(self) == *old(self),
            sample_index >= old(self).sample_offsets@.len() ==> (r matches Err(e) && e
                matches Error::SampleIndexOutOfRange { sample_index: si, total_samples: t } && si
                == sample_index && t == old(self).sample_offsets@.len()),
            sample_index < old(self).sample_offsets@.len() ==> match spec_sample_read(
                old(self).data@,
                old(self).codec,
                old(self).sample_offsets@[sample_index as int],
                old(self).sample_sizes@[sample_index as int],
            ) {
                Option::None => r matches Err(e) && e is Io,
                Option::Some(evs) => (r matches Ok(v) && v@.len() == evs.len() && forall|k: int|
                    0 <= k < evs.len() ==> v@[k] == (SeiEvent {
                        sample_index,
                        file_offset: old(self).sample_offsets@[sample_index as int],
                        metadata: evs[k],
                    })),
            },
    {
        let total = self.sample_offsets.len();
        if sample_index >= total {
            return Err(Error::SampleIndexOutOfRange { sample_index, total_samples: total });
        }
        let off = self.sample_offsets[sample_index];
        let sz = self.sample_sizes[sample_index];
        if off > self.data.len() as u64 || (sz as u64) > self.data.len() as u64 - off {
            return Err(Error::Io { message: "sample lies beyond the end of the data".to_owned() });
        }
        let start = off as usize;
        let sample = vstd::slice::slice_subrange(self.data.as_slice(), start, start + sz as usize);
        let decoded = decode_sei_from_sample(&self.codec, sample);
        let ghost evs = spec_sample_events(
            self.codec,
            self.data@.subrange(off as int, off as int + sz),
        );
        let mut events: Vec<SeiEvent> = Vec::new();
        let mut k: usize = 0;
        while k < decoded.len()
            invariant
                decoded@ == evs,
                0 <= k <= evs.len(),
                events@.len() == k,
                forall|j: int|
                    0 <= j < k ==> events@[j] == (SeiEvent {
                        sample_index,
                        file_offset: off,
                        metadata: evs[j],
                    }),
            decreases evs.len() - k,
        {
            let ev = SeiEvent { sample_index, file_offset: off, metadata: decoded[k] };
            events.push(ev);
            k = k + 1;
        }
        Ok(events)
    }
}

/// A cursor standing at `total_samples` with nothing pending is a clean
/// end of stream: the next sequential read yields no event and no
/// error. Together with `seek_sample`'s contract, seeking to the total
/// succeeds and the following read reports end-of-stream.
pub proof fn lemma_end_position_is_clean_eos(e: SeiExtractor)
    requires
        e.wf(),
        e.next_sample_index == e.sample_offsets@.len(),
        e.pending@.len() == 0,
    ensures
        spec_advance(
            e.data@,
            e.codec,
            e.sample_offsets@,
            e.sample_sizes@,
            e.next_sample_index as int,
        ) == Advance::End,
{
}

/// Reading a sample that holds exactly one AVC type-5 SEI message — a
/// 16-byte marker followed by a valid encoding of a non-default record
/// `m` — yields exactly one event: `m`, at that sample's offset. With
/// `read_sample_events`'s contract this gives, for such a sample at
/// index `i`, the single event `(i, offsets[i], m)`.
pub proof fn lemma_single_type5_sample_read(
    data: Seq<u8>,
    w: int,
    off: u64,
    sz: u32,
    body: Seq<u8>,
    payload: Seq<u8>,
    enc: Seq<u8>,
    m: SeiMetadata,
)
    requires
        1 <= w <= 4,
        data.len() <= usize::MAX,
        off + sz <= data.len(),
        sz == w + 1 + body.len(),
        crate::sei::be_val(data.subrange(off as int, off as int + sz), 0, w) == 1 + body.len(),
        data[off + w] == 0x06,
        data.subrange(off + w + 1, off as int + sz) == body,
        body.len() == 2 + payload.len(),
        body[0] == 0x05,
        body[1] as int == payload.len(),
        payload.len() < 255,
        body.subrange(2, body.len() as int) == payload,
        forall|k: int|
            0 <= k < body.len() && #[trigger] body[k] == 0x03 ==> !(k >= 2 && body[k - 1] == 0
                && body[k - 2] == 0),
        payload.len() == 16 + enc.len(),
        payload.subrange(16, payload.len() as int) == enc,
        payload[0] != 0x42,
        enc.len() >= 1,
        crate::pb::spec_decode(enc) == Some(m),
        !(m.version == 0 && m.frame_seq_no == 0),
    ensures
        spec_sample_read(data, CodecConfig::Avc { nal_len_size: w as usize }, off, sz) == Some(
            seq![m],
        ),
{
    let sample = data.subrange(off as int, off as int + sz);
    assert(sample[w] == data[off + w]);
    assert(sample.subrange(w + 1, sample.len() as int) =~= data.subrange(
        off + w + 1,
        off as int + sz,
    ));
    crate::sei::lemma_single_type5_sei_sample(w, sample, body, payload, enc, m);
}

/// Create an extractor over the container bytes and hand every decoded
/// event of [`container_events`], in stream order, to `f`, stopping at
/// the first failure of either side.
pub fn for_each_sei_metadata<F: Fn(SeiEvent) -> Result<(), Error>>(data: Vec<u8>, f: F) -> (r:
    Result<(), Error>)
    requires
        forall|ev: SeiEvent| #[trigger] call_requires(f, (ev,)),
    ensures
        spec_parse_mp4(data@) matches Err(k) ==> (r matches Err(e) && err_matches(e, k)),
        (spec_parse_mp4(data@) matches Ok(ts) && ts.len() == 0) ==> (r matches Err(e)
            && e is NoTracksFound),
        (match spec_parse_mp4(data@) {
            Result::Ok(ts) => ts.len() > 0 && spec_sample_offsets(ts[best_track(ts)]).len()
                != ts[best_track(ts)].sizes.len(),
            Result::Err(_) => false,
        }) ==> (r matches Err(e) && e matches Error::Mp4InconsistentSampleTables { .. }),
        // Success is owed when the container opens and a full scan
        // reads every sample cleanly and finds no record at all.
        (match spec_parse_mp4(data@) {
            Result::Ok(ts) => ts.len() > 0 && {
                let tv = ts[best_track(ts)];
                &&& spec_sample_offsets(tv).len() == tv.sizes.len()
                &&& spec_advance(data@, tv.codec, spec_sample_offsets(tv), tv.sizes, 0) is End
            },
            Result::Err(_) => false,
        }) ==> r == Ok::<(), Error>(()),
        // Success is owed whenever no read fails and every return `f`
        // can make on the container's events is a success.
        ((match spec_parse_mp4(data@) {
            Result::Ok(ts) => ts.len() > 0 && {
                let tv = ts[best_track(ts)];
                &&& spec_sample_offsets(tv).len() == tv.sizes.len()
                &&& all_reads_ok(data@, tv.codec, spec_sample_offsets(tv), tv.sizes)
            },
            Result::Err(_) => false,
        }) && (forall|ev: SeiEvent, out: Result<(), Error>|
            container_events(data@).contains(ev) && #[trigger] call_ensures(f, (ev,), out)
                ==> out is Ok)) ==> r == Ok::<(), Error>(()),
        // Every failure is the container's own, or one `f` returned on
        // an event of this container's stream.
        r matches Err(e) ==> e is Io || e is NoTracksFound || e matches Error::Mp4InvalidBox {
            ..
        } || e matches Error::Mp4MissingSampleTables { .. }
            || e matches Error::Mp4InconsistentSampleTables { .. } || (exists|ev: SeiEvent|
            #[trigger] call_ensures(f, (ev,), Result::<(), Error>::Err(e)) && container_events(
                data@,
            ).contains(ev)),
{
    let mut extractor = match extractor_from_reader(data) {
        Ok(e) => e,
        Err(e) => {
            return Err(e);
        },
    };
    let ghost tv = match spec_parse_mp4(data@) {
        Result::Ok(ts) => ts[best_track(ts)],
        Result::Err(_) => vstd::pervasive::arbitrary(),
    };
    let ghost offs = spec_sample_offsets(tv);
    let ghost szs = tv.sizes;
    let ghost cdc = tv.codec;
    let ghost stream = container_events(data@);
    let ghost mut done: Seq<SeiEvent> = Seq::empty();
    proof {
        assert(stream =~= done + events_of(
            extractor.pending_sample_index as int,
            extractor.pending_offset,
            extractor.pending@,
        ) + spec_events_from(data@, cdc, offs, szs, extractor.next_sample_index as int));
    }
    loop
        invariant
            extractor.wf(),
            forall|ev: SeiEvent| #[trigger] call_requires(f, (ev,)),
            extractor.data@ == data@,
            (match spec_parse_mp4(data@) {
                Result::Ok(ts) => ts.len() > 0 && tv == ts[best_track(ts)],
                Result::Err(_) => false,
            }),
            offs == spec_sample_offsets(tv),
            szs == tv.sizes,
            cdc == tv.codec,
            offs.len() == szs.len(),
            extractor.sample_offsets@ == offs,
            extractor.sample_sizes@ == szs,
            extractor.codec == cdc,
            stream == container_events(data@),
            stream == done + events_of(
                extractor.pending_sample_index as int,
                extractor.pending_offset,
                extractor.pending@,
            ) + spec_events_from(data@, cdc, offs, szs, extractor.next_sample_index as int),
        decreases
            extractor.sample_offsets@.len() - extractor.next_sample_index,
            extractor.pending@.len(),
    {
        let ghost pre = extractor;
        proof {
            lemma_advance_bounds(data@, cdc, offs, szs, pre.next_sample_index as int);
        }
        let ev = match extractor.next_event() {
            Ok(Some(ev)) => ev,
            Ok(None) => {
                return Ok(());
            },
            Err(e) => {
                proof {
                    if spec_advance(data@, cdc, offs, szs, 0) is End {
                        lemma_advance_end_all_ok(data@, cdc, offs, szs, 0);
                    }
                }
                return Err(e);
            },
        };
        proof {
            let prem = events_of(pre.pending_sample_index as int, pre.pending_offset, pre.pending@);
            if pre.pending@.len() > 0 {
                // Drained one pending record of the current sample.
                assert(prem =~= seq![ev] + events_of(
                    extractor.pending_sample_index as int,
                    extractor.pending_offset,
                    extractor.pending@,
                ));
            } else {
                // Scanned forward to the next sample with records.
                match spec_advance(data@, cdc, offs, szs, pre.next_sample_index as int) {
                    Advance::Event { idx, evs } => {
                        assert(prem =~= Seq::<SeiEvent>::empty());
                        assert(spec_events_from(data@, cdc, offs, szs, pre.next_sample_index as int)
                            == events_of(idx, offs[idx], evs) + spec_events_from(
                            data@,
                            cdc,
                            offs,
                            szs,
                            idx + 1,
                        ));
                        assert(events_of(idx, offs[idx], evs) =~= seq![ev] + events_of(
                            extractor.pending_sample_index as int,
                            extractor.pending_offset,
                            extractor.pending@,
                        ));
                    },
                    _ => {
                        assert(false);
                    },
                }
            }
            assert(stream =~= done.push(ev) + events_of(
                extractor.pending_sample_index as int,
                extractor.pending_offset,
                extractor.pending@,
            ) + spec_events_from(data@, cdc, offs, szs, extractor.next_sample_index as int));
            assert(stream[done.len() as int] == ev);
            assert(stream.contains(ev));
            done = done.push(ev);
        }
        match f(ev) {
            Ok(()) => {},
            Err(e) => {
                proof {
                    if spec_advance(data@, cdc, offs, szs, 0) is End {
                        assert(spec_events_from(data@, cdc, offs, szs, 0)
                            =~= Seq::<SeiEvent>::empty());
                    }
                }
                return Err(e);
            },
        }
    }
}

} // verus!
