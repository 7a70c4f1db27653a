//! NAL-unit splitting, SEI message scanning, and the heuristic payload
//! resolver.
//!
//! One video sample holds a sequence of length-prefixed NAL units. SEI
//! NAL units carry one or more messages, each an extension-coded
//! payload type and size followed by the payload bytes; the byte stream
//! is first cleaned of emulation-prevention bytes. Payloads of type 5
//! (user-data-unregistered) are then probed for a serialized telemetry
//! record at a prioritized list of candidate offsets.

use vstd::prelude::*;

use crate::pb::{spec_decode, SeiMetadata};

verus! {

/// Number of consecutive `b` bytes in `s` starting at `i`.
pub open spec fn byte_run(s: Seq<u8>, i: int, b: u8) -> nat
    decreases s.len() - i,
{
    if i < 0 || i >= s.len() || s[i] != b {
        0
    } else {
        1 + byte_run(s, i + 1, b)
    }
}

/// A byte run never extends past the end of the buffer.
pub proof fn lemma_byte_run_bounds(s: Seq<u8>, i: int, b: u8)
    requires
        0 <= i <= s.len(),
    ensures
        i + byte_run(s, i, b) <= s.len(),
    decreases s.len() - i,
{
    if i < s.len() && s[i] == b {
        lemma_byte_run_bounds(s, i + 1, b);
    }
}

/// Count the consecutive `b` bytes starting at `pos`.
fn count_byte_run(data: &[u8], pos: usize, b: u8) -> (n: usize)
    requires
        pos <= data@.len(),
    ensures
        n == byte_run(data@, pos as int, b),
        pos + n <= data@.len(),
{
    proof {
        lemma_byte_run_bounds(data@, pos as int, b);
    }
    let mut i: usize = pos;
    while i < data.len() && data[i] == b
        invariant
            pos <= i <= data@.len(),
            byte_run(data@, pos as int, b) == i - pos + byte_run(data@, i as int, b),
        decreases data@.len() - i,
    {
        i = i + 1;
    }
    i - pos
}

/// Big-endian value of the `w` bytes at `i`, for `w` between 1 and 4.
pub open spec fn be_val(s: Seq<u8>, i: int, w: int) -> int {
    if w == 1 {
        s[i] as int
    } else if w == 2 {
        (s[i] as int) * 0x100 + s[i + 1]
    } else if w == 3 {
        (s[i] as int) * 0x10000 + (s[i + 1] as int) * 0x100 + s[i + 2]
    } else {
        (s[i] as int) * 0x1000000 + (s[i + 1] as int) * 0x10000 + (s[i + 2] as int) * 0x100 + s[i
            + 3]
    }
}

/// The NAL units of a sample, reading length-prefixed units from `i`
/// with a `w`-byte big-endian length prefix. A prefix that cannot be
/// read, a zero length, a length past the end of the buffer, or a
/// prefix width outside 1..=4 ends the split without failing.
pub open spec fn nal_split(s: Seq<u8>, i: int, w: int) -> Seq<Seq<u8>>
    decreases s.len() - i,
    when 0 <= i
{
    if w < 1 || w > 4 {
        Seq::empty()
    } else if i + w > s.len() {
        Seq::empty()
    } else {
        let len = be_val(s, i, w);
        if len == 0 || i + w + len > s.len() {
            Seq::empty()
        } else {
            seq![s.subrange(i + w, i + w + len)] + nal_split(s, i + w + len, w)
        }
    }
}

/// Split a sample buffer into its length-prefixed NAL units.
pub fn split_nals_length_prefixed(sample: &[u8], nal_len_size: usize) -> (r: Vec<Vec<u8>>)
    ensures
        r.deep_view() == nal_split(sample@, 0, nal_len_size as int),
{
    let mut out: Vec<Vec<u8>> = Vec::new();
    if nal_len_size < 1 || nal_len_size > 4 {
        assert(out.deep_view() =~~= nal_split(sample@, 0, nal_len_size as int));
        return out;
    }
    let w = nal_len_size;
    let mut i: usize = 0;
    loop
        invariant
            1 <= w <= 4,
            0 <= i <= sample@.len(),
            nal_split(sample@, 0, w as int) == out.deep_view() + nal_split(
                sample@,
                i as int,
                w as int,
            ),
        ensures
            out.deep_view() == nal_split(sample@, 0, w as int),
        decreases sample@.len() - i,
    {
        if w > sample.len() - i {
            proof {
                assert(nal_split(sample@, i as int, w as int) =~~= Seq::<Seq<u8>>::empty());
                assert(out.deep_view() + Seq::<Seq<u8>>::empty() =~~= out.deep_view());
            }
            break ;
        }
        let len: usize = if w == 1 {
            sample[i] as usize
        } else if w == 2 {
            (sample[i] as usize) * 0x100 + (sample[i + 1] as usize)
        } else if w == 3 {
            (sample[i] as usize) * 0x10000 + (sample[i + 1] as usize) * 0x100 + (sample[i
                + 2] as usize)
        } else {
            (sample[i] as usize) * 0x1000000 + (sample[i + 1] as usize) * 0x10000 + (sample[i
                + 2] as usize) * 0x100 + (sample[i + 3] as usize)
        };
        assert(len == be_val(sample@, i as int, w as int));
        if len == 0 || len > sample.len() - (i + w) {
            proof {
                assert(nal_split(sample@, i as int, w as int) =~~= Seq::<Seq<u8>>::empty());
                assert(out.deep_view() + Seq::<Seq<u8>>::empty() =~~= out.deep_view());
            }
            break ;
        }
        let ghost unit_spec = sample@.subrange(i as int + w as int, i as int + w as int + len as int);
        let unit = vstd::slice::slice_to_vec(&sample[i + w..i + w + len]);
        let ghost prev = out.deep_view();
        out.push(unit);
        assert(out.deep_view() =~~= prev + seq![unit_spec]);
        assert(nal_split(sample@, 0, w as int) =~~= out.deep_view() + nal_split(
            sample@,
            i as int + w as int + len as int,
            w as int,
        ));
        i = i + w + len;
    }
    out
}

/// The buffer with emulation-prevention bytes removed, scanning from
/// `i` with `zeros` consecutive zero bytes already seen: a 0x03 byte
/// that immediately follows two or more consecutive 0x00 bytes is
/// dropped; every other byte is kept unchanged.
pub open spec fn epb_from(s: Seq<u8>, i: int, zeros: int) -> Seq<u8>
    decreases s.len() - i,
{
    if i < 0 || i >= s.len() {
        Seq::empty()
    } else {
        let b = s[i];
        if zeros >= 2 && b == 0x03 {
            epb_from(s, i + 1, 0)
        } else {
            seq![b] + epb_from(s, i + 1, if b == 0 { zeros + 1 } else { 0 })
        }
    }
}

/// The buffer after emulation-prevention removal.
pub open spec fn epb(s: Seq<u8>) -> Seq<u8> {
    epb_from(s, 0, 0)
}

proof fn lemma_epb_from_len(s: Seq<u8>, i: int, zeros: int)
    requires
        0 <= i <= s.len(),
    ensures
        epb_from(s, i, zeros).len() <= s.len() - i,
    decreases s.len() - i,
{
    if i < s.len() {
        let b = s[i];
        if zeros >= 2 && b == 0x03 {
            lemma_epb_from_len(s, i + 1, 0);
        } else {
            lemma_epb_from_len(s, i + 1, if b == 0 { zeros + 1 } else { 0 });
        }
    }
}

proof fn lemma_epb_from_identity(s: Seq<u8>, i: int, zeros: int)
    requires
        0 <= i <= s.len(),
        zeros >= 1 ==> i >= 1 && s[i - 1] == 0,
        zeros >= 2 ==> i >= 2 && s[i - 2] == 0,
        forall|k: int|
            0 <= k < s.len() && #[trigger] s[k] == 0x03 ==> !(k >= 2 && s[k - 1] == 0 && s[k - 2]
                == 0),
    ensures
        epb_from(s, i, zeros) == s.subrange(i, s.len() as int),
    decreases s.len() - i,
{
    if i >= s.len() {
        assert(epb_from(s, i, zeros) =~= s.subrange(i, s.len() as int));
    } else {
        let b = s[i];
        if zeros >= 2 && b == 0x03 {
            assert(false);
        } else {
            lemma_epb_from_identity(s, i + 1, if b == 0 { zeros + 1 } else { 0 });
            assert(epb_from(s, i, zeros) =~= s.subrange(i, s.len() as int));
        }
    }
}

/// Emulation-prevention removal never lengthens its input, and a
/// buffer holding no `00 00 03` triplet comes back unchanged.
pub proof fn lemma_epb_faithful(s: Seq<u8>)
    ensures
        epb(s).len() <= s.len(),
        (forall|k: int|
            0 <= k < s.len() && #[trigger] s[k] == 0x03 ==> !(k >= 2 && s[k - 1] == 0 && s[k - 2]
                == 0)) ==> epb(s) == s,
{
    lemma_epb_from_len(s, 0, 0);
    if forall|k: int|
        0 <= k < s.len() && #[trigger] s[k] == 0x03 ==> !(k >= 2 && s[k - 1] == 0 && s[k - 2]
            == 0) {
        lemma_epb_from_identity(s, 0, 0);
        assert(s.subrange(0, s.len() as int) =~= s);
    }
}

/// The positions of the bytes that emulation-prevention removal keeps,
/// scanning from `i` with `zeros` zero bytes already seen.
pub open spec fn epb_kept(s: Seq<u8>, i: int, zeros: int) -> Seq<int>
    decreases s.len() - i,
{
    if i < 0 || i >= s.len() {
        Seq::empty()
    } else {
        let b = s[i];
        if zeros >= 2 && b == 0x03 {
            epb_kept(s, i + 1, 0)
        } else {
            seq![i] + epb_kept(s, i + 1, if b == 0 { zeros + 1 } else { 0 })
        }
    }
}

proof fn lemma_epb_positions_rec(s: Seq<u8>, i: int, zeros: int)
    requires
        0 <= i <= s.len(),
        zeros >= 1 ==> i >= 1 && s[i - 1] == 0,
        zeros >= 2 ==> i >= 2 && s[i - 2] == 0,
    ensures
        epb_from(s, i, zeros).len() == epb_kept(s, i, zeros).len(),
        forall|j: int|
            0 <= j < epb_kept(s, i, zeros).len() ==> i <= #[trigger] epb_kept(s, i, zeros)[j]
                < s.len() && epb_from(s, i, zeros)[j] == s[epb_kept(s, i, zeros)[j]],
        forall|j: int|
            0 <= j < epb_kept(s, i, zeros).len() - 1 ==> #[trigger] epb_kept(s, i, zeros)[j]
                < epb_kept(s, i, zeros)[j + 1],
        forall|k: int|
            i <= k < s.len() && !epb_kept(s, i, zeros).contains(k) ==> s[k] == 0x03 && k >= 2 && s[k
                - 1] == 0 && s[k - 2] == 0,
    decreases s.len() - i,
{
    if i < s.len() {
        let b = s[i];
        if zeros >= 2 && b == 0x03 {
            lemma_epb_positions_rec(s, i + 1, 0);
            assert forall|k: int|
                i <= k < s.len() && !epb_kept(s, i, zeros).contains(k) implies s[k] == 0x03 && k
                >= 2 && s[k - 1] == 0 && s[k - 2] == 0 by {
                if k > i {
                    assert(!epb_kept(s, i + 1, 0).contains(k));
                }
            }
        } else {
            let z2 = if b == 0 {
                zeros + 1
            } else {
                0
            };
            lemma_epb_positions_rec(s, i + 1, z2);
            let kept = epb_kept(s, i, zeros);
            let rest = epb_kept(s, i + 1, z2);
            assert(kept == seq![i] + rest);
            assert forall|j: int|
                0 <= j < kept.len() implies i <= #[trigger] kept[j] < s.len() && epb_from(
                s,
                i,
                zeros,
            )[j] == s[kept[j]] by {
                if j > 0 {
                    assert(kept[j] == rest[j - 1]);
                    assert(epb_from(s, i, zeros)[j] == epb_from(s, i + 1, z2)[j - 1]);
                }
            }
            assert forall|j: int| 0 <= j < kept.len() - 1 implies #[trigger] kept[j] < kept[j
                + 1] by {
                if j == 0 {
                    assert(kept[1] == rest[0]);
                } else {
                    assert(kept[j] == rest[j - 1]);
                    assert(kept[j + 1] == rest[j]);
                }
            }
            assert forall|k: int|
                i <= k < s.len() && !kept.contains(k) implies s[k] == 0x03 && k >= 2 && s[k - 1]
                == 0 && s[k - 2] == 0 by {
                if k == i {
                    assert(kept[0] == i);
                    assert(kept.contains(i));
                } else {
                    if rest.contains(k) {
                        let j = choose|j: int| 0 <= j < rest.len() && rest[j] == k;
                        assert(kept[j + 1] == k);
                        assert(kept.contains(k));
                    }
                }
            }
        }
    }
}

/// Emulation-prevention removal never alters a byte outside a
/// `00 00 03` triplet: the output is the input's bytes at an increasing
/// sequence of kept positions, each unchanged, and every dropped
/// position holds a 0x03 byte immediately preceded by two zero bytes.
pub proof fn lemma_epb_positions(s: Seq<u8>)
    ensures
        epb(s).len() == epb_kept(s, 0, 0).len(),
        forall|j: int|
            0 <= j < epb_kept(s, 0, 0).len() ==> 0 <= #[trigger] epb_kept(s, 0, 0)[j] < s.len()
                && epb(s)[j] == s[epb_kept(s, 0, 0)[j]],
        forall|j: int|
            0 <= j < epb_kept(s, 0, 0).len() - 1 ==> #[trigger] epb_kept(s, 0, 0)[j] < epb_kept(
                s,
                0,
                0,
            )[j + 1],
        forall|k: int|
            0 <= k < s.len() && !epb_kept(s, 0, 0).contains(k) ==> s[k] == 0x03 && k >= 2 && s[k
                - 1] == 0 && s[k - 2] == 0,
{
    lemma_epb_positions_rec(s, 0, 0);
}

/// Remove emulation-prevention bytes from a NAL body.
pub fn remove_emulation_prevention(rbsp: &[u8]) -> (r: Vec<u8>)
    ensures
        r@ == epb(rbsp@),
        r@.len() <= rbsp@.len(),
{
    let mut out: Vec<u8> = Vec::new();
    let mut i: usize = 0;
    let mut zeros: usize = 0;
    while i < rbsp.len()
        invariant
            0 <= i <= rbsp@.len(),
            zeros <= i,
            epb(rbsp@) =~= out@ + epb_from(rbsp@, i as int, zeros as int),
        decreases rbsp@.len() - i,
    {
        let b = rbsp[i];
        if zeros >= 2 && b == 0x03 {
            i = i + 1;
            zeros = 0;
        } else {
            let ghost prev = out@;
            out.push(b);
            assert(out@ =~= prev + seq![b]);
            if b == 0 {
                zeros = zeros + 1;
            } else {
                zeros = 0;
            }
            i = i + 1;
        }
    }
    proof {
        lemma_epb_from_len(rbsp@, 0, 0);
        assert(epb_from(rbsp@, i as int, zeros as int) =~= Seq::<u8>::empty());
        assert(out@ =~= epb(rbsp@));
    }
    out
}

} // verus!

verus! {

/// `v` clamped to the `u32` range.
pub open spec fn sat_u32(v: int) -> u32 {
    if v > u32::MAX {
        u32::MAX
    } else if v < 0 {
        0
    } else {
        v as u32
    }
}

/// `v` clamped to the `usize` range.
pub open spec fn sat_usize(v: int) -> int {
    if v > usize::MAX {
        usize::MAX as int
    } else if v < 0 {
        0
    } else {
        v
    }
}

/// The SEI messages of a cleaned (emulation-prevention-free) buffer,
/// scanning from `i`: each message is an extension-coded payload type,
/// an extension-coded payload size, then that many payload bytes.
/// Scanning stops, without failing, when a coded integer or the
/// declared payload runs off the end, or when at most one byte (taken
/// as trailing bits) remains after a message.
pub open spec fn sei_msgs_from(d: Seq<u8>, i: int) -> Seq<(u32, Seq<u8>)>
    decreases d.len() - i,
    when 0 <= i
{
    if i >= d.len() {
        Seq::empty()
    } else {
        let r1 = byte_run(d, i, 0xff) as int;
        if i + r1 >= d.len() {
            Seq::empty()
        } else {
            let pt = sat_u32(255 * r1 + d[i + r1]);
            let i2 = i + r1 + 1;
            let r2 = byte_run(d, i2, 0xff) as int;
            if i2 + r2 >= d.len() {
                Seq::empty()
            } else {
                let psize = sat_usize(255 * r2 + d[i2 + r2]);
                let i3 = i2 + r2 + 1;
                if psize > d.len() - i3 {
                    Seq::empty()
                } else {
                    let m = (pt, d.subrange(i3, i3 + psize));
                    if d.len() - (i3 + psize) <= 1 {
                        seq![m]
                    } else {
                        seq![m] + sei_msgs_from(d, i3 + psize)
                    }
                }
            }
        }
    }
}

/// The SEI messages of a raw NAL body: emulation prevention is removed
/// first, then the cleaned bytes are scanned.
pub open spec fn sei_messages(rbsp: Seq<u8>) -> Seq<(u32, Seq<u8>)> {
    sei_msgs_from(epb(rbsp), 0)
}

/// The (payload type, payload bytes) pairs of a message list.
pub open spec fn msgs_view(v: Seq<(u32, Vec<u8>)>) -> Seq<(u32, Seq<u8>)> {
    Seq::new(v.len(), |k: int| (v[k].0, v[k].1@))
}

/// Extension-coded value made of `n` 0xFF bytes and final byte `b`,
/// clamped to `u32`.
fn ext_value_u32(n: usize, b: u8) -> (v: u32)
    ensures
        v == sat_u32(255 * n + b),
{
    if n > 16843009 {
        u32::MAX
    } else {
        let x: u64 = 255u64 * (n as u64) + (b as u64);
        if x > 0xffff_ffffu64 {
            u32::MAX
        } else {
            x as u32
        }
    }
}

/// Extension-coded value made of `n` 0xFF bytes and final byte `b`,
/// clamped to `usize`.
fn ext_value_usize(n: usize, b: u8) -> (v: usize)
    ensures
        v as int == sat_usize(255 * n + b),
{
    if n > usize::MAX / 255 {
        proof {
            assert(255 * (n as int) > usize::MAX) by (nonlinear_arith)
                requires
                    n > usize::MAX / 255,
            ;
        }
        usize::MAX
    } else {
        proof {
            assert(255 * (n as int) <= usize::MAX) by (nonlinear_arith)
                requires
                    n <= usize::MAX / 255,
            ;
        }
        let t: usize = 255 * n;
        if (b as usize) > usize::MAX - t {
            usize::MAX
        } else {
            t + (b as usize)
        }
    }
}

/// Scan a raw SEI NAL body into its (payload type, payload) messages.
pub fn parse_sei_messages(rbsp: &[u8]) -> (r: Vec<(u32, Vec<u8>)>)
    ensures
        msgs_view(r@) == sei_messages(rbsp@),
{
    let data = remove_emulation_prevention(rbsp);
    let ghost d = data@;
    let ds = data.as_slice();
    let mut out: Vec<(u32, Vec<u8>)> = Vec::new();
    let mut i: usize = 0;
    loop
        invariant_except_break
            sei_msgs_from(d, 0) == msgs_view(out@) + sei_msgs_from(d, i as int),
        invariant
            ds@ == d,
            0 <= i <= d.len(),
        ensures
            msgs_view(out@) == sei_msgs_from(d, 0),
        decreases d.len() - i,
    {
        if i >= ds.len() {
            proof {
                assert(msgs_view(out@) + sei_msgs_from(d, i as int) =~~= msgs_view(out@));
            }
            break ;
        }
        let r1 = count_byte_run(ds, i, 0xff);
        if r1 >= ds.len() - i {
            proof {
                assert(sei_msgs_from(d, i as int) =~~= Seq::<(u32, Seq<u8>)>::empty());
                assert(msgs_view(out@) + Seq::<(u32, Seq<u8>)>::empty() =~~= msgs_view(out@));
            }
            break ;
        }
        let pt = ext_value_u32(r1, ds[i + r1]);
        let i2 = i + r1 + 1;
        let r2 = count_byte_run(ds, i2, 0xff);
        if r2 >= ds.len() - i2 {
            proof {
                assert(sei_msgs_from(d, i as int) =~~= Seq::<(u32, Seq<u8>)>::empty());
                assert(msgs_view(out@) + Seq::<(u32, Seq<u8>)>::empty() =~~= msgs_view(out@));
            }
            break ;
        }
        let psize = ext_value_usize(r2, ds[i2 + r2]);
        let i3 = i2 + r2 + 1;
        if psize > ds.len() - i3 {
            proof {
                assert(sei_msgs_from(d, i as int) =~~= Seq::<(u32, Seq<u8>)>::empty());
                assert(msgs_view(out@) + Seq::<(u32, Seq<u8>)>::empty() =~~= msgs_view(out@));
            }
            break ;
        }
        let payload = vstd::slice::slice_to_vec(&ds[i3..i3 + psize]);
        let ghost prev = out@;
        out.push((pt, payload));
        proof {
            assert(msgs_view(out@) =~~= msgs_view(prev) + seq![
                (pt, d.subrange(i3 as int, i3 as int + psize as int)),
            ]);
        }
        let i4 = i3 + psize;
        if ds.len() - i4 <= 1 {
            proof {
                assert(sei_msgs_from(d, i as int) =~~= seq![
                    (pt, d.subrange(i3 as int, i3 as int + psize as int)),
                ]);
                assert(msgs_view(out@) =~~= sei_msgs_from(d, 0));
            }
            break ;
        }
        proof {
            assert(sei_msgs_from(d, i as int) =~~= seq![
                (pt, d.subrange(i3 as int, i3 as int + psize as int)),
            ] + sei_msgs_from(d, i4 as int));
            assert(sei_msgs_from(d, 0) =~~= msgs_view(out@) + sei_msgs_from(d, i4 as int));
        }
        i = i4;
    }
    proof {
        assert(msgs_view(out@) =~~= sei_messages(rbsp@));
    }
    out
}

} // verus!

verus! {

/// A candidate byte range of a payload: `len` bytes starting at
/// `start`. Every candidate the resolver builds is a suffix of its
/// payload, so two candidates are the same slice exactly when their
/// ranges are equal.
#[derive(Debug, Clone, Copy, PartialEq, Eq, Structural)]
pub struct CandRange {
    pub start: usize,
    pub len: usize,
}

/// Highest-priority candidate: the bytes after a marker of one or more
/// 0x42 bytes followed by 0x69, for type-5 payloads.
pub open spec fn magic_cands(pt: u32, p: Seq<u8>) -> Seq<CandRange> {
    let i = byte_run(p, 0, 0x42) as int;
    if pt == 5 && i > 0 && i < p.len() && p[i] == 0x69 && i + 1 < p.len() {
        seq![CandRange { start: (i + 1) as usize, len: (p.len() - i - 1) as usize }]
    } else {
        Seq::empty()
    }
}

/// Second candidate: the bytes after a presumed leading 16-byte UUID,
/// for type-5 payloads longer than 16 bytes.
pub open spec fn uuid_cands(pt: u32, p: Seq<u8>) -> Seq<CandRange> {
    if pt == 5 && p.len() > 16 {
        seq![CandRange { start: 16, len: (p.len() - 16) as usize }]
    } else {
        Seq::empty()
    }
}

/// Fallback candidate for a type-5 payload: the whole (non-empty)
/// payload.
pub open spec fn whole_cands(p: Seq<u8>) -> Seq<CandRange> {
    if p.len() > 0 {
        seq![CandRange { start: 0, len: p.len() as usize }]
    } else {
        Seq::empty()
    }
}

/// Lowest-priority candidates for a type-5 payload: every suffix
/// starting at an 0x08 byte within the first 64 bytes (a plausible
/// first field key), scanning from offset `i`.
pub open spec fn scan_cands(p: Seq<u8>, i: int) -> Seq<CandRange>
    decreases 64 - i,
    when 0 <= i <= 64
{
    let scan = if p.len() < 64 {
        p.len() as int
    } else {
        64
    };
    if i >= scan {
        Seq::empty()
    } else {
        let rest = scan_cands(p, i + 1);
        if p[i] == 0x08 && i + 2 <= p.len() {
            seq![CandRange { start: i as usize, len: (p.len() - i) as usize }] + rest
        } else {
            rest
        }
    }
}

/// All candidate ranges of a payload, in priority order, before
/// deduplication. Only type-5 (user-data-unregistered) payloads are
/// probed at all.
pub open spec fn all_cands(pt: u32, p: Seq<u8>) -> Seq<CandRange> {
    if pt != 5 {
        Seq::empty()
    } else {
        magic_cands(pt, p) + uuid_cands(pt, p) + whole_cands(p) + scan_cands(p, 0)
    }
}

/// Adjacent deduplication from index `i`, `last` being the range most
/// recently kept.
pub open spec fn dedup_from(s: Seq<CandRange>, i: int, last: CandRange) -> Seq<CandRange>
    decreases s.len() - i,
{
    if i < 0 || i >= s.len() {
        Seq::empty()
    } else if s[i] == last {
        dedup_from(s, i + 1, last)
    } else {
        seq![s[i]] + dedup_from(s, i + 1, s[i])
    }
}

/// The list with runs of equal adjacent ranges collapsed to their first
/// element.
pub open spec fn dedup_adjacent(s: Seq<CandRange>) -> Seq<CandRange> {
    if s.len() == 0 {
        Seq::empty()
    } else {
        seq![s[0]] + dedup_from(s, 1, s[0])
    }
}

/// No two adjacent entries of the list are the same range.
pub open spec fn no_adjacent_duplicates(s: Seq<CandRange>) -> bool {
    forall|j: int| #![trigger s[j]] 0 <= j < s.len() - 1 ==> s[j] != s[j + 1]
}

proof fn lemma_dedup_from_no_adj(s: Seq<CandRange>, i: int, last: CandRange)
    ensures
        no_adjacent_duplicates(dedup_from(s, i, last)),
        dedup_from(s, i, last).len() > 0 ==> dedup_from(s, i, last)[0] != last,
    decreases s.len() - i,
{
    if i < 0 || i >= s.len() {
    } else if s[i] == last {
        lemma_dedup_from_no_adj(s, i + 1, last);
    } else {
        lemma_dedup_from_no_adj(s, i + 1, s[i]);
        let r = dedup_from(s, i, last);
        let r2 = dedup_from(s, i + 1, s[i]);
        assert forall|j: int| #![trigger r[j]] 0 <= j < r.len() - 1 implies r[j] != r[j + 1] by {
            if j == 0 {
                if r2.len() > 0 {
                    assert(r[1] == r2[0]);
                }
            } else {
                assert(r[j] == r2[j - 1]);
                assert(r[j + 1] == r2[j]);
            }
        }
    }
}

/// Two candidates with the same start and length collapse to one
/// decode attempt: after deduplication no range appears twice in a row.
pub proof fn lemma_dedup_no_adjacent(s: Seq<CandRange>)
    ensures
        no_adjacent_duplicates(dedup_adjacent(s)),
{
    if s.len() > 0 {
        lemma_dedup_from_no_adj(s, 1, s[0]);
        let r = dedup_adjacent(s);
        let r2 = dedup_from(s, 1, s[0]);
        assert forall|j: int| #![trigger r[j]] 0 <= j < r.len() - 1 implies r[j] != r[j + 1] by {
            if j == 0 {
                if r2.len() > 0 {
                    assert(r[1] == r2[0]);
                }
            } else {
                assert(r[j] == r2[j - 1]);
                assert(r[j + 1] == r2[j]);
            }
        }
    }
}

/// A record that the false-positive guard accepts: at least one of the
/// two distinguishing fields is away from its default.
pub open spec fn nondefault(m: SeiMetadata) -> bool {
    !(m.version == 0 && m.frame_seq_no == 0)
}

/// The second decode attempt on a candidate whose final byte is 0x80
/// (a presumed trailing stop bit): the candidate without that byte.
pub open spec fn attempt_second(c: Seq<u8>) -> Option<SeiMetadata> {
    if c.len() > 1 && c[c.len() - 1] == 0x80 {
        match spec_decode(c.subrange(0, c.len() - 1)) {
            Option::Some(m) => if nondefault(m) {
                Some(m)
            } else {
                None
            },
            Option::None => None,
        }
    } else {
        None
    }
}

/// What one candidate yields: decode it as-is and, when that fails or
/// is rejected as a default (vacuous) record, retry without a trailing
/// 0x80 byte if one is present.
pub open spec fn attempt_decode(c: Seq<u8>) -> Option<SeiMetadata> {
    if c.len() == 0 {
        None
    } else {
        match spec_decode(c) {
            Option::Some(m) => if nondefault(m) {
                Some(m)
            } else {
                attempt_second(c)
            },
            Option::None => attempt_second(c),
        }
    }
}

/// The first candidate from `i` on that yields a non-default record.
pub open spec fn resolve_list(p: Seq<u8>, cs: Seq<CandRange>, i: int) -> Option<SeiMetadata>
    decreases cs.len() - i,
{
    if i < 0 || i >= cs.len() {
        None
    } else {
        let c = p.subrange(cs[i].start as int, cs[i].start + cs[i].len);
        match attempt_decode(c) {
            Option::Some(m) => Some(m),
            Option::None => resolve_list(p, cs, i + 1),
        }
    }
}

/// What the heuristic resolver yields for one SEI payload.
pub open spec fn spec_resolve(pt: u32, p: Seq<u8>) -> Option<SeiMetadata> {
    resolve_list(p, dedup_adjacent(all_cands(pt, p)), 0)
}

proof fn lemma_resolve_list_nondefault(p: Seq<u8>, cs: Seq<CandRange>, i: int)
    ensures
        resolve_list(p, cs, i) matches Some(m) ==> nondefault(m),
    decreases cs.len() - i,
{
    if 0 <= i < cs.len() {
        lemma_resolve_list_nondefault(p, cs, i + 1);
    }
}

/// The resolver never emits a default (vacuous) record; an empty
/// payload never yields an event; and payloads of any type other than
/// 5 (user-data-unregistered) are never probed.
pub proof fn lemma_resolve_guards(pt: u32, p: Seq<u8>)
    ensures
        spec_resolve(pt, p) matches Some(m) ==> nondefault(m),
        p.len() == 0 ==> spec_resolve(pt, p) is None,
        pt != 5 ==> spec_resolve(pt, p) is None,
{
    lemma_resolve_list_nondefault(p, dedup_adjacent(all_cands(pt, p)), 0);
    if p.len() == 0 || pt != 5 {
        assert(all_cands(pt, p) =~= Seq::<CandRange>::empty());
        assert(dedup_adjacent(all_cands(pt, p)) =~= Seq::<CandRange>::empty());
    }
}

/// Every candidate range is a non-empty suffix of a payload of length
/// `n`.
pub open spec fn valid_cands(cs: Seq<CandRange>, n: int) -> bool {
    forall|k: int| #![trigger cs[k]] 0 <= k < cs.len() ==> cs[k].len >= 1 && cs[k].start + cs[k].len == n
}

/// Recover a telemetry record from one SEI payload, probing the
/// prioritized candidate ranges in order. Only type-5
/// (user-data-unregistered) payloads are probed.
pub fn try_decode_sei_metadata_from_payload(payload_type: u32, payload: &[u8]) -> (r: Option<
    SeiMetadata,
>)
    ensures
        r == spec_resolve(payload_type, payload@),
{
    let ghost ps = payload@;
    if payload_type != 5 {
        proof {
            lemma_resolve_guards(payload_type, ps);
        }
        return None;
    }
    let mut cands: Vec<CandRange> = Vec::new();
    if payload_type == 5 {
        let i = count_byte_run(payload, 0, 0x42);
        if i > 0 && i < payload.len() && payload[i] == 0x69 && i + 1 < payload.len() {
            cands.push(CandRange { start: i + 1, len: payload.len() - (i + 1) });
        }
    }
    assert(cands@ =~= magic_cands(payload_type, ps));
    if payload_type == 5 && payload.len() > 16 {
        cands.push(CandRange { start: 16, len: payload.len() - 16 });
    }
    assert(cands@ =~= magic_cands(payload_type, ps) + uuid_cands(payload_type, ps));
    if payload.len() > 0 {
        cands.push(CandRange { start: 0, len: payload.len() });
    }
    let ghost head = magic_cands(payload_type, ps) + uuid_cands(payload_type, ps) + whole_cands(
        ps,
    );
    assert(cands@ =~= head);
    let scan_len = if payload.len() < 64 {
        payload.len()
    } else {
        64
    };
    let mut i: usize = 0;
    while i < scan_len
        invariant
            ps == payload@,
            0 <= i <= scan_len <= 64,
            scan_len == if ps.len() < 64 {
                ps.len() as int
            } else {
                64
            },
            scan_len <= ps.len(),
            head + scan_cands(ps, 0) == cands@ + scan_cands(ps, i as int),
            valid_cands(cands@, ps.len() as int),
        decreases scan_len - i,
    {
        if payload[i] == 0x08 && i + 2 <= payload.len() {
            cands.push(CandRange { start: i, len: payload.len() - i });
            assert(head + scan_cands(ps, 0) =~= cands@ + scan_cands(ps, i + 1));
        }
        i = i + 1;
    }
    assert(scan_cands(ps, i as int) =~= Seq::<CandRange>::empty());
    assert(cands@ =~= all_cands(payload_type, ps));
    // Collapse adjacent duplicate ranges: same start and length means
    // the same slice, so one decode attempt suffices.
    let mut dd: Vec<CandRange> = Vec::new();
    if cands.len() > 0 {
        dd.push(cands[0]);
        let mut j: usize = 1;
        while j < cands.len()
            invariant
                1 <= j <= cands@.len(),
                dd@.len() >= 1,
                dedup_adjacent(cands@) == dd@ + dedup_from(cands@, j as int, dd@[dd@.len() - 1]),
                valid_cands(cands@, ps.len() as int),
                valid_cands(dd@, ps.len() as int),
            decreases cands@.len() - j,
        {
            let last = dd[dd.len() - 1];
            let c = cands[j];
            if !(c == last) {
                let ghost prev = dd@;
                dd.push(c);
                assert(prev + (seq![c] + dedup_from(cands@, j + 1, c)) =~= dd@ + dedup_from(
                    cands@,
                    j + 1,
                    c,
                ));
            }
            j = j + 1;
        }
        assert(dedup_from(cands@, j as int, dd@[dd@.len() - 1]) =~= Seq::<CandRange>::empty());
        assert(dd@ + Seq::<CandRange>::empty() =~= dd@);
    }
    assert(dd@ =~= dedup_adjacent(all_cands(payload_type, ps)));
    // Probe the candidates in order.
    let mut k: usize = 0;
    while k < dd.len()
        invariant
            0 <= k <= dd@.len(),
            dd@ == dedup_adjacent(all_cands(payload_type, ps)),
            valid_cands(dd@, ps.len() as int),
            ps == payload@,
            spec_resolve(payload_type, ps) == resolve_list(ps, dd@, k as int),
        decreases dd@.len() - k,
    {
        let cr = dd[k];
        assert(cr == dd@[k as int]);
        assert(cr.start + cr.len == ps.len());
        let c = &payload[cr.start..payload.len()];
        let ghost cspec = ps.subrange(cr.start as int, cr.start + cr.len);
        assert(c@ == cspec);
        let a1 = crate::pb::SeiMetadata::decode(c);
        match a1 {
            Option::Some(m) => {
                if !(m.version == 0 && m.frame_seq_no == 0) {
                    return Some(m);
                }
            },
            Option::None => {},
        }
        if c.len() > 1 && c[c.len() - 1] == 0x80 {
            let c2 = &c[0..c.len() - 1];
            assert(c2@ =~= cspec.subrange(0, cspec.len() - 1));
            let a2 = crate::pb::SeiMetadata::decode(c2);
            match a2 {
                Option::Some(m2) => {
                    if !(m2.version == 0 && m2.frame_seq_no == 0) {
                        return Some(m2);
                    }
                },
                Option::None => {},
            }
        }
        assert(attempt_decode(cspec) is None);
        k = k + 1;
    }
    None
}

} // verus!

verus! {

/// NAL length-prefix width used for a codec: the configured width for
/// AVC and HEVC, four bytes otherwise.
pub open spec fn codec_width(c: crate::mp4::CodecConfig) -> int {
    match c {
        crate::mp4::CodecConfig::Avc { nal_len_size } => nal_len_size as int,
        crate::mp4::CodecConfig::Hevc { nal_len_size } => nal_len_size as int,
        crate::mp4::CodecConfig::Unknown => 4,
    }
}

/// The records recovered from a list of SEI messages, from index `i`.
pub open spec fn msgs_events(msgs: Seq<(u32, Seq<u8>)>, i: int) -> Seq<SeiMetadata>
    decreases msgs.len() - i,
{
    if i < 0 || i >= msgs.len() {
        Seq::empty()
    } else {
        let rest = msgs_events(msgs, i + 1);
        match spec_resolve(msgs[i].0, msgs[i].1) {
            Option::Some(m) => seq![m] + rest,
            Option::None => rest,
        }
    }
}

/// The records recovered from the NAL units of one sample, from index
/// `i`: only SEI NAL units (type 6 for AVC; types 39 and 40 for HEVC)
/// are examined, with their one- or two-byte NAL header stripped.
pub open spec fn nal_events(codec: crate::mp4::CodecConfig, nals: Seq<Seq<u8>>, i: int) -> Seq<
    SeiMetadata,
>
    decreases nals.len() - i,
{
    if i < 0 || i >= nals.len() {
        Seq::empty()
    } else {
        let nal = nals[i];
        let rest = nal_events(codec, nals, i + 1);
        match codec {
            crate::mp4::CodecConfig::Avc { .. } => {
                if nal.len() > 0 && nal[0] & 0x1f == 6 {
                    msgs_events(sei_messages(nal.subrange(1, nal.len() as int)), 0) + rest
                } else {
                    rest
                }
            },
            crate::mp4::CodecConfig::Hevc { .. } => {
                if nal.len() >= 2 && ((nal[0] >> 1) & 0x3f == 39 || (nal[0] >> 1) & 0x3f == 40) {
                    msgs_events(sei_messages(nal.subrange(2, nal.len() as int)), 0) + rest
                } else {
                    rest
                }
            },
            crate::mp4::CodecConfig::Unknown => rest,
        }
    }
}

/// Every record recovered from one sample's raw bytes.
pub open spec fn spec_sample_events(codec: crate::mp4::CodecConfig, s: Seq<u8>) -> Seq<
    SeiMetadata,
> {
    nal_events(codec, nal_split(s, 0, codec_width(codec)), 0)
}

/// Split one sample into NAL units, pick out its SEI messages, and
/// resolve each into a telemetry record where possible.
pub fn decode_sei_from_sample(codec: &crate::mp4::CodecConfig, sample: &[u8]) -> (r: Vec<
    SeiMetadata,
>)
    ensures
        r@ == spec_sample_events(*codec, sample@),
{
    let w: usize = match codec {
        crate::mp4::CodecConfig::Avc { nal_len_size } => *nal_len_size,
        crate::mp4::CodecConfig::Hevc { nal_len_size } => *nal_len_size,
        crate::mp4::CodecConfig::Unknown => 4,
    };
    let nals = split_nals_length_prefixed(sample, w);
    let ghost nseq = nals.deep_view();
    let ghost target = spec_sample_events(*codec, sample@);
    let mut out: Vec<SeiMetadata> = Vec::new();
    let mut i: usize = 0;
    while i < nals.len()
        invariant
            nseq == nals.deep_view(),
            nseq.len() == nals@.len(),
            target == spec_sample_events(*codec, sample@),
            0 <= i <= nseq.len(),
            target == out@ + nal_events(*codec, nseq, i as int),
        decreases nseq.len() - i,
    {
        let nal = &nals[i];
        assert(nal@ =~= nseq[i as int]);
        match codec {
            crate::mp4::CodecConfig::Avc { .. } => {
                if nal.len() > 0 && (nal[0] & 0x1f) == 6 {
                    let rbsp = &nal.as_slice()[1..nal.len()];
                    assert(rbsp@ =~= nseq[i as int].subrange(1, nseq[i as int].len() as int));
                    decode_msgs_into(codec, rbsp, &mut out, Ghost(target), Ghost(nseq), i);
                }
            },
            crate::mp4::CodecConfig::Hevc { .. } => {
                if nal.len() >= 2 && ((nal[0] >> 1u8) & 0x3f == 39 || (nal[0] >> 1u8) & 0x3f
                    == 40) {
                    let rbsp = &nal.as_slice()[2..nal.len()];
                    assert(rbsp@ =~= nseq[i as int].subrange(2, nseq[i as int].len() as int));
                    decode_msgs_into(codec, rbsp, &mut out, Ghost(target), Ghost(nseq), i);
                }
            },
            crate::mp4::CodecConfig::Unknown => {},
        }
        i = i + 1;
    }
    assert(nal_events(*codec, nseq, i as int) =~= Seq::<SeiMetadata>::empty());
    assert(out@ =~= target);
    out
}

/// Resolve every SEI message of one cleaned-for-type NAL body and
/// append the recovered records.
fn decode_msgs_into(
    codec: &crate::mp4::CodecConfig,
    rbsp: &[u8],
    out: &mut Vec<SeiMetadata>,
    Ghost(target): Ghost<Seq<SeiMetadata>>,
    Ghost(nseq): Ghost<Seq<Seq<u8>>>,
    i: usize,
)
    requires
        0 <= i < nseq.len(),
        target == old(out)@ + nal_events(*codec, nseq, i as int),
        nal_events(*codec, nseq, i as int) == msgs_events(sei_messages(rbsp@), 0) + nal_events(
            *codec,
            nseq,
            i as int + 1,
        ),
    ensures
        target == final(out)@ + nal_events(*codec, nseq, i as int + 1),
{
    let msgs = parse_sei_messages(rbsp);
    let ghost mv = msgs_view(msgs@);
    let mut k: usize = 0;
    while k < msgs.len()
        invariant
            mv == msgs_view(msgs@),
            mv.len() == msgs@.len(),
            0 <= k <= mv.len(),
            target == out@ + msgs_events(mv, k as int) + nal_events(*codec, nseq, i as int + 1),
        decreases mv.len() - k,
    {
        let pt = msgs[k].0;
        let pl = &msgs[k].1;
        assert(mv[k as int] == (pt, pl@));
        let res = try_decode_sei_metadata_from_payload(pt, pl.as_slice());
        let ghost prev = out@;
        match res {
            Option::Some(m) => {
                out.push(m);
                assert(prev + (seq![m] + msgs_events(mv, k as int + 1)) =~= out@ + msgs_events(
                    mv,
                    k as int + 1,
                ));
            },
            Option::None => {},
        }
        k = k + 1;
    }
    assert(msgs_events(mv, k as int) =~= Seq::<SeiMetadata>::empty());
    assert(out@ + (Seq::<SeiMetadata>::empty() + nal_events(*codec, nseq, i as int + 1)) =~= out@
        + nal_events(*codec, nseq, i as int + 1));
}

} // verus!

verus! {

/// A sample holding exactly one AVC SEI NAL unit whose single type-5
/// message is a 16-byte marker followed by a valid encoding of a
/// non-default record yields exactly that record.
///
/// The shape the hypotheses pin down: a `w`-byte length prefix, one NAL
/// of type 6, a message with single-byte-coded type 5 and size filling
/// the NAL body exactly, no emulation-prevention triplet inside the
/// body, and a marker that does not match the higher-priority
/// 0x42...0x69 pattern (without which an earlier candidate could win).
pub proof fn lemma_single_type5_sei_sample(
    w: int,
    sample: Seq<u8>,
    body: Seq<u8>,
    payload: Seq<u8>,
    enc: Seq<u8>,
    m: SeiMetadata,
)
    requires
        1 <= w <= 4,
        sample.len() <= usize::MAX,
        // one length-prefixed NAL unit fills the sample
        sample.len() == w + 1 + body.len(),
        be_val(sample, 0, w) == 1 + body.len(),
        // the NAL is an AVC SEI unit (type 6) with a one-byte header
        sample[w] == 0x06,
        sample.subrange(w + 1, sample.len() as int) == body,
        // one SEI message, type and size each in a single coded byte,
        // fills the body exactly
        body.len() == 2 + payload.len(),
        body[0] == 0x05,
        body[1] as int == payload.len(),
        payload.len() < 255,
        body.subrange(2, body.len() as int) == payload,
        // no emulation-prevention triplet inside the body
        forall|k: int|
            0 <= k < body.len() && #[trigger] body[k] == 0x03 ==> !(k >= 2 && body[k - 1] == 0
                && body[k - 2] == 0),
        // a 16-byte marker that does not look like the 0x42...0x69
        // magic, then a valid encoding of a non-default record
        payload.len() == 16 + enc.len(),
        payload.subrange(16, payload.len() as int) == enc,
        payload[0] != 0x42,
        enc.len() >= 1,
        spec_decode(enc) == Some(m),
        !(m.version == 0 && m.frame_seq_no == 0),
    ensures
        spec_sample_events(
            crate::mp4::CodecConfig::Avc { nal_len_size: w as usize },
            sample,
        ) == seq![m],
{
    let codec = crate::mp4::CodecConfig::Avc { nal_len_size: w as usize };
    let nal = sample.subrange(w, sample.len() as int);
    assert(nal.len() == 1 + body.len());
    assert(nal[0] == 0x06);
    assert(nal.subrange(1, nal.len() as int) =~= body);
    // The split yields exactly this one NAL unit.
    assert(nal_split(sample, w + 1 + body.len(), w) =~= Seq::<Seq<u8>>::empty());
    assert(nal_split(sample, 0, w) =~= seq![nal]);
    assert(0x06u8 & 0x1f == 0x06) by (bit_vector);
    // The body scans as one type-5 message holding the whole payload.
    lemma_epb_from_identity(body, 0, 0);
    assert(epb(body) =~= body);
    assert(byte_run(body, 0, 0xff) == 0);
    assert(byte_run(body, 1, 0xff) == 0);
    assert(body.subrange(2, 2 + payload.len() as int) =~= payload);
    assert(sei_msgs_from(body, 0) =~= seq![(5u32, payload)]);
    assert(sei_messages(body) =~= seq![(5u32, payload)]);
    // The resolver's highest applicable candidate is the bytes after
    // the 16-byte marker, and they decode to the record.
    assert(byte_run(payload, 0, 0x42) == 0);
    assert(magic_cands(5, payload) =~= Seq::<CandRange>::empty());
    let ur = CandRange { start: 16, len: enc.len() as usize };
    assert(uuid_cands(5, payload) =~= seq![ur]);
    let all = all_cands(5, payload);
    assert(all[0] == ur);
    let dd = dedup_adjacent(all);
    assert(dd[0] == ur);
    let c = payload.subrange(ur.start as int, ur.start + ur.len);
    assert(c =~= enc);
    assert(attempt_decode(enc) == Some(m));
    assert(resolve_list(payload, dd, 0) == Some(m));
    assert(spec_resolve(5, payload) == Some(m));
    // Assemble: one NAL, one message, one record.
    assert(msgs_events(seq![(5u32, payload)], 1) =~= Seq::<SeiMetadata>::empty());
    assert(msgs_events(seq![(5u32, payload)], 0) =~= seq![m]);
    assert(nal_events(codec, seq![nal], 1) =~= Seq::<SeiMetadata>::empty());
    assert(nal_events(codec, seq![nal], 0) =~= seq![m]);
    assert(spec_sample_events(codec, sample) =~= seq![m]);
}

} // verus!
