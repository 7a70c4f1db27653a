//! The serialized telemetry record and its wire-format decoder.
//!
//! A record travels inside an SEI payload as a sequence of
//! tag/value fields: each field starts with a varint key whose low
//! three bits give the wire type (0 varint, 1 eight bytes, 2
//! length-delimited, 5 four bytes) and whose remaining bits give the
//! field number. Unknown fields are skipped; a known field whose wire
//! type disagrees with the schema, a key with field number zero or
//! above 32 bits, a malformed varint, or a truncated value all reject
//! the buffer. Decoding an empty buffer yields the all-defaults record.
//!
//! Floating-point fields are carried as their raw little-endian bit
//! patterns (`u32`/`u64`); the record is opaque to the extraction logic
//! beyond `version` and `frame_seq_no`.

use vstd::prelude::*;

verus! {

/// One decoded telemetry record.
///
/// Fields suffixed `_bits` hold the IEEE-754 bit pattern of the
/// corresponding floating-point quantity exactly as it appeared on the
/// wire; callers that want the numeric value reinterpret the bits.
#[derive(Debug, Clone, Copy, PartialEq, Eq, Structural)]
pub struct SeiMetadata {
    pub version: u32,
    pub gear_state: u32,
    pub frame_seq_no: u64,
    pub vehicle_speed_mps_bits: u32,
    pub accelerator_pedal_position_bits: u32,
    pub steering_wheel_angle_bits: u32,
    pub blinker_on_left: bool,
    pub blinker_on_right: bool,
    pub brake_applied: bool,
    pub autopilot_state: u32,
    pub latitude_deg_bits: u64,
    pub longitude_deg_bits: u64,
    pub heading_deg_bits: u64,
    pub linear_acceleration_mps2_x_bits: u64,
    pub linear_acceleration_mps2_y_bits: u64,
    pub linear_acceleration_mps2_z_bits: u64,
}

/// The all-defaults record: every field at its zero value.
pub open spec fn default_record() -> SeiMetadata {
    SeiMetadata {
        version: 0,
        gear_state: 0,
        frame_seq_no: 0,
        vehicle_speed_mps_bits: 0,
        accelerator_pedal_position_bits: 0,
        steering_wheel_angle_bits: 0,
        blinker_on_left: false,
        blinker_on_right: false,
        brake_applied: false,
        autopilot_state: 0,
        latitude_deg_bits: 0,
        longitude_deg_bits: 0,
        heading_deg_bits: 0,
        linear_acceleration_mps2_x_bits: 0,
        linear_acceleration_mps2_y_bits: 0,
        linear_acceleration_mps2_z_bits: 0,
    }
}

/// Base-128 varint starting at `pos`, byte `k` of at most ten, `acc`
/// the bits gathered so far. Returns the value and the index just past
/// the varint, or `None` when the varint is malformed or runs off the
/// end of the buffer.
pub open spec fn spec_varint_rec(s: Seq<u8>, pos: int, k: int, acc: u64) -> Option<(u64, int)>
    decreases 10 - k,
{
    if k < 0 || k >= 10 {
        None
    } else if pos + k < 0 || pos + k >= s.len() {
        None
    } else {
        let b = s[pos + k];
        if k == 9 && b > 1 {
            None
        } else {
            let acc2 = acc | (((b & 0x7f) as u64) << ((7 * k) as u64));
            if b < 0x80 {
                Some((acc2, pos + k + 1))
            } else {
                spec_varint_rec(s, pos, k + 1, acc2)
            }
        }
    }
}

pub open spec fn spec_varint(s: Seq<u8>, pos: int) -> Option<(u64, int)> {
    spec_varint_rec(s, pos, 0, 0)
}

/// A decoded varint ends strictly after `pos` and within the buffer.
pub proof fn lemma_varint_bounds(s: Seq<u8>, pos: int, k: int, acc: u64)
    ensures
        spec_varint_rec(s, pos, k, acc) matches Some((v, j)) ==> pos + k < j <= s.len(),
    decreases 10 - k,
{
    if 0 <= k < 10 && 0 <= pos + k < s.len() {
        let b = s[pos + k];
        if !(k == 9 && b > 1) && b >= 0x80 {
            lemma_varint_bounds(s, pos, k + 1, acc | (((b & 0x7f) as u64) << ((7 * k) as u64)));
        }
    }
}

/// Little-endian 32-bit value at `i`.
pub open spec fn le32(s: Seq<u8>, i: int) -> u32 {
    (s[i] as u32) | ((s[i + 1] as u32) << 8) | ((s[i + 2] as u32) << 16) | ((s[i + 3] as u32)
        << 24)
}

/// Little-endian 64-bit value at `i`.
pub open spec fn le64(s: Seq<u8>, i: int) -> u64 {
    (s[i] as u64) | ((s[i + 1] as u64) << 8) | ((s[i + 2] as u64) << 16) | ((s[i + 3] as u64)
        << 24) | ((s[i + 4] as u64) << 32) | ((s[i + 5] as u64) << 40) | ((s[i + 6] as u64) << 48)
        | ((s[i + 7] as u64) << 56)
}

/// Wire type the schema prescribes for a known field number, or `None`
/// for a field number outside the schema (to be skipped).
pub open spec fn field_wire(field: u64) -> Option<u64> {
    if field == 1 || field == 2 || field == 3 || field == 7 || field == 8 || field == 9 || field
        == 10 {
        Some(0u64)
    } else if field == 4 || field == 5 || field == 6 {
        Some(5u64)
    } else if 11 <= field <= 16 {
        Some(1u64)
    } else {
        None
    }
}

/// The record after storing varint value `v` into known varint field
/// `field`. 32-bit fields keep the low 32 bits of the wire value;
/// flags are set when the value is non-zero.
pub open spec fn set_varint_field(m: SeiMetadata, field: u64, v: u64) -> SeiMetadata {
    if field == 1 {
        SeiMetadata { version: (v & 0xffff_ffff) as u32, ..m }
    } else if field == 2 {
        SeiMetadata { gear_state: (v & 0xffff_ffff) as u32, ..m }
    } else if field == 3 {
        SeiMetadata { frame_seq_no: v, ..m }
    } else if field == 7 {
        SeiMetadata { blinker_on_left: v != 0, ..m }
    } else if field == 8 {
        SeiMetadata { blinker_on_right: v != 0, ..m }
    } else if field == 9 {
        SeiMetadata { brake_applied: v != 0, ..m }
    } else {
        SeiMetadata { autopilot_state: (v & 0xffff_ffff) as u32, ..m }
    }
}

/// The record after storing four-byte value `v` into known field `field`.
pub open spec fn set_fixed32_field(m: SeiMetadata, field: u64, v: u32) -> SeiMetadata {
    if field == 4 {
        SeiMetadata { vehicle_speed_mps_bits: v, ..m }
    } else if field == 5 {
        SeiMetadata { accelerator_pedal_position_bits: v, ..m }
    } else {
        SeiMetadata { steering_wheel_angle_bits: v, ..m }
    }
}

/// The record after storing eight-byte value `v` into known field `field`.
pub open spec fn set_fixed64_field(m: SeiMetadata, field: u64, v: u64) -> SeiMetadata {
    if field == 11 {
        SeiMetadata { latitude_deg_bits: v, ..m }
    } else if field == 12 {
        SeiMetadata { longitude_deg_bits: v, ..m }
    } else if field == 13 {
        SeiMetadata { heading_deg_bits: v, ..m }
    } else if field == 14 {
        SeiMetadata { linear_acceleration_mps2_x_bits: v, ..m }
    } else if field == 15 {
        SeiMetadata { linear_acceleration_mps2_y_bits: v, ..m }
    } else {
        SeiMetadata { linear_acceleration_mps2_z_bits: v, ..m }
    }
}

/// Decode state after having consumed the buffer up to `i` into the
/// partial record `m`: the final record, or `None` when the rest of the
/// buffer is not a valid field sequence.
pub open spec fn spec_decode_from(s: Seq<u8>, i: int, m: SeiMetadata) -> Option<SeiMetadata>
    decreases s.len() - i,
    when 0 <= i <= s.len()
    via spec_decode_from_decreases
{
    if i >= s.len() {
        Some(m)
    } else {
        match spec_varint(s, i) {
            Option::None => None,
            Option::Some((tag, j)) => {
                let field = tag >> 3;
                let wire = tag & 7;
                if field == 0 || tag > 0xffff_ffff {
                    None
                } else {
                    match field_wire(field) {
                        Option::Some(expect) => {
                            if wire != expect {
                                None
                            } else if expect == 0 {
                                match spec_varint(s, j) {
                                    Option::None => None,
                                    Option::Some((v, j2)) => spec_decode_from(
                                        s,
                                        j2,
                                        set_varint_field(m, field, v),
                                    ),
                                }
                            } else if expect == 5 {
                                if j + 4 > s.len() {
                                    None
                                } else {
                                    spec_decode_from(s, j + 4, set_fixed32_field(m, field, le32(s, j)))
                                }
                            } else {
                                if j + 8 > s.len() {
                                    None
                                } else {
                                    spec_decode_from(s, j + 8, set_fixed64_field(m, field, le64(s, j)))
                                }
                            }
                        },
                        Option::None => {
                            // Unknown field: skip its value by wire type.
                            if wire == 0 {
                                match spec_varint(s, j) {
                                    Option::None => None,
                                    Option::Some((_v, j2)) => spec_decode_from(s, j2, m),
                                }
                            } else if wire == 1 {
                                if j + 8 > s.len() {
                                    None
                                } else {
                                    spec_decode_from(s, j + 8, m)
                                }
                            } else if wire == 2 {
                                match spec_varint(s, j) {
                                    Option::None => None,
                                    Option::Some((n, j2)) => {
                                        if j2 + n > s.len() {
                                            None
                                        } else {
                                            spec_decode_from(s, j2 + n, m)
                                        }
                                    },
                                }
                            } else if wire == 5 {
                                if j + 4 > s.len() {
                                    None
                                } else {
                                    spec_decode_from(s, j + 4, m)
                                }
                            } else {
                                None
                            }
                        },
                    }
                }
            },
        }
    }
}

#[via_fn]
proof fn spec_decode_from_decreases(s: Seq<u8>, i: int, m: SeiMetadata) {
    if i < s.len() {
        lemma_varint_bounds(s, i, 0, 0);
        match spec_varint(s, i) {
            Option::Some((tag, j)) => lemma_varint_bounds(s, j, 0, 0),
            Option::None => (),
        }
    }
}

/// What decoding a whole buffer against the schema yields.
pub open spec fn spec_decode(s: Seq<u8>) -> Option<SeiMetadata> {
    spec_decode_from(s, 0, default_record())
}

impl SeiMetadata {
    /// The all-defaults record.
    pub fn new() -> (r: SeiMetadata)
        ensures
            r == default_record(),
    {
        SeiMetadata {
            version: 0,
            gear_state: 0,
            frame_seq_no: 0,
            vehicle_speed_mps_bits: 0,
            accelerator_pedal_position_bits: 0,
            steering_wheel_angle_bits: 0,
            blinker_on_left: false,
            blinker_on_right: false,
            brake_applied: false,
            autopilot_state: 0,
            latitude_deg_bits: 0,
            longitude_deg_bits: 0,
            heading_deg_bits: 0,
            linear_acceleration_mps2_x_bits: 0,
            linear_acceleration_mps2_y_bits: 0,
            linear_acceleration_mps2_z_bits: 0,
        }
    }

    /// Decode one buffer against the schema.
    pub fn decode(data: &[u8]) -> (r: Option<SeiMetadata>)
        ensures
            r == spec_decode(data@),
    {
        let ghost s = data@;
        let mut m = SeiMetadata::new();
        let mut i: usize = 0;
        while i < data.len()
            invariant
                0 <= i <= s.len(),
                s == data@,
                spec_decode(s) == spec_decode_from(s, i as int, m),
            decreases s.len() - i,
        {
            proof {
                lemma_varint_bounds(s, i as int, 0, 0);
            }
            let (tag, j) = match read_varint(data, i) {
                Option::Some(p) => p,
                Option::None => {
                    return None;
                },
            };
            let field = tag >> 3u64;
            let wire = tag & 7u64;
            if field == 0 || tag > 0xffff_ffff {
                return None;
            }
            proof {
                lemma_varint_bounds(s, j as int, 0, 0);
            }
            // Known fields of the schema, by expected wire type.
            if field == 1 || field == 2 || field == 3 || field == 7 || field == 8 || field == 9
                || field == 10 {
                if wire != 0 {
                    return None;
                }
                let (v, j2) = match read_varint(data, j) {
                    Option::Some(p) => p,
                    Option::None => {
                        return None;
                    },
                };
                if field == 1 {
                    m.version = (v & 0xffff_ffff) as u32;
                } else if field == 2 {
                    m.gear_state = (v & 0xffff_ffff) as u32;
                } else if field == 3 {
                    m.frame_seq_no = v;
                } else if field == 7 {
                    m.blinker_on_left = v != 0;
                } else if field == 8 {
                    m.blinker_on_right = v != 0;
                } else if field == 9 {
                    m.brake_applied = v != 0;
                } else {
                    m.autopilot_state = (v & 0xffff_ffff) as u32;
                }
                i = j2;
            } else if field == 4 || field == 5 || field == 6 {
                if wire != 5 {
                    return None;
                }
                if data.len() - j < 4 {
                    return None;
                }
                let v = read_le32(data, j);
                if field == 4 {
                    m.vehicle_speed_mps_bits = v;
                } else if field == 5 {
                    m.accelerator_pedal_position_bits = v;
                } else {
                    m.steering_wheel_angle_bits = v;
                }
                i = j + 4;
            } else if 11 <= field && field <= 16 {
                if wire != 1 {
                    return None;
                }
                if data.len() - j < 8 {
                    return None;
                }
                let v = read_le64(data, j);
                if field == 11 {
                    m.latitude_deg_bits = v;
                } else if field == 12 {
                    m.longitude_deg_bits = v;
                } else if field == 13 {
                    m.heading_deg_bits = v;
                } else if field == 14 {
                    m.linear_acceleration_mps2_x_bits = v;
                } else if field == 15 {
                    m.linear_acceleration_mps2_y_bits = v;
                } else {
                    m.linear_acceleration_mps2_z_bits = v;
                }
                i = j + 8;
            } else {
                // Unknown field: skip its value by wire type.
                if wire == 0 {
                    let (_v, j2) = match read_varint(data, j) {
                        Option::Some(p) => p,
                        Option::None => {
                            return None;
                        },
                    };
                    i = j2;
                } else if wire == 1 {
                    if data.len() - j < 8 {
                        return None;
                    }
                    i = j + 8;
                } else if wire == 2 {
                    let (n, j2) = match read_varint(data, j) {
                        Option::Some(p) => p,
                        Option::None => {
                            return None;
                        },
                    };
                    proof {
                        lemma_varint_bounds(s, j as int, 0, 0);
                    }
                    if n > (data.len() - j2) as u64 {
                        return None;
                    }
                    i = j2 + (n as usize);
                } else if wire == 5 {
                    if data.len() - j < 4 {
                        return None;
                    }
                    i = j + 4;
                } else {
                    return None;
                }
            }
        }
        Some(m)
    }
}

/// Read a base-128 varint at `pos`.
fn read_varint(data: &[u8], pos: usize) -> (r: Option<(u64, usize)>)
    requires
        pos <= data@.len(),
    ensures
        match r {
            Option::Some((v, j)) => spec_varint(data@, pos as int) == Some((v, j as int)),
            Option::None => spec_varint(data@, pos as int) is None,
        },
{
    let mut value: u64 = 0;
    let mut k: usize = 0;
    while k < 10
        invariant
            pos <= data@.len(),
            0 <= k <= 10,
            spec_varint(data@, pos as int) == spec_varint_rec(data@, pos as int, k as int, value),
        decreases 10 - k,
    {
        if k >= data.len() - pos {
            return None;
        }
        let b = data[pos + k];
        if k == 9 && b > 1 {
            return None;
        }
        value = value | (((b & 0x7f) as u64) << ((7 * k) as u64));
        if b < 0x80 {
            return Some((value, pos + k + 1));
        }
        k = k + 1;
    }
    None
}

/// Read a little-endian 32-bit value at `pos`.
fn read_le32(data: &[u8], pos: usize) -> (r: u32)
    requires
        pos + 4 <= data@.len(),
    ensures
        r == le32(data@, pos as int),
{
    (data[pos] as u32) | ((data[pos + 1] as u32) << 8u32) | ((data[pos + 2] as u32) << 16u32) | (
    (data[pos + 3] as u32) << 24u32)
}

/// Read a little-endian 64-bit value at `pos`.
fn read_le64(data: &[u8], pos: usize) -> (r: u64)
    requires
        pos + 8 <= data@.len(),
    ensures
        r == le64(data@, pos as int),
{
    (data[pos] as u64) | ((data[pos + 1] as u64) << 8u64) | ((data[pos + 2] as u64) << 16u64) | (
    (data[pos + 3] as u64) << 24u64) | ((data[pos + 4] as u64) << 32u64) | ((data[pos + 5] as u64)
        << 40u64) | ((data[pos + 6] as u64) << 48u64) | ((data[pos + 7] as u64) << 56u64)
}

} // verus!
