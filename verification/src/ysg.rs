use vstd::prelude::*;
use crate::error::YmError;
use crate::sequence::{YmFrame, YmSequence, YmSequenceView};
use crate::timing::{SystemHz, TimingConfig};

verus! {

/// The fourteen YM-2149 registers of a frame, before anything is written.
pub open spec fn zero_registers() -> Seq<u8> {
    Seq::new(14, |i: int| 0u8)
}

/// Whether bit `r` of a frame's register mask is set.
pub open spec fn mask_bit(mask: u16, r: int) -> bool {
    mask & (1u16 << (r as u16)) != 0
}

/// The little-endian mask that opens a YSG frame at `pp`.
pub open spec fn frame_mask(b: Seq<u8>, pp: int) -> u16 {
    (b[pp] as u16) | ((b[pp + 1] as u16) << 8u16)
}

/// The little-endian 32-bit word at `i`.
pub open spec fn le_u32(b: Seq<u8>, i: int) -> u32 {
    (b[i] + 256 * b[i + 1] + 65536 * b[i + 2] + 16777216 * b[i + 3]) as u32
}

/// Reads the register payload of one frame: for each register `r` from the
/// given one up to 13 whose mask bit is set, the next byte replaces it.
pub open spec fn decode_registers(b: Seq<u8>, pp: int, mask: u16, regs: Seq<u8>, r: int) -> Result<
    (Seq<u8>, int),
    YmError,
>
    decreases 14 - r,
{
    if r >= 14 {
        Ok((regs, pp))
    } else if mask_bit(mask, r) {
        if pp >= b.len() {
            Err(YmError::YsgPayloadEof)
        } else {
            decode_registers(b, pp + 1, mask, regs.update(r, b[pp]), r + 1)
        }
    } else {
        decode_registers(b, pp, mask, regs, r + 1)
    }
}

/// Reads `n` delta-coded frames from `pp`, each a two-byte mask and the
/// registers it names, starting from the register values `regs`.
/// Gives the register values after each frame and the position after the last.
pub open spec fn decode_pattern(b: Seq<u8>, pp: int, regs: Seq<u8>, n: nat) -> Result<
    (Seq<Seq<u8>>, int),
    YmError,
>
    decreases n,
{
    if n == 0 {
        Ok((Seq::empty(), pp))
    } else if pp + 1 >= b.len() {
        Err(YmError::YsgPatternEof)
    } else {
        match decode_registers(b, pp + 2, frame_mask(b, pp), regs, 0) {
            Err(e) => Err(e),
            Ok((next, q)) => match decode_pattern(b, q, next, (n - 1) as nat) {
                Err(e) => Err(e),
                Ok((rest, end)) => Ok((seq![next] + rest, end)),
            },
        }
    }
}

/// The frame that a dump of the fourteen registers describes.
pub open spec fn frame_from_registers(r: Seq<u8>) -> YmFrame {
    YmFrame {
        tone_a: Some((r[0] as u16) | ((r[1] as u16) << 8u16)),
        tone_b: Some((r[2] as u16) | ((r[3] as u16) << 8u16)),
        tone_c: Some((r[4] as u16) | ((r[5] as u16) << 8u16)),
        noise_period: Some(r[6]),
        volume_a: Some(r[8]),
        volume_b: Some(r[9]),
        volume_c: Some(r[10]),
        tone_enable_a: Some(r[7] & 0x01u8 == 0),
        tone_enable_b: Some(r[7] & 0x02u8 == 0),
        tone_enable_c: Some(r[7] & 0x04u8 == 0),
        noise_enable_a: Some(r[7] & 0x08u8 == 0),
        noise_enable_b: Some(r[7] & 0x10u8 == 0),
        noise_enable_c: Some(r[7] & 0x20u8 == 0),
        envelope_period: Some((r[11] as u16) | ((r[12] as u16) << 8u16)),
        envelope_shape: Some(r[13]),
        duration: Some(1),
    }
}

/// Where the offset table of a YSG payload begins.
pub open spec fn offset_table_start(b: Seq<u8>) -> int {
    12 + b[2]
}

/// Where the pattern data of a YSG payload begins.
pub open spec fn pattern_data_start(b: Seq<u8>) -> int {
    12 + b[2] + 4 * b[1]
}

/// The frames of the pattern that sequence table entry `k` names.
pub open spec fn ysg_entry_frames(b: Seq<u8>, k: int) -> Result<Seq<YmFrame>, YmError> {
    let idx = b[12 + k];
    if idx >= b[1] {
        Err(YmError::YsgSequenceIndex { index: idx as usize, max: b[1] as usize })
    } else {
        let start = pattern_data_start(b) + le_u32(b, offset_table_start(b) + 4 * idx);
        match decode_pattern(b, start, zero_registers(), b[0] as nat) {
            Err(e) => Err(e),
            Ok((regs, _)) => Ok(regs.map_values(|r: Seq<u8>| frame_from_registers(r))),
        }
    }
}

/// The frames of the first `k` sequence table entries, in order.
pub open spec fn ysg_frames(b: Seq<u8>, k: nat) -> Result<Seq<YmFrame>, YmError>
    decreases k,
{
    if k == 0 {
        Ok(Seq::empty())
    } else {
        match ysg_frames(b, (k - 1) as nat) {
            Err(e) => Err(e),
            Ok(fs) => match ysg_entry_frames(b, k - 1) {
                Err(e) => Err(e),
                Ok(p) => Ok(fs + p),
            },
        }
    }
}

/// What a YSG payload holds.
pub struct YsgContent {
    pub frames: Seq<YmFrame>,
    pub loop_start: Option<usize>,
    pub frame_rate_hz: u32,
    pub master_clock_hz: u32,
}

/// Decodes a YSG payload: a 12-byte header (pattern size, pattern count,
/// sequence length, loop pattern, frame rate, master clock), the sequence
/// table, the offset table and the delta-coded patterns.
pub open spec fn parse_ysg(b: Seq<u8>) -> Result<YsgContent, YmError> {
    if b.len() < 12 {
        Err(YmError::YsgTooSmall)
    } else if b.len() < pattern_data_start(b) {
        Err(YmError::YsgTruncated)
    } else {
        match ysg_frames(b, b[2] as nat) {
            Err(e) => Err(e),
            Ok(frames) => Ok(
                YsgContent {
                    frames,
                    loop_start: if b[3] == 255 {
                        None
                    } else {
                        Some((b[3] * b[0]) as usize)
                    },
                    frame_rate_hz: le_u32(b, 4),
                    master_clock_hz: le_u32(b, 8),
                },
            ),
        }
    }
}

/// The sequence that a decoded YSG payload stands for.
pub open spec fn ysg_sequence(name: Seq<char>, c: YsgContent) -> YmSequenceView {
    YmSequenceView {
        name,
        timing: TimingConfig {
            master_clock_hz: c.master_clock_hz,
            frame_rate: SystemHz::Custom(c.frame_rate_hz),
        },
        priority: 0,
        loop_start: c.loop_start,
        frames: c.frames,
    }
}

pub open spec fn prepend_registers(
    done: Seq<Seq<u8>>,
    rest: Result<(Seq<Seq<u8>>, int), YmError>,
) -> Result<(Seq<Seq<u8>>, int), YmError> {
    match rest {
        Err(e) => Err(e),
        Ok((s, end)) => Ok((done + s, end)),
    }
}

fn read_le_u32(b: &[u8], i: usize) -> (r: u32)
    requires
        i + 4 <= b@.len(),
    ensures
        r == le_u32(b@, i as int),
{
    b[i] as u32 + 256 * (b[i + 1] as u32) + 65536 * (b[i + 2] as u32) + 16777216 * (b[i + 3] as u32)
}

impl YmFrame {
    /// The frame described by a dump of (at least) the fourteen registers.
    pub fn from_registers(r: &[u8]) -> (f: YmFrame)
        requires
            r@.len() >= 14,
        ensures
            f == frame_from_registers(r@),
    {
        let mixer = r[7];
        YmFrame {
            tone_a: Some((r[0] as u16) | ((r[1] as u16) << 8u16)),
            tone_b: Some((r[2] as u16) | ((r[3] as u16) << 8u16)),
            tone_c: Some((r[4] as u16) | ((r[5] as u16) << 8u16)),
            noise_period: Some(r[6]),
            volume_a: Some(r[8]),
            volume_b: Some(r[9]),
            volume_c: Some(r[10]),
            tone_enable_a: Some(mixer & 0x01u8 == 0),
            tone_enable_b: Some(mixer & 0x02u8 == 0),
            tone_enable_c: Some(mixer & 0x04u8 == 0),
            noise_enable_a: Some(mixer & 0x08u8 == 0),
            noise_enable_b: Some(mixer & 0x10u8 == 0),
            noise_enable_c: Some(mixer & 0x20u8 == 0),
            envelope_period: Some((r[11] as u16) | ((r[12] as u16) << 8u16)),
            envelope_shape: Some(r[13]),
            duration: Some(1),
        }
    }
}

proof fn lemma_decode_pattern_step(b: Seq<u8>, pp: int, regs: Seq<u8>, n: nat)
    requires
        n > 0,
        pp + 1 < b.len(),
    ensures
        decode_pattern(b, pp, regs, n) == match decode_registers(
            b,
            pp + 2,
            frame_mask(b, pp),
            regs,
            0,
        ) {
            Err(e) => Err(e),
            Ok((next, q)) => prepend_registers(seq![next], decode_pattern(b, q, next, (n - 1) as nat)),
        },
{
}

/// Decodes the `n` frames of the pattern that starts `offset` bytes after `data_start`.
fn decode_pattern_frames(b: &[u8], data_start: usize, offset: usize, n: usize) -> (r: Result<
    Vec<YmFrame>,
    YmError,
>)
    requires
        data_start <= b@.len(),
    ensures
        match decode_pattern(b@, data_start + offset, zero_registers(), n as nat) {
            Ok((regs, _)) => r matches Ok(fs) && fs@ == regs.map_values(
                |x: Seq<u8>| frame_from_registers(x),
            ),
            Err(e) => r == Err::<Vec<YmFrame>, YmError>(e),
        },
{
    let len = b.len();
    if n == 0 {
        return Ok(Vec::new());
    }
    if offset >= len - data_start {
        return Err(YmError::YsgPatternEof);
    }
    let ghost start = data_start + offset;
    let mut pp = data_start + offset;
    let mut regs: Vec<u8> = vec![0u8, 0, 0, 0, 0, 0, 0, 0, 0, 0, 0, 0, 0, 0];
    assert(regs@ =~= zero_registers());
    let mut frames: Vec<YmFrame> = Vec::new();
    let ghost mut done: Seq<Seq<u8>> = Seq::empty();
    let mut f: usize = 0;
    while f < n
        invariant
            len == b@.len(),
            start == data_start + offset,
            pp <= len,
            f <= n,
            regs@.len() == 14,
            prepend_registers(done, decode_pattern(b@, pp as int, regs@, (n - f) as nat))
                == decode_pattern(b@, start, zero_registers(), n as nat),
            frames@ == done.map_values(|x: Seq<u8>| frame_from_registers(x)),
        decreases n - f,
    {
        if len - pp <= 1 {
            assert(decode_pattern(b@, pp as int, regs@, (n - f) as nat) == Err::<(Seq<Seq<u8>>, int), YmError>(YmError::YsgPatternEof));
            assert(decode_pattern(b@, start, zero_registers(), n as nat) == Err::<(Seq<Seq<u8>>, int), YmError>(YmError::YsgPatternEof));
            return Err(YmError::YsgPatternEof);
        }
        let mask: u16 = (b[pp] as u16) | ((b[pp + 1] as u16) << 8u16);
        let ghost mask_pos = pp as int;
        let ghost regs0 = regs@;
        pp = pp + 2;
        let ghost pp0 = pp as int;
        proof {
            lemma_decode_pattern_step(b@, mask_pos, regs0, (n - f) as nat);
        }
        let mut reg: u16 = 0;
        while reg < 14
            invariant
                len == b@.len(),
                start == data_start + offset,
                pp <= len,
                reg <= 14,
                regs@.len() == 14,
                f < n,
                mask_pos + 1 < len,
                mask == frame_mask(b@, mask_pos),
                pp0 == mask_pos + 2,
                prepend_registers(done, decode_pattern(b@, mask_pos, regs0, (n - f) as nat))
                    == decode_pattern(b@, start, zero_registers(), n as nat),
                decode_pattern(b@, mask_pos, regs0, (n - f) as nat) == match decode_registers(
                    b@,
                    pp0,
                    mask,
                    regs0,
                    0,
                ) {
                    Err(e) => Err(e),
                    Ok((next, q)) => prepend_registers(seq![next], decode_pattern(b@, q, next, (n - f - 1) as nat)),
                },
                decode_registers(b@, pp0, mask, regs0, 0) == decode_registers(
                    b@,
                    pp as int,
                    mask,
                    regs@,
                    reg as int,
                ),
            decreases 14 - reg,
        {
            assert(mask_bit(mask, reg as int) == ((mask & (1u16 << reg)) != 0));
            if (mask & (1u16 << reg)) != 0 {
                if pp >= len {
                    assert(mask_bit(mask, reg as int));
                    assert(decode_registers(b@, pp as int, mask, regs@, reg as int) == Err::<(Seq<u8>, int), YmError>(YmError::YsgPayloadEof));
                    return Err(YmError::YsgPayloadEof);
                }
                regs.set(reg as usize, b[pp]);
                pp = pp + 1;
            }
            reg = reg + 1;
        }
        proof {
            let next = regs@;
            assert(decode_registers(b@, pp as int, mask, regs@, 14) == Ok::<(Seq<u8>, int), YmError>((next, pp as int)));
            assert(prepend_registers(done, prepend_registers(seq![next], decode_pattern(b@, pp as int, next, (n - f - 1) as nat)))
                == prepend_registers(done.push(next), decode_pattern(b@, pp as int, next, (n - f - 1) as nat))) by {
                match decode_pattern(b@, pp as int, next, (n - f - 1) as nat) {
                    Ok((s, e)) => { assert(done + (seq![next] + s) =~= done.push(next) + s); }
                    Err(e) => {}
                }
            }
        }
        let frame = YmFrame::from_registers(regs.as_slice());
        frames.push(frame);
        proof {
            done = done.push(regs@);
            assert(frames@ =~= done.map_values(|x: Seq<u8>| frame_from_registers(x)));
        }
        f = f + 1;
    }
    proof {
        assert(decode_pattern(b@, pp as int, regs@, 0) == Ok::<(Seq<Seq<u8>>, int), YmError>((Seq::<Seq<u8>>::empty(), pp as int)));
        assert(done + Seq::<Seq<u8>>::empty() =~= done);
    }
    Ok(frames)
}

proof fn lemma_ysg_frames_error(b: Seq<u8>, k: nat, m: nat)
    requires
        k <= m,
        ysg_frames(b, k) is Err,
    ensures
        ysg_frames(b, m) == ysg_frames(b, k),
    decreases m - k,
{
    if k < m {
        lemma_ysg_frames_error(b, k, (m - 1) as nat);
    }
}

impl YmSequence {
    /// Decodes a YSG payload (see [`parse_ysg`]).
    pub fn from_ysg(name: &str, bytes: &[u8]) -> (r: Result<Self, YmError>)
        ensures
            match parse_ysg(bytes@) {
                Ok(c) => r matches Ok(s) && s@ == ysg_sequence(name@, c),
                Err(e) => r == Err::<Self, YmError>(e),
            },
    {
        let len = bytes.len();
        if len < 12 {
            return Err(YmError::YsgTooSmall);
        }
        let pattern_size = bytes[0] as usize;
        let num_unique = bytes[1] as usize;
        let seq_len = bytes[2] as usize;
        let loop_pattern = bytes[3] as usize;
        let frame_rate_hz = read_le_u32(bytes, 4);
        let master_clock_hz = read_le_u32(bytes, 8);
        let table_end = 12 + seq_len;
        let data_start = table_end + num_unique * 4;
        if len < data_start {
            return Err(YmError::YsgTruncated);
        }
        let mut frames: Vec<YmFrame> = Vec::new();
        let mut k: usize = 0;
        while k < seq_len
            invariant
                len == bytes@.len(),
                12 <= len,
                pattern_size == bytes@[0],
                num_unique == bytes@[1],
                seq_len == bytes@[2],
                table_end == offset_table_start(bytes@),
                data_start == pattern_data_start(bytes@),
                data_start <= len,
                k <= seq_len,
                ysg_frames(bytes@, k as nat) == Ok::<Seq<YmFrame>, YmError>(frames@),
            decreases seq_len - k,
        {
            let pattern_idx = bytes[12 + k] as usize;
            if pattern_idx >= num_unique {
                proof {
                    lemma_ysg_frames_error(bytes@, (k + 1) as nat, seq_len as nat);
                }
                return Err(YmError::YsgSequenceIndex { index: pattern_idx, max: num_unique });
            }
            let offset = read_le_u32(bytes, table_end + pattern_idx * 4) as usize;
            match decode_pattern_frames(bytes, data_start, offset, pattern_size) {
                Err(e) => {
                    proof {
                        lemma_ysg_frames_error(bytes@, (k + 1) as nat, seq_len as nat);
                    }
                    return Err(e);
                },
                Ok(mut block) => {
                    frames.append(&mut block);
                },
            }
            k = k + 1;
        }
        assert(loop_pattern * pattern_size <= 255 * 255) by (nonlinear_arith)
            requires
                loop_pattern <= 255,
                pattern_size <= 255,
        ;
        let loop_start = if loop_pattern == 255 {
            None
        } else {
            Some(loop_pattern * pattern_size)
        };
        Ok(
            YmSequence {
                name: String::from_str(name),
                timing: TimingConfig {
                    master_clock_hz,
                    frame_rate: SystemHz::Custom(frame_rate_hz),
                },
                priority: 0,
                loop_start,
                frames,
            },
        )
    }
}

} // verus!
