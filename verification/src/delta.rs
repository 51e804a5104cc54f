use vstd::prelude::*;
use crate::sequence::{empty_ym_frame, SfxSequence, YmFrame, YmSequence, YmSequenceView};
use crate::yfx::{sfx_bytes, sfx_record, sfx_state_after, SfxState};
use crate::ysg::{decode_pattern, decode_registers, frame_mask, mask_bit, zero_registers};

verus! {

/// Platform-agnostic delta-mask compiler for YM-2149 register updates.
#[derive(Debug, Clone, Copy, PartialEq, Eq, Structural)]
pub struct DeltaCompiler;

impl DeltaCompiler {
    pub fn new() -> (r: Self)
        ensures
            r == DeltaCompiler,
    {
        DeltaCompiler
    }
}

impl Default for DeltaCompiler {
    fn default() -> (r: Self)
        ensures
            r == DeltaCompiler,
    {
        DeltaCompiler
    }
}

/// The mixer register (R7) of a frame: bits 0-2 disable the tones of channels
/// A-C, bits 3-5 their noise. Tones default to enabled, noise to disabled.
pub open spec fn mixer_register(f: YmFrame) -> u8 {
    ((if f.tone_enable_a.unwrap_or(true) { 0u8 } else { 1u8 }) + (if f.tone_enable_b.unwrap_or(
        true,
    ) {
        0u8
    } else {
        2u8
    }) + (if f.tone_enable_c.unwrap_or(true) {
        0u8
    } else {
        4u8
    }) + (if f.noise_enable_a.unwrap_or(false) {
        0u8
    } else {
        8u8
    }) + (if f.noise_enable_b.unwrap_or(false) {
        0u8
    } else {
        16u8
    }) + (if f.noise_enable_c.unwrap_or(false) {
        0u8
    } else {
        32u8
    })) as u8
}

/// The fourteen register values that a frame sets, with unset fields at zero
/// and the mixer as [`mixer_register`] gives it.
pub open spec fn frame_registers(f: YmFrame) -> Seq<u8> {
    let ta = f.tone_a.unwrap_or(0);
    let tb = f.tone_b.unwrap_or(0);
    let tc = f.tone_c.unwrap_or(0);
    let ep = f.envelope_period.unwrap_or(0);
    seq![
        (ta & 0xFF) as u8,
        ((ta >> 8u16) & 0x0F) as u8,
        (tb & 0xFF) as u8,
        ((tb >> 8u16) & 0x0F) as u8,
        (tc & 0xFF) as u8,
        ((tc >> 8u16) & 0x0F) as u8,
        f.noise_period.unwrap_or(0) & 0x1F,
        mixer_register(f),
        f.volume_a.unwrap_or(0) & 0x1F,
        f.volume_b.unwrap_or(0) & 0x1F,
        f.volume_c.unwrap_or(0) & 0x1F,
        (ep & 0xFF) as u8,
        ((ep >> 8u16) & 0xFF) as u8,
        f.envelope_shape.unwrap_or(0) & 0x0F,
    ]
}

/// The frame that comes back from the registers of `f`: every field set, tones
/// cut to 12 bits, noise and volumes to 5 bits, the envelope shape to 4 bits,
/// enables at their defaults when unset, and a duration of one.
pub open spec fn normalized_frame(f: YmFrame) -> YmFrame {
    YmFrame {
        tone_a: Some(f.tone_a.unwrap_or(0) & 0x0FFF),
        tone_b: Some(f.tone_b.unwrap_or(0) & 0x0FFF),
        tone_c: Some(f.tone_c.unwrap_or(0) & 0x0FFF),
        noise_period: Some(f.noise_period.unwrap_or(0) & 0x1F),
        volume_a: Some(f.volume_a.unwrap_or(0) & 0x1F),
        volume_b: Some(f.volume_b.unwrap_or(0) & 0x1F),
        volume_c: Some(f.volume_c.unwrap_or(0) & 0x1F),
        tone_enable_a: Some(f.tone_enable_a.unwrap_or(true)),
        tone_enable_b: Some(f.tone_enable_b.unwrap_or(true)),
        tone_enable_c: Some(f.tone_enable_c.unwrap_or(true)),
        noise_enable_a: Some(f.noise_enable_a.unwrap_or(false)),
        noise_enable_b: Some(f.noise_enable_b.unwrap_or(false)),
        noise_enable_c: Some(f.noise_enable_c.unwrap_or(false)),
        envelope_period: Some(f.envelope_period.unwrap_or(0)),
        envelope_shape: Some(f.envelope_shape.unwrap_or(0) & 0x0F),
        duration: Some(1),
    }
}

/// Whether register `r` goes into a frame's payload: all of them for the first
/// frame of a pattern, else those that differ from the previous frame.
pub open spec fn reg_changed(prev: Seq<u8>, cur: Seq<u8>, all: bool, r: int) -> bool {
    all || cur[r] != prev[r]
}

/// The mask of the first `r` registers that go into a frame's payload.
pub open spec fn delta_mask(prev: Seq<u8>, cur: Seq<u8>, all: bool, r: nat) -> u16
    decreases r,
{
    if r == 0 {
        0
    } else {
        let m = delta_mask(prev, cur, all, (r - 1) as nat);
        if reg_changed(prev, cur, all, r - 1) {
            m | (1u16 << ((r - 1) as u16))
        } else {
            m
        }
    }
}

/// The values of the registers from `r` on that go into a frame's payload.
pub open spec fn delta_payload(prev: Seq<u8>, cur: Seq<u8>, all: bool, r: int) -> Seq<u8>
    decreases 14 - r,
{
    if r >= 14 {
        Seq::empty()
    } else {
        (if reg_changed(prev, cur, all, r) {
            seq![cur[r]]
        } else {
            Seq::empty()
        }) + delta_payload(prev, cur, all, r + 1)
    }
}

/// A frame's encoding: its 14-bit register mask, low byte first, then the
/// registers the mask names.
pub open spec fn frame_bytes(prev: Seq<u8>, cur: Seq<u8>, all: bool) -> Seq<u8> {
    let m = delta_mask(prev, cur, all, 14);
    seq![(m & 0xFF) as u8, ((m >> 8u16) & 0xFF) as u8] + delta_payload(prev, cur, all, 0)
}

/// The encoding of the frames `fs` after a frame whose registers were `prev`;
/// the first frame of a pattern (`first`) sets every register.
pub open spec fn block_bytes(fs: Seq<YmFrame>, prev: Seq<u8>, first: bool) -> Seq<u8>
    decreases fs.len(),
{
    if fs.len() == 0 {
        Seq::empty()
    } else {
        frame_bytes(prev, frame_registers(fs[0]), first) + block_bytes(
            fs.drop_first(),
            frame_registers(fs[0]),
            false,
        )
    }
}

/// The encoding of one pattern of frames.
pub open spec fn pattern_bytes(fs: Seq<YmFrame>) -> Seq<u8> {
    block_bytes(fs, zero_registers(), true)
}

proof fn lemma_mask_or_bit(m: u16, r: u16, j: u16)
    by (bit_vector)
    requires
        r < 15,
        j < 16,
        m < (1u16 << r),
    ensures
        ((m | (1u16 << r)) & (1u16 << j) != 0) == ((m & (1u16 << j) != 0) || j == r),
        (m | (1u16 << r)) < (1u16 << (r + 1)),
        m < (1u16 << (r + 1)),
        j >= r ==> (m & (1u16 << j) == 0),
{
}

proof fn lemma_mask_bytes(m: u16)
    by (bit_vector)
    ensures
        (((m & 0xFF) as u8) as u16) | (((((m >> 8u16) & 0xFF) as u8) as u16) << 8u16) == m,
{
}

/// Bit `j` of [`delta_mask`] is set exactly for the registers below `r` that change.
proof fn lemma_delta_mask(prev: Seq<u8>, cur: Seq<u8>, all: bool, r: nat)
    requires
        r <= 14,
    ensures
        delta_mask(prev, cur, all, r) < (1u16 << (r as u16)),
        forall|j: int|
            0 <= j < 16 ==> #[trigger] mask_bit(delta_mask(prev, cur, all, r), j) == (j < r
                && reg_changed(prev, cur, all, j)),
    decreases r,
{
    if r == 0 {
        assert(0u16 < (1u16 << 0u16)) by (bit_vector);
        assert forall|j: int| 0 <= j < 16 implies #[trigger] mask_bit(0u16, j) == false by {
            let jj = j as u16;
            assert(0u16 & (1u16 << jj) == 0) by (bit_vector);
        }
    } else {
        lemma_delta_mask(prev, cur, all, (r - 1) as nat);
        let m = delta_mask(prev, cur, all, (r - 1) as nat);
        let rr = (r - 1) as u16;
        assert forall|j: int| 0 <= j < 16 implies #[trigger] mask_bit(
            delta_mask(prev, cur, all, r),
            j,
        ) == (j < r && reg_changed(prev, cur, all, j)) by {
            lemma_mask_or_bit(m, rr, j as u16);
            assert(mask_bit(m, j) == (j < r - 1 && reg_changed(prev, cur, all, j)));
        }
        lemma_mask_or_bit(m, rr, 0);
    }
}

/// Decoding the payload of a frame restores its registers.
proof fn lemma_decode_registers(
    b: Seq<u8>,
    q: int,
    mask: u16,
    prev: Seq<u8>,
    cur: Seq<u8>,
    all: bool,
    st: Seq<u8>,
    r: int,
)
    requires
        0 <= r <= 14,
        st.len() == 14,
        cur.len() == 14,
        prev.len() == 14,
        forall|j: int| 0 <= j < r ==> st[j] == cur[j],
        forall|j: int| r <= j < 14 ==> st[j] == prev[j],
        forall|j: int| r <= j < 14 ==> mask_bit(mask, j) == reg_changed(prev, cur, all, j),
        0 <= q,
        q + delta_payload(prev, cur, all, r).len() <= b.len(),
        b.subrange(q, q + delta_payload(prev, cur, all, r).len()) == delta_payload(
            prev,
            cur,
            all,
            r,
        ),
    ensures
        decode_registers(b, q, mask, st, r) == Ok::<(Seq<u8>, int), crate::error::YmError>(
            (cur, q + delta_payload(prev, cur, all, r).len()),
        ),
    decreases 14 - r,
{
    let p = delta_payload(prev, cur, all, r);
    if r >= 14 {
        assert(st =~= cur);
    } else {
        let rest = delta_payload(prev, cur, all, r + 1);
        if reg_changed(prev, cur, all, r) {
            assert(p == seq![cur[r]] + rest);
            assert(b[q] == p[0]);
            assert(b.subrange(q + 1, q + 1 + rest.len()) =~= rest) by {
                assert forall|i: int| 0 <= i < rest.len() implies b.subrange(
                    q + 1,
                    q + 1 + rest.len(),
                )[i] == rest[i] by {
                    assert(b.subrange(q, q + p.len())[i + 1] == p[i + 1]);
                }
            }
            lemma_decode_registers(b, q + 1, mask, prev, cur, all, st.update(r, b[q]), r + 1);
        } else {
            assert(p =~= rest);
            lemma_decode_registers(b, q, mask, prev, cur, all, st, r + 1);
        }
    }
}


proof fn lemma_subrange_split(b: Seq<u8>, p: int, x: Seq<u8>, y: Seq<u8>)
    requires
        0 <= p,
        p + (x + y).len() <= b.len(),
        b.subrange(p, p + (x + y).len()) == x + y,
    ensures
        b.subrange(p, p + x.len()) == x,
        b.subrange(p + x.len(), p + x.len() + y.len()) == y,
{
    assert(b.subrange(p, p + x.len()) =~= x) by {
        assert forall|i: int| 0 <= i < x.len() implies b.subrange(p, p + x.len())[i] == x[i] by {
            assert(b.subrange(p, p + (x + y).len())[i] == (x + y)[i]);
        }
    }
    assert(b.subrange(p + x.len(), p + x.len() + y.len()) =~= y) by {
        assert forall|i: int| 0 <= i < y.len() implies b.subrange(
            p + x.len(),
            p + x.len() + y.len(),
        )[i] == y[i] by {
            assert(b.subrange(p, p + (x + y).len())[x.len() + i] == (x + y)[x.len() + i]);
            assert((x + y)[x.len() + i] == y[i]);
            assert(b.subrange(p, p + (x + y).len())[x.len() + i] == b[p + x.len() + i]);
        }
    }
}

/// Decoding the encoding of a run of frames gives back their registers.
pub(crate) proof fn lemma_decode_block(b: Seq<u8>, p: int, fs: Seq<YmFrame>, prev: Seq<u8>, first: bool)
    requires
        prev.len() == 14,
        0 <= p,
        p + block_bytes(fs, prev, first).len() <= b.len(),
        b.subrange(p, p + block_bytes(fs, prev, first).len()) == block_bytes(fs, prev, first),
    ensures
        decode_pattern(b, p, prev, fs.len()) == Ok::<(Seq<Seq<u8>>, int), crate::error::YmError>(
            (
                fs.map_values(|f: YmFrame| frame_registers(f)),
                p + block_bytes(fs, prev, first).len(),
            ),
        ),
    decreases fs.len(),
{
    let e = block_bytes(fs, prev, first);
    if fs.len() == 0 {
        assert(fs.map_values(|f: YmFrame| frame_registers(f)) =~= Seq::<Seq<u8>>::empty());
    } else {
        let cur = frame_registers(fs[0]);
        let m = delta_mask(prev, cur, first, 14);
        let payload = delta_payload(prev, cur, first, 0);
        let head = seq![(m & 0xFF) as u8, ((m >> 8u16) & 0xFF) as u8];
        let fb = frame_bytes(prev, cur, first);
        let rest = block_bytes(fs.drop_first(), cur, false);
        assert(e == fb + rest);
        assert(fb == head + payload);
        lemma_subrange_split(b, p, fb, rest);
        lemma_subrange_split(b, p, head, payload);
        assert(b[p] == b.subrange(p, p + head.len())[0]);
        assert(b[p + 1] == b.subrange(p, p + head.len())[1]);
        lemma_mask_bytes(m);
        assert(frame_mask(b, p) == m);
        lemma_delta_mask(prev, cur, first, 14);
        assert forall|j: int| 0 <= j < 14 implies mask_bit(m, j) == reg_changed(
            prev,
            cur,
            first,
            j,
        ) by {
            assert(mask_bit(delta_mask(prev, cur, first, 14), j) == (j < 14 && reg_changed(
                prev,
                cur,
                first,
                j,
            )));
        }
        lemma_decode_registers(b, p + 2, m, prev, cur, first, prev, 0);
        lemma_decode_block(b, p + fb.len(), fs.drop_first(), cur, false);
        let rs = fs.drop_first().map_values(|f: YmFrame| frame_registers(f));
        assert(seq![cur] + rs =~= fs.map_values(|f: YmFrame| frame_registers(f)));
    }
}

fn mixer_value(f: &YmFrame) -> (m: u8)
    ensures
        m == mixer_register(*f),
{
    let a: u8 = if f.tone_enable_a.unwrap_or(true) { 0 } else { 1 };
    let b: u8 = if f.tone_enable_b.unwrap_or(true) { 0 } else { 2 };
    let c: u8 = if f.tone_enable_c.unwrap_or(true) { 0 } else { 4 };
    let d: u8 = if f.noise_enable_a.unwrap_or(false) { 0 } else { 8 };
    let e: u8 = if f.noise_enable_b.unwrap_or(false) { 0 } else { 16 };
    let g: u8 = if f.noise_enable_c.unwrap_or(false) { 0 } else { 32 };
    a + b + c + d + e + g
}

fn frame_register_values(f: &YmFrame) -> (r: Vec<u8>)
    ensures
        r@ == frame_registers(*f),
{
    let ta = f.tone_a.unwrap_or(0);
    let tb = f.tone_b.unwrap_or(0);
    let tc = f.tone_c.unwrap_or(0);
    let ep = f.envelope_period.unwrap_or(0);
    let mixer = mixer_value(f);
    let r = vec![
        (ta & 0xFF) as u8,
        ((ta >> 8u16) & 0x0F) as u8,
        (tb & 0xFF) as u8,
        ((tb >> 8u16) & 0x0F) as u8,
        (tc & 0xFF) as u8,
        ((tc >> 8u16) & 0x0F) as u8,
        f.noise_period.unwrap_or(0) & 0x1F,
        mixer,
        f.volume_a.unwrap_or(0) & 0x1F,
        f.volume_b.unwrap_or(0) & 0x1F,
        f.volume_c.unwrap_or(0) & 0x1F,
        (ep & 0xFF) as u8,
        ((ep >> 8u16) & 0xFF) as u8,
        f.envelope_shape.unwrap_or(0) & 0x0F,
    ];
    assert(r@ =~= frame_registers(*f));
    r
}

fn encode_frame(prev: &Vec<u8>, cur: &Vec<u8>, all: bool) -> (r: Vec<u8>)
    requires
        prev@.len() == 14,
        cur@.len() == 14,
    ensures
        r@ == frame_bytes(prev@, cur@, all),
{
    let mut mask: u16 = 0;
    let mut payload: Vec<u8> = Vec::new();
    let mut reg: u16 = 0;
    while reg < 14
        invariant
            prev@.len() == 14,
            cur@.len() == 14,
            reg <= 14,
            mask == delta_mask(prev@, cur@, all, reg as nat),
            payload@ + delta_payload(prev@, cur@, all, reg as int) == delta_payload(
                prev@,
                cur@,
                all,
                0,
            ),
        decreases 14 - reg,
    {
        let ri = reg as usize;
        if all || cur[ri] != prev[ri] {
            mask = mask | (1u16 << reg);
            proof {
                assert(payload@.push(cur@[reg as int]) + delta_payload(prev@, cur@, all, reg + 1)
                    =~= payload@ + delta_payload(prev@, cur@, all, reg as int));
            }
            payload.push(cur[ri]);
        } else {
            assert(delta_payload(prev@, cur@, all, reg as int) =~= delta_payload(prev@, cur@, all, reg + 1));
        }
        reg = reg + 1;
    }
    assert(payload@ + delta_payload(prev@, cur@, all, 14) =~= payload@);
    let mut out: Vec<u8> = Vec::new();
    out.push((mask & 0xFF) as u8);
    out.push(((mask >> 8u16) & 0xFF) as u8);
    out.append(&mut payload);
    assert(out@ =~= frame_bytes(prev@, cur@, all));
    out
}

impl DeltaCompiler {
    /// Delta-encodes one pattern of frames (see [`pattern_bytes`]).
    fn serialize_ym_block(frames: &[YmFrame]) -> (data: Vec<u8>)
        ensures
            data@ == pattern_bytes(frames@),
    {
        let mut data: Vec<u8> = Vec::new();
        let mut registers: Vec<u8> = vec![0u8, 0, 0, 0, 0, 0, 0, 0, 0, 0, 0, 0, 0, 0];
        assert(registers@ =~= zero_registers());
        assert(frames@.skip(0) =~= frames@);
        let mut idx: usize = 0;
        while idx < frames.len()
            invariant
                idx <= frames@.len(),
                registers@.len() == 14,
                idx == 0 ==> registers@ == zero_registers(),
                data@ + block_bytes(frames@.skip(idx as int), registers@, idx == 0) == pattern_bytes(
                    frames@,
                ),
            decreases frames@.len() - idx,
        {
            let frame = frames[idx];
            let new_registers = frame_register_values(&frame);
            let mut encoded = encode_frame(&registers, &new_registers, idx == 0);
            proof {
                let s = frames@.skip(idx as int);
                assert(s[0] == frame);
                assert(s.drop_first() =~= frames@.skip(idx + 1));
                assert(data@ + encoded@ + block_bytes(frames@.skip(idx + 1), new_registers@, false)
                    =~= data@ + block_bytes(s, registers@, idx == 0));
            }
            data.append(&mut encoded);
            registers = new_registers;
            idx = idx + 1;
        }
        assert(block_bytes(frames@.skip(idx as int), registers@, idx == 0) =~= Seq::<u8>::empty());
        assert(data@ + Seq::<u8>::empty() =~= data@);
        data
    }
}


/// The number of patterns of `ps` frames that `n` frames fill, the last one padded.
pub open spec fn block_count(n: nat, ps: nat) -> nat {
    if ps == 0 {
        0
    } else {
        ((n + ps - 1) as int / ps as int) as nat
    }
}

/// The frames padded with empty frames to a whole number of patterns.
pub open spec fn padded_frames(fs: Seq<YmFrame>, ps: nat) -> Seq<YmFrame> {
    fs + Seq::new((block_count(fs.len(), ps) * ps - fs.len()) as nat, |i: int| empty_ym_frame())
}

/// The encodings of the successive patterns of a song, in order.
pub open spec fn song_patterns(fs: Seq<YmFrame>, ps: nat) -> Seq<Seq<u8>> {
    Seq::new(
        block_count(fs.len(), ps),
        |k: int| pattern_bytes(padded_frames(fs, ps).subrange(k * ps, k * ps + ps)),
    )
}

/// Where `x` stands in `u` (meaningful when it stands there once).
pub open spec fn pattern_position(u: Seq<Seq<u8>>, x: Seq<u8>) -> int {
    choose|i: int| 0 <= i < u.len() && u[i] == x
}

/// The distinct patterns in order of first appearance, and for each pattern
/// of the song the index of its copy among them.
pub open spec fn dedup_patterns(blocks: Seq<Seq<u8>>) -> (Seq<Seq<u8>>, Seq<int>)
    decreases blocks.len(),
{
    if blocks.len() == 0 {
        (Seq::empty(), Seq::empty())
    } else {
        let prev = dedup_patterns(blocks.drop_last());
        let x = blocks.last();
        if prev.0.contains(x) {
            (prev.0, prev.1.push(pattern_position(prev.0, x)))
        } else {
            (prev.0.push(x), prev.1.push(prev.0.len() as int))
        }
    }
}

/// `x` as four little-endian bytes, taken modulo 2^32.
pub open spec fn le_bytes(x: int) -> Seq<u8> {
    seq![
        (x % 256) as u8,
        ((x / 256) % 256) as u8,
        ((x / 65536) % 256) as u8,
        ((x / 16777216) % 256) as u8,
    ]
}

/// The patterns laid end to end.
pub open spec fn concat_patterns(u: Seq<Seq<u8>>) -> Seq<u8>
    decreases u.len(),
{
    if u.len() == 0 {
        Seq::empty()
    } else {
        u[0] + concat_patterns(u.drop_first())
    }
}

/// The offset of each pattern from `base`, as a little-endian 32-bit word.
pub open spec fn offset_table(u: Seq<Seq<u8>>, base: int) -> Seq<u8>
    decreases u.len(),
{
    if u.len() == 0 {
        Seq::empty()
    } else {
        le_bytes(base) + offset_table(u.drop_first(), base + u[0].len())
    }
}

/// The sequence table: one byte per pattern of the song.
pub open spec fn table_bytes(t: Seq<int>) -> Seq<u8> {
    t.map_values(|i: int| i as u8)
}

/// The pattern a song loops back to, or 255 for none; a loop frame past the
/// end loops to the first pattern.
pub open spec fn loop_pattern_byte(loop_start: Option<usize>, ps: nat, seq_len: nat) -> u8 {
    match loop_start {
        Some(f) => if (f as int) / (ps as int) < seq_len {
            ((f as int) / (ps as int)) as u8
        } else {
            0
        },
        None => 255,
    }
}

/// The YSG encoding of a song in patterns of `ps` frames: `None` when it needs
/// more than 255 patterns, nothing at all for a song without frames.
pub open spec fn song_ysg(s: YmSequenceView, ps: nat) -> Option<Seq<u8>> {
    let n = s.frames.len();
    if n == 0 {
        Some(Seq::empty())
    } else if block_count(n, ps) > 255 {
        None
    } else {
        let d = dedup_patterns(song_patterns(s.frames, ps));
        let u = d.0;
        let t = d.1;
        Some(
            seq![(ps % 256) as u8, u.len() as u8, t.len() as u8, loop_pattern_byte(s.loop_start, ps, t.len())]
                + le_bytes(s.timing.frame_rate.hz() as int) + le_bytes(
                s.timing.master_clock_hz as int,
            ) + table_bytes(t) + offset_table(u, 0) + concat_patterns(u),
        )
    }
}

pub open spec fn no_duplicates(u: Seq<Seq<u8>>) -> bool {
    forall|i: int, j: int| 0 <= i < j < u.len() ==> u[i] != u[j]
}

proof fn lemma_position_unique(u: Seq<Seq<u8>>, x: Seq<u8>, p: int)
    requires
        no_duplicates(u),
        0 <= p < u.len(),
        u[p] == x,
    ensures
        pattern_position(u, x) == p,
{
    let i = pattern_position(u, x);
    assert(0 <= i < u.len() && u[i] == x);
    if i < p {
        assert(u[i] != u[p]);
    } else if p < i {
        assert(u[p] != u[i]);
    }
}

/// What deduplication keeps: every pattern of the song has a copy at its
/// index, the kept patterns are distinct and each comes from the song.
pub(crate) proof fn lemma_dedup(blocks: Seq<Seq<u8>>)
    ensures
        dedup_patterns(blocks).1.len() == blocks.len(),
        dedup_patterns(blocks).0.len() <= blocks.len(),
        no_duplicates(dedup_patterns(blocks).0),
        forall|k: int|
            0 <= k < blocks.len() ==> 0 <= #[trigger] dedup_patterns(blocks).1[k] < dedup_patterns(
                blocks,
            ).0.len() && dedup_patterns(blocks).0[dedup_patterns(blocks).1[k]] == blocks[k],
        forall|j: int|
            0 <= j < dedup_patterns(blocks).0.len() ==> exists|k: int|
                0 <= k < blocks.len() && #[trigger] dedup_patterns(blocks).0[j] == blocks[k],
    decreases blocks.len(),
{
    if blocks.len() > 0 {
        let pre = blocks.drop_last();
        lemma_dedup(pre);
        let prev = dedup_patterns(pre);
        let x = blocks.last();
        let d = dedup_patterns(blocks);
        if prev.0.contains(x) {
            let p = choose|i: int| 0 <= i < prev.0.len() && prev.0[i] == x;
            lemma_position_unique(prev.0, x, p);
            assert forall|k: int| 0 <= k < blocks.len() implies 0 <= #[trigger] d.1[k] < d.0.len()
                && d.0[d.1[k]] == blocks[k] by {
                if k < pre.len() {
                    assert(pre[k] == blocks[k]);
                }
            }
            assert forall|j: int| 0 <= j < d.0.len() implies exists|k: int|
                0 <= k < blocks.len() && #[trigger] d.0[j] == blocks[k] by {
                let k = choose|k: int| 0 <= k < pre.len() && prev.0[j] == pre[k];
                assert(blocks[k] == pre[k]);
            }
        } else {
            assert forall|k: int| 0 <= k < blocks.len() implies 0 <= #[trigger] d.1[k] < d.0.len()
                && d.0[d.1[k]] == blocks[k] by {
                if k < pre.len() {
                    assert(pre[k] == blocks[k]);
                }
            }
            assert forall|j: int| 0 <= j < d.0.len() implies exists|k: int|
                0 <= k < blocks.len() && #[trigger] d.0[j] == blocks[k] by {
                if j < prev.0.len() {
                    let k = choose|k: int| 0 <= k < pre.len() && prev.0[j] == pre[k];
                    assert(blocks[k] == pre[k]);
                } else {
                    assert(d.0[j] == blocks[blocks.len() - 1]);
                }
            }
            assert forall|i: int, j: int| 0 <= i < j < d.0.len() implies d.0[i] != d.0[j] by {
                if j == prev.0.len() {
                    assert(prev.0.contains(prev.0[i]));
                }
            }
        }
    }
}


proof fn lemma_song_too_long(s: YmSequenceView, ps: nat)
    requires
        s.frames.len() > 0,
        block_count(s.frames.len(), ps) > 255,
    ensures
        song_ysg(s, ps) is None,
{
}

pub(crate) proof fn lemma_padded_len(fs: Seq<YmFrame>, ps: nat, k: int)
    requires
        ps > 0,
        fs.len() > 0,
        0 <= k < block_count(fs.len(), ps),
    ensures
        padded_frames(fs, ps).len() == block_count(fs.len(), ps) * ps,
        k * ps + ps <= padded_frames(fs, ps).len(),
        k * ps >= 0,
{
    lemma_block_count(fs.len(), ps, k);
    assert((k + 1) * ps == k * ps + ps) by (nonlinear_arith);
    assert(k * ps >= 0) by (nonlinear_arith)
        requires
            k >= 0,
    ;
}

pub(crate) proof fn lemma_block_count(n: nat, ps: nat, k: int)
    requires
        ps > 0,
        n > 0,
        k >= 0,
    ensures
        block_count(n, ps) >= 1,
        block_count(n, ps) * ps >= n,
        (block_count(n, ps) - 1) * ps < n,
        (k * ps < n) == (k < block_count(n, ps)),
        k < block_count(n, ps) ==> (k + 1) * ps <= block_count(n, ps) * ps,
        k * ps < n && n - k * ps <= ps ==> k + 1 == block_count(n, ps),
{
    let c = block_count(n, ps) as int;
    let m = (n + ps - 1) as int;
    assert(c == m / (ps as int));
    assert(c * ps <= m && m < c * ps + ps) by (nonlinear_arith)
        requires
            c == m / (ps as int),
            ps > 0,
            m >= 0,
    ;
    assert(c >= 1 && c * ps >= n && (c - 1) * ps < n) by (nonlinear_arith)
        requires
            c * ps <= m,
            m < c * ps + ps,
            m == n + ps - 1,
            n > 0,
            ps > 0,
    ;
    assert((k * ps < n) == (k < c)) by (nonlinear_arith)
        requires
            c * ps >= n,
            (c - 1) * ps < n,
            ps > 0,
            k >= 0,
    ;
    assert(k < c ==> (k + 1) * ps <= c * ps) by (nonlinear_arith)
        requires
            ps > 0,
    ;
    assert(k * ps < n && n - k * ps <= ps ==> k + 1 == c) by (nonlinear_arith)
        requires
            c * ps >= n,
            (c - 1) * ps < n,
            ps > 0,
            k >= 0,
    ;
}

fn bytes_equal(a: &Vec<u8>, b: &Vec<u8>) -> (r: bool)
    ensures
        r == (a@ == b@),
{
    if a.len() != b.len() {
        return false;
    }
    let mut i: usize = 0;
    while i < a.len()
        invariant
            a@.len() == b@.len(),
            i <= a@.len(),
            forall|j: int| 0 <= j < i ==> a@[j] == b@[j],
        decreases a@.len() - i,
    {
        if a[i] != b[i] {
            return false;
        }
        i = i + 1;
    }
    assert(a@ =~= b@);
    true
}

fn find_pattern(unique: &Vec<Vec<u8>>, x: &Vec<u8>, Ghost(gu): Ghost<Seq<Seq<u8>>>) -> (r: Option<
    usize,
>)
    requires
        unique@.len() == gu.len(),
        forall|j: int| 0 <= j < gu.len() ==> #[trigger] unique@[j]@ == gu[j],
    ensures
        r matches Some(p) ==> p < gu.len() && gu[p as int] == x@,
        r is None ==> !gu.contains(x@),
{
    let mut j: usize = 0;
    while j < unique.len()
        invariant
            unique@.len() == gu.len(),
            forall|i: int| 0 <= i < gu.len() ==> #[trigger] unique@[i]@ == gu[i],
            j <= gu.len(),
            forall|i: int| 0 <= i < j ==> gu[i] != x@,
        decreases gu.len() - j,
    {
        if bytes_equal(&unique[j], x) {
            assert(unique@[j as int]@ == gu[j as int]);
            return Some(j);
        }
        assert(unique@[j as int]@ == gu[j as int]);
        j = j + 1;
    }
    assert forall|i: int| 0 <= i < gu.len() implies gu[i] != x@ by {}
    None
}

fn push_le(out: &mut Vec<u8>, x: u64)
    ensures
        final(out)@ == old(out)@ + le_bytes(x as int),
{
    out.push((x % 256) as u8);
    out.push(((x / 256) % 256) as u8);
    out.push(((x / 65536) % 256) as u8);
    out.push(((x / 16777216) % 256) as u8);
    assert(final(out)@ =~= old(out)@ + le_bytes(x as int));
}

fn push_bytes(out: &mut Vec<u8>, src: &Vec<u8>)
    ensures
        final(out)@ == old(out)@ + src@,
{
    let mut i: usize = 0;
    while i < src.len()
        invariant
            i <= src@.len(),
            out@ == old(out)@ + src@.take(i as int),
        decreases src@.len() - i,
    {
        out.push(src[i]);
        assert(src@.take(i + 1) =~= src@.take(i as int).push(src@[i as int]));
        i = i + 1;
    }
    assert(src@.take(i as int) =~= src@);
}

/// The frames of one pattern: those from `idx` on, padded with empty frames.
fn pattern_frames(frames: &Vec<YmFrame>, idx: usize, ps: usize) -> (r: Vec<YmFrame>)
    requires
        ps > 0,
        idx < frames@.len(),
        idx + ps <= block_count(frames@.len(), ps as nat) * ps,
    ensures
        r@ == padded_frames(frames@, ps as nat).subrange(idx as int, idx + ps),
{
    let total = frames.len();
    let end = if total - idx > ps {
        idx + ps
    } else {
        total
    };
    let ghost padded = padded_frames(frames@, ps as nat);
    let mut block: Vec<YmFrame> = Vec::new();
    let mut i: usize = idx;
    while i < end
        invariant
            idx <= i <= end,
            end <= total,
            end <= idx + ps,
            total == frames@.len(),
            block@ == frames@.subrange(idx as int, i as int),
        decreases end - i,
    {
        block.push(frames[i]);
        assert(frames@.subrange(idx as int, i + 1) =~= frames@.subrange(idx as int, i as int).push(
            frames@[i as int],
        ));
        i = i + 1;
    }
    while block.len() < ps
        invariant
            block@.len() <= ps,
            block@.len() >= end - idx,
            end <= total,
            idx <= end,
            end == total || end == idx + ps,
            total == frames@.len(),
            forall|j: int| 0 <= j < end - idx ==> block@[j] == frames@[idx + j],
            forall|j: int| end - idx <= j < block@.len() ==> block@[j] == crate::sequence::empty_ym_frame(),
        decreases ps - block@.len(),
    {
        let empty = YmFrame::default();
        block.push(empty);
    }
    assert(block@ =~= padded.subrange(idx as int, idx + ps)) by {
        assert forall|j: int| 0 <= j < ps implies block@[j] == padded.subrange(idx as int, idx + ps)[j] by {
            if idx + j < total {
                assert(j < end - idx);
            }
        }
    }
    block
}

impl DeltaCompiler {
    /// Compiles a song into a YSG payload in patterns of `pattern_size` frames
    /// (see [`song_ysg`]); `None` when the song needs more than 255 patterns.
    pub fn compile_song_with_size(&self, sequence: &YmSequence, pattern_size: usize) -> (r: Option<
        Vec<u8>,
    >)
        requires
            pattern_size > 0 || sequence@.frames.len() == 0,
        ensures
            match song_ysg(sequence@, pattern_size as nat) {
                Some(b) => r matches Some(v) && v@ == b,
                None => r is None,
            },
    {
        let ps = pattern_size;
        let frames = &sequence.frames;
        let total = frames.len();
        if total == 0 {
            return Some(Vec::new());
        }
        let ghost blocks = song_patterns(frames@, ps as nat);
        let ghost nb = block_count(total as nat, ps as nat);
        proof {
            lemma_block_count(total as nat, ps as nat, 0);
        }
        let mut unique: Vec<Vec<u8>> = Vec::new();
        let ghost mut gu: Seq<Seq<u8>> = Seq::empty();
        let mut table: Vec<u8> = Vec::new();
        let mut idx: usize = 0;
        let mut k: usize = 0;
        let mut more = true;
        assert(blocks.take(0) =~= Seq::<Seq<u8>>::empty());
        while more
            invariant
                frames == &sequence.frames,
                total == frames@.len(),
                total > 0,
                ps == pattern_size,
                ps > 0,
                blocks == song_patterns(frames@, ps as nat),
                nb == block_count(total as nat, ps as nat),
                blocks.len() == nb,
                more ==> idx < total && k < nb,
                !more ==> k == nb,
                more ==> idx == k * ps,
                k <= nb,
                k <= 255,
                gu == dedup_patterns(blocks.take(k as int)).0,
                table@ == table_bytes(dedup_patterns(blocks.take(k as int)).1),
                unique@.len() == gu.len(),
                forall|j: int| 0 <= j < gu.len() ==> #[trigger] unique@[j]@ == gu[j],
            decreases nb - k,
        {
            proof {
                lemma_block_count(total as nat, ps as nat, k as int);
            }
            assert((k + 1) * ps == k * ps + ps) by (nonlinear_arith);
            if k == 255 {
                assert(block_count(sequence@.frames.len(), ps as nat) > 255);
                proof {
                    lemma_song_too_long(sequence@, ps as nat);
                }
                return None;
            }
            let block = pattern_frames(frames, idx, ps);
            let encoded = DeltaCompiler::serialize_ym_block(block.as_slice());
            proof {
                lemma_dedup(blocks.take(k as int));
                assert(encoded@ == blocks[k as int]);
                assert(blocks.take(k + 1).drop_last() =~= blocks.take(k as int));
                assert(blocks.take(k + 1).last() == blocks[k as int]);
            }
            let ghost t0 = dedup_patterns(blocks.take(k as int)).1;
            match find_pattern(&unique, &encoded, Ghost(gu)) {
                Some(p) => {
                    proof {
                        lemma_position_unique(gu, encoded@, p as int);
                        assert(table_bytes(t0.push(p as int)) =~= table@.push(p as u8));
                    }
                    table.push(p as u8);
                },
                None => {
                    let n_unique = unique.len();
                    proof {
                        lemma_dedup(blocks.take(k as int));
                        assert(table_bytes(t0.push(n_unique as int)) =~= table@.push(n_unique as u8));
                    }
                    table.push(n_unique as u8);
                    unique.push(encoded);
                    proof {
                        gu = gu.push(encoded@);
                    }
                },
            }
            k = k + 1;
            if total - idx <= ps {
                more = false;
            } else {
                idx = idx + ps;
            }
        }
        proof {
            assert(blocks.take(k as int) =~= blocks);
            lemma_dedup(blocks);
        }
        let nu = unique.len();
        let sl = table.len();
        let loop_byte: u8 = match sequence.loop_start {
            Some(f) => {
                let p = f / ps;
                if p < sl {
                    p as u8
                } else {
                    0
                }
            },
            None => 255,
        };
        let mut out: Vec<u8> = Vec::new();
        out.push((ps % 256) as u8);
        out.push(nu as u8);
        out.push(sl as u8);
        out.push(loop_byte);
        let hz = sequence.timing.frame_rate.hz_value();
        push_le(&mut out, hz as u64);
        push_le(&mut out, sequence.timing.master_clock_hz as u64);
        push_bytes(&mut out, &table);
        let mut offsets: Vec<u8> = Vec::new();
        let mut data: Vec<u8> = Vec::new();
        let mut j: usize = 0;
        assert(gu.skip(0) =~= gu);
        while j < nu
            invariant
                nu == unique@.len(),
                unique@.len() == gu.len(),
                forall|i: int| 0 <= i < gu.len() ==> #[trigger] unique@[i]@ == gu[i],
                j <= nu,
                offsets@ + offset_table(gu.skip(j as int), data@.len() as int) == offset_table(gu, 0),
                data@ + concat_patterns(gu.skip(j as int)) == concat_patterns(gu),
            decreases nu - j,
        {
            let ghost rest = gu.skip(j as int);
            assert(rest[0] == gu[j as int]);
            assert(rest.drop_first() =~= gu.skip(j + 1));
            let ghost old_offsets = offsets@;
            let ghost old_data = data@;
            push_le(&mut offsets, data.len() as u64);
            push_bytes(&mut data, &unique[j]);
            assert(unique@[j as int]@ == gu[j as int]);
            assert(offsets@ + offset_table(gu.skip(j + 1), data@.len() as int) =~= old_offsets
                + offset_table(rest, old_data.len() as int));
            assert(data@ + concat_patterns(gu.skip(j + 1)) =~= old_data + concat_patterns(rest));
            j = j + 1;
        }
        assert(gu.skip(j as int) =~= Seq::<Seq<u8>>::empty());
        assert(offsets@ =~= offset_table(gu, 0));
        assert(data@ =~= concat_patterns(gu));
        out.append(&mut offsets);
        out.append(&mut data);
        Some(out)
    }
}


/// The pattern sizes that song compilation tries, in order.
pub open spec fn candidate_sizes() -> Seq<nat> {
    seq![16, 32, 48, 64, 80, 96, 128, 160, 192, 255]
}

/// The smallest encoding among the first `k` candidate sizes, the earliest on a
/// tie, with its size; `(None, 64)` when none of them fits.
pub open spec fn size_search(s: YmSequenceView, k: nat) -> (Option<Seq<u8>>, nat)
    decreases k,
{
    if k == 0 {
        (None, 64)
    } else {
        let prev = size_search(s, (k - 1) as nat);
        let size = candidate_sizes()[k - 1];
        match song_ysg(s, size) {
            Some(d) => if prev.0 is None || d.len() < prev.0->0.len() {
                (Some(d), size)
            } else {
                prev
            },
            None => prev,
        }
    }
}

/// The encoding that song compilation picks, with its pattern size: the
/// smallest over all candidate sizes, or else the encoding in patterns of 64
/// frames, or else nothing.
pub open spec fn best_song(s: YmSequenceView) -> (Seq<u8>, nat) {
    let r = size_search(s, 10);
    match r.0 {
        Some(d) => (d, r.1),
        None => (
            match song_ysg(s, 64) {
                Some(d) => d,
                None => Seq::empty(),
            },
            64,
        ),
    }
}

/// A compiled YSG payload and the pattern size it was compiled with.
pub struct CompiledSong {
    pub bytes: Vec<u8>,
    pub pattern_size: usize,
}

impl DeltaCompiler {
    /// Compiles a song with every candidate pattern size and keeps the smallest
    /// payload (see [`best_song`]), reporting the size it chose.
    pub fn compile_song_report(&self, sequence: &YmSequence) -> (r: CompiledSong)
        ensures
            r.bytes@ == best_song(sequence@).0,
            r.pattern_size == best_song(sequence@).1,
    {
        let sizes: [usize; 10] = [16, 32, 48, 64, 80, 96, 128, 160, 192, 255];
        let mut best_data: Option<Vec<u8>> = None;
        let mut best_size: usize = 64;
        let mut i: usize = 0;
        while i < 10
            invariant
                i <= 10,
                sizes@ == seq![16usize, 32, 48, 64, 80, 96, 128, 160, 192, 255],
                best_size == size_search(sequence@, i as nat).1,
                match size_search(sequence@, i as nat).0 {
                    Some(d) => best_data matches Some(v) && v@ == d,
                    None => best_data is None,
                },
            decreases 10 - i,
        {
            let size = sizes[i];
            assert(size as nat == candidate_sizes()[i as int]);
            match self.compile_song_with_size(sequence, size) {
                Some(data) => {
                    let better = match &best_data {
                        None => true,
                        Some(b) => data.len() < b.len(),
                    };
                    if better {
                        best_data = Some(data);
                        best_size = size;
                    }
                },
                None => {},
            }
            i = i + 1;
        }
        match best_data {
            Some(d) => CompiledSong { bytes: d, pattern_size: best_size },
            None => {
                let fallback = match self.compile_song_with_size(sequence, 64) {
                    Some(d) => d,
                    None => Vec::new(),
                };
                CompiledSong { bytes: fallback, pattern_size: 64 }
            },
        }
    }

    /// Compiles a song into the smallest YSG payload over the candidate
    /// pattern sizes (see [`best_song`]).
    pub fn compile_song(&self, sequence: &YmSequence) -> (r: Vec<u8>)
        ensures
            r@ == best_song(sequence@).0,
    {
        self.compile_song_report(sequence).bytes
    }
}


fn push_sfx_record(
    out: &mut Vec<u8>,
    tone: u16,
    volume: u8,
    tone_enable: bool,
    noise_enable: bool,
    noise: u8,
    duration: Option<u8>,
)
    ensures
        final(out)@ == old(out)@ + sfx_record(
            SfxState { tone, volume, tone_enable, noise_enable, noise },
            duration,
        ),
{
    let noise_bits = noise & 0x1Fu8;
    assert(noise_bits <= 31) by (bit_vector)
        requires
            noise_bits == noise & 0x1Fu8,
    ;
    let control: u8 = (if tone_enable { 1u8 } else { 0u8 }) + (if noise_enable {
        2u8
    } else {
        0u8
    }) + noise_bits * 8;
    out.push((tone & 0xFF) as u8);
    out.push(((tone >> 8u16) & 0x0F) as u8);
    out.push(volume & 0x0F);
    out.push(control);
    out.push(duration.unwrap_or(1));
    assert(final(out)@ =~= old(out)@ + sfx_record(
        SfxState { tone, volume, tone_enable, noise_enable, noise },
        duration,
    ));
}

impl DeltaCompiler {
    /// Compiles a sound effect into 5-byte YFX records (see [`sfx_bytes`]).
    pub fn compile_sfx(&self, sequence: &SfxSequence) -> (r: Vec<u8>)
        ensures
            r@ == sfx_bytes(sequence.frames@),
    {
        let frames = &sequence.frames;
        let mut compiled_bytes: Vec<u8> = Vec::new();
        let mut active_tone: u16 = 0;
        let mut active_volume: u8 = 0;
        let mut active_tone_enable = true;
        let mut active_noise_enable = false;
        let mut active_noise_period: u8 = 0;
        let mut i: usize = 0;
        assert(frames@.take(0) =~= Seq::<crate::sequence::SfxFrame>::empty());
        while i < frames.len()
            invariant
                i <= frames@.len(),
                compiled_bytes@ == sfx_bytes(frames@.take(i as int)),
                sfx_state_after(frames@.take(i as int)) == (SfxState {
                    tone: active_tone,
                    volume: active_volume,
                    tone_enable: active_tone_enable,
                    noise_enable: active_noise_enable,
                    noise: active_noise_period,
                }),
            decreases frames@.len() - i,
        {
            let frame = frames[i];
            if let Some(t) = frame.tone {
                active_tone = t;
            }
            if let Some(v) = frame.volume {
                active_volume = v;
            }
            if let Some(te) = frame.tone_enable {
                active_tone_enable = te;
            }
            if let Some(ne) = frame.noise_enable {
                active_noise_enable = ne;
            }
            if let Some(n) = frame.noise {
                active_noise_period = n;
            }
            proof {
                let st = SfxState {
                    tone: active_tone,
                    volume: active_volume,
                    tone_enable: active_tone_enable,
                    noise_enable: active_noise_enable,
                    noise: active_noise_period,
                };
                assert(frames@.take(i + 1).drop_last() =~= frames@.take(i as int));
                assert(frames@.take(i + 1).last() == frame);
                assert(sfx_state_after(frames@.take(i + 1)) == st);
            }
            push_sfx_record(
                &mut compiled_bytes,
                active_tone,
                active_volume,
                active_tone_enable,
                active_noise_enable,
                active_noise_period,
                frame.duration,
            );
            i = i + 1;
            assert(compiled_bytes@ =~= sfx_bytes(frames@.take(i as int)));
        }
        assert(frames@.take(i as int) =~= frames@);
        compiled_bytes
    }
}

} // verus!
