use vstd::prelude::*;
use crate::delta::{
    best_song, block_bytes, block_count, candidate_sizes, concat_patterns, dedup_patterns, delta_mask,
    delta_payload, frame_registers, le_bytes, lemma_block_count, lemma_decode_block, lemma_dedup,
    lemma_padded_len, loop_pattern_byte, no_duplicates, normalized_frame, offset_table,
    padded_frames, pattern_bytes, size_search, song_patterns, song_ysg, table_bytes,
};
use crate::error::YmError;
use crate::sequence::{SfxFrame, YmFrame, YmSequenceView};
use crate::yfx::{
    apply_sfx_frame, sfx_bytes, sfx_record, sfx_state_after, yfx_frame, yfx_frames, SfxState,
};
use crate::ysg::{
    frame_from_registers, le_u32, offset_table_start, parse_ysg, pattern_data_start,
    ysg_entry_frames, ysg_frames, zero_registers, YsgContent,
};

verus! {

proof fn lemma_tone_bytes(t: u16)
    by (bit_vector)
    ensures
        (((t & 0xFF) as u8) as u16) | (((((t >> 8u16) & 0x0F) as u8) as u16) << 8u16) == t & 0x0FFF,
        (((t & 0xFF) as u8) as u16) | (((((t >> 8u16) & 0xFF) as u8) as u16) << 8u16) == t,
{
}

proof fn lemma_mixer_bits(a: bool, b: bool, c: bool, d: bool, e: bool, g: bool)
    by (bit_vector)
    ensures
        ({
            let m = ((if a { 0u8 } else { 1u8 }) + (if b { 0u8 } else { 2u8 }) + (if c {
                0u8
            } else {
                4u8
            }) + (if d { 0u8 } else { 8u8 }) + (if e { 0u8 } else { 16u8 }) + (if g {
                0u8
            } else {
                32u8
            })) as u8;
            &&& (m & 0x01u8 == 0) == a
            &&& (m & 0x02u8 == 0) == b
            &&& (m & 0x04u8 == 0) == c
            &&& (m & 0x08u8 == 0) == d
            &&& (m & 0x10u8 == 0) == e
            &&& (m & 0x20u8 == 0) == g
        }),
{
}

/// The registers of a frame describe its normalized form.
pub proof fn lemma_registers_round_trip(f: YmFrame)
    ensures
        frame_from_registers(frame_registers(f)) == normalized_frame(f),
{
    lemma_tone_bytes(f.tone_a.unwrap_or(0));
    lemma_tone_bytes(f.tone_b.unwrap_or(0));
    lemma_tone_bytes(f.tone_c.unwrap_or(0));
    lemma_tone_bytes(f.envelope_period.unwrap_or(0));
    lemma_mixer_bits(
        f.tone_enable_a.unwrap_or(true),
        f.tone_enable_b.unwrap_or(true),
        f.tone_enable_c.unwrap_or(true),
        f.noise_enable_a.unwrap_or(false),
        f.noise_enable_b.unwrap_or(false),
        f.noise_enable_c.unwrap_or(false),
    );
}

proof fn lemma_le_round_trip(b: Seq<u8>, i: int, x: int)
    requires
        0 <= i,
        i + 4 <= b.len(),
        0 <= x < 0x1_0000_0000,
        b.subrange(i, i + 4) == le_bytes(x),
    ensures
        le_u32(b, i) == x,
{
    assert(b[i] == b.subrange(i, i + 4)[0]);
    assert(b[i + 1] == b.subrange(i, i + 4)[1]);
    assert(b[i + 2] == b.subrange(i, i + 4)[2]);
    assert(b[i + 3] == b.subrange(i, i + 4)[3]);
    let y = x as u32;
    assert((y % 256) + 256 * ((y / 256) % 256) + 65536 * ((y / 65536) % 256) + 16777216 * ((y
        / 16777216) % 256) == y) by (bit_vector);
}

proof fn lemma_concat_append(a: Seq<Seq<u8>>, b: Seq<Seq<u8>>)
    ensures
        concat_patterns(a + b) == concat_patterns(a) + concat_patterns(b),
    decreases a.len(),
{
    if a.len() == 0 {
        assert(a + b =~= b);
        assert(concat_patterns(a) + concat_patterns(b) =~= concat_patterns(b));
    } else {
        lemma_concat_append(a.drop_first(), b);
        assert((a + b).drop_first() =~= a.drop_first() + b);
        assert((a + b)[0] == a[0]);
        assert(concat_patterns(a + b) =~= a[0] + (concat_patterns(a.drop_first()) + concat_patterns(b)));
    }
}

/// Where pattern `j` starts in the pattern data.
pub open spec fn pattern_start(u: Seq<Seq<u8>>, j: int) -> int {
    concat_patterns(u.take(j)).len() as int
}

proof fn lemma_concat_locate(u: Seq<Seq<u8>>, j: int)
    requires
        0 <= j < u.len(),
    ensures
        pattern_start(u, j) + u[j].len() <= concat_patterns(u).len(),
        concat_patterns(u).subrange(pattern_start(u, j), pattern_start(u, j) + u[j].len()) == u[j],
{
    let a = u.take(j);
    let c = u.skip(j);
    assert(u =~= a + c);
    lemma_concat_append(a, c);
    assert(concat_patterns(c) == c[0] + concat_patterns(c.drop_first()));
    assert(c[0] == u[j]);
    let whole = concat_patterns(u);
    let p = concat_patterns(a).len() as int;
    assert(whole.subrange(p, p + u[j].len()) =~= u[j]) by {
        assert forall|i: int| 0 <= i < u[j].len() implies whole.subrange(p, p + u[j].len())[i]
            == u[j][i] by {
            assert(whole[p + i] == (concat_patterns(c))[i]);
        }
    }
}

proof fn lemma_offset_table(u: Seq<Seq<u8>>, base: int, j: int)
    requires
        0 <= j < u.len(),
    ensures
        offset_table(u, base).len() == 4 * u.len(),
        offset_table(u, base).subrange(4 * j, 4 * j + 4) == le_bytes(base + pattern_start(u, j)),
    decreases u.len(),
{
    let t = offset_table(u, base);
    let rest = offset_table(u.drop_first(), base + u[0].len());
    lemma_offset_len(u, base);
    if j == 0 {
        assert(u.take(0) =~= Seq::<Seq<u8>>::empty());
        assert(t.subrange(0, 4) =~= le_bytes(base));
    } else {
        lemma_offset_table(u.drop_first(), base + u[0].len(), j - 1);
        assert(t.subrange(4 * j, 4 * j + 4) =~= rest.subrange(4 * (j - 1), 4 * (j - 1) + 4));
        assert(u.take(j) =~= seq![u[0]] + u.drop_first().take(j - 1));
        lemma_concat_append(seq![u[0]], u.drop_first().take(j - 1));
        assert(concat_patterns(seq![u[0]]) =~= u[0]) by {
            let one = seq![u[0]];
            assert(one.drop_first() =~= Seq::<Seq<u8>>::empty());
            assert(one[0] == u[0]);
            assert(concat_patterns(one.drop_first()) =~= Seq::<u8>::empty());
            assert(concat_patterns(one) == one[0] + concat_patterns(one.drop_first()));
        }
    }
}

proof fn lemma_offset_len(u: Seq<Seq<u8>>, base: int)
    ensures
        offset_table(u, base).len() == 4 * u.len(),
    decreases u.len(),
{
    if u.len() > 0 {
        lemma_offset_len(u.drop_first(), base + u[0].len());
    }
}

proof fn lemma_payload_len(prev: Seq<u8>, cur: Seq<u8>, all: bool, r: int)
    requires
        0 <= r <= 14,
    ensures
        delta_payload(prev, cur, all, r).len() <= 14 - r,
    decreases 14 - r,
{
    if r < 14 {
        lemma_payload_len(prev, cur, all, r + 1);
    }
}

proof fn lemma_block_len(fs: Seq<YmFrame>, prev: Seq<u8>, first: bool)
    ensures
        block_bytes(fs, prev, first).len() <= 16 * fs.len(),
    decreases fs.len(),
{
    if fs.len() > 0 {
        lemma_payload_len(prev, frame_registers(fs[0]), first, 0);
        lemma_block_len(fs.drop_first(), frame_registers(fs[0]), false);
    }
}

proof fn lemma_concat_len(u: Seq<Seq<u8>>, bound: nat)
    requires
        forall|j: int| 0 <= j < u.len() ==> #[trigger] u[j].len() <= bound,
    ensures
        concat_patterns(u).len() <= bound * u.len(),
    decreases u.len(),
{
    if u.len() > 0 {
        lemma_concat_len(u.drop_first(), bound);
        assert(u[0].len() <= bound);
        assert(bound * u.len() == bound + bound * u.drop_first().len()) by (nonlinear_arith)
            requires
                u.drop_first().len() + 1 == u.len(),
        ;
    }
}


/// The loop point that comes back from a compiled song: the start of the
/// pattern that holds the loop frame, or of the first pattern when the loop
/// frame lies past the end.
pub open spec fn decoded_loop_start(loop_start: Option<usize>, ps: nat, patterns: nat) -> Option<
    usize,
> {
    match loop_start {
        Some(f) => Some((loop_pattern_byte(loop_start, ps, patterns) * ps) as usize),
        None => None,
    }
}

/// The pieces of the payload that a song compiles to.
#[verifier::rlimit(40)]
proof fn lemma_song_layout(s: YmSequenceView, ps: nat)
    requires
        1 <= ps <= 255,
        s.frames.len() > 0,
        block_count(s.frames.len(), ps) <= 255,
    ensures
        ({
            let nb = block_count(s.frames.len(), ps);
            let d = dedup_patterns(song_patterns(s.frames, ps));
            let u = d.0;
            let t = d.1;
            let b = song_ysg(s, ps)->0;
            let data = concat_patterns(u);
            &&& song_ysg(s, ps) is Some
            &&& t.len() == nb
            &&& u.len() <= nb
            &&& b.len() == 12 + nb + 4 * u.len() + data.len()
            &&& b[0] as nat == ps
            &&& b[1] as nat == u.len()
            &&& b[2] as nat == nb
            &&& b[3] == loop_pattern_byte(s.loop_start, ps, nb)
            &&& le_u32(b, 4) == s.timing.frame_rate.hz()
            &&& le_u32(b, 8) == s.timing.master_clock_hz
            &&& data.len() <= 16 * 255 * 255
            &&& forall|k: int| 0 <= k < nb ==> b[12 + k] as int == #[trigger] t[k]
            &&& forall|j: int|
                0 <= j < u.len() ==> b.subrange(12 + nb + 4 * j, 12 + nb + 4 * j + 4) == le_bytes(
                    #[trigger] pattern_start(u, j),
                )
            &&& b.subrange((12 + nb + 4 * u.len()) as int, b.len() as int) == data
        }),
{
    let n = s.frames.len();
    let nb = block_count(n, ps);
    let blocks = song_patterns(s.frames, ps);
    let d = dedup_patterns(blocks);
    let u = d.0;
    let t = d.1;
    lemma_dedup(blocks);
    let header = seq![(ps % 256) as u8, u.len() as u8, t.len() as u8, loop_pattern_byte(s.loop_start, ps, t.len())]
        + le_bytes(s.timing.frame_rate.hz() as int) + le_bytes(s.timing.master_clock_hz as int);
    let tb = table_bytes(t);
    let ot = offset_table(u, 0);
    let data = concat_patterns(u);
    let b = header + tb + ot + data;
    assert(song_ysg(s, ps) == Some(b));
    lemma_offset_len(u, 0);
    assert(header.len() == 12);
    assert(b[0] == header[0]);
    assert(b[1] == header[1]);
    assert(b[2] == header[2]);
    assert(b[3] == header[3]);
    assert(b.subrange(4, 8) =~= le_bytes(s.timing.frame_rate.hz() as int));
    assert(b.subrange(8, 12) =~= le_bytes(s.timing.master_clock_hz as int));
    lemma_le_round_trip(b, 4, s.timing.frame_rate.hz() as int);
    lemma_le_round_trip(b, 8, s.timing.master_clock_hz as int);
    assert forall|k: int| 0 <= k < nb implies b[12 + k] as int == #[trigger] t[k] by {
        assert(b[12 + k] == tb[k]);
        assert(0 <= t[k] < u.len());
    }
    assert forall|j: int| 0 <= j < u.len() implies b.subrange(
        12 + nb + 4 * j,
        12 + nb + 4 * j + 4,
    ) == le_bytes(#[trigger] pattern_start(u, j)) by {
        lemma_offset_table(u, 0, j);
        assert(b.subrange(12 + nb + 4 * j, 12 + nb + 4 * j + 4) =~= ot.subrange(4 * j, 4 * j + 4));
    }
    assert(b.subrange((12 + nb + 4 * u.len()) as int, b.len() as int) =~= data);
    assert forall|j: int| 0 <= j < u.len() implies #[trigger] u[j].len() <= 16 * 255 by {
        let k = choose|k: int| 0 <= k < blocks.len() && u[j] == blocks[k];
        let blk = padded_frames(s.frames, ps).subrange(k * ps, k * ps + ps);
        lemma_block_len(blk, zero_registers(), true);
        lemma_padded_len(s.frames, ps, k);
        assert(blk.len() == ps);
    }
    lemma_concat_len(u, 16 * 255);
    assert(16 * 255 * u.len() <= 16 * 255 * 255) by (nonlinear_arith)
        requires
            u.len() <= 255,
    ;
}

/// Sequence table entry `k` of a compiled song decodes to pattern `k`.
#[verifier::rlimit(40)]
proof fn lemma_song_entry(s: YmSequenceView, ps: nat, k: int)
    requires
        1 <= ps <= 255,
        s.frames.len() > 0,
        block_count(s.frames.len(), ps) <= 255,
        0 <= k < block_count(s.frames.len(), ps),
    ensures
        ysg_entry_frames(song_ysg(s, ps)->0, k) == Ok::<Seq<YmFrame>, YmError>(
            padded_frames(s.frames, ps).subrange(k * ps, k * ps + ps).map_values(
                |f: YmFrame| normalized_frame(f),
            ),
        ),
{
    let n = s.frames.len();
    let nb = block_count(n, ps);
    let blocks = song_patterns(s.frames, ps);
    let d = dedup_patterns(blocks);
    let u = d.0;
    let t = d.1;
    lemma_dedup(blocks);
    lemma_song_layout(s, ps);
    lemma_padded_len(s.frames, ps, k);
    let b = song_ysg(s, ps)->0;
    let data = concat_patterns(u);
    let idx = t[k];
    assert(b[12 + k] as int == t[k]);
    assert(0 <= idx < u.len());
    assert(offset_table_start(b) == 12 + nb);
    let ps_idx = pattern_start(u, idx);
    lemma_concat_locate(u, idx);
    assert(b.subrange(12 + nb + 4 * idx, 12 + nb + 4 * idx + 4) == le_bytes(pattern_start(u, idx)));
    lemma_le_round_trip(b, 12 + nb + 4 * idx, ps_idx);
    let start = pattern_data_start(b) + le_u32(b, offset_table_start(b) + 4 * idx);
    assert(start == 12 + nb + 4 * u.len() + ps_idx);
    let blk = padded_frames(s.frames, ps).subrange(k * ps, k * ps + ps);
    assert(u[idx] == blocks[k]);
    assert(blocks[k] == pattern_bytes(blk));
    let e = pattern_bytes(blk);
    let dstart = (12 + nb + 4 * u.len()) as int;
    assert(b.subrange(start, start + e.len()) =~= e) by {
        assert forall|i: int| 0 <= i < e.len() implies b.subrange(start, start + e.len())[i] == e[i] by {
            assert(b.subrange(dstart, b.len() as int)[ps_idx + i] == data[ps_idx + i]);
            assert(data.subrange(ps_idx, ps_idx + u[idx].len())[i] == u[idx][i]);
        }
    }
    assert(blk.len() == ps);
    lemma_decode_block(b, start, blk, zero_registers(), true);
    let regs = blk.map_values(|f: YmFrame| frame_registers(f));
    let lhs = regs.map_values(|r: Seq<u8>| frame_from_registers(r));
    let rhs = blk.map_values(|f: YmFrame| normalized_frame(f));
    assert forall|i: int| 0 <= i < blk.len() implies #[trigger] lhs[i] == rhs[i] by {
        lemma_registers_round_trip(blk[i]);
    }
    assert(lhs =~= rhs);
}

proof fn lemma_song_frames(s: YmSequenceView, ps: nat, k: nat)
    requires
        1 <= ps <= 255,
        s.frames.len() > 0,
        block_count(s.frames.len(), ps) <= 255,
        k <= block_count(s.frames.len(), ps),
    ensures
        ysg_frames(song_ysg(s, ps)->0, k) == Ok::<Seq<YmFrame>, YmError>(
            padded_frames(s.frames, ps).take((k * ps) as int).map_values(|f: YmFrame| normalized_frame(f)),
        ),
    decreases k,
{
    let padded = padded_frames(s.frames, ps);
    let n = s.frames.len();
    if k == 0 {
        assert(padded.take(0).map_values(|f: YmFrame| normalized_frame(f)) =~= Seq::<YmFrame>::empty());
    } else {
        lemma_song_frames(s, ps, (k - 1) as nat);
        lemma_song_entry(s, ps, k - 1);
        lemma_padded_len(s.frames, ps, k - 1);
        assert((k - 1) * ps + ps == k * ps) by (nonlinear_arith);
        assert(padded.len() == block_count(n, ps) * ps);
        let b = song_ysg(s, ps)->0;
        let prev = padded.take(((k - 1) * ps) as int).map_values(|f: YmFrame| normalized_frame(f));
        let cur = padded.subrange((k - 1) * ps, (k - 1) * ps + ps).map_values(
            |f: YmFrame| normalized_frame(f),
        );
        assert(ysg_frames(b, (k - 1) as nat) == Ok::<Seq<YmFrame>, YmError>(prev));
        assert(ysg_entry_frames(b, k - 1) == Ok::<Seq<YmFrame>, YmError>(cur));
        assert(ysg_frames(b, k) == Ok::<Seq<YmFrame>, YmError>(prev + cur));
        assert(padded.take((k - 1) * ps).map_values(|f: YmFrame| normalized_frame(f))
            + padded.subrange((k - 1) * ps, (k - 1) * ps + ps).map_values(
            |f: YmFrame| normalized_frame(f),
        ) =~= padded.take((k * ps) as int).map_values(|f: YmFrame| normalized_frame(f)));
    }
}

/// Decoding the YSG payload of a song compiled in patterns of 1 to 255 frames
/// gives back its frames, padded to whole patterns and normalized as the
/// registers hold them, its loop point rounded down to a pattern start, its
/// frame rate and its master clock.
pub proof fn law_song_round_trip(s: YmSequenceView, ps: nat)
    requires
        1 <= ps <= 255,
        s.frames.len() > 0,
        block_count(s.frames.len(), ps) <= 255,
    ensures
        song_ysg(s, ps) matches Some(b) && parse_ysg(b) == Ok::<YsgContent, YmError>(
            YsgContent {
                frames: padded_frames(s.frames, ps).map_values(|f: YmFrame| normalized_frame(f)),
                loop_start: decoded_loop_start(
                    s.loop_start,
                    ps,
                    block_count(s.frames.len(), ps),
                ),
                frame_rate_hz: s.timing.frame_rate.hz(),
                master_clock_hz: s.timing.master_clock_hz,
            },
        ),
{
    let n = s.frames.len();
    let nb = block_count(n, ps);
    lemma_song_layout(s, ps);
    lemma_song_frames(s, ps, nb);
    lemma_block_count(n, ps, 0);
    lemma_padded_len(s.frames, ps, 0);
    let b = song_ysg(s, ps)->0;
    let padded = padded_frames(s.frames, ps);
    assert(padded.take((nb * ps) as int) =~= padded);
    let lp = loop_pattern_byte(s.loop_start, ps, nb);
    if s.loop_start is Some {
        let f = s.loop_start->0;
        assert(lp != 255);
        assert(lp * ps <= 255 * 255) by (nonlinear_arith)
            requires
                lp <= 255,
                ps <= 255,
        ;
    }
}


/// The frame that silence decodes to: every register at zero, tones enabled
/// and noise disabled on all channels, one frame long.
pub open spec fn silent_decoded_frame() -> YmFrame {
    YmFrame {
        tone_a: Some(0),
        tone_b: Some(0),
        tone_c: Some(0),
        noise_period: Some(0),
        volume_a: Some(0),
        volume_b: Some(0),
        volume_c: Some(0),
        tone_enable_a: Some(true),
        tone_enable_b: Some(true),
        tone_enable_c: Some(true),
        noise_enable_a: Some(false),
        noise_enable_b: Some(false),
        noise_enable_c: Some(false),
        envelope_period: Some(0),
        envelope_shape: Some(0),
        duration: Some(1),
    }
}

/// A song of `n` frames compiled in patterns of `ps` frames decodes to
/// `ceil(n / ps) * ps` frames: its own `n` frames, normalized, and then, up to
/// the end of the last pattern, silent frames, whatever the song's last frame.
pub proof fn law_song_padding_is_silent(s: YmSequenceView, ps: nat)
    requires
        1 <= ps <= 255,
        s.frames.len() > 0,
        block_count(s.frames.len(), ps) <= 255,
    ensures
        song_ysg(s, ps) matches Some(b) && parse_ysg(b) matches Ok(c) && {
            let n = s.frames.len();
            &&& c.frames.len() == ((n + ps - 1) / ps as int) * ps
            &&& forall|k: int| 0 <= k < n ==> #[trigger] c.frames[k] == normalized_frame(s.frames[k])
            &&& forall|k: int| n <= k < c.frames.len() ==> #[trigger] c.frames[k] == silent_decoded_frame()
        },
{
    law_song_round_trip(s, ps);
    let n = s.frames.len();
    lemma_block_count(n, ps, 0);
    lemma_padded_len(s.frames, ps, 0);
    let padded = padded_frames(s.frames, ps);
    let c = parse_ysg(song_ysg(s, ps)->0)->Ok_0;
    assert forall|k: int| 0 <= k < n implies #[trigger] c.frames[k] == normalized_frame(s.frames[k]) by {
        assert(padded[k] == s.frames[k]);
    }
    assert forall|k: int| n <= k < c.frames.len() implies #[trigger] c.frames[k] == silent_decoded_frame() by {
        assert(padded[k] == crate::sequence::empty_ym_frame());
        assert(c.frames[k] == normalized_frame(padded[k]));
        assert(0u16 & 0x0FFFu16 == 0) by (bit_vector);
        assert(0u8 & 0x1Fu8 == 0) by (bit_vector);
        assert(0u8 & 0x0Fu8 == 0) by (bit_vector);
    }
}

proof fn lemma_size_search(s: YmSequenceView, k: nat)
    requires
        k <= 10,
    ensures
        size_search(s, k).0 matches Some(d) ==> song_ysg(s, size_search(s, k).1) == Some(d)
            && 16 <= size_search(s, k).1 <= 255,
        k == 10 && song_ysg(s, 255) is Some ==> size_search(s, k).0 is Some,
    decreases k,
{
    if k > 0 {
        lemma_size_search(s, (k - 1) as nat);
    }
}

/// Decoding the payload that song compilation picks gives back the song's
/// frames, padded to whole patterns of the size it chose (its first byte) and
/// normalized, its loop point rounded down to a pattern start, its frame rate
/// and clock: for every song of 1 to 65025 frames.
pub proof fn law_compiled_song_round_trip(s: YmSequenceView)
    requires
        s.frames.len() > 0,
        block_count(s.frames.len(), 255) <= 255,
    ensures
        ({
            let b = best_song(s).0;
            let ps = best_song(s).1;
            &&& 16 <= ps <= 255
            &&& b.len() > 0
            &&& b[0] as nat == ps
            &&& parse_ysg(b) == Ok::<YsgContent, YmError>(
                YsgContent {
                    frames: padded_frames(s.frames, ps).map_values(|f: YmFrame| normalized_frame(f)),
                    loop_start: decoded_loop_start(s.loop_start, ps, block_count(s.frames.len(), ps)),
                    frame_rate_hz: s.timing.frame_rate.hz(),
                    master_clock_hz: s.timing.master_clock_hz,
                },
            )
        }),
{
    lemma_song_layout(s, 255);
    lemma_size_search(s, 10);
    let ps = size_search(s, 10).1;
    if block_count(s.frames.len(), ps) > 255 {
        assert(song_ysg(s, ps) is None);
    }
    lemma_song_layout(s, ps);
    law_song_round_trip(s, ps);
}


/// The frame that comes back from the YFX record of a channel state: every
/// field set, the tone cut to 12 bits, the noise to 5, the volume to 4.
pub open spec fn resolved_sfx_frame(st: SfxState, duration: Option<u8>) -> SfxFrame {
    SfxFrame {
        tone_enable: Some(st.tone_enable),
        noise_enable: Some(st.noise_enable),
        tone: Some(st.tone & 0x0FFF),
        noise: Some(st.noise & 0x1F),
        volume: Some(st.volume & 0x0F),
        duration: Some(duration.unwrap_or(1)),
    }
}

proof fn lemma_control_bits(te: bool, ne: bool, n: u8)
    by (bit_vector)
    ensures
        ({
            let c = ((if te { 1u8 } else { 0u8 }) + (if ne { 2u8 } else { 0u8 }) + (n & 0x1Fu8)
                * 8) as u8;
            &&& (c & 0x01u8 != 0) == te
            &&& (c & 0x02u8 != 0) == ne
            &&& (c >> 3u8) & 0x1Fu8 == n & 0x1Fu8
        }),
{
}

proof fn lemma_record_decode(b: Seq<u8>, i: int, st: SfxState, d: Option<u8>)
    requires
        0 <= i,
        5 * i + 5 <= b.len(),
        b.subrange(5 * i, 5 * i + 5) == sfx_record(st, d),
    ensures
        yfx_frame(b, i) == resolved_sfx_frame(st, d),
{
    let r = sfx_record(st, d);
    assert(b[5 * i] == r[0]);
    assert(b[5 * i + 1] == r[1]);
    assert(b[5 * i + 2] == r[2]);
    assert(b[5 * i + 3] == r[3]);
    assert(b[5 * i + 4] == r[4]);
    lemma_tone_bytes(st.tone);
    lemma_control_bits(st.tone_enable, st.noise_enable, st.noise);
}

proof fn lemma_sfx_layout(fs: Seq<SfxFrame>)
    ensures
        sfx_bytes(fs).len() == 5 * fs.len(),
        forall|i: int|
            0 <= i < fs.len() ==> sfx_bytes(fs).subrange(5 * i, 5 * i + 5) == sfx_record(
                sfx_state_after(#[trigger] fs.take(i + 1)),
                fs[i].duration,
            ),
    decreases fs.len(),
{
    if fs.len() > 0 {
        let pre = fs.drop_last();
        lemma_sfx_layout(pre);
        let b = sfx_bytes(fs);
        let n = fs.len();
        assert forall|i: int| 0 <= i < fs.len() implies sfx_bytes(fs).subrange(5 * i, 5 * i + 5)
            == sfx_record(sfx_state_after(#[trigger] fs.take(i + 1)), fs[i].duration) by {
            if i < n - 1 {
                assert(pre.take(i + 1) =~= fs.take(i + 1));
                assert(pre[i] == fs[i]);
                assert(sfx_bytes(pre).subrange(5 * i, 5 * i + 5) == sfx_record(
                    sfx_state_after(pre.take(i + 1)),
                    pre[i].duration,
                ));
                assert(b.subrange(5 * i, 5 * i + 5) =~= sfx_bytes(pre).subrange(5 * i, 5 * i + 5));
            } else {
                assert(fs.take(i + 1) =~= fs);
                assert(b.subrange(5 * i, 5 * i + 5) =~= sfx_record(sfx_state_after(fs), fs.last().duration));
            }
        }
    }
}

/// Decoding the YFX payload that a sound effect compiles to gives, for each
/// frame, the channel state after it (every field set, tone cut to 12 bits,
/// noise to 5, volume to 4) with its duration.
pub proof fn law_sfx_round_trip(fs: Seq<SfxFrame>)
    ensures
        sfx_bytes(fs).len() == 5 * fs.len(),
        yfx_frames(sfx_bytes(fs)) == Seq::new(
            fs.len(),
            |i: int| resolved_sfx_frame(sfx_state_after(fs.take(i + 1)), fs[i].duration),
        ),
{
    lemma_sfx_layout(fs);
    let b = sfx_bytes(fs);
    let want = Seq::new(
        fs.len(),
        |i: int| resolved_sfx_frame(sfx_state_after(fs.take(i + 1)), fs[i].duration),
    );
    assert forall|i: int| 0 <= i < fs.len() implies #[trigger] yfx_frames(b)[i] == want[i] by {
        assert(b.subrange(5 * i, 5 * i + 5) == sfx_record(sfx_state_after(fs.take(i + 1)), fs[i].duration));
        lemma_record_decode(b, i, sfx_state_after(fs.take(i + 1)), fs[i].duration);
    }
    assert(yfx_frames(b) =~= want);
}

/// Whether every YFX record is in the form that compilation writes: a tone
/// high byte and a volume below 16, and bit 2 of the control byte clear.
pub open spec fn canonical_yfx(b: Seq<u8>) -> bool {
    &&& b.len() % 5 == 0
    &&& forall|i: int|
        0 <= i < b.len() / 5 ==> #[trigger] b[5 * i + 1] < 16 && b[5 * i + 2] < 16 && b[5 * i + 3]
            & 0x04u8 == 0
}

proof fn lemma_record_reencode(lo: u8, hi: u8, v: u8, c: u8, d: u8)
    by (bit_vector)
    requires
        hi < 16,
        v < 16,
        c & 0x04u8 == 0,
    ensures
        ({
            let t = (lo as u16) | ((hi as u16) << 8u16);
            let te = c & 0x01u8 != 0;
            let ne = c & 0x02u8 != 0;
            let n = (c >> 3u8) & 0x1Fu8;
            &&& (t & 0xFF) as u8 == lo
            &&& ((t >> 8u16) & 0x0F) as u8 == hi
            &&& v & 0x0Fu8 == v
            &&& ((if te { 1u8 } else { 0u8 }) + (if ne { 2u8 } else { 0u8 }) + (n & 0x1Fu8) * 8) as u8
                == c
        }),
{
}

proof fn lemma_control_fields(te: bool, ne: bool, n: u8)
    by (bit_vector)
    ensures
        ({
            let c = ((if te { 1u8 } else { 0u8 }) + (if ne { 2u8 } else { 0u8 }) + (n & 0x1Fu8)
                * 8) as u8;
            &&& c & 0x01u8 == (if te { 1u8 } else { 0u8 })
            &&& c & 0x02u8 == (if ne { 2u8 } else { 0u8 })
            &&& c >> 3u8 == n & 0x1Fu8
        }),
{
}

/// The record that a compiled sound effect holds for frame `i`.
proof fn lemma_sfx_record_at(fs: Seq<SfxFrame>, i: int)
    requires
        0 <= i < fs.len(),
    ensures
        sfx_bytes(fs).len() == 5 * fs.len(),
        sfx_bytes(fs).subrange(5 * i, 5 * i + 5) == sfx_record(
            apply_sfx_frame(sfx_state_after(fs.take(i)), fs[i]),
            fs[i].duration,
        ),
        i > 0 ==> sfx_bytes(fs).subrange(5 * i - 5, 5 * i) == sfx_record(
            sfx_state_after(fs.take(i)),
            fs[i - 1].duration,
        ),
{
    lemma_sfx_layout(fs);
    assert(fs.take(i + 1).drop_last() =~= fs.take(i));
    assert(fs.take(i + 1).last() == fs[i]);
    if i > 0 {
        assert(sfx_bytes(fs).subrange(5 * (i - 1), 5 * (i - 1) + 5) == sfx_record(
            sfx_state_after(fs.take(i - 1 + 1)),
            fs[i - 1].duration,
        ));
        assert(i - 1 + 1 == i);
    }
}

/// Each 5-byte record of a compiled sound effect holds, for its frame, every
/// field that the frame sets, and every field that it leaves unset as the
/// record before it holds it (as the silent channel holds it, for the first
/// record: tone 0, volume 0, tone on, noise off, noise period 0). Bytes 0-1
/// are the tone (low byte, high nibble), byte 2 the volume nibble, byte 3 the
/// control (bit 0 tone on, bit 1 noise on, bits 3-7 noise period), byte 4 the
/// duration (1 when unset).
pub proof fn law_sfx_records_carry_channel_state(fs: Seq<SfxFrame>, i: int)
    requires
        0 <= i < fs.len(),
    ensures
        ({
            let b = sfx_bytes(fs);
            let f = fs[i];
            let r = 5 * i;
            &&& b.len() == 5 * fs.len()
            &&& match f.tone {
                Some(t) => b[r] == (t & 0xFF) as u8 && b[r + 1] == ((t >> 8u16) & 0x0F) as u8,
                None => if i == 0 {
                    b[r] == 0 && b[r + 1] == 0
                } else {
                    b[r] == b[r - 5] && b[r + 1] == b[r - 4]
                },
            }
            &&& match f.volume {
                Some(v) => b[r + 2] == v & 0x0F,
                None => b[r + 2] == if i == 0 {
                    0u8
                } else {
                    b[r - 3]
                },
            }
            &&& match f.tone_enable {
                Some(e) => b[r + 3] & 0x01 == (if e { 1u8 } else { 0u8 }),
                None => b[r + 3] & 0x01 == if i == 0 {
                    1u8
                } else {
                    b[r - 2] & 0x01
                },
            }
            &&& match f.noise_enable {
                Some(e) => b[r + 3] & 0x02 == (if e { 2u8 } else { 0u8 }),
                None => b[r + 3] & 0x02 == if i == 0 {
                    0u8
                } else {
                    b[r - 2] & 0x02
                },
            }
            &&& match f.noise {
                Some(n) => b[r + 3] >> 3u8 == n & 0x1F,
                None => b[r + 3] >> 3u8 == if i == 0 {
                    0u8
                } else {
                    b[r - 2] >> 3u8
                },
            }
            &&& b[r + 4] == f.duration.unwrap_or(1)
        }),
{
    lemma_sfx_record_at(fs, i);
    let b = sfx_bytes(fs);
    let r = 5 * i;
    let prev = sfx_state_after(fs.take(i));
    let cur = apply_sfx_frame(prev, fs[i]);
    let rec = sfx_record(cur, fs[i].duration);
    assert(b[r] == rec[0] && b[r + 1] == rec[1] && b[r + 2] == rec[2] && b[r + 3] == rec[3] && b[r
        + 4] == rec[4]);
    lemma_control_fields(cur.tone_enable, cur.noise_enable, cur.noise);
    lemma_control_fields(prev.tone_enable, prev.noise_enable, prev.noise);
    if i == 0 {
        assert(fs.take(0) =~= Seq::<SfxFrame>::empty());
        assert(0u16 & 0xFFu16 == 0) by (bit_vector);
        assert((0u16 >> 8u16) & 0x0Fu16 == 0) by (bit_vector);
        assert(0u8 & 0x0Fu8 == 0) by (bit_vector);
        assert(0u8 & 0x1Fu8 == 0) by (bit_vector);
    } else {
        let prec = sfx_record(prev, fs[i - 1].duration);
        assert(b[r - 5] == prec[0] && b[r - 4] == prec[1] && b[r - 3] == prec[2] && b[r - 2]
            == prec[3]);
    }
}

/// Recompiling the frames of a canonical YFX payload gives back the payload.
pub proof fn law_yfx_canonical_round_trip(b: Seq<u8>)
    requires
        canonical_yfx(b),
    ensures
        sfx_bytes(yfx_frames(b)) == b,
{
    lemma_yfx_prefix(b, b.len() / 5);
    assert(yfx_frames(b).take((b.len() / 5) as int) =~= yfx_frames(b));
    assert(b.take((5 * (b.len() / 5)) as int) =~= b);
}

proof fn lemma_yfx_prefix(b: Seq<u8>, k: nat)
    requires
        canonical_yfx(b),
        k <= b.len() / 5,
    ensures
        sfx_bytes(yfx_frames(b).take(k as int)) == b.take((5 * k) as int),
    decreases k,
{
    let fs = yfx_frames(b).take(k as int);
    if k == 0 {
        assert(b.take(0) =~= Seq::<u8>::empty());
    } else {
        lemma_yfx_prefix(b, (k - 1) as nat);
        let i = k - 1;
        assert(fs.drop_last() =~= yfx_frames(b).take(i));
        let f = yfx_frame(b, i);
        assert(fs.last() == f);
        let st = sfx_state_after(fs);
        assert(b[5 * i + 1] < 16 && b[5 * i + 2] < 16 && b[5 * i + 3] & 0x04u8 == 0);
        lemma_record_reencode(b[5 * i], b[5 * i + 1], b[5 * i + 2], b[5 * i + 3], b[5 * i + 4]);
        assert(sfx_record(st, f.duration) =~= b.subrange(5 * i, 5 * i + 5));
        assert(b.take(5 * (k - 1)) + b.subrange(5 * i, 5 * i + 5) =~= b.take((5 * k) as int));
    }
}


proof fn lemma_size_search_min(s: YmSequenceView, k: nat, i: int)
    requires
        k <= 10,
        0 <= i < k,
        song_ysg(s, candidate_sizes()[i]) is Some,
    ensures
        size_search(s, k).0 is Some,
        size_search(s, k).0->0.len() <= song_ysg(s, candidate_sizes()[i])->0.len(),
    decreases k,
{
    if i < k - 1 {
        lemma_size_search_min(s, (k - 1) as nat, i);
    }
}

/// Song compilation picks a payload no larger than the one of any candidate
/// pattern size that can hold the song.
pub proof fn law_compiled_song_is_smallest(s: YmSequenceView, i: int)
    requires
        0 <= i < 10,
        song_ysg(s, candidate_sizes()[i]) is Some,
    ensures
        best_song(s).0.len() <= song_ysg(s, candidate_sizes()[i])->0.len(),
{
    lemma_size_search_min(s, 10, i);
}

/// What the search over the first `k` sizes picks is the encoding of one of
/// them, and every earlier size that holds the song gives a longer one.
proof fn lemma_size_search_pick(s: YmSequenceView, k: nat) -> (j: int)
    requires
        k <= 10,
        size_search(s, k).0 is Some,
    ensures
        0 <= j < k,
        size_search(s, k).1 == candidate_sizes()[j],
        size_search(s, k).0 == song_ysg(s, candidate_sizes()[j]),
        forall|h: int|
            0 <= h < j && #[trigger] song_ysg(s, candidate_sizes()[h]) is Some ==> song_ysg(
                s,
                candidate_sizes()[h],
            )->0.len() > size_search(s, k).0->0.len(),
    decreases k,
{
    let k1 = (k - 1) as nat;
    let prev = size_search(s, k1);
    let size = candidate_sizes()[k - 1];
    match song_ysg(s, size) {
        Some(d) => {
            if prev.0 is None || d.len() < prev.0->0.len() {
                assert forall|h: int|
                    0 <= h < k1 && #[trigger] song_ysg(s, candidate_sizes()[h]) is Some implies song_ysg(
                    s,
                    candidate_sizes()[h],
                )->0.len() > d.len() by {
                    lemma_size_search_min(s, k1, h);
                }
                k1 as int
            } else {
                lemma_size_search_pick(s, k1)
            }
        },
        None => lemma_size_search_pick(s, k1),
    }
}

/// Song compilation, where some candidate pattern size holds the song, picks
/// the encoding of one candidate size `j` (and reports it), no larger than
/// that of any candidate, and the earliest candidate on a tie: every earlier
/// size that holds the song gives a longer encoding.
pub proof fn law_compiled_song_choice(s: YmSequenceView, i: int) -> (j: int)
    requires
        0 <= i < 10,
        song_ysg(s, candidate_sizes()[i]) is Some,
    ensures
        0 <= j < 10,
        best_song(s).1 == candidate_sizes()[j],
        song_ysg(s, candidate_sizes()[j]) == Some(best_song(s).0),
        forall|h: int|
            0 <= h < 10 && #[trigger] song_ysg(s, candidate_sizes()[h]) is Some ==> best_song(
                s,
            ).0.len() <= song_ysg(s, candidate_sizes()[h])->0.len(),
        forall|h: int|
            0 <= h < j && #[trigger] song_ysg(s, candidate_sizes()[h]) is Some ==> song_ysg(
                s,
                candidate_sizes()[h],
            )->0.len() > best_song(s).0.len(),
{
    lemma_size_search_min(s, 10, i);
    assert forall|h: int|
        0 <= h < 10 && #[trigger] song_ysg(s, candidate_sizes()[h]) is Some implies best_song(
            s,
        ).0.len() <= song_ysg(s, candidate_sizes()[h])->0.len() by {
        lemma_size_search_min(s, 10, h);
    }
    lemma_size_search_pick(s, 10)
}

/// Song compilation of a song that no candidate pattern size holds gives an
/// empty payload and reports patterns of 64 frames.
pub proof fn law_compiled_song_fallback(s: YmSequenceView)
    requires
        forall|h: int| 0 <= h < 10 ==> #[trigger] song_ysg(s, candidate_sizes()[h]) is None,
    ensures
        best_song(s) == (Seq::<u8>::empty(), 64nat),
{
    if size_search(s, 10).0 is Some {
        let j = lemma_size_search_pick(s, 10);
        assert(song_ysg(s, candidate_sizes()[j]) is None);
    }
    assert(candidate_sizes()[3] == 64);
    assert(song_ysg(s, candidate_sizes()[3]) is None);
}

/// A compiled song stores each distinct pattern once.
pub proof fn law_song_patterns_distinct(s: YmSequenceView, ps: nat)
    ensures
        no_duplicates(dedup_patterns(song_patterns(s.frames, ps)).0),
{
    lemma_dedup(song_patterns(s.frames, ps));
}


proof fn lemma_low_mask_step(r: u16)
    by (bit_vector)
    requires
        r < 15,
    ensures
        (((1u16 << r) - 1) as u16 | (1u16 << r)) == ((1u16 << (r + 1)) - 1) as u16,
{
}

proof fn lemma_full_mask(prev: Seq<u8>, cur: Seq<u8>, r: nat)
    requires
        r <= 14,
    ensures
        delta_mask(prev, cur, true, r) == ((1u16 << (r as u16)) - 1) as u16,
    decreases r,
{
    if r == 0 {
        assert(((1u16 << 0u16) - 1) as u16 == 0) by (bit_vector);
    } else {
        lemma_full_mask(prev, cur, (r - 1) as nat);
        lemma_low_mask_step((r - 1) as u16);
    }
}

/// The first frame of every pattern sets all fourteen registers: its mask is
/// 0x3FFF, low byte first, and its payload holds the fourteen register values.
pub proof fn law_pattern_starts_with_full_frame(fs: Seq<YmFrame>)
    requires
        fs.len() > 0,
    ensures
        pattern_bytes(fs).len() >= 16,
        pattern_bytes(fs).subrange(0, 16) == seq![0xFFu8, 0x3Fu8] + frame_registers(fs[0]),
{
    let cur = frame_registers(fs[0]);
    lemma_full_mask(zero_registers(), cur, 14);
    assert(((1u16 << 14u16) - 1) as u16 == 0x3FFF) by (bit_vector);
    lemma_full_payload(zero_registers(), cur, 0);
    assert(delta_payload(zero_registers(), cur, true, 0) =~= cur.subrange(0, 14));
    assert(cur.subrange(0, 14) =~= cur);
    let head = seq![(0x3FFFu16 & 0xFF) as u8, ((0x3FFFu16 >> 8u16) & 0xFF) as u8];
    assert(head =~= seq![0xFFu8, 0x3Fu8]) by {
        assert((0x3FFFu16 & 0xFF) as u8 == 0xFF && ((0x3FFFu16 >> 8u16) & 0xFF) as u8 == 0x3F)
            by (bit_vector);
    }
    assert(pattern_bytes(fs).subrange(0, 16) =~= seq![0xFFu8, 0x3Fu8] + cur);
}

proof fn lemma_full_payload(prev: Seq<u8>, cur: Seq<u8>, r: int)
    requires
        0 <= r <= 14,
        cur.len() == 14,
    ensures
        delta_payload(prev, cur, true, r) == cur.subrange(r, 14),
    decreases 14 - r,
{
    if r < 14 {
        lemma_full_payload(prev, cur, r + 1);
        assert(seq![cur[r]] + cur.subrange(r + 1, 14) =~= cur.subrange(r, 14));
    } else {
        assert(cur.subrange(14, 14) =~= Seq::<u8>::empty());
    }
}

} // verus!
