use vstd::prelude::*;
use vstd::utf8::{decode_utf8, valid_utf8};
use crate::error::YmError;
use crate::sequence::{decoded_effect, SfxFrame, SfxSequence, SfxSequenceView};

verus! {

/// The frame that an AYFX info byte describes, with the current tone and noise.
/// Bits 0-3 hold the volume; bit 4 set disables the tone, bit 7 set the noise.
pub open spec fn ayfx_frame(it: u8, tone: u16, noise: u8) -> SfxFrame {
    SfxFrame {
        tone_enable: Some(it & 0x10u8 == 0),
        noise_enable: Some(it & 0x80u8 == 0),
        tone: Some(tone),
        noise: Some(noise),
        volume: Some(it & 0x0Fu8),
        duration: Some(1),
    }
}

/// Decodes AYFX frames from `pp` up to `end`. Each frame is an info byte,
/// followed by a 12-bit tone (little-endian) when bit 5 is set and by a 5-bit
/// noise period when bit 6 is set; an info byte 0xD0 with a noise byte of 0x20
/// or more ends the effect, as does a frame cut short by `end`.
/// Gives the frames and the position where decoding stopped.
pub open spec fn ayfx_decode(b: Seq<u8>, pp: int, end: int, tone: u16, noise: u8) -> (
    Seq<SfxFrame>,
    int,
)
    decreases end - pp,
{
    if pp >= end {
        (Seq::empty(), pp)
    } else {
        let it = b[pp];
        let p1 = pp + 1;
        if it & 0x20u8 != 0 && p1 + 1 >= end {
            (Seq::empty(), p1)
        } else {
            let tone2 = if it & 0x20u8 != 0 {
                ((b[p1] as u16) | ((b[p1 + 1] as u16) << 8u16)) & 0x0FFFu16
            } else {
                tone
            };
            let p2 = if it & 0x20u8 != 0 {
                p1 + 2
            } else {
                p1
            };
            if it & 0x40u8 != 0 && p2 >= end {
                (Seq::empty(), p2)
            } else if it & 0x40u8 != 0 && it == 0xD0 && b[p2] >= 0x20 {
                (Seq::empty(), p2 + 1)
            } else {
                let noise2 = if it & 0x40u8 != 0 {
                    b[p2] & 0x1Fu8
                } else {
                    noise
                };
                let p3 = if it & 0x40u8 != 0 {
                    p2 + 1
                } else {
                    p2
                };
                let rest = ayfx_decode(b, p3, end, tone2, noise2);
                (seq![ayfx_frame(it, tone2, noise2)] + rest.0, rest.1)
            }
        }
    }
}

/// The length of an AYFX frame from its info byte: the byte itself, two tone
/// bytes when bit 5 is set, one noise byte when bit 6 is set.
pub open spec fn ayfx_frame_size(it: u8) -> int {
    1 + (if it & 0x20u8 != 0 {
        2int
    } else {
        0int
    }) + (if it & 0x40u8 != 0 {
        1int
    } else {
        0int
    })
}

/// Where frame `i` of frames laid end to end from `p` starts.
pub open spec fn ayfx_frame_offset(b: Seq<u8>, p: int, i: nat) -> int
    decreases i,
{
    if i == 0 {
        p
    } else {
        ayfx_frame_offset(b, p + ayfx_frame_size(b[p]), (i - 1) as nat)
    }
}

/// What the AYFX frames decoded from `pp` hold, read off their bytes: see
/// [`law_ayfx_frames_follow_info_bytes`]; `tone` and `noise` stand before the
/// first frame.
proof fn lemma_ayfx_frame_fields(b: Seq<u8>, pp: int, end: int, tone: u16, noise: u8, i: int)
    requires
        0 <= pp,
        end <= b.len(),
        0 <= i < ayfx_decode(b, pp, end, tone, noise).0.len(),
    ensures
        ({
            let fs = ayfx_decode(b, pp, end, tone, noise).0;
            let p = ayfx_frame_offset(b, pp, i as nat);
            let it = b[p];
            let q = p + 1 + (if it & 0x20u8 != 0 {
                2int
            } else {
                0int
            });
            let prev_tone = if i == 0 {
                Some(tone)
            } else {
                fs[i - 1].tone
            };
            let prev_noise = if i == 0 {
                Some(noise)
            } else {
                fs[i - 1].noise
            };
            &&& pp <= p < end
            &&& fs[i].volume == Some(it & 0x0Fu8)
            &&& fs[i].tone_enable == Some(it & 0x10u8 == 0)
            &&& fs[i].noise_enable == Some(it & 0x80u8 == 0)
            &&& fs[i].duration == Some(1u8)
            &&& it & 0x20u8 != 0 ==> p + 2 < end && fs[i].tone == Some(
                ((b[p + 1] as u16) | ((b[p + 2] as u16) << 8u16)) & 0x0FFFu16,
            )
            &&& it & 0x20u8 == 0 ==> fs[i].tone == prev_tone
            &&& it & 0x40u8 != 0 ==> q < end && fs[i].noise == Some(b[q] & 0x1Fu8)
            &&& it & 0x40u8 == 0 ==> fs[i].noise == prev_noise
        }),
    decreases end - pp,
{
    let it = b[pp];
    let p1 = pp + 1;
    let tone2 = if it & 0x20u8 != 0 {
        ((b[p1] as u16) | ((b[p1 + 1] as u16) << 8u16)) & 0x0FFFu16
    } else {
        tone
    };
    let p2 = if it & 0x20u8 != 0 {
        p1 + 2
    } else {
        p1
    };
    let noise2 = if it & 0x40u8 != 0 {
        b[p2] & 0x1Fu8
    } else {
        noise
    };
    let p3 = if it & 0x40u8 != 0 {
        p2 + 1
    } else {
        p2
    };
    assert(p3 == pp + ayfx_frame_size(it));
    let rest = ayfx_decode(b, p3, end, tone2, noise2);
    let fs = ayfx_decode(b, pp, end, tone, noise).0;
    assert(fs == seq![ayfx_frame(it, tone2, noise2)] + rest.0);
    if i > 0 {
        lemma_ayfx_frame_fields(b, p3, end, tone2, noise2, i - 1);
        assert(fs[i] == rest.0[i - 1]);
        assert(ayfx_frame_offset(b, pp, i as nat) == ayfx_frame_offset(b, p3, (i - 1) as nat));
        if i > 1 {
            assert(fs[i - 1] == rest.0[i - 2]);
        }
    }
}

/// The frames of an AYFX effect follow the info bytes of the frames laid end
/// to end in it (see [`ayfx_frame_offset`]): frame `i` takes its volume and
/// its tone and noise enables from its info byte; it has the 12-bit tone of
/// the two bytes after the info byte when bit 5 is set, and else the tone of
/// the frame before it (0 for the first frame), so a tone holds until a frame
/// replaces it; likewise it has the 5-bit noise period of the next byte when
/// bit 6 is set, and else the noise period of the frame before it.
pub proof fn law_ayfx_frames_follow_info_bytes(b: Seq<u8>, i: int)
    requires
        0 <= i < ayfx_decode(b, 0, b.len() as int, 0, 0).0.len(),
    ensures
        ({
            let fs = ayfx_decode(b, 0, b.len() as int, 0, 0).0;
            let p = ayfx_frame_offset(b, 0, i as nat);
            let it = b[p];
            let q = p + 1 + (if it & 0x20u8 != 0 {
                2int
            } else {
                0int
            });
            &&& 0 <= p < b.len()
            &&& fs[i].volume == Some(it & 0x0Fu8)
            &&& fs[i].tone_enable == Some(it & 0x10u8 == 0)
            &&& fs[i].noise_enable == Some(it & 0x80u8 == 0)
            &&& fs[i].duration == Some(1u8)
            &&& it & 0x20u8 != 0 ==> p + 2 < b.len() && fs[i].tone == Some(
                ((b[p + 1] as u16) | ((b[p + 2] as u16) << 8u16)) & 0x0FFFu16,
            )
            &&& it & 0x20u8 == 0 ==> fs[i].tone == if i == 0 {
                Some(0u16)
            } else {
                fs[i - 1].tone
            }
            &&& it & 0x40u8 != 0 ==> q < b.len() && fs[i].noise == Some(b[q] & 0x1Fu8)
            &&& it & 0x40u8 == 0 ==> fs[i].noise == if i == 0 {
                Some(0u8)
            } else {
                fs[i - 1].noise
            }
        }),
{
    lemma_ayfx_frame_fields(b, 0, b.len() as int, 0, 0, i);
}

/// Decodes the AYFX frames of `b[start..end]`.
fn decode_ayfx_frames(b: &[u8], start: usize, end: usize) -> (r: (Vec<SfxFrame>, usize))
    requires
        start <= end <= b@.len(),
    ensures
        r.0@ == ayfx_decode(b@, start as int, end as int, 0, 0).0,
        r.1 == ayfx_decode(b@, start as int, end as int, 0, 0).1,
        r.1 <= end,
{
    let ghost full = ayfx_decode(b@, start as int, end as int, 0, 0);
    let mut frames: Vec<SfxFrame> = Vec::new();
    let mut pp = start;
    let mut tone: u16 = 0;
    let mut noise: u8 = 0;
    while pp < end
        invariant
            end <= b@.len(),
            full == ayfx_decode(b@, start as int, end as int, 0, 0),
            pp <= end,
            frames@ + ayfx_decode(b@, pp as int, end as int, tone, noise).0 == full.0,
            ayfx_decode(b@, pp as int, end as int, tone, noise).1 == full.1,
        decreases end - pp,
    {
        let ghost rest = ayfx_decode(b@, pp as int, end as int, tone, noise);
        let it = b[pp];
        pp = pp + 1;
        if it & 0x20u8 != 0 {
            if end - pp <= 1 {
                assert(rest.0 =~= Seq::<SfxFrame>::empty() && rest.1 == pp);
                assert(frames@ + Seq::<SfxFrame>::empty() =~= frames@);
                return (frames, pp);
            }
            tone = ((b[pp] as u16) | ((b[pp + 1] as u16) << 8u16)) & 0x0FFFu16;
            pp = pp + 2;
        }
        if it & 0x40u8 != 0 {
            if pp >= end {
                assert(frames@ + Seq::<SfxFrame>::empty() =~= frames@);
                return (frames, pp);
            }
            let n_val = b[pp];
            pp = pp + 1;
            if it == 0xD0 && n_val >= 0x20 {
                assert(frames@ + Seq::<SfxFrame>::empty() =~= frames@);
                return (frames, pp);
            }
            noise = n_val & 0x1Fu8;
        }
        let frame = SfxFrame {
            tone_enable: Some(it & 0x10u8 == 0),
            noise_enable: Some(it & 0x80u8 == 0),
            tone: Some(tone),
            noise: Some(noise),
            volume: Some(it & 0x0Fu8),
            duration: Some(1),
        };
        proof {
            let next = ayfx_decode(b@, pp as int, end as int, tone, noise);
            assert(rest.0 == seq![frame] + next.0);
            assert(frames@.push(frame) + next.0 =~= frames@ + rest.0);
        }
        frames.push(frame);
    }
    assert(frames@ + Seq::<SfxFrame>::empty() =~= frames@);
    (frames, pp)
}

impl SfxSequence {
    /// Decodes a single AYFX effect (see [`ayfx_decode`]); never fails.
    pub fn from_ayfx_effect(name: &str, bytes: &[u8]) -> (r: Result<Self, YmError>)
        ensures
            r matches Ok(s) && s@ == decoded_effect(
                name@,
                ayfx_decode(bytes@, 0, bytes@.len() as int, 0, 0).0,
            ),
    {
        let (frames, _) = decode_ayfx_frames(bytes, 0, bytes.len());
        Ok(SfxSequence::decoded(String::from_str(name), frames))
    }
}


/// The little-endian 16-bit word at `i`.
pub open spec fn le_u16(b: Seq<u8>, i: int) -> int {
    b[i] + 256 * b[i + 1]
}

/// Where effect `i` of an AYFX bank starts: its offset is relative to the
/// byte after its own entry in the offset table.
pub open spec fn effect_start(b: Seq<u8>, i: int) -> int {
    2 + 2 * i + le_u16(b, 1 + 2 * i)
}

/// Where effect `i` of an AYFX bank of `n` effects ends: where the next effect
/// starts, when that lies after this start and within the bank; else the end
/// of the bank.
pub open spec fn effect_end(b: Seq<u8>, i: int, n: int) -> int {
    if i < n - 1 && 3 + 2 * i + 1 < b.len() && effect_start(b, i + 1) > effect_start(b, i)
        && effect_start(b, i + 1) <= b.len() {
        effect_start(b, i + 1)
    } else {
        b.len() as int
    }
}

/// The bytes from `pp` up to the first zero or `end`.
pub open spec fn name_bytes(b: Seq<u8>, pp: int, end: int) -> Seq<u8>
    decreases end - pp,
{
    if pp >= end || b[pp] == 0 {
        Seq::empty()
    } else {
        seq![b[pp]] + name_bytes(b, pp + 1, end)
    }
}

pub open spec fn digit_char(d: nat) -> char {
    (48 + d) as char
}

/// The decimal digits of `n`, without leading zeros.
pub open spec fn decimal_digits(n: nat) -> Seq<char>
    decreases n,
{
    if n < 10 {
        seq![digit_char(n)]
    } else {
        decimal_digits(n / 10).push(digit_char(n % 10))
    }
}

/// The name an AYFX bank effect gets when it carries none: `wizball_` and its
/// number, counting from 1.
pub open spec fn default_effect_name(k: nat) -> Seq<char> {
    seq!['w', 'i', 'z', 'b', 'a', 'l', 'l', '_'] + decimal_digits(k)
}

/// The name of effect `i`, whose frames end at `pp`: the zero-terminated UTF-8
/// text that follows them before `end`, when there is any and it is valid.
pub open spec fn effect_name(b: Seq<u8>, i: int, pp: int, end: int) -> Seq<char> {
    let nb = name_bytes(b, pp, end);
    if nb.len() > 0 && valid_utf8(nb) {
        decode_utf8(nb)
    } else {
        default_effect_name((i + 1) as nat)
    }
}

/// The effects of an AYFX bank of `n` effects from effect `i` on. An offset
/// entry past the end of the bank ends the bank; an effect that starts past
/// the end is left out.
pub open spec fn ayfx_bank_from(b: Seq<u8>, i: nat, n: nat) -> Seq<SfxSequenceView>
    decreases n - i,
{
    if i >= n {
        Seq::empty()
    } else if 1 + 2 * i + 1 >= b.len() {
        Seq::empty()
    } else if effect_start(b, i as int) >= b.len() {
        ayfx_bank_from(b, i + 1, n)
    } else {
        let end = effect_end(b, i as int, n as int);
        let d = ayfx_decode(b, effect_start(b, i as int), end, 0, 0);
        seq![decoded_effect(effect_name(b, i as int, d.1, end), d.0)] + ayfx_bank_from(b, i + 1, n)
    }
}

/// The effects of an AYFX bank, whose first byte counts them.
pub open spec fn ayfx_bank(b: Seq<u8>) -> Seq<SfxSequenceView> {
    ayfx_bank_from(b, 0, b[0] as nat)
}

/// Turns bytes into text when they are valid UTF-8 (`String::from_utf8`).
#[verifier::external_body]
fn utf8_string(bytes: Vec<u8>) -> (r: Option<String>)
    ensures
        r is Some <==> valid_utf8(bytes@),
        r matches Some(s) ==> s@ == decode_utf8(bytes@),
{
    match String::from_utf8(bytes) {
        Ok(s) => Some(s),
        Err(_) => None,
    }
}

/// The one-character text of a decimal digit.
fn digit_str(d: usize) -> (r: &'static str)
    requires
        d < 10,
    ensures
        r@ == seq![digit_char(d as nat)],
{
    match d {
        0 => {
            proof {
                reveal_strlit("0");
            }
            "0"
        },
        1 => {
            proof {
                reveal_strlit("1");
            }
            "1"
        },
        2 => {
            proof {
                reveal_strlit("2");
            }
            "2"
        },
        3 => {
            proof {
                reveal_strlit("3");
            }
            "3"
        },
        4 => {
            proof {
                reveal_strlit("4");
            }
            "4"
        },
        5 => {
            proof {
                reveal_strlit("5");
            }
            "5"
        },
        6 => {
            proof {
                reveal_strlit("6");
            }
            "6"
        },
        7 => {
            proof {
                reveal_strlit("7");
            }
            "7"
        },
        8 => {
            proof {
                reveal_strlit("8");
            }
            "8"
        },
        _ => {
            proof {
                reveal_strlit("9");
            }
            "9"
        },
    }
}

/// The decimal text of a number, without leading zeros.
fn decimal_string(n: usize) -> (r: String)
    ensures
        r@ == decimal_digits(n as nat),
    decreases n,
{
    if n < 10 {
        String::from_str(digit_str(n))
    } else {
        let mut text = decimal_string(n / 10);
        text.append(digit_str(n % 10));
        assert(text@ =~= decimal_digits(n as nat));
        text
    }
}

fn default_name(k: usize) -> (r: String)
    ensures
        r@ == default_effect_name(k as nat),
{
    let digits = decimal_string(k);
    let mut name = String::from_str("wizball_");
    proof {
        reveal_strlit("wizball_");
    }
    name.append(digits.as_str());
    assert(name@ =~= default_effect_name(k as nat));
    name
}

fn read_le_u16(b: &[u8], i: usize) -> (r: usize)
    requires
        i + 2 <= b@.len(),
    ensures
        r == le_u16(b@, i as int),
{
    b[i] as usize + 256 * (b[i + 1] as usize)
}

fn effect_name_at(b: &[u8], i: usize, pp: usize, end: usize) -> (r: String)
    requires
        pp <= end <= b@.len(),
        i < usize::MAX,
    ensures
        r@ == effect_name(b@, i as int, pp as int, end as int),
{
    let mut bytes: Vec<u8> = Vec::new();
    let mut q = pp;
    while q < end && b[q] != 0
        invariant
            pp <= q <= end,
            end <= b@.len(),
            bytes@ + name_bytes(b@, q as int, end as int) == name_bytes(b@, pp as int, end as int),
        decreases end - q,
    {
        assert(bytes@.push(b@[q as int]) + name_bytes(b@, q + 1, end as int) =~= bytes@ + name_bytes(
            b@,
            q as int,
            end as int,
        ));
        bytes.push(b[q]);
        q = q + 1;
    }
    assert(bytes@ =~= name_bytes(b@, pp as int, end as int));
    if bytes.len() > 0 {
        match utf8_string(bytes) {
            Some(s) => {
                return s;
            },
            None => {},
        }
    }
    default_name(i + 1)
}

impl SfxSequence {
    /// Decodes an AYFX bank (see [`ayfx_bank`]); fails only on an empty bank.
    pub fn from_ayfx_bank(bank_data: &[u8]) -> (r: Result<Vec<Self>, YmError>)
        ensures
            bank_data@.len() == 0 ==> r == Err::<Vec<Self>, YmError>(YmError::EmptyBank),
            bank_data@.len() > 0 ==> (r matches Ok(v) && v@.map_values(|s: SfxSequence| s@)
                == ayfx_bank(bank_data@)),
    {
        let len = bank_data.len();
        if len == 0 {
            return Err(YmError::EmptyBank);
        }
        let num_effects = bank_data[0] as usize;
        let ghost all = ayfx_bank(bank_data@);
        let mut sequences: Vec<SfxSequence> = Vec::new();
        let mut i: usize = 0;
        while i < num_effects
            invariant
                len == bank_data@.len(),
                len > 0,
                num_effects == bank_data@[0],
                all == ayfx_bank(bank_data@),
                i <= num_effects,
                sequences@.map_values(|s: SfxSequence| s@) + ayfx_bank_from(
                    bank_data@,
                    i as nat,
                    num_effects as nat,
                ) == all,
            decreases num_effects - i,
        {
            let ghost views = sequences@.map_values(|s: SfxSequence| s@);
            let offset_ptr = 1 + i * 2;
            if offset_ptr + 1 >= len {
                assert(views + Seq::<SfxSequenceView>::empty() =~= views);
                return Ok(sequences);
            }
            let offset_val = read_le_u16(bank_data, offset_ptr);
            let start_idx = 2 + i * 2 + offset_val;
            if start_idx >= len {
                i = i + 1;
                continue;
            }
            let mut end_limit = len;
            if i < num_effects - 1 {
                let next_ptr = 3 + i * 2;
                if next_ptr + 1 < len {
                    let next_start = 4 + i * 2 + read_le_u16(bank_data, next_ptr);
                    if next_start > start_idx && next_start <= len {
                        end_limit = next_start;
                    }
                }
            }
            assert(end_limit == effect_end(bank_data@, i as int, num_effects as int));
            let (frames, pp) = decode_ayfx_frames(bank_data, start_idx, end_limit);
            let name = effect_name_at(bank_data, i, pp, end_limit);
            let seq = SfxSequence::decoded(name, frames);
            proof {
                let rest = ayfx_bank_from(bank_data@, (i + 1) as nat, num_effects as nat);
                assert(ayfx_bank_from(bank_data@, i as nat, num_effects as nat) == seq![seq@] + rest);
                assert(sequences@.push(seq).map_values(|s: SfxSequence| s@) =~= views.push(seq@));
                assert(views.push(seq@) + rest =~= views + (seq![seq@] + rest));
            }
            sequences.push(seq);
            i = i + 1;
        }
        assert(sequences@.map_values(|s: SfxSequence| s@) + Seq::<SfxSequenceView>::empty()
            =~= sequences@.map_values(|s: SfxSequence| s@));
        Ok(sequences)
    }
}

} // verus!
