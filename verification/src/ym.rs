use vstd::prelude::*;
use crate::error::YmError;
use crate::sequence::YmSequence;

verus! {

#[verifier::external_type_specification]
#[verifier::external_body]
pub struct ExReplayerError(ym2149_ym_replayer::ReplayerError);

/// Whether bytes carry an LHA method signature `-lh0-` to `-lh7-` at one of
/// the offsets 1 to 40, which is how the replayer recognises a compressed file.
pub open spec fn has_lha_signature(d: Seq<u8>) -> bool {
    &&& d.len() >= 7
    &&& exists|i: int|
        1 <= i <= 40 && i + 5 <= d.len() && #[trigger] d[i] == 0x2D && d[i + 1] == 0x6C && d[i + 2]
            == 0x68 && 0x30 <= d[i + 3] <= 0x37 && d[i + 4] == 0x2D
}

/// The file that the LHA archive `data` holds first, unpacked.
pub uninterp spec fn lha_unpacked(data: Seq<u8>) -> Seq<u8>;

/// `ym2149_ym_replayer::decompress_if_needed`. Bytes without an LHA signature
/// come back as they are. LHA data comes back unpacked, and below 100 MiB,
/// when it succeeds; whether it succeeds is left unsaid, as the unpacking
/// goes through a temporary file.
#[verifier::external_body]
fn decompress_if_needed(data: &[u8]) -> (r: Result<Vec<u8>, ym2149_ym_replayer::ReplayerError>)
    ensures
        r is Err ==> has_lha_signature(data@),
        r matches Ok(v) ==> if has_lha_signature(data@) {
            v@ == lha_unpacked(data@) && v@.len() < 100 * 1024 * 1024
        } else {
            v@ == data@
        },
{
    ym2149_ym_replayer::decompress_if_needed(data)
}

/// A YM file unpacked, or the decompression error.
fn unpack_ym(data: &[u8]) -> (r: Result<Vec<u8>, YmError>)
    ensures
        !has_lha_signature(data@) ==> (r matches Ok(v) && v@ == data@),
        has_lha_signature(data@) ==> (r matches Ok(v) ==> v@ == lha_unpacked(data@)),
        r matches Err(e) ==> e == YmError::Decompression,
{
    match decompress_if_needed(data) {
        Ok(v) => Ok(v),
        Err(_) => Err(YmError::Decompression),
    }
}

/// The master clock that an unpacked YM file was written for: the big-endian
/// word at bytes 22-25 of a `YM5!` or `YM6!` file, else the 2 MHz Atari clock.
pub open spec fn ym_header_clock(d: Seq<u8>) -> u32 {
    if d.len() >= 26 && d[0] == 0x59 && d[1] == 0x4D && (d[2] == 0x35 || d[2] == 0x36) && d[3]
        == 0x21 {
        (d[22] * 16777216 + d[23] * 65536 + d[24] * 256 + d[25]) as u32
    } else {
        2_000_000
    }
}

/// The master clock that an unpacked YM file was written for (see
/// [`ym_header_clock`]).
pub fn ym_clock_of_unpacked(d: &[u8]) -> (r: u32)
    ensures
        r == ym_header_clock(d@),
{
    if d.len() >= 26 && d[0] == 0x59 && d[1] == 0x4D && (d[2] == 0x35 || d[2] == 0x36) && d[3]
        == 0x21 {
        (d[22] as u32) * 16777216 + (d[23] as u32) * 65536 + (d[24] as u32) * 256 + (d[25] as u32)
    } else {
        2_000_000
    }
}

impl YmSequence {
    /// The byte length of a YM file once unpacked.
    pub fn ym_decompressed_len(ym_data: &[u8]) -> (r: Result<usize, YmError>)
        ensures
            !has_lha_signature(ym_data@) ==> r == Ok::<usize, YmError>(ym_data@.len() as usize),
            has_lha_signature(ym_data@) ==> (r matches Ok(n) ==> n == lha_unpacked(ym_data@).len()),
            r matches Err(e) ==> e == YmError::Decompression,
    {
        match unpack_ym(ym_data) {
            Ok(v) => Ok(v.len()),
            Err(e) => Err(e),
        }
    }

    /// The master clock that a (possibly compressed) YM file was written for.
    pub fn ym_source_clock(ym_data: &[u8]) -> (r: Result<u32, YmError>)
        ensures
            !has_lha_signature(ym_data@) ==> r == Ok::<u32, YmError>(ym_header_clock(ym_data@)),
            has_lha_signature(ym_data@) ==> (r matches Ok(c) ==> c == ym_header_clock(
                lha_unpacked(ym_data@),
            )),
            r matches Err(e) ==> e == YmError::Decompression,
    {
        match unpack_ym(ym_data) {
            Ok(v) => Ok(ym_clock_of_unpacked(v.as_slice())),
            Err(e) => Err(e),
        }
    }
}

} // verus!
