use vstd::prelude::*;
use crate::error::YmError;
use crate::sequence::{decoded_effect, SfxFrame, SfxSequence};
use crate::text::{collect_chars, split_chars, split_on, trim, trim_chars};

verus! {

/// The value of a digit in the given radix (10 or 16, either case).
pub open spec fn digit_value(c: char, radix: int) -> Option<int> {
    let u = c as u32;
    if 0x30 <= u <= 0x39 && u - 0x30 < radix {
        Some(u - 0x30)
    } else if radix == 16 && 0x61 <= u <= 0x66 {
        Some(u - 0x61 + 10)
    } else if radix == 16 && 0x41 <= u <= 0x46 {
        Some(u - 0x41 + 10)
    } else {
        None
    }
}

/// The value of a string of digits, or `None` when one is not a digit.
pub open spec fn digits_value(cs: Seq<char>, radix: int) -> Option<int>
    decreases cs.len(),
{
    if cs.len() == 0 {
        Some(0)
    } else {
        match digits_value(cs.drop_last(), radix) {
            Some(v) => match digit_value(cs.last(), radix) {
                Some(d) => Some(v * radix + d),
                None => None,
            },
            None => None,
        }
    }
}

/// Integer parsing as `from_str_radix` does it: an optional sign (`-` only for
/// signed types) and at least one digit, with a value in `lo..=hi`.
pub open spec fn parse_integer(cs: Seq<char>, radix: int, signed: bool, lo: int, hi: int) -> Option<
    int,
> {
    if cs.len() == 0 {
        None
    } else if (cs[0] == '+' || cs[0] == '-') && cs.len() == 1 {
        None
    } else {
        let neg = signed && cs[0] == '-';
        let ds = if cs[0] == '+' || neg {
            cs.drop_first()
        } else {
            cs
        };
        match digits_value(ds, radix) {
            Some(v) => {
                let x = if neg {
                    -v
                } else {
                    v
                };
                if lo <= x <= hi {
                    Some(x)
                } else {
                    None
                }
            },
            None => None,
        }
    }
}

/// A decimal `i32`.
pub open spec fn parse_i32(cs: Seq<char>) -> Option<int> {
    parse_integer(cs, 10, true, -0x8000_0000, 0x7FFF_FFFF)
}

/// A `u16`: hexadecimal after `0x` or `0X`, else decimal.
pub open spec fn parse_u16_value(cs: Seq<char>) -> Option<int> {
    if cs.len() >= 2 && cs[0] == '0' && (cs[1] == 'x' || cs[1] == 'X') {
        parse_integer(cs.skip(2), 16, false, 0, 0xFFFF)
    } else {
        parse_integer(cs, 10, false, 0, 0xFFFF)
    }
}

proof fn lemma_digits_prefix(cs: Seq<char>, radix: int, k: int)
    requires
        radix >= 1,
        0 <= k <= cs.len(),
        digits_value(cs, radix) is Some,
    ensures
        digits_value(cs.take(k), radix) is Some,
        0 <= digits_value(cs.take(k), radix)->0 <= digits_value(cs, radix)->0,
    decreases cs.len(),
{
    if k == cs.len() {
        assert(cs.take(k) =~= cs);
        lemma_digits_nonneg(cs, radix);
    } else {
        let pre = cs.drop_last();
        lemma_digits_prefix(pre, radix, k);
        assert(pre.take(k) =~= cs.take(k));
        lemma_digits_nonneg(pre, radix);
        let v = digits_value(pre, radix)->0;
        let d = digit_value(cs.last(), radix)->0;
        assert(v * radix + d >= v) by (nonlinear_arith)
            requires
                v >= 0,
                radix >= 1,
                d >= 0,
        ;
    }
}

proof fn lemma_digits_nonneg(cs: Seq<char>, radix: int)
    requires
        radix >= 1,
        digits_value(cs, radix) is Some,
    ensures
        digits_value(cs, radix)->0 >= 0,
    decreases cs.len(),
{
    if cs.len() > 0 {
        lemma_digits_nonneg(cs.drop_last(), radix);
        let v = digits_value(cs.drop_last(), radix)->0;
        let d = digit_value(cs.last(), radix)->0;
        assert(v * radix + d >= 0) by (nonlinear_arith)
            requires
                v >= 0,
                radix >= 1,
                d >= 0,
        ;
    }
}

fn char_digit(c: char, radix: u64) -> (r: Option<u64>)
    requires
        radix == 10 || radix == 16,
    ensures
        match digit_value(c, radix as int) {
            Some(d) => r == Some(d as u64) && d < radix,
            None => r is None,
        },
{
    let u = c as u32;
    if 0x30 <= u && u <= 0x39 && ((u - 0x30) as u64) < radix {
        Some((u - 0x30) as u64)
    } else if radix == 16 && 0x61 <= u && u <= 0x66 {
        Some((u - 0x61 + 10) as u64)
    } else if radix == 16 && 0x41 <= u && u <= 0x46 {
        Some((u - 0x41 + 10) as u64)
    } else {
        None
    }
}

/// The value of the digits `s[from..]` when it is at most `bound`.
fn digits_up_to(s: &Vec<char>, from: usize, radix: u64, bound: u64) -> (r: Option<u64>)
    requires
        from <= s@.len(),
        radix == 10 || radix == 16,
        bound <= 0x1_0000_0000,
    ensures
        match digits_value(s@.skip(from as int), radix as int) {
            Some(v) => if v <= bound {
                r == Some(v as u64)
            } else {
                r is None
            },
            None => r is None,
        },
        r matches Some(x) ==> x <= bound && digits_value(s@.skip(from as int), radix as int) == Some(
            x as int,
        ),
{
    let ghost ds = s@.skip(from as int);
    let mut v: u64 = 0;
    let mut i: usize = from;
    assert(ds.take(0) =~= Seq::<char>::empty());
    while i < s.len()
        invariant
            from <= i <= s@.len(),
            ds == s@.skip(from as int),
            radix == 10 || radix == 16,
            bound <= 0x1_0000_0000,
            v <= bound,
            digits_value(ds.take(i - from), radix as int) == Some(v as int),
        decreases s@.len() - i,
    {
        let ghost pre = ds.take(i - from);
        let ghost t = ds.take(i - from + 1);
        assert(t.drop_last() =~= pre);
        assert(t.last() == s@[i as int]);
        match char_digit(s[i], radix) {
            None => {
                proof {
                    assert(digits_value(t, radix as int) is None);
                    if digits_value(ds, radix as int) is Some {
                        lemma_digits_prefix(ds, radix as int, i - from + 1);
                    }
                }
                return None;
            },
            Some(d) => {
                assert(v * radix + d <= 0x1_0000_0000 * 16 + 15) by (nonlinear_arith)
                    requires
                        v <= 0x1_0000_0000,
                        radix <= 16,
                        d < 16,
                ;
                let nv = v * radix + d;
                if nv > bound {
                    proof {
                        if digits_value(ds, radix as int) is Some {
                            lemma_digits_prefix(ds, radix as int, i - from + 1);
                        }
                    }
                    return None;
                }
                v = nv;
            },
        }
        i = i + 1;
    }
    assert(ds.take(i - from) =~= ds);
    Some(v)
}

/// Parses an integer as [`parse_integer`] does, for bounds within 32 bits.
fn parse_integer_chars(s: &Vec<char>, radix: u64, signed: bool, lo: i64, hi: i64) -> (r: Option<i64>)
    requires
        radix == 10 || radix == 16,
        -0x8000_0000 <= lo <= 0,
        0 <= hi <= 0xFFFF_FFFF,
        !signed ==> lo == 0,
    ensures
        match parse_integer(s@, radix as int, signed, lo as int, hi as int) {
            Some(x) => r == Some(x as i64),
            None => r is None,
        },
{
    let len = s.len();
    if len == 0 {
        return None;
    }
    let first = s[0];
    if (first == '+' || first == '-') && len == 1 {
        return None;
    }
    let neg = signed && first == '-';
    let from: usize = if first == '+' || neg {
        1
    } else {
        0
    };
    assert(from == 1 ==> s@.skip(1) =~= s@.drop_first());
    assert(s@.skip(0) =~= s@);
    let bound: u64 = if neg {
        (0 - lo) as u64
    } else {
        hi as u64
    };
    assert(neg ==> bound == -lo);
    assert(!neg ==> bound == hi);
    let ghost ds = if from == 1 { s@.drop_first() } else { s@ };
    assert(ds == s@.skip(from as int));
    match digits_up_to(s, from, radix, bound) {
        None => None,
        Some(v) => {
            assert(digits_value(ds, radix as int) == Some(v as int));
            if neg {
                Some(0 - (v as i64))
            } else {
                Some(v as i64)
            }
        },
    }
}

/// Parses a `u16` as [`parse_u16_value`] does.
fn parse_u16_chars(s: &Vec<char>) -> (r: Option<u16>)
    ensures
        match parse_u16_value(s@) {
            Some(x) => r == Some(x as u16),
            None => r is None,
        },
{
    let r = if s.len() >= 2 && s[0] == '0' && (s[1] == 'x' || s[1] == 'X') {
        let mut hex: Vec<char> = Vec::new();
        let mut i: usize = 2;
        while i < s.len()
            invariant
                2 <= i <= s@.len(),
                hex@ == s@.subrange(2, i as int),
            decreases s@.len() - i,
        {
            hex.push(s[i]);
            assert(s@.subrange(2, i + 1) =~= s@.subrange(2, i as int).push(s@[i as int]));
            i = i + 1;
        }
        assert(hex@ =~= s@.skip(2));
        parse_integer_chars(&hex, 16, false, 0, 0xFFFF)
    } else {
        parse_integer_chars(s, 10, false, 0, 0xFFFF)
    };
    match r {
        Some(x) => Some(x as u16),
        None => None,
    }
}


/// What one line of an AYFX CSV file contributes.
pub enum CsvRow {
    /// A blank line or a `#` comment.
    Skip,
    Frame(SfxFrame),
    Fail(YmError),
}

/// The comma-separated fields of a line, each trimmed.
pub open spec fn csv_fields(t: Seq<char>) -> Seq<Seq<char>> {
    split_on(t, ',').map_values(|p: Seq<char>| trim(p))
}

/// Line `k` (counting from 0) of an AYFX CSV file, trimmed: blank and `#`
/// lines are skipped; others need five fields: tone enable, noise enable
/// (decimal `i32`, non-zero meaning on), tone, noise and volume (`u16`,
/// decimal or `0x` hexadecimal; noise and volume keep their low byte).
pub open spec fn csv_row(raw: Seq<char>, k: int) -> CsvRow {
    let t = trim(raw);
    if t.len() == 0 || t[0] == '#' {
        CsvRow::Skip
    } else {
        let parts = csv_fields(t);
        if parts.len() < 5 {
            CsvRow::Fail(YmError::CsvColumns { line: (k + 1) as usize, found: parts.len() as usize })
        } else if parse_i32(parts[0]) is Some && parse_i32(parts[1]) is Some && parse_u16_value(
            parts[2],
        ) is Some && parse_u16_value(parts[3]) is Some && parse_u16_value(parts[4]) is Some {
            CsvRow::Frame(
                SfxFrame {
                    tone_enable: Some(parse_i32(parts[0])->0 != 0),
                    noise_enable: Some(parse_i32(parts[1])->0 != 0),
                    tone: Some(parse_u16_value(parts[2])->0 as u16),
                    noise: Some((parse_u16_value(parts[3])->0 % 256) as u8),
                    volume: Some((parse_u16_value(parts[4])->0 % 256) as u8),
                    duration: Some(1),
                },
            )
        } else {
            CsvRow::Fail(YmError::CsvNumber)
        }
    }
}

/// The frames of the first `k` lines, or the error of the first line that fails.
pub open spec fn csv_frames(lines: Seq<Seq<char>>, k: nat) -> Result<Seq<SfxFrame>, YmError>
    decreases k,
{
    if k == 0 {
        Ok(Seq::empty())
    } else {
        match csv_frames(lines, (k - 1) as nat) {
            Err(e) => Err(e),
            Ok(fs) => match csv_row(lines[k - 1], k - 1) {
                CsvRow::Skip => Ok(fs),
                CsvRow::Frame(f) => Ok(fs.push(f)),
                CsvRow::Fail(e) => Err(e),
            },
        }
    }
}

/// The frames of an AYFX CSV file, one per line.
pub open spec fn parse_ayfx_csv(content: Seq<char>) -> Result<Seq<SfxFrame>, YmError> {
    let lines = split_on(content, '\n');
    csv_frames(lines, lines.len())
}

fn csv_line(raw: &Vec<char>, k: usize) -> (r: CsvRow)
    requires
        k < usize::MAX,
    ensures
        r == csv_row(raw@, k as int),
{
    let t = trim_chars(raw);
    if t.len() == 0 || t[0] == '#' {
        return CsvRow::Skip;
    }
    let pieces = split_chars(&t, ',');
    let n = pieces.len();
    let ghost parts = csv_fields(t@);
    if n < 5 {
        return CsvRow::Fail(YmError::CsvColumns { line: k + 1, found: n });
    }
    let f0 = trim_chars(&pieces[0]);
    let f1 = trim_chars(&pieces[1]);
    let f2 = trim_chars(&pieces[2]);
    let f3 = trim_chars(&pieces[3]);
    let f4 = trim_chars(&pieces[4]);
    assert(f0@ == parts[0] && f1@ == parts[1] && f2@ == parts[2] && f3@ == parts[3] && f4@ == parts[4]);
    let te = parse_integer_chars(&f0, 10, true, -0x8000_0000, 0x7FFF_FFFF);
    let ne = parse_integer_chars(&f1, 10, true, -0x8000_0000, 0x7FFF_FFFF);
    let tone = parse_u16_chars(&f2);
    let noise = parse_u16_chars(&f3);
    let volume = parse_u16_chars(&f4);
    match (te, ne, tone, noise, volume) {
        (Some(a), Some(b), Some(t), Some(nz), Some(v)) => CsvRow::Frame(
            SfxFrame {
                tone_enable: Some(a != 0),
                noise_enable: Some(b != 0),
                tone: Some(t),
                noise: Some((nz % 256) as u8),
                volume: Some((v % 256) as u8),
                duration: Some(1),
            },
        ),
        _ => CsvRow::Fail(YmError::CsvNumber),
    }
}

proof fn lemma_csv_frames_error(lines: Seq<Seq<char>>, k: nat, m: nat)
    requires
        k <= m,
        csv_frames(lines, k) is Err,
    ensures
        csv_frames(lines, m) == csv_frames(lines, k),
    decreases m - k,
{
    if k < m {
        lemma_csv_frames_error(lines, k, (m - 1) as nat);
    }
}

impl SfxSequence {
    /// Reads a sound effect from AYFX CSV text (see [`parse_ayfx_csv`]).
    pub fn from_ayfx_csv(name: &str, content: &str) -> (r: Result<Self, YmError>)
        ensures
            match parse_ayfx_csv(content@) {
                Ok(frames) => r matches Ok(s) && s@ == decoded_effect(name@, frames),
                Err(e) => r == Err::<Self, YmError>(e),
            },
    {
        let chars = collect_chars(content);
        let lines = split_chars(&chars, '\n');
        let ghost gl = split_on(content@, '\n');
        let mut frames: Vec<SfxFrame> = Vec::new();
        let mut k: usize = 0;
        while k < lines.len()
            invariant
                gl == split_on(content@, '\n'),
                lines@.len() == gl.len(),
                forall|i: int| 0 <= i < gl.len() ==> #[trigger] lines@[i]@ == gl[i],
                k <= lines@.len(),
                csv_frames(gl, k as nat) == Ok::<Seq<SfxFrame>, YmError>(frames@),
            decreases lines@.len() - k,
        {
            assert(lines@[k as int]@ == gl[k as int]);
            match csv_line(&lines[k], k) {
                CsvRow::Skip => {},
                CsvRow::Frame(f) => {
                    frames.push(f);
                },
                CsvRow::Fail(e) => {
                    proof {
                        lemma_csv_frames_error(gl, (k + 1) as nat, gl.len());
                    }
                    return Err(e);
                },
            }
            k = k + 1;
        }
        Ok(SfxSequence::decoded(String::from_str(name), frames))
    }
}

} // verus!
