use ym_core::chip::PlaybackCursor;
use ym_core::delta::DeltaCompiler;
use ym_core::error::YmError;
use ym_core::registers::YmRegisters;
use ym_core::render::decimate_frames;
use ym_core::sequence::{SfxFrame, SfxSequence, YmChannel, YmFrame, YmSequence};
use ym_core::timing::{SystemHz, TimingConfig};

fn song(frames: Vec<YmFrame>, loop_start: Option<usize>) -> YmSequence {
    YmSequence {
        name: "song".to_string(),
        timing: TimingConfig::default(),
        priority: 0,
        loop_start,
        frames,
    }
}

fn constant_frames(n: usize) -> Vec<YmFrame> {
    (0..n)
        .map(|_| YmFrame {
            tone_a: Some(100),
            volume_a: Some(10),
            ..Default::default()
        })
        .collect()
}

#[test]
fn timing_values() {
    assert_eq!(SystemHz::Hz50.hz_value(), 50);
    assert_eq!(SystemHz::Hz60.hz_value(), 60);
    assert_eq!(SystemHz::Custom(75).hz_value(), 75);
    let t = TimingConfig::default();
    assert_eq!(t.master_clock_hz, 2_000_000);
    assert_eq!(t.frame_rate, SystemHz::Hz50);
    assert_eq!(SystemHz::default(), SystemHz::Hz50);
}

#[test]
fn registers_start_cleared() {
    let r = YmRegisters::new();
    assert_eq!(r, YmRegisters::default());
    assert_eq!(r.mixer_control, 0);
    assert_eq!(r.env_shape_cycle, 0);
}

#[test]
fn new_sequence_is_empty() {
    let s = YmSequence::new("tune", SystemHz::Hz60);
    assert_eq!(s.name, "tune");
    assert_eq!(s.timing.master_clock_hz, 2_000_000);
    assert_eq!(s.timing.frame_rate, SystemHz::Hz60);
    assert_eq!(s.priority, 0);
    assert_eq!(s.loop_start, None);
    assert!(s.frames.is_empty());
}

#[test]
fn song_layout_deduplicates_patterns() {
    let s = song(constant_frames(32), Some(20));
    let bytes = DeltaCompiler::new().compile_song_with_size(&s, 16).unwrap();
    // header: size, patterns, sequence length, loop pattern, rate, clock
    assert_eq!(&bytes[0..4], &[16, 1, 2, 1]);
    assert_eq!(&bytes[4..8], &[50, 0, 0, 0]);
    assert_eq!(&bytes[8..12], &[0x80, 0x84, 0x1E, 0x00]);
    // sequence table and the single offset
    assert_eq!(&bytes[12..14], &[0, 0]);
    assert_eq!(&bytes[14..18], &[0, 0, 0, 0]);
    // first frame: full mask and all registers; the other 15 frames: empty masks
    assert_eq!(&bytes[18..20], &[0xFF, 0x3F]);
    assert_eq!(&bytes[20..34], &[100, 0, 0, 0, 0, 0, 0, 0x38, 10, 0, 0, 0, 0, 0]);
    assert_eq!(bytes.len(), 12 + 2 + 4 + 16 + 15 * 2);
    assert!(bytes[34..].iter().all(|&b| b == 0));
}

#[test]
fn song_round_trip_keeps_loop_and_timing() {
    let s = song(constant_frames(32), Some(20));
    let bytes = DeltaCompiler::new().compile_song_with_size(&s, 16).unwrap();
    let decoded = YmSequence::from_ysg("back", &bytes).unwrap();
    assert_eq!(decoded.name, "back");
    assert_eq!(decoded.loop_start, Some(16));
    assert_eq!(decoded.timing.master_clock_hz, 2_000_000);
    assert_eq!(decoded.timing.frame_rate, SystemHz::Custom(50));
    assert_eq!(decoded.frames.len(), 32);
    let expected = YmFrame {
        tone_a: Some(100),
        tone_b: Some(0),
        tone_c: Some(0),
        noise_period: Some(0),
        volume_a: Some(10),
        volume_b: Some(0),
        volume_c: Some(0),
        tone_enable_a: Some(true),
        tone_enable_b: Some(true),
        tone_enable_c: Some(true),
        noise_enable_a: Some(false),
        noise_enable_b: Some(false),
        noise_enable_c: Some(false),
        envelope_period: Some(0),
        envelope_shape: Some(0),
        duration: Some(1),
    };
    assert!(decoded.frames.iter().all(|f| *f == expected));
}

#[test]
fn song_round_trip_normalizes_and_pads() {
    let frames = vec![
        YmFrame {
            tone_a: Some(0xF123),
            noise_period: Some(0x3F),
            volume_b: Some(0xFF),
            noise_enable_c: Some(true),
            tone_enable_b: Some(false),
            envelope_period: Some(0xBEEF),
            envelope_shape: Some(0x1C),
            ..Default::default()
        },
        YmFrame {
            tone_c: Some(7),
            ..Default::default()
        },
        YmFrame::default(),
    ];
    let s = song(frames, Some(100));
    let bytes = DeltaCompiler::new().compile_song_with_size(&s, 2).unwrap();
    let decoded = YmSequence::from_ysg("x", &bytes).unwrap();
    assert_eq!(decoded.frames.len(), 4);
    // a loop frame past the end loops to the first pattern
    assert_eq!(decoded.loop_start, Some(0));
    let f = &decoded.frames[0];
    assert_eq!(f.tone_a, Some(0x0123));
    assert_eq!(f.noise_period, Some(0x1F));
    assert_eq!(f.volume_b, Some(0x1F));
    assert_eq!(f.noise_enable_c, Some(true));
    assert_eq!(f.tone_enable_b, Some(false));
    assert_eq!(f.envelope_period, Some(0xBEEF));
    assert_eq!(f.envelope_shape, Some(0x0C));
    assert_eq!(decoded.frames[1].tone_c, Some(7));
    assert_eq!(decoded.frames[1].tone_a, Some(0));
    assert_eq!(decoded.frames[3].tone_c, Some(0));
}

#[test]
fn song_too_long_for_pattern_size() {
    let s = song(constant_frames(256), None);
    assert!(DeltaCompiler::new().compile_song_with_size(&s, 1).is_none());
    assert!(DeltaCompiler::new().compile_song_with_size(&s, 2).is_some());
}

#[test]
fn empty_song_compiles_to_nothing() {
    let s = song(Vec::new(), None);
    assert_eq!(DeltaCompiler::new().compile_song_with_size(&s, 16), Some(Vec::new()));
    assert_eq!(DeltaCompiler::new().compile_song_with_size(&s, 0), Some(Vec::new()));
    assert!(DeltaCompiler::new().compile_song(&s).is_empty());
    let report = DeltaCompiler::new().compile_song_report(&s);
    assert_eq!(report.pattern_size, 16);
}

#[test]
fn song_compilation_picks_smallest_size() {
    let s = song(constant_frames(64), None);
    let compiler = DeltaCompiler::new();
    let best = compiler.compile_song(&s);
    for size in [16usize, 32, 48, 64, 80, 96, 128, 160, 192, 255] {
        let candidate = compiler.compile_song_with_size(&s, size).unwrap();
        assert!(best.len() <= candidate.len());
    }
    let report = compiler.compile_song_report(&s);
    assert_eq!(report.bytes, best);
    assert_eq!(report.pattern_size, best[0] as usize);
    assert_eq!(compiler.compile_song_with_size(&s, report.pattern_size), Some(best.clone()));
    for size in [16usize, 32, 48, 64, 80, 96, 128, 160, 192, 255] {
        if size == report.pattern_size {
            break;
        }
        assert!(compiler.compile_song_with_size(&s, size).unwrap().len() > best.len());
    }
}

#[test]
fn playback_runs_through_the_sequence() {
    let run = |c: &mut PlaybackCursor, samples: usize, loop_start: Option<usize>| {
        let mut applied = Vec::new();
        for _ in 0..samples {
            if let Some(i) = c.advance(3, 4, loop_start) {
                applied.push(i);
            }
        }
        applied
    };
    let mut once = PlaybackCursor::new();
    assert_eq!(run(&mut once, 6, None), vec![1, 2]);
    assert_eq!(run(&mut once, 6, None), vec![3]);
    assert!(once.finished);
    assert_eq!(run(&mut once, 30, None), Vec::<usize>::new());
    assert!(once.finished);
    let mut looping = PlaybackCursor::new();
    assert_eq!(run(&mut looping, 12, Some(1)), vec![1, 2, 3, 1]);
    assert_eq!(run(&mut looping, 9, Some(1)), vec![2, 3, 1]);
    assert!(!looping.finished);
    assert_eq!(looping.frame_idx, 1);
}

#[test]
fn ysg_errors() {
    assert_eq!(YmSequence::from_ysg("x", &[0u8; 11]), Err(YmError::YsgTooSmall));
    let truncated = [16u8, 0, 5, 255, 50, 0, 0, 0, 0, 0, 0, 0];
    assert_eq!(YmSequence::from_ysg("x", &truncated), Err(YmError::YsgTruncated));
    let bad_index = [16u8, 1, 1, 255, 50, 0, 0, 0, 0, 0, 0, 0, 3, 0, 0, 0, 0];
    assert_eq!(
        YmSequence::from_ysg("x", &bad_index),
        Err(YmError::YsgSequenceIndex { index: 3, max: 1 })
    );
    let no_mask = [1u8, 1, 1, 255, 50, 0, 0, 0, 0, 0, 0, 0, 0, 0, 0, 0, 0];
    assert_eq!(YmSequence::from_ysg("x", &no_mask), Err(YmError::YsgPatternEof));
    let no_payload = [1u8, 1, 1, 255, 50, 0, 0, 0, 0, 0, 0, 0, 0, 0, 0, 0, 0, 0x01, 0x00];
    assert_eq!(YmSequence::from_ysg("x", &no_payload), Err(YmError::YsgPayloadEof));
}

#[test]
fn ysg_header_fields() {
    // one pattern of one frame that sets register 0 only; no loop
    let bytes = [1u8, 1, 1, 255, 60, 0, 0, 0, 0x40, 0x42, 0x0F, 0, 0, 0, 0, 0, 0, 0x01, 0x00, 0x2A];
    let s = YmSequence::from_ysg("x", &bytes).unwrap();
    assert_eq!(s.timing.frame_rate, SystemHz::Custom(60));
    assert_eq!(s.timing.master_clock_hz, 1_000_000);
    assert_eq!(s.loop_start, None);
    assert_eq!(s.frames.len(), 1);
    assert_eq!(s.frames[0].tone_a, Some(0x2A));
    // all mixer bits clear: every tone and noise enabled
    assert_eq!(s.frames[0].noise_enable_b, Some(true));
}

#[test]
fn frame_from_registers_reads_dump() {
    let regs = [0x34u8, 0x12, 1, 0, 2, 0, 9, 0b0010_1001, 15, 14, 13, 0xEF, 0xBE, 0x0A, 0, 0];
    let f = YmFrame::from_registers(&regs);
    assert_eq!(f.tone_a, Some(0x1234));
    assert_eq!(f.tone_b, Some(1));
    assert_eq!(f.noise_period, Some(9));
    assert_eq!(f.tone_enable_a, Some(false));
    assert_eq!(f.tone_enable_b, Some(true));
    assert_eq!(f.noise_enable_a, Some(false));
    assert_eq!(f.noise_enable_c, Some(false));
    assert_eq!(f.noise_enable_b, Some(true));
    assert_eq!(f.volume_c, Some(13));
    assert_eq!(f.envelope_period, Some(0xBEEF));
    assert_eq!(f.envelope_shape, Some(0x0A));
    assert_eq!(f.duration, Some(1));
}

#[test]
fn sfx_compile_resolves_state() {
    let seq = SfxSequence {
        name: "s".to_string(),
        source_clock: 2_000_000,
        source_hz: 50,
        priority: 0,
        preferred_channels: Some(vec![YmChannel::B]),
        loop_start: None,
        frames: vec![
            SfxFrame {
                tone: Some(0xF456),
                volume: Some(0x1F),
                noise: Some(0x3F),
                noise_enable: Some(true),
                duration: Some(4),
                ..Default::default()
            },
            SfxFrame {
                tone_enable: Some(false),
                ..Default::default()
            },
        ],
    };
    let bytes = DeltaCompiler::new().compile_sfx(&seq);
    assert_eq!(bytes, vec![0x56, 0x04, 0x0F, 1 + 2 + 31 * 8, 4, 0x56, 0x04, 0x0F, 2 + 31 * 8, 1]);
    let back = SfxSequence::from_yfx("s", &bytes).unwrap();
    assert_eq!(back.frames[1].tone, Some(0x456));
    assert_eq!(back.frames[1].tone_enable, Some(false));
    assert_eq!(back.frames[1].noise_enable, Some(true));
    assert_eq!(back.frames[1].noise, Some(31));
    assert_eq!(back.frames[1].volume, Some(15));
    assert_eq!(back.frames[0].duration, Some(4));
    assert_eq!(back.priority, 1);
}

#[test]
fn yfx_canonical_round_trip() {
    let bytes = vec![0x34u8, 0x02, 0x0A, 0xA3, 3, 0x00, 0x0F, 0x00, 0x00, 1];
    let seq = SfxSequence::from_yfx("c", &bytes).unwrap();
    assert_eq!(seq.frames[0].noise, Some(20));
    assert_eq!(DeltaCompiler::new().compile_sfx(&seq), bytes);
}

#[test]
fn yfx_size_error() {
    assert_eq!(SfxSequence::from_yfx("x", &[0u8; 7]), Err(YmError::YfxSize));
    assert_eq!(SfxSequence::from_yfx("x", &[]).unwrap().frames.len(), 0);
}

#[test]
fn csv_errors_and_number_forms() {
    assert_eq!(
        SfxSequence::from_ayfx_csv("x", "1,2,3\n"),
        Err(YmError::CsvColumns { line: 1, found: 3 })
    );
    assert_eq!(
        SfxSequence::from_ayfx_csv("x", "# c\n\n1,2"),
        Err(YmError::CsvColumns { line: 3, found: 2 })
    );
    assert_eq!(SfxSequence::from_ayfx_csv("x", "# c\n1,0,10,2,x"), Err(YmError::CsvNumber));
    assert_eq!(SfxSequence::from_ayfx_csv("x", "1,0,70000,2,3"), Err(YmError::CsvNumber));
    assert_eq!(SfxSequence::from_ayfx_csv("x", "1,0,-1,2,3"), Err(YmError::CsvNumber));
    assert_eq!(SfxSequence::from_ayfx_csv("x", "1,0,0x,2,3"), Err(YmError::CsvNumber));
    assert_eq!(SfxSequence::from_ayfx_csv("x", "+,0,1,2,3"), Err(YmError::CsvNumber));
    assert_eq!(SfxSequence::from_ayfx_csv("x", "3000000000,0,1,2,3"), Err(YmError::CsvNumber));
    let seq = SfxSequence::from_ayfx_csv("x", " -5 , +0 , 0X1F , 300 , 7 ,extra\r\n").unwrap();
    assert_eq!(seq.frames.len(), 1);
    let f = &seq.frames[0];
    assert_eq!(f.tone_enable, Some(true));
    assert_eq!(f.noise_enable, Some(false));
    assert_eq!(f.tone, Some(31));
    assert_eq!(f.noise, Some(44));
    assert_eq!(f.volume, Some(7));
    assert_eq!(f.duration, Some(1));
    let wide = SfxSequence::from_ayfx_csv("x", "\u{A0}1,0,1,1,1\u{3000}\n-2147483648,0,0,0,0").unwrap();
    assert_eq!(wide.frames.len(), 2);
    assert_eq!(wide.frames[1].tone_enable, Some(true));
    assert_eq!(SfxSequence::from_ayfx_csv("x", "").unwrap().frames.len(), 0);
}

#[test]
fn ayfx_effect_end_marker_and_fields() {
    let none = SfxSequence::from_ayfx_effect("e", &[0xD0, 0x20]).unwrap();
    assert_eq!(none.frames.len(), 0);
    let one = SfxSequence::from_ayfx_effect("e", &[0xD0, 0x1F]).unwrap();
    assert_eq!(one.frames.len(), 1);
    assert_eq!(one.frames[0].noise, Some(31));
    assert_eq!(one.frames[0].volume, Some(0));
    assert_eq!(one.frames[0].tone_enable, Some(false));
    assert_eq!(one.frames[0].noise_enable, Some(false));
    // a tone cut short by the end of the data ends the effect
    let cut = SfxSequence::from_ayfx_effect("e", &[0x01, 0x20, 0x05]).unwrap();
    assert_eq!(cut.frames.len(), 1);
}

#[test]
fn ayfx_bank_default_names_and_bounds() {
    assert_eq!(SfxSequence::from_ayfx_bank(&[]), Err(YmError::EmptyBank));
    let bank = SfxSequence::from_ayfx_bank(&[2, 3, 0, 2, 0, 0x0F, 0x2A, 0x34, 0x12]).unwrap();
    assert_eq!(bank.len(), 2);
    assert_eq!(bank[0].name, "wizball_1");
    assert_eq!(bank[0].frames.len(), 1);
    assert_eq!(bank[0].frames[0].volume, Some(15));
    assert_eq!(bank[1].name, "wizball_2");
    assert_eq!(bank[1].frames.len(), 1);
    assert_eq!(bank[1].frames[0].tone, Some(0x234));
    assert_eq!(bank[1].frames[0].volume, Some(10));
    assert_eq!(bank[1].frames[0].noise_enable, Some(true));
    // twelve effects sharing one frame: names count up past nine
    let mut twelve = vec![12u8];
    for i in 0..12u8 {
        twelve.push(23 - 2 * i);
        twelve.push(0);
    }
    twelve.push(0x01);
    let bank = SfxSequence::from_ayfx_bank(&twelve).unwrap();
    assert_eq!(bank.len(), 12);
    assert_eq!(bank[11].name, "wizball_12");
    assert_eq!(bank[11].frames[0].volume, Some(1));
    // an offset table that runs out ends the bank
    assert_eq!(SfxSequence::from_ayfx_bank(&[3, 1, 0, 0x01]).unwrap().len(), 1);
    // an effect that starts past the end is left out
    assert_eq!(SfxSequence::from_ayfx_bank(&[1, 200, 0, 0x01]).unwrap().len(), 0);
    // invalid UTF-8 in the name keeps the default name
    let bank = SfxSequence::from_ayfx_bank(&[1, 1, 0, 0xD0, 0x20, 0xFF, 0xFE, 0]).unwrap();
    assert_eq!(bank[0].name, "wizball_1");
    let bank = SfxSequence::from_ayfx_bank(&[1, 1, 0, 0xD0, 0x20, b'o', b'k', 0]).unwrap();
    assert_eq!(bank[0].name, "ok");
    assert_eq!(bank[0].frames.len(), 0);
}

#[test]
fn ym_file_helpers() {
    assert_eq!(YmSequence::ym_decompressed_len(b"YM6!abc"), Ok(7));
    let mut header = b"YM5!".to_vec();
    header.resize(26, 0);
    header[22] = 0x00;
    header[23] = 0x1B;
    header[24] = 0x4F;
    header[25] = 0x4D;
    assert_eq!(YmSequence::ym_source_clock(&header), Ok(1_789_773));
    assert_eq!(YmSequence::ym_source_clock(b"YM3!"), Ok(2_000_000));
    let broken = [0u8, b'-', b'l', b'h', b'5', b'-', 1, 2, 3, 4, 5, 6, 7, 8];
    assert_eq!(YmSequence::ym_decompressed_len(&broken), Err(YmError::Decompression));
}

#[test]
fn ym_frame_chip_writes() {
    let f = YmFrame {
        tone_a: Some(0x1234),
        volume_a: Some(0x3F),
        tone_enable_a: Some(true),
        noise_enable_a: Some(true),
        envelope_shape: Some(0x1A),
        ..Default::default()
    };
    let mut mixer = 0x3Fu8;
    let writes = f.chip_writes(&mut mixer, 0x0A);
    assert_eq!(writes, vec![(0, 0x34), (1, 0x02), (8, 0x1F), (7, 0x36)]);
    assert_eq!(mixer, 0x36);
    let mut mixer = 0x3Fu8;
    let writes = f.chip_writes(&mut mixer, 0x00);
    assert_eq!(writes.last(), Some(&(13, 0x0A)));
    let g = YmFrame {
        tone_enable_a: Some(false),
        envelope_period: Some(0x1234),
        ..Default::default()
    };
    let mut mixer = 0x00u8;
    assert_eq!(g.chip_writes(&mut mixer, 0), vec![(7, 0x01), (11, 0x34), (12, 0x12)]);
}

#[test]
fn sfx_frame_chip_writes() {
    let f = SfxFrame {
        tone: Some(0x0456),
        noise: Some(0x25),
        volume: Some(9),
        tone_enable: Some(false),
        noise_enable: Some(true),
        duration: None,
    };
    let mut mixer = 0x10u8;
    let writes = f.chip_writes(&mut mixer, YmChannel::B);
    assert_eq!(writes, vec![(2, 0x56), (3, 0x04), (6, 0x05), (9, 9), (7, 0x02)]);
    assert_eq!(mixer, 0x02);
    let mut mixer = 0x3Fu8;
    let writes = SfxFrame::default().chip_writes(&mut mixer, YmChannel::C);
    assert_eq!(writes, vec![(7, 0x3F)]);
}

#[test]
fn playback_cursor_loops_and_finishes() {
    let mut c = PlaybackCursor::new();
    assert_eq!(c.advance(2, 3, Some(1)), None);
    assert_eq!(c.advance(2, 3, Some(1)), Some(1));
    assert_eq!(c.advance(2, 3, Some(1)), None);
    assert_eq!(c.advance(2, 3, Some(1)), Some(2));
    assert_eq!(c.advance(2, 3, Some(1)), None);
    assert_eq!(c.advance(2, 3, Some(1)), Some(1));
    assert!(!c.finished);
    assert_eq!(c.frame_idx, 1);
    let mut d = PlaybackCursor::new();
    assert_eq!(d.advance(1, 2, None), Some(1));
    assert_eq!(d.advance(1, 2, None), None);
    assert!(d.finished);
    assert_eq!(d.frame_idx, 2);
}

#[test]
fn decimation_keeps_peaks() {
    let frames: Vec<YmFrame> = [1u8, 5, 2, 7, 3]
        .iter()
        .enumerate()
        .map(|(i, &v)| YmFrame {
            tone_a: Some(i as u16),
            volume_a: Some(v),
            ..Default::default()
        })
        .collect();
    let all = decimate_frames(&frames, 2, None);
    assert_eq!(all.len(), 3);
    assert_eq!(all.iter().map(|f| f.volume_a).collect::<Vec<_>>(), vec![Some(5), Some(7), Some(3)]);
    assert_eq!(all.iter().map(|f| f.tone_a).collect::<Vec<_>>(), vec![Some(0), Some(2), Some(4)]);
    assert_eq!(all[0].volume_b, Some(0));
    let cut = decimate_frames(&frames, 2, Some(3));
    assert_eq!(cut.iter().map(|f| f.volume_a).collect::<Vec<_>>(), vec![Some(5), Some(2)]);
    assert_eq!(decimate_frames(&frames, 1, Some(0)).len(), 0);
    assert_eq!(decimate_frames(&frames, 1, None).len(), 5);
    assert_eq!(decimate_frames(&frames, 0, Some(0)).len(), 0);
    assert_eq!(decimate_frames(&Vec::new(), 0, None).len(), 0);
}

/// A stored (`-lh0-`) level-0 LHA archive holding `content` under the name `song.ym`.
fn stored_lha_archive(content: &[u8]) -> Vec<u8> {
    let name = b"song.ym";
    let size = (content.len() as u32).to_le_bytes();
    let mut header = Vec::new();
    header.extend_from_slice(b"-lh0-");
    header.extend_from_slice(&size);
    header.extend_from_slice(&size);
    header.extend_from_slice(&[0, 0, 0, 0, 0x20, 0]);
    header.push(name.len() as u8);
    header.extend_from_slice(name);
    header.extend_from_slice(&[0, 0]);
    let checksum = header.iter().fold(0u8, |s, b| s.wrapping_add(*b));
    let mut archive = vec![header.len() as u8, checksum];
    archive.extend_from_slice(&header);
    archive.extend_from_slice(content);
    archive.push(0);
    archive
}

#[test]
fn ym_lha_archive_unpacks() {
    let mut song = b"YM5!".to_vec();
    song.resize(40, 0);
    song[22] = 0x00;
    song[23] = 0x1B;
    song[24] = 0x4F;
    song[25] = 0x4D;
    let archive = stored_lha_archive(&song);
    assert_ne!(archive.len(), song.len());
    assert_eq!(YmSequence::ym_decompressed_len(&archive), Ok(40));
    assert_eq!(YmSequence::ym_source_clock(&archive), Ok(1_789_773));
}
