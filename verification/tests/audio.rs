use ksng::audio::{check_channel_mapping, parse_opts, select_sample_rate, AudioCodec, AudioInfo, NullAudioSource};
use ksng::timecode::Timecode;
use ksng::audio::{detect_audio_type, file_type_from_mime};
use ksng::ui_event::UiError;
use ksng::waveform::{
    audio_location, block_sizes, blocks_in, decode_shape, encode_shape, entry_name, entry_uri, images_for,
    AudioLocation, WaveformCache, WaveformCacheInfo, WaveformGenerator,
};
use ksng::lyrics::{AudioFile, AudioFileSource, AudioFileType, EventValue};
use ksng::audio::{encoder_for_codec, EncoderKind};
use ksng::audio::{duration_from_frames, duration_from_ticks, fallback_source};
use ksng::audio::{FlacBlockWriter, FrameAccumulator};
use ksng::audio::{choose_sample_format, encoder_frame_size, plan_ffmpeg_encoder, AudioEncoderOptions, SampleFormat};
use ksng::filters::{read_goes_on, ChannelRemapper, HeldBlock, BlockCopy, FilterRead, ResamplerFilter};

#[test]
fn extension_follows_codec() {
    assert_eq!(AudioCodec::Mp3.set_extension("out/song.wav"), "out/song.mp3");
    assert_eq!(AudioCodec::Aac.set_extension("song"), "song.m4a");
    assert_eq!(AudioCodec::Flac.set_extension("a.b.c"), "a.b.flac");
    assert_eq!(AudioCodec::Wav.extension(), "wav");
}

#[test]
fn sample_rate_choice() {
    assert_eq!(select_sample_rate(&[44100, 48000], 48000), 48000);
    assert_eq!(select_sample_rate(&[96000, 22050, 48000], 44100), 48000);
    assert_eq!(select_sample_rate(&[8000, 22050, 16000], 44100), 22050);
    assert_eq!(select_sample_rate(&[], 44100), 44100);
}

#[test]
fn encoder_options() {
    let o = parse_opts("b=1,c=2").unwrap();
    assert_eq!(o, vec![("b".to_string(), "1".to_string()), ("c".to_string(), "2".to_string())]);
    assert_eq!(parse_opts("").unwrap(), vec![]);
    assert_eq!(parse_opts("a=1,").unwrap(), vec![("a".to_string(), "1".to_string())]);
    assert!(parse_opts("a").is_none());
    assert!(parse_opts("a=1=2").is_none());
    assert!(parse_opts(",a=1").is_none());
    assert_eq!(parse_opts("a=").unwrap(), vec![("a".to_string(), "".to_string())]);
}

#[test]
fn channel_mapping_checks() {
    let stereo = AudioInfo { num_channels: 2, sample_rate: 44100 };
    assert_eq!(check_channel_mapping(stereo, 0, &[]), Err("Can't create a channel remapper with 0 channels".to_string()));
    assert_eq!(
        check_channel_mapping(stereo, 2, &[0]),
        Err("Created a channel remapper with 2 channels but a mapping of len 1 was given".to_string())
    );
    assert_eq!(
        check_channel_mapping(stereo, 2, &[0, 5]),
        Err("Ancestor only provides 2 channels but mapping contains index 5".to_string())
    );
    assert_eq!(check_channel_mapping(stereo, 1, &[1]), Ok(AudioInfo { num_channels: 1, sample_rate: 44100 }));
}

#[test]
fn null_source_is_endless_silence() {
    let s = NullAudioSource { channels: 2, sample_rate: 44100 };
    assert_eq!(s.info(), AudioInfo { num_channels: 2, sample_rate: 44100 });
    let d = s.duration();
    assert_eq!((d.samples, d.sample_rate), (usize::MAX, 44100));
    assert_eq!(s.frames_read(512), 512);
}

#[test]
fn timecode_from_ms() {
    let t = Timecode::from_ms(1500);
    assert_eq!((t.samples, t.sample_rate), (1500, 1000));
}

#[test]
fn mip_level_block_sizes() {
    assert_eq!(block_sizes(4), vec![4096, 2048, 1024, 512]);
    assert_eq!(block_sizes(13)[12], 1);
    assert_eq!(blocks_in(8192, 4096), 2);
    assert_eq!(blocks_in(8193, 4096), 3);
    assert_eq!(blocks_in(0, 4096), 0);
    assert_eq!(images_for(4097), 3);
    let g = WaveformGenerator::new(50, 3);
    assert_eq!(g.blocks_per_read(5000), vec![2, 3, 5]);
}

#[test]
fn shape_header_layout_and_roundtrip() {
    let info = WaveformCacheInfo { levels: 2, imgs_per_level: vec![1, 300], pixel_to_s: vec![0x01020304, 7], duration: 0xA0B0C0D0 };
    let bytes = encode_shape(&info);
    assert_eq!(
        bytes,
        vec![2, 0xD0, 0xC0, 0xB0, 0xA0, 1, 0, 4, 3, 2, 1, 44, 1, 7, 0, 0, 0]
    );
    let back = decode_shape(&bytes).unwrap();
    assert_eq!(back.levels, 2);
    assert_eq!(back.imgs_per_level, vec![1, 300]);
    assert_eq!(back.pixel_to_s, vec![0x01020304, 7]);
    assert_eq!(back.duration, 0xA0B0C0D0);
    assert!(decode_shape(&bytes[..16].to_vec()).is_none());
    assert!(decode_shape(&vec![0, 1, 2]).is_none());
}

#[test]
fn waveform_names() {
    assert_eq!(entry_name(3, 12), "mip-l3-i12.png");
    assert_eq!(entry_uri("abc", 0, 7), "bytes://abc_mip_l0_i7.png");
}

#[test]
fn cache_keeps_recent_images() {
    let mut c = WaveformCache::new("w".to_string(), "/tmp/w.tar".to_string());
    assert!(c.find_entry(0, 0).is_none());
    let (uri, bytes) = c.insert_entry(0, 0, vec![1, 2, 3]);
    assert_eq!(uri, "bytes://w_mip_l0_i0.png");
    assert_eq!(bytes, vec![1, 2, 3]);
    assert_eq!(c.find_entry(0, 0), Some(("bytes://w_mip_l0_i0.png".to_string(), vec![1, 2, 3])));
    for i in 1..40 {
        c.insert_entry(1, i, vec![i as u8]);
    }
    assert_eq!(c.entries.len(), 32);
    assert!(c.find_entry(0, 0).is_none());
    assert_eq!(c.find_entry(1, 39).map(|x| x.1), Some(vec![39]));
}

#[test]
fn clip_audio_location() {
    let v = Some(EventValue::AudioClip {
        file: AudioFile { id: 1, file_type: AudioFileType::Mp3, source: AudioFileSource::Path("/a.mp3".to_string()) },
        offset: 0,
    });
    assert!(matches!(audio_location(&v), AudioLocation::File(ref p) if p == "/a.mp3"));
    let v = Some(EventValue::AudioClip {
        file: AudioFile { id: 1, file_type: AudioFileType::Mp3, source: AudioFileSource::Attachment(9) },
        offset: 0,
    });
    assert!(matches!(audio_location(&v), AudioLocation::Attachment(9)));
    assert!(matches!(audio_location(&None), AudioLocation::Missing));
}

#[test]
fn audio_type_from_header() {
    assert!(matches!(detect_audio_type(b"fLaC\0\0\0\0"), Ok(Some(AudioFileType::Flac))));
    assert!(matches!(detect_audio_type(b"ID3\x03\0\0\0\0"), Ok(Some(AudioFileType::Mp3))));
    assert!(matches!(detect_audio_type(b"\x89PNG\r\n\x1a\n"), Ok(None)));
    assert!(matches!(detect_audio_type(b"hello"), Err(UiError::Io(ref m)) if m == "Failed to detect file type"));
    assert_eq!(file_type_from_mime("audio/ogg"), Some(AudioFileType::Ogg));
    assert_eq!(file_type_from_mime("audio/x-wav"), Some(AudioFileType::Wave));
    assert_eq!(file_type_from_mime("video/mp4"), None);
}

#[test]
fn encoder_choice() {
    assert_eq!(encoder_for_codec(AudioCodec::Mp3, true, true), Ok(EncoderKind::Ffmpeg));
    assert_eq!(encoder_for_codec(AudioCodec::Flac, true, true), Ok(EncoderKind::Flac));
    assert_eq!(encoder_for_codec(AudioCodec::Flac, true, false), Err("Cannot find encoder for codec Flac".to_string()));
    assert_eq!(encoder_for_codec(AudioCodec::Aac, false, true), Err("Cannot find encoder for codec Aac".to_string()));
}

#[test]
fn stream_durations() {
    let t = duration_from_ticks(441000, 1, 44100);
    assert_eq!((t.samples, t.sample_rate), (441000, 44100));
    let t = duration_from_frames(48000, 1024, 576, 48000);
    assert_eq!((t.samples, t.sample_rate), (46400, 48000));
    let s = fallback_source();
    assert_eq!((s.channels, s.sample_rate), (2, 44100));
}

#[test]
fn frames_are_filled_before_sending() {
    let mut a = FrameAccumulator::new(4);
    let copies = a.write(10).unwrap();
    assert_eq!(copies, vec![(0, 0, 4, true), (4, 0, 4, true), (8, 0, 2, false)]);
    assert_eq!((a.waiting_frames, a.samples_written), (2, 8));
    let copies = a.write(3).unwrap();
    assert_eq!(copies, vec![(0, 2, 2, true), (2, 0, 1, false)]);
    assert_eq!((a.waiting_frames, a.samples_written), (1, 12));
    let copies = a.write(0).unwrap();
    assert_eq!(copies, vec![(0, 1, 0, false)]);
    assert_eq!(a.finalize(), 1);
    assert_eq!(a.write(5), Err("Trying to write frames to a finalized encoder".to_string()));
}

#[test]
fn remapper_refuses_bad_mappings() {
    let info = AudioInfo { num_channels: 1, sample_rate: 44100 };
    assert_eq!(
        ChannelRemapper::new(info, 0, &[]).err(),
        Some("Can't create a channel remapper with 0 channels".to_string())
    );
    assert_eq!(
        ChannelRemapper::new(info, 2, &[0]).err(),
        Some("Created a channel remapper with 2 channels but a mapping of len 1 was given".to_string())
    );
    assert_eq!(
        ChannelRemapper::new(info, 2, &[0, 1]).err(),
        Some("Ancestor only provides 1 channels but mapping contains index 1".to_string())
    );
    let r = ChannelRemapper::new(info, 2, &[0, 0]).ok().unwrap();
    assert_eq!(r.info(), AudioInfo { num_channels: 2, sample_rate: 44100 });
    assert_eq!(r.mapping, vec![0, 0]);
    assert_eq!((r.held.block_frames, r.held.remaining_frames), (1024, 0));
}

#[test]
fn filters_hold_back_what_does_not_fit() {
    let info = AudioInfo { num_channels: 2, sample_rate: 48000 };
    let mut r = ChannelRemapper::new(info, 2, &[1, 0]).ok().unwrap();
    // A read of 1500 frames: nothing held, so two blocks are read.
    let (mut read, c) = r.held.begin_read(1500);
    assert_eq!(c, BlockCopy { num: 0, from_offset: 1024, to_offset: 0 });
    assert!(!read.is_done());
    let c = r.held.after_block(&mut read, 1024);
    assert_eq!(c, BlockCopy { num: 1024, from_offset: 0, to_offset: 0 });
    assert!(!read.is_done());
    let c = r.held.after_block(&mut read, 1024);
    assert_eq!(c, BlockCopy { num: 476, from_offset: 0, to_offset: 1024 });
    assert!(read.is_done());
    assert_eq!(read, FilterRead { want: 1500, written: 1500 });
    assert_eq!(r.held.remaining_frames, 548);
    // The next read starts with the 548 held frames.
    let (read, c) = r.held.begin_read(100);
    assert_eq!(c, BlockCopy { num: 100, from_offset: 476, to_offset: 0 });
    assert!(read.is_done());
    assert_eq!(r.held.remaining_frames, 448);
    r.held.clear();
    assert_eq!(r.held.remaining_frames, 0);

    let mut f = ResamplerFilter::new(info, 44100, 940);
    assert_eq!(f.info(), AudioInfo { num_channels: 2, sample_rate: 44100 });
    let (mut read, c) = f.held.begin_read(100);
    assert_eq!(c.num, 0);
    let c = f.held.after_block(&mut read, 940);
    assert_eq!(c, BlockCopy { num: 100, from_offset: 0, to_offset: 0 });
    assert_eq!(f.held.remaining_frames, 840);
    let mut h = HeldBlock::new(8);
    let (mut read, _) = h.begin_read(3);
    let c = h.after_block(&mut read, 2);
    assert_eq!((c.num, read.written, h.remaining_frames), (2, 2, 0));
}

#[test]
fn ffmpeg_encoder_setup() {
    let info = AudioInfo { num_channels: 2, sample_rate: 44100 };
    let opts = AudioEncoderOptions { bit_rate: 192000, options: "preset=fast".to_string() };
    assert_eq!(
        plan_ffmpeg_encoder(AudioCodec::Flac, true, info, None, None, &opts).err(),
        Some("FfmpegAudioEncoder does not support Flac codec".to_string())
    );
    assert_eq!(
        plan_ffmpeg_encoder(AudioCodec::Mp3, false, info, None, None, &opts).err(),
        Some("Could not find FFmpeg encoder for Mp3".to_string())
    );
    let bad = AudioEncoderOptions { bit_rate: 1, options: "a=b=c".to_string() };
    assert_eq!(
        plan_ffmpeg_encoder(AudioCodec::Aac, true, info, None, None, &bad).err(),
        Some("Could not parse options for FFmpeg encoder".to_string())
    );
    let rates = [22050, 48000, 96000];
    let formats = [SampleFormat::I16Packed, SampleFormat::Other, SampleFormat::F32Packed, SampleFormat::I16Planar];
    let p = plan_ffmpeg_encoder(AudioCodec::Mp3, true, info, Some(&rates), Some(&formats), &opts).ok().unwrap();
    assert_eq!(p.sample_rate, 48000);
    assert_eq!(p.format, SampleFormat::F32Packed);
    assert_eq!(p.bit_rate, Some(192000));
    assert_eq!(p.options, vec![("preset".to_string(), "fast".to_string())]);
    assert!(!p.pass_through);
    let p = plan_ffmpeg_encoder(AudioCodec::Wav, true, info, None, None, &opts).ok().unwrap();
    assert_eq!((p.sample_rate, p.format, p.bit_rate, p.pass_through), (44100, SampleFormat::F32Planar, None, true));
}

#[test]
fn sample_format_preferences() {
    assert_eq!(choose_sample_format(None), SampleFormat::F32Planar);
    assert_eq!(choose_sample_format(Some(&[])), SampleFormat::F32Planar);
    assert_eq!(choose_sample_format(Some(&[SampleFormat::Other])), SampleFormat::F32Planar);
    assert_eq!(
        choose_sample_format(Some(&[SampleFormat::I16Packed, SampleFormat::I16Planar, SampleFormat::Other])),
        SampleFormat::I16Planar
    );
    assert_eq!(
        choose_sample_format(Some(&[SampleFormat::I16Packed, SampleFormat::F32Planar, SampleFormat::F32Packed])),
        SampleFormat::F32Planar
    );
    assert_eq!(encoder_frame_size(0), 1024);
    assert_eq!(encoder_frame_size(1152), 1152);
}

#[test]
fn flac_blocks_fill_before_encoding() {
    let mut b = FlacBlockWriter::new(4);
    assert_eq!(b.finalize(), None);
    assert_eq!(b.write(10), vec![(0, 0, 4, true), (4, 0, 4, true), (8, 0, 2, false)]);
    assert_eq!((b.waiting_frames, b.frame_number), (2, 2));
    assert_eq!(b.write(3), vec![(0, 2, 2, true), (2, 0, 1, false)]);
    assert_eq!((b.waiting_frames, b.frame_number), (1, 3));
    // A short write after a short write counts only its own frames.
    assert_eq!(b.write(1), vec![(0, 1, 1, false)]);
    assert_eq!((b.waiting_frames, b.frame_number), (1, 3));
    assert_eq!(b.finalize(), Some((1, 3)));
}

#[test]
fn filter_read_ends_with_the_source() {
    let r = FilterRead { want: 100, written: 40 };
    assert!(read_goes_on(&r, 64, 64));
    assert!(!read_goes_on(&r, 64, 10));
    let full = FilterRead { want: 100, written: 100 };
    assert!(!read_goes_on(&full, 64, 64));
}
