use qtarget::probe::{Probe, Stream, Tags, Disposition, FileProbe, get_medium_streams,
    compare_streams, filter_redundant_tracks, check_audio_encoding, is_video, is_temporary_file,
    temp_path, get_title, opus_bitrate, get_descale_dimensions, match_episode,
    extract_episode_number};
use qtarget::torrent::pieces;

fn stream(codec_type: &str, codec_name: &str) -> Stream {
    Stream {
        index: 0,
        codec_name: codec_name.to_string(),
        codec_type: codec_type.to_string(),
        avg_frame_rate: None,
        start_pts: 0,
        channels: None,
        width: None,
        height: None,
        display_aspect_ratio: None,
        pix_fmt: None,
        color_space: None,
        color_range: None,
        color_transfer: None,
        color_primaries: None,
        disposition: Disposition { forced: 0 },
        tags: Tags { bps: None, encoder_options: None, language: None, title: None },
    }
}

fn probe(codec_type: &str, codec_name: &str) -> Probe {
    Probe { stream: stream(codec_type, codec_name), file: "a.mkv".to_string(), offset: 0, index: None }
}

#[test]
fn bit_rate_reads_bps_tag() {
    let mut p = probe("audio", "flac");
    assert_eq!(p.bit_rate(), 0);
    p.stream.tags.bps = Some("320000".to_string());
    assert_eq!(p.bit_rate(), 320000);
}

#[test]
fn pix_fmt_shapes_names() {
    let mut p = probe("video", "av1");
    assert_eq!(p.pix_fmt(true), "");
    p.stream.pix_fmt = Some("yuv420p".to_string());
    assert_eq!(p.pix_fmt(false), "yuv420p");
    assert_eq!(p.pix_fmt(true), "YUV420P8");
    p.stream.pix_fmt = Some("yuv420p10le".to_string());
    assert_eq!(p.pix_fmt(true), "YUV420P10LE");
    p.stream.pix_fmt = Some("xyz12le".to_string());
    assert_eq!(p.pix_fmt(true), "XYZ12");
}

#[test]
fn language_resolves_codes() {
    let mut p = probe("audio", "flac");
    assert_eq!(p.language(), "und");
    p.stream.tags.language = Some("eng".to_string());
    assert_eq!(p.language(), "eng");
    p.stream.tags.language = Some("en-US".to_string());
    assert_eq!(p.language(), "eng");
    p.stream.tags.language = Some("ja".to_string());
    assert_eq!(p.language(), "jpn");
    p.stream.tags.language = Some("zz-weird".to_string());
    assert_eq!(p.language(), "und");
}

#[test]
fn titles_carry_recognised_tags() {
    assert_eq!(get_title("eng", "Subtitles"), "English");
    assert_eq!(get_title("eng", "English (Forced)"), "English (Forced)");
    assert_eq!(get_title("eng", "Forced subs"), "English (Forced)");
    assert_eq!(get_title("jpn", "Dub track"), "Japanese (Dub)");
}

#[test]
fn audio_comparison_prefers_channels_then_codec_then_rate() {
    let mut six = probe("audio", "aac");
    six.stream.channels = Some(6);
    let mut two = probe("audio", "flac");
    two.stream.channels = Some(2);
    let w = compare_streams(six.clone(), two.clone());
    assert_eq!(w.stream.codec_name, "aac");
    let mut flac = probe("audio", "flac");
    flac.stream.channels = Some(2);
    let mut opus = probe("audio", "opus");
    opus.stream.channels = Some(2);
    let w = compare_streams(opus.clone(), flac.clone());
    assert_eq!(w.stream.codec_name, "flac");
    let mut hi = probe("audio", "aac");
    hi.stream.channels = Some(2);
    hi.stream.tags.bps = Some("256000".to_string());
    let mut lo = probe("audio", "aac");
    lo.stream.channels = Some(2);
    lo.stream.tags.bps = Some("128000".to_string());
    let w = compare_streams(lo.clone(), hi.clone());
    assert_eq!(w.stream.tags.bps, Some("256000".to_string()));
}

#[test]
fn subtitle_comparison_hands_the_win_to_the_second_on_outrank() {
    // The subtitle rule is inverted relative to the audio rule: when the
    // first stream's codec ranks ahead, the second stream is returned,
    // otherwise the first is kept.
    let ass = probe("subtitle", "ass");
    let pgs = probe("subtitle", "hdmv_pgs_subtitle");
    let w = compare_streams(pgs.clone(), ass.clone());
    assert_eq!(w.stream.codec_name, "hdmv_pgs_subtitle");
    let w = compare_streams(ass.clone(), pgs.clone());
    assert_eq!(w.stream.codec_name, "hdmv_pgs_subtitle");
    let srt = probe("subtitle", "subrip");
    let w = compare_streams(pgs.clone(), srt.clone());
    assert_eq!(w.stream.codec_name, "hdmv_pgs_subtitle");
}

#[test]
fn redundant_tracks_collapse() {
    let mut a = probe("audio", "flac");
    a.stream.channels = Some(2);
    a.stream.tags.language = Some("eng".to_string());
    let mut b = probe("audio", "opus");
    b.stream.channels = Some(2);
    b.stream.tags.language = Some("eng".to_string());
    let mut c = probe("audio", "aac");
    c.stream.channels = Some(2);
    c.stream.tags.language = Some("jpn".to_string());
    let streams = vec![a, b, c];
    let out = filter_redundant_tracks(&streams);
    assert_eq!(out.len(), 2);
    assert_eq!(out[0].stream.codec_name, "flac");
    assert_eq!(out[0].stream.tags.title, Some("English".to_string()));
    assert_eq!(out[1].stream.codec_name, "aac");
    assert_eq!(out[1].stream.tags.title, Some("Japanese".to_string()));
}

#[test]
fn medium_streams_filter_by_type() {
    let fp = FileProbe {
        streams: vec![stream("video", "av1"), stream("audio", "flac"), stream("audio", "aac")],
    };
    let path = "dir/file.mkv".to_string();
    let audio = get_medium_streams(&fp, &path, "audio", Some(7));
    assert_eq!(audio.len(), 2);
    assert_eq!(audio[0].stream.codec_name, "flac");
    assert_eq!(audio[0].offset, 7);
    assert_eq!(audio[0].file, "dir/file.mkv");
    let video = get_medium_streams(&fp, &path, "video", None);
    assert_eq!(video.len(), 1);
    assert_eq!(video[0].offset, 0);
}

#[test]
fn first_opus_options_win() {
    let mut a = probe("audio", "opus");
    a.stream.tags.encoder_options = None;
    let mut b = probe("audio", "opus");
    b.stream.tags.encoder_options = Some("--bitrate 192".to_string());
    assert_eq!(check_audio_encoding(&vec![a.clone()]), "");
    assert_eq!(check_audio_encoding(&vec![a, b]), "--bitrate 192");
}

#[test]
fn video_extensions_and_temporaries() {
    assert!(is_video(&"movie.mkv".to_string()));
    assert!(is_video(&"dir.x/movie.webm".to_string()));
    assert!(!is_video(&"notes.txt".to_string()));
    assert!(is_temporary_file(&"ep01_lowest.mkv".to_string()));
    assert!(is_temporary_file(&"a/b/ep01.ssimu2".to_string()));
    assert!(!is_temporary_file(&"ep01.mkv".to_string()));
}

#[test]
fn temp_paths_share_the_stem() {
    assert_eq!(temp_path(&"/data/show/ep01.mkv".to_string(), "_enc.mkv"), "/data/show/ep01_enc.mkv");
    assert_eq!(temp_path(&"ep01.mkv".to_string(), ".ssimu2"), "ep01.ssimu2");
    assert_eq!(temp_path(&"/data/a.b/ep.two.mkv".to_string(), "_skip.vpy"), "/data/a.b/ep.two_skip.vpy");
}

#[test]
fn opus_bitrate_rules() {
    assert_eq!(opus_bitrate(2, 0), Some(128));
    assert_eq!(opus_bitrate(2, 200_000), Some(128));
    assert_eq!(opus_bitrate(2, 120_000), None);
    assert_eq!(opus_bitrate(6, 300_000), Some(256));
    assert_eq!(opus_bitrate(6, 200_000), None);
    assert_eq!(opus_bitrate(8, 0), Some(320));
}

#[test]
fn descale_dimensions_complete_the_pair() {
    assert_eq!(get_descale_dimensions(&Some(720), &None), (720, 1280));
    assert_eq!(get_descale_dimensions(&None, &Some(1280)), (720, 1280));
    assert_eq!(get_descale_dimensions(&Some(540), &Some(960)), (540, 960));
    // 838 * 16 / 9 truncates.
    assert_eq!(get_descale_dimensions(&Some(838), &None), (838, 1489));
}

#[test]
fn piece_length_scales_with_size() {
    // Small payloads clamp up to sixteen kibibytes.
    assert_eq!(pieces(0), 16_384);
    assert_eq!(pieces(1), 16_384);
    // One gibibyte: 1 GiB / 512 pieces = 2 MiB pieces.
    assert_eq!(pieces(1 << 30), 2 * 1024 * 1024);
    // Just above one gibibyte the cap becomes 1024 pieces.
    assert_eq!(pieces((1u64 << 30) + 1), 2 * 1024 * 1024);
    // Huge payloads clamp at sixteen mebibytes.
    assert_eq!(pieces(1 << 45), 16 * 1024 * 1024);
}

#[test]
fn episode_matching_patterns() {
    let name = "Show S01E04 [1080p].mkv".to_string();
    assert!(match_episode(&name, &"04".to_string(), &"01".to_string()));
    assert!(!match_episode(&name, &"05".to_string(), &"01".to_string()));
    let dashed = "Show - 12 (BD).mkv".to_string();
    assert!(match_episode(&dashed, &"12".to_string(), &"01".to_string()));
}

#[test]
fn episode_numbers_extract_in_pattern_order() {
    let season = Some("01".to_string());
    let base = "Show S01E04 [1080p]".to_string();
    assert_eq!(extract_episode_number(&base, &"1".to_string(), &season), Ok("04".to_string()));
    assert_eq!(
        extract_episode_number(&base, &"2".to_string(), &season),
        Ok("S01E04".to_string()),
    );
    let dashed = "Show - 07 (BD)".to_string();
    assert_eq!(extract_episode_number(&dashed, &"1".to_string(), &season), Ok("07".to_string()));
    let bare = "Show 13 (BD)".to_string();
    assert_eq!(extract_episode_number(&bare, &"1".to_string(), &season), Ok("13".to_string()));
    let none = "Show Movie".to_string();
    assert_eq!(
        extract_episode_number(&none, &"1".to_string(), &season),
        Err("Failed to find episode number!".to_string()),
    );
    // Any other pattern names the episode directly.
    assert_eq!(
        extract_episode_number(&none, &"OVA".to_string(), &None),
        Ok("OVA".to_string()),
    );
}
