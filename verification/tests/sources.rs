use native_audio::cache::{
    download_to_cache, fetch_failed, is_fresh, refine_ext, type_ext, url_ext, url_hash, AudioExt,
    CacheEntry, DownloadStep,
};
use native_audio::source::{
    address_path, file_checked, resolve_src, resource_checked, trim_slashes, SourceStep,
};
use native_audio::text::{append_decimal, is_whitespace, trim};

fn shown(step: SourceStep) -> String {
    match step {
        SourceStep::Use(p) => format!("use {p}"),
        SourceStep::UseResource => "use resource".to_string(),
        SourceStep::Resource { resource, fallback } => format!("resource {resource} or {fallback}"),
        SourceStep::File(p) => format!("file {p}"),
        SourceStep::Download(u) => format!("download {u}"),
        SourceStep::Fail(e) => format!("fail {e}"),
    }
}

fn next(step: DownloadStep) -> String {
    match step {
        DownloadStep::CheckCache => "check".to_string(),
        DownloadStep::Fetch => "fetch".to_string(),
        DownloadStep::Store => "store".to_string(),
        DownloadStep::Finished => "finished".to_string(),
        DownloadStep::Fail(e) => format!("fail {e}"),
    }
}

#[test]
fn white_space_is_that_of_unicode() {
    for v in 0..=0x10ffffu32 {
        if let Some(c) = char::from_u32(v) {
            assert_eq!(is_whitespace(c), c.is_whitespace());
        }
    }
}

#[test]
fn trimming_agrees_with_the_standard_library() {
    for s in ["", " ", "a", " a ", "\t\n a b \u{3000}", "\u{a0}é\u{2003}", "x  ", "  ж"] {
        assert_eq!(trim(s), s.trim());
        assert_eq!(trim(trim(s)), trim(s));
    }
}

#[test]
fn numbers_in_decimal() {
    for n in [0u16, 7, 10, 99, 100, 404, 500, 65535] {
        let mut s = String::from("n=");
        append_decimal(&mut s, n);
        assert_eq!(s, format!("n={n}"));
    }
}

#[test]
fn a_blank_source_is_refused() {
    assert_eq!(shown(resolve_src("")), "fail src is required");
    assert_eq!(shown(resolve_src(" \t\u{2003}\n")), "fail src is required");
}

#[test]
fn a_file_address_is_used_as_it_stands() {
    assert_eq!(shown(resolve_src("file:///music/a.mp3")), "use /music/a.mp3");
    assert_eq!(shown(resolve_src("  file://é.ogg ")), "use é.ogg");
    assert_eq!(shown(resolve_src("file://")), "use ");
}

#[test]
fn an_asset_is_looked_up() {
    assert_eq!(
        shown(resolve_src("asset://localhost//music/a.mp3")),
        "resource music/a.mp3 or //music/a.mp3"
    );
    assert_eq!(
        shown(resolve_src("http://asset.localhost/a.mp3")),
        "resource a.mp3 or /a.mp3"
    );
    // Without a path it may still be a file.
    assert_eq!(shown(resolve_src("asset://localhost")), "file asset://localhost");
    assert_eq!(shown(resolve_src("asset.localhost/a")), "file asset.localhost/a");
    assert_eq!(shown(resource_checked("/a.mp3".to_string(), true)), "use resource");
    assert_eq!(shown(resource_checked("/a.mp3".to_string(), false)), "use /a.mp3");
}

#[test]
fn anything_else_may_be_a_file() {
    assert_eq!(shown(resolve_src(" /music/a.mp3 ")), "file /music/a.mp3");
    assert_eq!(shown(resolve_src("https://x.org/a.mp3")), "file https://x.org/a.mp3");
    assert_eq!(shown(file_checked("/a.mp3".to_string(), true)), "use /a.mp3");
    assert_eq!(shown(file_checked("/a.mp3".to_string(), false)), "fail file not found: /a.mp3");
}

#[test]
fn web_addresses_are_downloaded_unless_segmented() {
    for u in ["http://x/a", "https://x/a.mp3?q=1"] {
        assert_eq!(shown(file_checked(u.to_string(), false)), format!("download {u}"));
        assert_eq!(shown(file_checked(u.to_string(), true)), format!("use {u}"));
    }
    for u in ["http://x/a.m3u8", "https://x/a.mpd?q=1"] {
        assert_eq!(
            shown(file_checked(u.to_string(), false)),
            "fail HLS/DASH (.m3u8/.mpd) not supported on desktop rodio backend, use progressive mp3/mp4/ogg/wav"
        );
    }
    assert_eq!(shown(file_checked("ftp://x/a".to_string(), false)), "fail file not found: ftp://x/a");
}

#[test]
fn paths_of_addresses() {
    assert_eq!(address_path("a://b/c/d"), Some("/c/d".to_string()));
    assert_eq!(address_path("a://é/ж"), Some("/ж".to_string()));
    assert_eq!(address_path("a://b"), None);
    assert_eq!(address_path("a/b"), None);
    assert_eq!(trim_slashes("///a/b"), "a/b");
    assert_eq!(trim_slashes("a"), "a");
    assert_eq!(trim_slashes("//"), "");
}

#[test]
fn hashes_are_sha256_in_hexadecimal() {
    assert_eq!(
        url_hash("abc"),
        "ba7816bf8f01cfea414140de5dae2223b00361a396177a9cb410ff61f20015ad"
    );
    assert_eq!(
        url_hash(""),
        "e3b0c44298fc1c149afbf4c8996fb92427ae41e4649b934ca495991b7852b855"
    );
    assert_eq!(url_hash("é").len(), 64);
}

#[test]
fn extensions_of_addresses() {
    let cases = [
        ("https://x.org/a.mp3", AudioExt::Mp3),
        ("https://x.org/a.OGG?x=1.mp3", AudioExt::Ogg),
        ("https://x.org/a.Flac", AudioExt::Flac),
        ("https://x.org/a.wav", AudioExt::Wav),
        ("https://x.org/a.m4a?a?b", AudioExt::M4a),
        ("https://x.org/a.aac", AudioExt::Aac),
        ("https://x.org/a.opus", AudioExt::Opus),
        ("https://x.org/a.b.mp4", AudioExt::Mp4),
        ("https://x.org/a", AudioExt::Mp3),
        ("https://x.org/a.exe", AudioExt::Mp3),
        ("https://x.org/a.", AudioExt::Mp3),
        ("https://x.org/a.ogg/b", AudioExt::Mp3),
        ("https://x.org/a.oggé", AudioExt::Mp3),
        ("", AudioExt::Mp3),
        ("?a.ogg", AudioExt::Mp3),
        ("wav", AudioExt::Wav),
    ];
    for (url, ext) in cases {
        assert_eq!(url_ext(url), ext, "{url}");
    }
    assert_eq!(AudioExt::Opus.suffix(), ".opus");
    assert_eq!(AudioExt::Flac.suffix(), ".flac");
}

#[test]
fn content_types() {
    assert_eq!(type_ext("audio/ogg"), Some(AudioExt::Ogg));
    assert_eq!(type_ext("audio/opus"), Some(AudioExt::Ogg));
    assert_eq!(type_ext("audio/x-flac"), Some(AudioExt::Flac));
    assert_eq!(type_ext("audio/wav; codecs=1"), Some(AudioExt::Wav));
    assert_eq!(type_ext("audio/mp4"), Some(AudioExt::M4a));
    assert_eq!(type_ext("audio/x-m4a"), Some(AudioExt::M4a));
    assert_eq!(type_ext("audio/aac"), Some(AudioExt::M4a));
    assert_eq!(type_ext("audio/mpeg"), None);
    assert_eq!(refine_ext(AudioExt::Mp3, Some("audio/flac")), AudioExt::Flac);
    assert_eq!(refine_ext(AudioExt::Mp3, None), AudioExt::Mp3);
    assert_eq!(refine_ext(AudioExt::Wav, Some("audio/flac")), AudioExt::Wav);
}

#[test]
fn fresh_files_are_young_and_not_empty() {
    let entry = |len: u64, age: Option<u64>| Some(CacheEntry { len, age_secs: age });
    assert!(is_fresh(entry(1, Some(0))));
    assert!(is_fresh(entry(1, Some(86399))));
    assert!(!is_fresh(entry(1, Some(86400))));
    assert!(!is_fresh(entry(0, Some(0))));
    assert!(!is_fresh(entry(1, None)));
    assert!(!is_fresh(None));
}

#[test]
fn a_download_from_start_to_end() {
    let mut dl = download_to_cache("abc");
    let hash = "ba7816bf8f01cfea414140de5dae2223b00361a396177a9cb410ff61f20015ad";
    assert_eq!(dl.file_name(), format!("{hash}.mp3"));
    assert_eq!(dl.temp_name(), format!("{hash}.tmp"));
    let young = Some(CacheEntry { len: 5, age_secs: Some(3) });
    assert_eq!(next(dl.cache_checked(young)), "finished");
    assert_eq!(next(dl.cache_checked(None)), "fetch");
    assert_eq!(next(dl.responded(404, Some("Audio/FLAC"))), "fail http status 404");
    assert_eq!(dl.file_name(), format!("{hash}.mp3"));
    assert_eq!(next(dl.responded(200, Some("Audio/FLAC"))), "check");
    assert_eq!(dl.file_name(), format!("{hash}.flac"));
    assert_eq!(dl.temp_name(), format!("{hash}.tmp"));
    assert_eq!(next(dl.cache_checked(young)), "finished");
    assert_eq!(next(dl.cache_checked(None)), "store");
}

#[test]
fn a_known_extension_is_kept() {
    let mut dl = download_to_cache("https://x.org/a.ogg");
    assert!(dl.file_name().ends_with(".ogg"));
    assert_eq!(next(dl.responded(200, Some("audio/flac"))), "store");
    assert!(dl.file_name().ends_with(".ogg"));
    let mut plain = download_to_cache("https://x.org/a.mp3");
    assert_eq!(next(plain.responded(200, None)), "store");
    assert!(plain.file_name().ends_with(".mp3"));
    let mut mpeg = download_to_cache("https://x.org/a.mp3");
    assert_eq!(next(mpeg.responded_lowered(200, Some("audio/mpeg"))), "store");
    assert_eq!(fetch_failed("timeout"), "http fetch failed: timeout");
}
