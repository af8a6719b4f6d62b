use hls_vod::params::{
    basename, AudioSegment, HlsParams, NumberTooLarge, Playlist, UrlType, VideoSegment, VttSegment,
};

fn parsed(url: &str) -> HlsParams {
    HlsParams::parse(url).unwrap()
}

fn full_url(p: &HlsParams) -> String {
    match &p.url_type {
        UrlType::MainPlaylist | UrlType::Playlist(_) => {
            let dir = &p.video_url[..p.video_url.len() - basename(&p.video_url).len()];
            format!("{}{}", dir, p.encode_url())
        }
        _ => format!(
            "{}/{}/{}",
            p.video_url,
            p.session_id.clone().unwrap(),
            p.encode_url()
        ),
    }
}

#[test]
fn urls_are_read() {
    let p = parsed("/movies/film.mkv.as.m3u8");
    assert!(matches!(p.url_type, UrlType::MainPlaylist));
    assert_eq!(p.video_url, "/movies/film.mkv");
    assert_eq!(p.session_id, None);

    let p = parsed("a.mp4/s1/t.1+2-aac.m3u8");
    assert_eq!(p.session_id.as_deref(), Some("s1"));
    match p.url_type {
        UrlType::Playlist(t) => {
            assert_eq!((t.track_id, t.audio_track_id), (1, Some(2)));
            assert_eq!(t.audio_transcode_to.as_deref(), Some("aac"));
        }
        other => panic!("{:?}", other),
    }
    match parsed("a.mp4/s1/t.4-aac.m3u8").url_type {
        UrlType::Playlist(t) => {
            assert_eq!((t.track_id, t.audio_track_id), (4, None));
            assert_eq!(t.audio_transcode_to.as_deref(), Some("aac"));
        }
        other => panic!("{:?}", other),
    }
    match parsed("a.webm/s/v/0+1-aac.17.m4s").url_type {
        UrlType::VideoSegment(v) => {
            assert_eq!((v.track_id, v.audio_track_id, v.segment_id), (0, Some(1), Some(17)));
            assert_eq!(v.audio_transcode_to.as_deref(), Some("aac"));
        }
        other => panic!("{:?}", other),
    }
    match parsed("a.webm/s/a/3.init.mp4").url_type {
        UrlType::AudioSegment(a) => {
            assert_eq!((a.track_id, a.segment_id), (3, None));
            assert_eq!(a.transcode_to, None);
        }
        other => panic!("{:?}", other),
    }
    match parsed("a.webm/s/s/2.10-12.vtt").url_type {
        UrlType::VttSegment(v) => assert_eq!((v.track_id, v.start_cue, v.end_cue), (2, 10, 12)),
        other => panic!("{:?}", other),
    }
}

#[test]
fn other_urls_are_not() {
    for url in [
        "",
        "film.mp4",
        ".mp4.as.m3u8",
        "film.avi.as.m3u8",
        "film.mp4/t.1.m3u8",
        "film.mp4//t.1.m3u8",
        "film.mp4/s/v/1.m4s",
        "film.mp4/s/v/1.2.init.mp4",
        "film.mp4/s/a/1-ac3.2.m4s",
        "film.mp4/s/a/1.2.m4s?x=1",
        "film.mp4/s/s/1.2.vtt",
        "film.mp4/s/x/1.2.m4s",
    ] {
        assert!(HlsParams::parse(url).is_none(), "{}", url);
    }
}

#[test]
fn numbers_have_to_fit() {
    let big = format!("f.mp4/s/v/{}9.0.m4s", usize::MAX);
    assert!(matches!(HlsParams::try_parse(&big), Err(NumberTooLarge)));
    let max = format!("f.mp4/s/v/{}.0.m4s", usize::MAX);
    match HlsParams::try_parse(&max) {
        Ok(Some(HlsParams { url_type: UrlType::VideoSegment(v), .. })) => {
            assert_eq!(v.track_id, usize::MAX)
        }
        other => panic!("{:?}", other),
    }
}

#[test]
fn the_longest_video_url_counts() {
    let p = parsed("a.mp4/b.mkv/s/t.1.m3u8");
    assert_eq!(p.video_url, "a.mp4/b.mkv");
    // A session id that looks like a video file changes the reading of a segment URL.
    assert!(HlsParams::parse("a.mp4/s.mp4/v/0.1.m4s").is_none());
    assert!(HlsParams::parse("a.mp4/s.mp4/t.0.m3u8").is_some());
}

#[test]
fn urls_read_back() {
    let types = vec![
        UrlType::Playlist(Playlist {
            track_id: 0,
            audio_track_id: None,
            audio_transcode_to: None,
        }),
        UrlType::Playlist(Playlist {
            track_id: 12,
            audio_track_id: Some(305),
            audio_transcode_to: Some("aac.m3u8".to_string()),
        }),
        UrlType::VideoSegment(VideoSegment {
            track_id: 1,
            audio_track_id: Some(2),
            audio_transcode_to: Some("aac".to_string()),
            segment_id: None,
        }),
        UrlType::VideoSegment(VideoSegment {
            track_id: 10,
            audio_track_id: None,
            audio_transcode_to: None,
            segment_id: Some(0),
        }),
        UrlType::AudioSegment(AudioSegment {
            track_id: 7,
            transcode_to: Some("opus".to_string()),
            segment_id: Some(1000),
        }),
        UrlType::VttSegment(VttSegment { track_id: 3, start_cue: 4, end_cue: 99 }),
    ];
    for url_type in types {
        let p = HlsParams {
            url_type,
            session_id: Some("0f8b-11".to_string()),
            video_url: "/media/a b/film.webm".to_string(),
        };
        let q = parsed(&full_url(&p));
        assert_eq!(format!("{:?}", p), format!("{:?}", q));
    }
    let p = HlsParams {
        url_type: UrlType::MainPlaylist,
        session_id: None,
        video_url: "x/film.mp4".to_string(),
    };
    assert_eq!(p.encode_url(), "film.mp4.as.m3u8");
    assert_eq!(format!("{:?}", parsed(&full_url(&p))), format!("{:?}", p));
}

#[test]
fn a_playlist_may_lack_a_session() {
    let p = HlsParams {
        url_type: UrlType::Playlist(Playlist {
            track_id: 1,
            audio_track_id: None,
            audio_transcode_to: Some("aac".to_string()),
        }),
        session_id: None,
        video_url: "dir/film.mp4".to_string(),
    };
    // The codec is named only beside an interleaved track.
    assert_eq!(p.encode_url(), "film.mp4/t.1.m3u8");
}

#[test]
fn segments_follow_each_other() {
    let p = parsed("f.mp4/s/v/0+1-aac.5.m4s");
    assert_eq!(p.with_segment_offset(2).unwrap().encode_url(), "v/0+1-aac.7.m4s");
    let p = parsed("f.mp4/s/a/1.5.m4s");
    let q = p.with_segment_offset(0).unwrap();
    assert_eq!(q.encode_url(), "a/1.5.m4s");
    assert_eq!(q.session_id.as_deref(), Some("s"));
    assert!(parsed("f.mp4/s/a/1.init.mp4").with_segment_offset(1).is_none());
    assert!(parsed("f.mp4/s/s/1.2-3.vtt").with_segment_offset(1).is_none());
    assert!(parsed("f.mp4.as.m3u8").with_segment_offset(1).is_none());
}

#[test]
fn mime_types_and_caching() {
    let cases = [
        ("f.mp4.as.m3u8", "application/vnd.apple.mpegurl", "no-cache"),
        ("f.mp4/s/t.1.m3u8", "application/vnd.apple.mpegurl", "no-cache"),
        ("f.mp4/s/v/1.init.mp4", "video/mp4", "max-age=3600"),
        ("f.mp4/s/v/1.1.m4s", "video/iso.segment", "max-age=3600"),
        ("f.mp4/s/a/1.init.mp4", "video/mp4", "max-age=3600"),
        ("f.mp4/s/a/1.1.m4s", "audio/mp4", "max-age=3600"),
        ("f.mp4/s/s/1.1-1.vtt", "text/vtt", "max-age=3600"),
    ];
    for (url, mime, control) in cases {
        let p = parsed(url);
        assert_eq!(p.mime_type(), mime);
        assert_eq!(p.cache_control(), control);
    }
    assert_eq!(basename("a/b/"), "");
    assert_eq!(basename("ab"), "ab");
}

struct Patterns {
    main: regex::Regex,
    session: regex::Regex,
    playlist: regex::Regex,
    audio: regex::Regex,
    video: regex::Regex,
    vtt: regex::Regex,
}

fn patterns() -> Patterns {
    let re = |s: &str| regex::Regex::new(s).unwrap();
    Patterns {
        main: re(r"^(.+\.(?:mp4|m4v|mkv|webm))\.as\.m3u8$"),
        session: re(r"^(.+\.(?:mp4|m4v|mkv|webm))/([^/]+)/(.+)$"),
        playlist: re(r"^t.(\d+)(?:\+(\d+))?(?:-(.+))?.(m3u8)"),
        audio: re(r"^a/(\d+)(?:-([a-z]+))?(?:\.(\d+))?\.(m4s|init.mp4)$"),
        video: re(r"^v/(\d+)(?:\+(\d+)(?:-([a-z]+))?)?(?:\.(\d+))?\.(m4s|init.mp4)"),
        vtt: re(r"^s/(\d+)\.(\d+)-(\d+)\.vtt$"),
    }
}

fn number(s: &str) -> Option<usize> {
    s.parse::<usize>().ok()
}

fn text(m: Option<regex::Match>) -> Option<String> {
    m.map(|m| m.as_str().to_string())
}

fn opt_number(m: Option<regex::Match>) -> Option<Option<usize>> {
    match m {
        None => Some(None),
        Some(m) => number(m.as_str()).map(Some),
    }
}

/// What the patterns make of a URL; an outer `None` stands for a number that does not fit.
fn by_patterns(p: &Patterns, url: &str) -> Option<Option<String>> {
    if let Some(c) = p.main.captures(url) {
        return Some(Some(format!("main {}", &c[1])));
    }
    let c = match p.session.captures(url) {
        None => return Some(None),
        Some(c) => c,
    };
    let head = format!("{} {}", &c[1], &c[2]);
    let rest = &c[3];
    if let Some(c) = p.playlist.captures(rest) {
        let track = number(&c[1])?;
        let audio = opt_number(c.get(2))?;
        return Some(Some(format!("{} t {} {:?} {:?}", head, track, audio, text(c.get(3)))));
    }
    if let Some(c) = p.audio.captures(rest) {
        if (&c[4] == "init.mp4" && c.get(3).is_some()) || (&c[4] == "m4s" && c.get(3).is_none()) {
            return Some(None);
        }
        let track = number(&c[1])?;
        let segment = opt_number(c.get(3))?;
        return Some(Some(format!("{} a {} {:?} {:?}", head, track, text(c.get(2)), segment)));
    }
    if let Some(c) = p.video.captures(rest) {
        if (&c[5] == "init.mp4" && c.get(4).is_some()) || (&c[5] == "m4s" && c.get(4).is_none()) {
            return Some(None);
        }
        let track = number(&c[1])?;
        let audio = opt_number(c.get(2))?;
        let segment = opt_number(c.get(4))?;
        return Some(Some(format!(
            "{} v {} {:?} {:?} {:?}",
            head,
            track,
            audio,
            text(c.get(3)),
            segment
        )));
    }
    if let Some(c) = p.vtt.captures(rest) {
        let (a, b, d) = (number(&c[1])?, number(&c[2])?, number(&c[3])?);
        return Some(Some(format!("{} s {} {} {}", head, a, b, d)));
    }
    Some(None)
}

fn by_parser(url: &str) -> Option<Option<String>> {
    let p = match HlsParams::try_parse(url) {
        Err(NumberTooLarge) => return None,
        Ok(None) => return Some(None),
        Ok(Some(p)) => p,
    };
    let head = format!("{} {}", p.video_url, p.session_id.clone().unwrap_or_default());
    Some(Some(match p.url_type {
        UrlType::MainPlaylist => format!("main {}", p.video_url),
        UrlType::Playlist(t) => format!(
            "{} t {} {:?} {:?}",
            head, t.track_id, t.audio_track_id, t.audio_transcode_to
        ),
        UrlType::AudioSegment(a) => {
            format!("{} a {} {:?} {:?}", head, a.track_id, a.transcode_to, a.segment_id)
        }
        UrlType::VideoSegment(v) => format!(
            "{} v {} {:?} {:?} {:?}",
            head, v.track_id, v.audio_track_id, v.audio_transcode_to, v.segment_id
        ),
        UrlType::VttSegment(s) => {
            format!("{} s {} {} {}", head, s.track_id, s.start_cue, s.end_cue)
        }
    }))
}

#[test]
fn the_parser_reads_what_the_patterns_match() {
    let p = patterns();
    let pieces = [
        "a", "v", "s", "t", "/", "/", ".", ".", "-", "+", "1", "23", "007", "m3u8", ".m3u8",
        ".as.m3u8", ".mp4", ".m4v", ".mkv", ".webm", "init", "mp4", ".init.mp4", "initXmp4", ".m4s",
        "m4s", ".vtt", "aac", "Q", "\n", "é", "99999999999999999999", "x.mp4/s/",
        "x.mp4/s/t.", "x.mp4/s/v/", "x.mp4/s/a/", "x.mp4/s/s/", "x.mp4/s/t.1+2-", "x.mp4/s/v/1+2",
        "x.mp4/s/a/1-aac", "x.mp4/s/s/1.2-3",
    ];
    let mut state: u64 = 0x9e37_79b9_7f4a_7c15;
    let mut next = |n: usize| {
        state ^= state << 13;
        state ^= state >> 7;
        state ^= state << 17;
        (state % n as u64) as usize
    };
    let mut hits = 0;
    for _ in 0..150_000 {
        let mut url = String::new();
        if next(2) == 0 {
            url.push_str(pieces[pieces.len() - 1 - next(8)]);
        }
        for _ in 0..1 + next(6) {
            url.push_str(pieces[next(pieces.len())]);
        }
        let expected = by_patterns(&p, &url);
        assert_eq!(by_parser(&url), expected, "{:?}", url);
        if let Some(Some(_)) = expected {
            hits += 1;
        }
    }
    assert!(hits > 1000, "only {} URLs were read", hits);
}

#[test]
fn test_parse_m4v() {
    let main = parsed("video.m4v.as.m3u8");
    assert!(matches!(main.url_type, UrlType::MainPlaylist));
    assert_eq!(main.session_id, None);
    assert_eq!(main.video_url, "video.m4v");
    let segment = parsed("video.m4v/s/v/0.3.m4s");
    assert_eq!(segment.session_id.as_deref(), Some("s"));
    assert_eq!(segment.video_url, "video.m4v");
}

#[test]
fn test_dotted_session_ids_read_back() {
    for session in ["a.b", ".", "mp4", "s.mp4x", "a.webm.", "x\ny"] {
        let segment = HlsParams {
            url_type: UrlType::VideoSegment(VideoSegment {
                track_id: 0,
                audio_track_id: Some(1),
                audio_transcode_to: Some("aac".to_string()),
                segment_id: Some(7),
            }),
            session_id: Some(session.to_string()),
            video_url: "/m/a.b.mkv".to_string(),
        };
        let url = format!("/m/a.b.mkv/{}/{}", session, segment.encode_url());
        let read = parsed(&url);
        assert_eq!(read.encode_url(), segment.encode_url());
        assert_eq!(read.session_id, segment.session_id);
        assert_eq!(read.video_url, segment.video_url);

        let playlist = HlsParams {
            url_type: UrlType::Playlist(Playlist {
                track_id: 0,
                audio_track_id: Some(1),
                audio_transcode_to: Some("ac3".to_string()),
            }),
            session_id: Some(session.to_string()),
            video_url: "/m/a.b.mkv".to_string(),
        };
        let read = parsed(&format!("/m/{}", playlist.encode_url()));
        assert_eq!(read.encode_url(), playlist.encode_url());
        assert_eq!(read.session_id, playlist.session_id);
        assert_eq!(read.video_url, playlist.video_url);
    }
}
