use playarr::config::{
    default_true, pick, AppConfig, DownloadClientConfig, DownloadClientType,
};
use playarr::plex::{
    contains_sub, fallback_token, select_server_token, str_eq, user_from_cookie,
    user_token_from_cookie, ResourceEntry, TokenCache,
};
use playarr::subtitles::{api_key, require_api_key};
use playarr::transcode::{
    extract_session_path, media_path, profile_extra, quality_preset, rewrite_stream_url,
    transcode_params,
};

#[test]
fn cookie_three_fields() {
    let r = user_from_cookie("512:idtok:srvtok").unwrap();
    assert_eq!(r.0, 512);
    assert_eq!(r.1, "idtok");
    assert_eq!(
        user_token_from_cookie("512:idtok:srvtok"),
        Some("srvtok".to_string())
    );
}

#[test]
fn cookie_legacy_two_fields() {
    let r = user_from_cookie("7:only").unwrap();
    assert_eq!(r.0, 7);
    assert_eq!(r.1, "only");
    assert_eq!(user_token_from_cookie("7:only"), Some("only".to_string()));
}

#[test]
fn cookie_rejects_bad_forms() {
    assert!(user_from_cookie("noseparator").is_none());
    assert!(user_from_cookie("abc:tok").is_none());
    assert!(user_from_cookie(":tok").is_none());
    assert!(user_token_from_cookie("noseparator").is_none());
}

#[test]
fn resolver_matches_machine_identifier() {
    let resources = vec![
        ResourceEntry {
            client_identifier: "other".to_string(),
            access_token: Some("SECRET-REDACTED".to_string()),
            provides: "server".to_string(),
        },
        ResourceEntry {
            client_identifier: "mine".to_string(),
            access_token: Some("good".to_string()),
            provides: "server,client".to_string(),
        },
    ];
    let r = select_server_token(&resources, &Some("mine".to_string()));
    assert_eq!(r, Some("good".to_string()));
}

#[test]
fn resolver_single_server_fallback() {
    let resources = vec![
        ResourceEntry {
            client_identifier: "a".to_string(),
            access_token: Some("tok".to_string()),
            provides: "server".to_string(),
        },
        ResourceEntry {
            client_identifier: "b".to_string(),
            access_token: Some("no".to_string()),
            provides: "player".to_string(),
        },
    ];
    assert_eq!(
        select_server_token(&resources, &Some("absent".to_string())),
        Some("tok".to_string())
    );
    assert_eq!(select_server_token(&resources, &None), Some("tok".to_string()));
}

#[test]
fn resolver_ambiguous_gives_nothing() {
    let srv = |id: &str| ResourceEntry {
        client_identifier: id.to_string(),
        access_token: Some(format!("t-{}", id)),
        provides: "server".to_string(),
    };
    let resources = vec![srv("a"), srv("b")];
    assert_eq!(select_server_token(&resources, &None), None);
    assert_eq!(select_server_token(&vec![], &None), None);
}

#[test]
fn token_cache_stores_and_replaces() {
    let mut c = TokenCache::new();
    assert_eq!(c.get("u1"), None);
    c.put("u1".to_string(), "t1".to_string());
    c.put("u2".to_string(), "t2".to_string());
    assert_eq!(c.get("u1"), Some("t1".to_string()));
    assert_eq!(c.get("u2"), Some("t2".to_string()));
    c.put("u1".to_string(), "t3".to_string());
    assert_eq!(c.get("u1"), Some("t3".to_string()));
}

#[test]
fn fallback_prefers_resolved_then_admin() {
    let orig = "user-tok".to_string();
    let admin = "admin-tok".to_string();
    assert_eq!(
        fallback_token(&orig, &Some("fresh".to_string()), &admin),
        Some("fresh".to_string())
    );
    assert_eq!(
        fallback_token(&orig, &Some(orig.clone()), &admin),
        Some(admin.clone())
    );
    assert_eq!(fallback_token(&orig, &None, &admin), Some(admin.clone()));
    assert_eq!(fallback_token(&orig, &None, &String::new()), None);
    assert_eq!(fallback_token(&admin, &None, &admin), None);
}

#[test]
fn string_helpers() {
    assert!(contains_sub("provides=server,client", "server"));
    assert!(!contains_sub("player", "server"));
    assert!(contains_sub("anything", ""));
    assert!(str_eq("abc", "abc"));
    assert!(!str_eq("abc", "abd"));
    assert!(!str_eq("abc", "ab"));
}

#[test]
fn quality_presets() {
    let (b, r, h) = quality_preset(&Some("4k".to_string()));
    assert_eq!((b.as_str(), r.as_str(), h.as_str()), ("20000", "3840x2160", "2160"));
    let (b, r, h) = quality_preset(&Some("720p".to_string()));
    assert_eq!((b.as_str(), r.as_str(), h.as_str()), ("4000", "1280x720", "720"));
    let (b, r, h) = quality_preset(&Some("480".to_string()));
    assert_eq!((b.as_str(), r.as_str(), h.as_str()), ("1500", "720x480", "480"));
    let (b, r, h) = quality_preset(&Some("original".to_string()));
    assert_eq!((b.as_str(), r.as_str(), h.as_str()), ("200000", "1920x1080", "1080"));
    let (b, r, h) = quality_preset(&None);
    assert_eq!((b.as_str(), r.as_str(), h.as_str()), ("10000", "1920x1080", "1080"));
    let (b, _, _) = quality_preset(&Some("potato".to_string()));
    assert_eq!(b.as_str(), "10000");
}

#[test]
fn transcode_parameter_set() {
    let params = transcode_params(
        &"77".to_string(),
        &"1280x720".to_string(),
        &"4000".to_string(),
        &"sess-1".to_string(),
        &profile_extra(&"4000".to_string(), &"720".to_string()),
        &"tok".to_string(),
        &"client-9".to_string(),
    );
    assert_eq!(params.len(), 21);
    assert_eq!(params[1], ("path".to_string(), "/library/metadata/77".to_string()));
    assert_eq!(params[4], ("protocol".to_string(), "hls".to_string()));
    assert_eq!(params[17], ("session".to_string(), "sess-1".to_string()));
    assert_eq!(
        params[20],
        ("X-Plex-Client-Identifier".to_string(), "client-9".to_string())
    );
    let profile = &params[18].1;
    assert!(profile.contains("video.bitrate&value=4000"));
    assert!(profile.contains("video.height&value=720"));
    assert_eq!(media_path(&"77".to_string()), "/library/metadata/77");
}

#[test]
fn session_path_extraction() {
    let m3u8 = "#EXTM3U\n#EXT-X-STREAM-INF:BANDWIDTH=1\nsession/abc/base/index.m3u8\n";
    assert_eq!(
        extract_session_path(m3u8),
        Some("session/abc/base/index.m3u8".to_string())
    );
    assert_eq!(extract_session_path("#only\n#comments\n\n"), None);
    assert_eq!(extract_session_path(""), None);
    assert_eq!(extract_session_path("first\nsecond\n"), Some("first".to_string()));
}

#[test]
fn stream_url_rewriting() {
    let base = "http://10.0.0.2:32400".to_string();
    let abs = format!("{}/video/:/transcode/universal/session/s1/index.m3u8", base);
    assert_eq!(
        rewrite_stream_url(&abs, &base),
        "/api/media/transcode/session/s1/index.m3u8"
    );
    let other = "http://elsewhere/thing.m3u8".to_string();
    assert_eq!(rewrite_stream_url(&other, &base), other);
    let rel = "session/s1/index.m3u8".to_string();
    assert_eq!(
        rewrite_stream_url(&rel, &base),
        "/api/media/transcode/session/s1/index.m3u8"
    );
}

#[test]
fn redacted_config_hides_secrets() {
    let mut cfg = AppConfig::default();
    cfg.plex.url = "http://pms".to_string();
    cfg.plex.token = "SECRET-REDACTED".to_string();
    cfg.sonarr.api_key = "k".to_string();
    cfg.download_clients.push(DownloadClientConfig {
        name: "nz".to_string(),
        client_type: DownloadClientType::Sabnzbd,
        url: "http://dl".to_string(),
        api_key: String::new(),
        username: "u".to_string(),
        password: String::new(),
        enabled: default_true(),
    });
    let red = cfg.redacted();
    assert_eq!(red.plex.url, "http://pms");
    assert!(red.plex.has_token);
    assert!(red.sonarr.has_api_key);
    assert!(!red.radarr.has_api_key);
    assert_eq!(red.download_clients.len(), 1);
    let d = &red.download_clients[0];
    assert_eq!(d.name, "nz");
    assert!(!d.has_api_key);
    assert!(d.has_credentials);
    assert!(d.enabled);
}

#[test]
fn default_config_shape() {
    let cfg = AppConfig::default();
    assert!(cfg.plex.url.is_empty());
    assert!(cfg.plex.token.is_empty());
    assert_eq!(cfg.plex.client_id.chars().count(), 36);
    assert_eq!(cfg.plex.admin_user_id, 0);
    assert!(cfg.download_clients.is_empty());
}

#[test]
fn pick_prefers_nonempty_override() {
    assert_eq!(pick(&Some("new".to_string()), "old"), "new");
    assert_eq!(pick(&Some(String::new()), "old"), "old");
    assert_eq!(pick(&None, "old"), "old");
}

#[test]
fn srt_becomes_vtt() {
    let srt = "1\n00:00:01,000 --> 00:00:04,000\nHello, world\n";
    let vtt = playarr::subtitles::srt_to_vtt(srt);
    assert_eq!(
        vtt,
        "WEBVTT\n\n1\n00:00:01.000 --> 00:00:04.000\nHello, world\n"
    );
}

#[test]
fn srt_conversion_handles_crlf_and_no_trailing_newline() {
    let srt = "1\r\n00:00:01,500 --> 00:00:02,000\r\nLine";
    let vtt = playarr::subtitles::srt_to_vtt(srt);
    assert_eq!(
        vtt,
        "WEBVTT\n\n1\n00:00:01.500 --> 00:00:02.000\nLine\n"
    );
    assert_eq!(playarr::subtitles::srt_to_vtt(""), "WEBVTT\n\n");
}

#[test]
fn xml_attribute_extraction() {
    let xml = "<pin id=\"1234\" code=\"ABCD\"/>";
    assert_eq!(
        playarr::auth::extract_xml_attr(xml, "code"),
        Some("ABCD".to_string())
    );
    assert_eq!(
        playarr::auth::extract_xml_attr(xml, "id"),
        Some("1234".to_string())
    );
    assert_eq!(playarr::auth::extract_xml_attr(xml, "missing"), None);
    assert_eq!(playarr::auth::extract_xml_attr("<pin code=\"unterminated", "code"), None);
}

#[test]
fn subtitle_api_key_choice() {
    assert_eq!(api_key(&"saved".to_string(), "built-in"), "saved");
    assert_eq!(api_key(&String::new(), "built-in"), "built-in");
    assert!(require_api_key(&String::new(), "").is_err());
    assert_eq!(require_api_key(&String::new(), "x").unwrap(), "x");
}
