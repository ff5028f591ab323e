//! The transcode decision protocol at the streaming boundary: quality
//! presets, the client-profile limitation string, the parameter set
//! sent to both the decision and the manifest endpoint, and the
//! rewriting of manifest session paths onto the proxy route. The two
//! HTTP calls themselves (decision, then manifest) happen at the
//! transport layer with exactly these parameters.

use vstd::prelude::*;

use crate::codec::{after, expects};

verus! {

/// The bitrate ceiling (kbps), resolution and height of a requested
/// quality. Unknown or absent names map to the 1080p default.
pub fn quality_preset(quality: &Option<String>) -> (r: (String, String, String))
    ensures
        quality matches Some(q) && q@ == "4k"@ ==> r.0@ == "20000"@ && r.1@ == "3840x2160"@
            && r.2@ == "2160"@,
        quality matches Some(q) && (q@ == "1080p"@ || q@ == "1080"@) ==> r.0@ == "10000"@
            && r.1@ == "1920x1080"@ && r.2@ == "1080"@,
        quality matches Some(q) && (q@ == "720p"@ || q@ == "720"@) ==> r.0@ == "4000"@ && r.1@
            == "1280x720"@ && r.2@ == "720"@,
        quality matches Some(q) && (q@ == "480p"@ || q@ == "480"@) ==> r.0@ == "1500"@ && r.1@
            == "720x480"@ && r.2@ == "480"@,
        quality matches Some(q) && q@ == "original"@ ==> r.0@ == "200000"@ && r.1@
            == "1920x1080"@ && r.2@ == "1080"@,
        (match quality {
            Some(q) => q@ != "4k"@ && q@ != "1080p"@ && q@ != "1080"@ && q@ != "720p"@ && q@
                != "720"@ && q@ != "480p"@ && q@ != "480"@ && q@ != "original"@,
            None => true,
        }) ==> r.0@ == "10000"@ && r.1@ == "1920x1080"@ && r.2@ == "1080"@,
{
    proof {
        reveal_strlit("4k");
        reveal_strlit("1080p");
        reveal_strlit("1080");
        reveal_strlit("720p");
        reveal_strlit("720");
        reveal_strlit("480p");
        reveal_strlit("480");
        reveal_strlit("original");
        assert("4k"@.len() == 2);
        assert("1080p"@.len() == 5);
        assert("1080"@.len() == 4);
        assert("720p"@.len() == 4);
        assert("720"@.len() == 3);
        assert("480p"@.len() == 4);
        assert("480"@.len() == 3);
        assert("original"@.len() == 8);
        assert("1080"@[0] == '1');
        assert("720p"@[0] == '7');
        assert("480p"@[0] == '4');
        assert("720"@[0] == '7');
        assert("480"@[0] == '4');
    }
    match quality {
        Some(q) => {
            if crate::plex::str_eq(q.as_str(), "4k") {
                (String::from_str("20000"), String::from_str("3840x2160"), String::from_str(
                    "2160",
                ))
            } else if crate::plex::str_eq(q.as_str(), "1080p") || crate::plex::str_eq(
                q.as_str(),
                "1080",
            ) {
                (String::from_str("10000"), String::from_str("1920x1080"), String::from_str(
                    "1080",
                ))
            } else if crate::plex::str_eq(q.as_str(), "720p") || crate::plex::str_eq(
                q.as_str(),
                "720",
            ) {
                (String::from_str("4000"), String::from_str("1280x720"), String::from_str("720"))
            } else if crate::plex::str_eq(q.as_str(), "480p") || crate::plex::str_eq(
                q.as_str(),
                "480",
            ) {
                (String::from_str("1500"), String::from_str("720x480"), String::from_str("480"))
            } else if crate::plex::str_eq(q.as_str(), "original") {
                (String::from_str("200000"), String::from_str("1920x1080"), String::from_str(
                    "1080",
                ))
            } else {
                (String::from_str("10000"), String::from_str("1920x1080"), String::from_str(
                    "1080",
                ))
            }
        },
        None => (String::from_str("10000"), String::from_str("1920x1080"), String::from_str(
            "1080",
        )),
    }
}

/// The view of the client-profile limitation string for a bitrate
/// ceiling and a height ceiling.
pub open spec fn profile_extra_view(bitrate: Seq<char>, height: Seq<char>) -> Seq<char> {
    "add-limitation(scope=videoCodec&scopeName=*&type=upperBound&name=video.bitrate&value="@
        + bitrate + "&replace=true)+add-limitation(scope=videoCodec&scopeName=*&type=upperBound&name=video.height&value="@
        + height + "&replace=true)+append-transcode-target-codec(type=videoProfile&context=streaming&videoCodec=h264&audioCodec=aac&protocol=hls)"@
}

/// Build the client-profile limitation string: cap the video bitrate
/// and height, and force an HLS h264/aac target.
pub fn profile_extra(bitrate: &String, height: &String) -> (r: String)
    ensures
        r@ == profile_extra_view(bitrate@, height@),
{
    let mut r = String::from_str(
        "add-limitation(scope=videoCodec&scopeName=*&type=upperBound&name=video.bitrate&value=",
    );
    r.append(bitrate.as_str());
    r.append(
        "&replace=true)+add-limitation(scope=videoCodec&scopeName=*&type=upperBound&name=video.height&value=",
    );
    r.append(height.as_str());
    r.append(
        "&replace=true)+append-transcode-target-codec(type=videoProfile&context=streaming&videoCodec=h264&audioCodec=aac&protocol=hls)",
    );
    r
}

/// The media path of an item id.
pub fn media_path(id: &String) -> (r: String)
    ensures
        r@ == "/library/metadata/"@ + id@,
{
    let mut r = String::from_str("/library/metadata/");
    r.append(id.as_str());
    r
}

/// The full parameter set of the two-step transcode protocol: sent
/// first to the decision endpoint, then unchanged to the manifest
/// endpoint. The session id threads through both calls and later
/// stops the transcode; the client identifier keys the server-side
/// decision cache, so it must be stable per tab and distinct across
/// tabs.
pub fn transcode_params(
    id: &String,
    resolution: &String,
    bitrate: &String,
    session: &String,
    profile: &String,
    token: &String,
    client_id: &String,
) -> (r: Vec<(String, String)>)
    ensures
        r@.len() == 21,
        r@[0].0@ == "hasMDE"@ && r@[0].1@ == "1"@,
        r@[1].0@ == "path"@ && r@[1].1@ == "/library/metadata/"@ + id@,
        r@[2].0@ == "mediaIndex"@ && r@[2].1@ == "0"@,
        r@[3].0@ == "partIndex"@ && r@[3].1@ == "0"@,
        r@[4].0@ == "protocol"@ && r@[4].1@ == "hls"@,
        r@[5].0@ == "fastSeek"@ && r@[5].1@ == "1"@,
        r@[6].0@ == "directPlay"@ && r@[6].1@ == "0"@,
        r@[7].0@ == "directStream"@ && r@[7].1@ == "0"@,
        r@[8].0@ == "directStreamAudio"@ && r@[8].1@ == "0"@,
        r@[9].0@ == "videoResolution"@ && r@[9].1@ == resolution@,
        r@[10].0@ == "videoQuality"@ && r@[10].1@ == "100"@,
        r@[11].0@ == "maxVideoBitrate"@ && r@[11].1@ == bitrate@,
        r@[12].0@ == "autoAdjustQuality"@ && r@[12].1@ == "0"@,
        r@[13].0@ == "subtitleSize"@ && r@[13].1@ == "100"@,
        r@[14].0@ == "audioBoost"@ && r@[14].1@ == "100"@,
        r@[15].0@ == "mediaBufferSize"@ && r@[15].1@ == "102400"@,
        r@[16].0@ == "location"@ && r@[16].1@ == "lan"@,
        r@[17].0@ == "session"@ && r@[17].1@ == session@,
        r@[18].0@ == "X-Plex-Client-Profile-Extra"@ && r@[18].1@ == profile@,
        r@[19].0@ == "X-Plex-Token"@ && r@[19].1@ == token@,
        r@[20].0@ == "X-Plex-Client-Identifier"@ && r@[20].1@ == client_id@,
{
    let mut r: Vec<(String, String)> = Vec::new();
    r.push((String::from_str("hasMDE"), String::from_str("1")));
    r.push((String::from_str("path"), media_path(id)));
    r.push((String::from_str("mediaIndex"), String::from_str("0")));
    r.push((String::from_str("partIndex"), String::from_str("0")));
    r.push((String::from_str("protocol"), String::from_str("hls")));
    r.push((String::from_str("fastSeek"), String::from_str("1")));
    r.push((String::from_str("directPlay"), String::from_str("0")));
    r.push((String::from_str("directStream"), String::from_str("0")));
    r.push((String::from_str("directStreamAudio"), String::from_str("0")));
    r.push((String::from_str("videoResolution"), resolution.clone()));
    r.push((String::from_str("videoQuality"), String::from_str("100")));
    r.push((String::from_str("maxVideoBitrate"), bitrate.clone()));
    r.push((String::from_str("autoAdjustQuality"), String::from_str("0")));
    r.push((String::from_str("subtitleSize"), String::from_str("100")));
    r.push((String::from_str("audioBoost"), String::from_str("100")));
    r.push((String::from_str("mediaBufferSize"), String::from_str("102400")));
    r.push((String::from_str("location"), String::from_str("lan")));
    r.push((String::from_str("session"), session.clone()));
    r.push((String::from_str("X-Plex-Client-Profile-Extra"), profile.clone()));
    r.push((String::from_str("X-Plex-Token"), token.clone()));
    r.push((String::from_str("X-Plex-Client-Identifier"), client_id.clone()));
    r
}

/// A line of the text spans `[i, j)`.
pub open spec fn line_at(s: Seq<char>, i: int, j: int) -> bool {
    &&& 0 <= i <= j <= s.len()
    &&& (i == 0 || s[i - 1] == '\n')
    &&& (j == s.len() || s[j] == '\n')
    &&& forall|k: int| i <= k < j ==> s[k] != '\n'
}

/// A line that names a session: nonempty and no comment marker.
pub open spec fn session_line_at(s: Seq<char>, i: int, j: int) -> bool {
    line_at(s, i, j) && j > i && s[i] != '#'
}

/// The first line of a manifest that is neither empty nor a comment:
/// the session path of the transcode. Returns nothing when every line
/// is empty or a comment.
pub fn extract_session_path(m3u8: &str) -> (r: Option<String>)
    ensures
        r matches Some(l) ==> exists|i: int, j: int| #[trigger]
            session_line_at(m3u8@, i, j) && l@ == m3u8@.subrange(i, j) && (forall|i2: int, j2: int|
                session_line_at(m3u8@, i2, j2) ==> i <= i2),
        r is None ==> !(exists|i: int, j: int| #[trigger] session_line_at(m3u8@, i, j)),
{
    let n = m3u8.unicode_len();
    let mut i: usize = 0;
    while i < n
        invariant
            0 <= i <= n,
            n == m3u8@.len(),
            i == 0 || m3u8@[i - 1] == '\n',
            forall|i2: int, j2: int| #[trigger]
                session_line_at(m3u8@, i2, j2) ==> i2 >= i,
        decreases n - i,
    {
        let mut j: usize = i;
        let mut saw_newline = false;
        while j < n && !saw_newline
            invariant
                i <= j <= n,
                n == m3u8@.len(),
                forall|k: int| i <= k < j ==> m3u8@[k] != '\n',
                saw_newline ==> j < n && m3u8@[j as int] == '\n',
            decreases n - j + (if saw_newline {
                0 as int
            } else {
                1 as int
            }),
        {
            if m3u8.get_char(j) == '\n' {
                saw_newline = true;
            } else {
                j = j + 1;
            }
        }
        proof {
            assert(line_at(m3u8@, i as int, j as int));
        }
        if j > i && m3u8.get_char(i) != '#' {
            proof {
                assert(session_line_at(m3u8@, i as int, j as int));
                assert forall|i2: int, j2: int|
                    session_line_at(m3u8@, i2, j2) implies i as int <= i2 by {}
            }
            return Some(String::from_str(m3u8.substring_char(i, j)));
        }
        proof {
            assert forall|i2: int, j2: int| #[trigger]
                session_line_at(m3u8@, i2, j2) implies i2 >= j + 1 by {
                if i2 < i {
                } else if i2 == i {
                    if j2 < j {
                        assert(m3u8@[j2] != '\n');
                    } else if j2 > j {
                        assert(j < n);
                        assert(m3u8@[j as int] != '\n');
                    }
                } else if i2 <= j {
                    assert(m3u8@[i2 - 1] == '\n');
                    assert(m3u8@[i2 - 1] != '\n');
                }
            }
        }
        if j >= n {
            proof {
                assert forall|i2: int, j2: int| #[trigger]
                    session_line_at(m3u8@, i2, j2) implies false by {
                    assert(i2 >= j + 1);
                    assert(i2 > n);
                    assert(i2 <= m3u8@.len());
                }
            }
            return None;
        }
        i = j + 1;
    }
    proof {
        assert forall|i2: int, j2: int| #[trigger]
            session_line_at(m3u8@, i2, j2) implies false by {
            assert(i2 >= i);
            assert(i2 <= j2 <= n);
            assert(i2 == n && j2 == n);
        }
    }
    None
}

/// Rewrite a manifest session path onto the proxy route, so the
/// upstream server's address never reaches a client: an absolute path
/// under the upstream transcoder moves to the proxy prefix, any other
/// absolute address passes through unchanged, and a relative path is
/// mounted under the proxy prefix.
pub fn rewrite_stream_url(session_path: &String, base_url: &String) -> (r: String)
    ensures
        ({
            let full = base_url@ + "/video/:/transcode/universal/"@;
            &&& (expects(session_path@, "http"@) && expects(session_path@, full) ==> r@
                == "/api/media/transcode/"@ + after(session_path@, full))
            &&& (expects(session_path@, "http"@) && !expects(session_path@, full) ==> r@
                == session_path@)
            &&& (!expects(session_path@, "http"@) ==> r@ == "/api/media/transcode/"@
                + session_path@)
        }),
{
    let mut full = base_url.clone();
    full.append("/video/:/transcode/universal/");
    if starts_with(session_path.as_str(), "http") {
        if starts_with(session_path.as_str(), full.as_str()) {
            let n = session_path.unicode_len();
            let fl = full.unicode_len();
            let mut r = String::from_str("/api/media/transcode/");
            r.append(session_path.as_str().substring_char(fl, n));
            r
        } else {
            session_path.clone()
        }
    } else {
        let mut r = String::from_str("/api/media/transcode/");
        r.append(session_path.as_str());
        r
    }
}

/// Whether the text begins with the prefix.
pub fn starts_with(s: &str, prefix: &str) -> (r: bool)
    ensures
        r == expects(s@, prefix@),
{
    let n = s.unicode_len();
    let pn = prefix.unicode_len();
    if pn > n {
        return false;
    }
    crate::plex::occurs_at(s, 0, prefix)
}

} // verus!
