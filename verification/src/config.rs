//! Application configuration: the upstream media server, the two
//! indexers, and the download clients. Secrets never leave the process
//! unredacted: API responses carry the redacted form, which replaces
//! each credential by a flag saying whether one is set.

use vstd::prelude::*;

use crate::store::fresh_uuid128;
use crate::strutil::{hex_lower, push_char};

verus! {

/// Connection settings for the upstream media server.
#[derive(Clone, Debug)]
pub struct PlexConfig {
    pub url: String,
    pub token: String,
    /// Stable client identifier sent with every upstream request.
    pub client_id: String,
    /// User id of the admin who completed initial setup.
    pub admin_user_id: i64,
}

/// Connection settings for the series indexer.
#[derive(Clone, Debug)]
pub struct SonarrConfig {
    pub url: String,
    pub api_key: String,
}

/// Connection settings for the movie indexer.
#[derive(Clone, Debug)]
pub struct RadarrConfig {
    pub url: String,
    pub api_key: String,
}

/// The kind of download client an entry talks to.
#[derive(Clone, Copy, PartialEq, Eq, Structural, Debug)]
pub enum DownloadClientType {
    Sabnzbd,
    Nzbget,
    Qbittorrent,
    Transmission,
}

/// One configured download client.
#[derive(Clone, Debug)]
pub struct DownloadClientConfig {
    pub name: String,
    pub client_type: DownloadClientType,
    pub url: String,
    pub api_key: String,
    pub username: String,
    pub password: String,
    pub enabled: bool,
}

/// The whole application configuration.
#[derive(Clone, Debug)]
pub struct AppConfig {
    pub plex: PlexConfig,
    pub sonarr: SonarrConfig,
    pub radarr: RadarrConfig,
    pub download_clients: Vec<DownloadClientConfig>,
}

/// The default value of the `enabled` flag of a download client.
pub fn default_true() -> (r: bool)
    ensures
        r,
{
    true
}

/// Format a 128-bit value as a hyphenated lowercase identifier string,
/// the shape of a freshly generated client id.
fn uuid_string_of(n: u128) -> (s: String)
    ensures
        s@.len() == 36,
{
    let mut s = String::new();
    let mut k: usize = 0;
    while k < 32
        invariant
            0 <= k <= 32,
            s@.len() == k + (if k > 20 {
                4 as int
            } else if k > 16 {
                3 as int
            } else if k > 12 {
                2 as int
            } else if k > 8 {
                1 as int
            } else {
                0 as int
            }),
        decreases 32 - k,
    {
        if k == 8 || k == 12 || k == 16 || k == 20 {
            push_char(&mut s, '-');
        }
        let shift: u32 = 124 - 4 * (k as u32);
        let nib: u8 = ((n >> shift) % 16) as u8;
        push_char(&mut s, hex_lower(nib));
        k = k + 1;
    }
    s
}

impl Default for PlexConfig {
    /// An unconfigured upstream: empty url and token, a freshly drawn
    /// client identifier, and no admin.
    fn default() -> (c: Self)
        ensures
            c.url@.len() == 0,
            c.token@.len() == 0,
            c.client_id@.len() == 36,
            c.admin_user_id == 0,
    {
        PlexConfig {
            url: String::new(),
            token: String::new(),
            client_id: uuid_string_of(fresh_uuid128()),
            admin_user_id: 0,
        }
    }
}

impl Default for SonarrConfig {
    fn default() -> (c: Self)
        ensures
            c.url@.len() == 0,
            c.api_key@.len() == 0,
    {
        SonarrConfig { url: String::new(), api_key: String::new() }
    }
}

impl Default for RadarrConfig {
    fn default() -> (c: Self)
        ensures
            c.url@.len() == 0,
            c.api_key@.len() == 0,
    {
        RadarrConfig { url: String::new(), api_key: String::new() }
    }
}

impl Default for AppConfig {
    fn default() -> (c: Self)
        ensures
            c.plex.url@.len() == 0,
            c.plex.token@.len() == 0,
            c.sonarr.url@.len() == 0,
            c.sonarr.api_key@.len() == 0,
            c.radarr.url@.len() == 0,
            c.radarr.api_key@.len() == 0,
            c.download_clients@.len() == 0,
    {
        AppConfig {
            plex: Default::default(),
            sonarr: Default::default(),
            radarr: Default::default(),
            download_clients: Vec::new(),
        }
    }
}

/// The redacted view of the upstream settings.
#[derive(Clone, Debug)]
pub struct RedactedPlexConfig {
    pub url: String,
    pub has_token: bool,
}

/// The redacted view of the series-indexer settings.
#[derive(Clone, Debug)]
pub struct RedactedSonarrConfig {
    pub url: String,
    pub has_api_key: bool,
}

/// The redacted view of the movie-indexer settings.
#[derive(Clone, Debug)]
pub struct RedactedRadarrConfig {
    pub url: String,
    pub has_api_key: bool,
}

/// The redacted view of one download client.
#[derive(Clone, Debug)]
pub struct RedactedDownloadClientConfig {
    pub name: String,
    pub client_type: DownloadClientType,
    pub url: String,
    pub has_api_key: bool,
    pub has_credentials: bool,
    pub enabled: bool,
}

/// The whole configuration with every secret replaced by a flag.
#[derive(Clone, Debug)]
pub struct RedactedAppConfig {
    pub plex: RedactedPlexConfig,
    pub sonarr: RedactedSonarrConfig,
    pub radarr: RedactedRadarrConfig,
    pub download_clients: Vec<RedactedDownloadClientConfig>,
}

impl AppConfig {
    /// The configuration as shown to API callers: urls and names stay,
    /// each secret becomes the flag saying whether it is set.
    pub fn redacted(&self) -> (r: RedactedAppConfig)
        ensures
            r.plex.url@ == self.plex.url@,
            r.plex.has_token == (self.plex.token@.len() > 0),
            r.sonarr.url@ == self.sonarr.url@,
            r.sonarr.has_api_key == (self.sonarr.api_key@.len() > 0),
            r.radarr.url@ == self.radarr.url@,
            r.radarr.has_api_key == (self.radarr.api_key@.len() > 0),
            r.download_clients@.len() == self.download_clients@.len(),
            forall|i: int|
                0 <= i < self.download_clients@.len() ==> {
                    let c = self.download_clients@[i];
                    let d = #[trigger] r.download_clients@[i];
                    &&& d.name@ == c.name@
                    &&& d.client_type == c.client_type
                    &&& d.url@ == c.url@
                    &&& d.has_api_key == (c.api_key@.len() > 0)
                    &&& d.has_credentials == (c.username@.len() > 0 || c.password@.len() > 0)
                    &&& d.enabled == c.enabled
                },
    {
        let mut clients: Vec<RedactedDownloadClientConfig> = Vec::new();
        let mut i: usize = 0;
        while i < self.download_clients.len()
            invariant
                0 <= i <= self.download_clients@.len(),
                clients@.len() == i,
                forall|j: int|
                    0 <= j < i ==> {
                        let c = self.download_clients@[j];
                        let d = #[trigger] clients@[j];
                        &&& d.name@ == c.name@
                        &&& d.client_type == c.client_type
                        &&& d.url@ == c.url@
                        &&& d.has_api_key == (c.api_key@.len() > 0)
                        &&& d.has_credentials == (c.username@.len() > 0 || c.password@.len() > 0)
                        &&& d.enabled == c.enabled
                    },
            decreases self.download_clients@.len() - i,
        {
            let c = &self.download_clients[i];
            clients.push(
                RedactedDownloadClientConfig {
                    name: c.name.clone(),
                    client_type: c.client_type,
                    url: c.url.clone(),
                    has_api_key: !c.api_key.as_str().is_empty(),
                    has_credentials: !c.username.as_str().is_empty() || !c.password.as_str().is_empty(),
                    enabled: c.enabled,
                },
            );
            i = i + 1;
        }
        RedactedAppConfig {
            plex: RedactedPlexConfig {
                url: self.plex.url.clone(),
                has_token: !self.plex.token.as_str().is_empty(),
            },
            sonarr: RedactedSonarrConfig {
                url: self.sonarr.url.clone(),
                has_api_key: !self.sonarr.api_key.as_str().is_empty(),
            },
            radarr: RedactedRadarrConfig {
                url: self.radarr.url.clone(),
                has_api_key: !self.radarr.api_key.as_str().is_empty(),
            },
            download_clients: clients,
        }
    }
}

/// Return the override when it is set and nonempty, else the saved
/// value (used when probing service settings before saving them).
pub fn pick(override_val: &Option<String>, saved_val: &str) -> (r: String)
    ensures
        r@ == (match override_val {
            Some(v) => if v@.len() > 0 {
                v@
            } else {
                saved_val@
            },
            None => saved_val@,
        }),
{
    match override_val {
        Some(v) => if !v.as_str().is_empty() {
            v.clone()
        } else {
            String::from_str(saved_val)
        },
        None => String::from_str(saved_val),
    }
}

/// One item of a download client's history, as shown to API callers.
#[derive(Clone, Debug)]
pub struct DownloadHistoryItem {
    pub name: String,
    pub status: String,
    pub size: u64,
    pub completed_at: Option<String>,
    pub client_name: String,
    pub client_type: String,
}

} // verus!
