//! The upstream-session resolver and the pieces of upstream-client
//! logic the coordinator depends on: parsing the bearer cookie,
//! choosing the server access token from a user's resource list,
//! caching resolved tokens, and the retry decision taken when the
//! upstream rejects a per-user token.

use vstd::prelude::*;

use crate::codec::{is_full_i64, p_int_i64, parse_i64_full};

verus! {

/// Display information of an authenticated user.
#[derive(Clone, Debug)]
pub struct PlexUserInfo {
    pub user_id: i64,
    pub username: String,
    pub thumb: String,
}

/// The first colon at or after `from` sits at `k`.
pub open spec fn colon_at(s: Seq<char>, from: int, k: int) -> bool {
    &&& from <= k < s.len()
    &&& s[k] == ':'
    &&& forall|j: int| from <= j < k ==> s[j] != ':'
}

/// The text between the first and second colon (or everything after
/// the first colon, when there is no second).
pub open spec fn second_field(s: Seq<char>, k: int) -> Seq<char> {
    if exists|m: int| #[trigger] colon_at(s, k + 1, m) {
        let m = choose|m: int| #[trigger] colon_at(s, k + 1, m);
        s.subrange(k + 1, m)
    } else {
        s.subrange(k + 1, s.len() as int)
    }
}

/// The text after the second colon (or after the first, when there is
/// no second).
pub open spec fn tail_field(s: Seq<char>, k: int) -> Seq<char> {
    if exists|m: int| #[trigger] colon_at(s, k + 1, m) {
        let m = choose|m: int| #[trigger] colon_at(s, k + 1, m);
        s.subrange(m + 1, s.len() as int)
    } else {
        s.subrange(k + 1, s.len() as int)
    }
}

/// Find the first colon at or after `from`.
fn find_colon(s: &str, from: usize) -> (r: Option<usize>)
    requires
        from <= s@.len(),
    ensures
        r matches Some(k) ==> colon_at(s@, from as int, k as int),
        r is None ==> forall|j: int| from <= j < s@.len() ==> s@[j] != ':',
{
    let n = s.unicode_len();
    let mut i: usize = from;
    while i < n
        invariant
            from <= i <= n,
            n == s@.len(),
            forall|j: int| from <= j < i ==> s@[j] != ':',
        decreases n - i,
    {
        if s.get_char(i) == ':' {
            return Some(i);
        }
        i = i + 1;
    }
    None
}

/// Parse the bearer cookie `{user_id}:{identity_token}:{server_token}`
/// into the user id and the identity token; the legacy two-field form
/// is accepted too. Returns nothing when the cookie has no colon or
/// its first field is not a decimal user id.
pub fn user_from_cookie(value: &str) -> (r: Option<(i64, String)>)
    ensures
        r matches Some(p) ==> exists|k: int| #[trigger]
            colon_at(value@, 0, k) && p_int_i64(value@.subrange(0, k)) == Some(
                (p.0, Seq::<char>::empty()),
            ) && p.1@ == second_field(value@, k),
        r is None ==> !(exists|k: int| #[trigger]
            colon_at(value@, 0, k) && is_full_i64(value@.subrange(0, k))),
{
    let k1 = match find_colon(value, 0) {
        Some(k) => k,
        None => {
            return None;
        },
    };
    let part0 = value.substring_char(0, k1);
    let uid = match parse_i64_full(part0) {
        Some(v) => v,
        None => {
            proof {
                assert forall|k: int| #[trigger]
                    colon_at(value@, 0, k) implies !is_full_i64(value@.subrange(0, k)) by {
                    assert(k == k1 as int);
                }
            }
            return None;
        },
    };
    let n = value.unicode_len();
    let token = match find_colon(value, k1 + 1) {
        Some(k2) => {
            proof {
                let m = choose|m: int| #[trigger] colon_at(value@, k1 + 1, m);
                assert(colon_at(value@, k1 + 1, k2 as int));
                assert(m == k2 as int);
            }
            value.substring_char(k1 + 1, k2)
        },
        None => value.substring_char(k1 + 1, n),
    };
    Some((uid, String::from_str(token)))
}

/// Extract the token used against the local media server from the
/// bearer cookie: the third field when present, else the second for
/// the legacy form. Returns nothing when the cookie has no colon.
pub fn user_token_from_cookie(value: &str) -> (r: Option<String>)
    ensures
        r is Some <==> exists|k: int| #[trigger] colon_at(value@, 0, k),
        r matches Some(t) ==> exists|k: int| #[trigger]
            colon_at(value@, 0, k) && t@ == tail_field(value@, k),
{
    let k1 = match find_colon(value, 0) {
        Some(k) => k,
        None => {
            return None;
        },
    };
    let n = value.unicode_len();
    let token = match find_colon(value, k1 + 1) {
        Some(k2) => {
            proof {
                let m = choose|m: int| #[trigger] colon_at(value@, k1 + 1, m);
                assert(colon_at(value@, k1 + 1, k2 as int));
                assert(m == k2 as int);
            }
            value.substring_char(k2 + 1, n)
        },
        None => value.substring_char(k1 + 1, n),
    };
    Some(String::from_str(token))
}

/// One entry of the identity service's resource list, reduced to the
/// fields the resolver reads.
#[derive(Clone, Debug)]
pub struct ResourceEntry {
    /// Unique identifier of the resource, compared with the local
    /// server's machine identifier.
    pub client_identifier: String,
    /// The access token the resource advertises, when it does.
    pub access_token: Option<String>,
    /// Comma-separated capabilities; a media server advertises
    /// "server".
    pub provides: String,
}

/// The text contains the pattern somewhere.
pub open spec fn has_sub(hay: Seq<char>, needle: Seq<char>) -> bool {
    exists|i: int|
        0 <= i && i + needle.len() <= hay.len() && #[trigger] hay.subrange(i, i + needle.len())
            == needle
}

/// Whether the pattern occurs at position `i`.
fn match_at(hay: &str, i: usize, needle: &str) -> (r: bool)
    requires
        i + needle@.len() <= hay@.len(),
    ensures
        r == (hay@.subrange(i as int, i + needle@.len()) == needle@),
{
    let total = hay.unicode_len();
    let nn = needle.unicode_len();
    let mut j: usize = 0;
    while j < nn
        invariant
            total == hay@.len(),
            nn == needle@.len(),
            i + nn <= hay@.len(),
            0 <= j <= nn,
            forall|j2: int| 0 <= j2 < j ==> hay@[i + j2] == needle@[j2],
        decreases nn - j,
    {
        if hay.get_char(i + j) != needle.get_char(j) {
            proof {
                assert(hay@.subrange(i as int, i + nn)[j as int] != needle@[j as int]);
            }
            return false;
        }
        j = j + 1;
    }
    proof {
        assert(hay@.subrange(i as int, i + nn) =~= needle@);
    }
    true
}

/// Substring search.
pub fn contains_sub(hay: &str, needle: &str) -> (r: bool)
    ensures
        r == has_sub(hay@, needle@),
{
    let hn = hay.unicode_len();
    let nn = needle.unicode_len();
    if nn > hn {
        return false;
    }
    if nn == 0 {
        proof {
            assert(hay@.subrange(0, 0 + needle@.len() as int) =~= needle@);
        }
        return true;
    }
    let mut i: usize = 0;
    while i <= hn - nn
        invariant
            hn == hay@.len(),
            nn == needle@.len(),
            nn <= hn,
            nn >= 1,
            0 <= i <= hn - nn + 1,
            forall|i2: int|
                0 <= i2 < i ==> #[trigger] hay@.subrange(i2, i2 + nn) != needle@,
        decreases hn + 1 - i,
    {
        if match_at(hay, i, needle) {
            return true;
        }
        i = i + 1;
    }
    proof {
        assert forall|i2: int|
            0 <= i2 && i2 + needle@.len() <= hay@.len() implies #[trigger] hay@.subrange(
            i2,
            i2 + needle@.len(),
        ) != needle@ by {
            assert(i2 < i);
        }
    }
    false
}

/// Whether the pattern occurs at position `i` (shared helper).
pub fn occurs_at(hay: &str, i: usize, needle: &str) -> (r: bool)
    requires
        i + needle@.len() <= hay@.len(),
    ensures
        r == (hay@.subrange(i as int, i + needle@.len()) == needle@),
{
    match_at(hay, i, needle)
}

/// Whether two texts are the same.
pub fn str_eq(a: &str, b: &str) -> (r: bool)
    ensures
        r == (a@ == b@),
{
    let na = a.unicode_len();
    let nb = b.unicode_len();
    if na != nb {
        return false;
    }
    proof {
        assert(a@.subrange(0, na as int) =~= a@);
    }
    match_at(a, 0, b)
}

/// Whether the resource is a media server.
pub open spec fn is_server(r: ResourceEntry) -> bool {
    has_sub(r.provides@, "server"@)
}

/// How many resources of the list are media servers.
pub open spec fn server_count(rs: Seq<ResourceEntry>) -> int
    decreases rs.len(),
{
    if rs.len() == 0 {
        0
    } else {
        server_count(rs.drop_last()) + if is_server(rs.last()) {
            1 as int
        } else {
            0 as int
        }
    }
}

/// The first media-server resource matching the machine identifier
/// sits at `k`.
pub open spec fn matched_at(rs: Seq<ResourceEntry>, mid: Seq<char>, k: int) -> bool {
    &&& 0 <= k < rs.len()
    &&& is_server(rs[k])
    &&& rs[k].client_identifier@ == mid
    &&& forall|j: int|
        0 <= j < k ==> !(is_server(#[trigger] rs[j]) && rs[j].client_identifier@ == mid)
}

/// Choose the server access token from a user's resource list: match
/// the local machine identifier first; with no match (or no known
/// identifier), fall back to the single server when the user has
/// exactly one; otherwise resolve nothing. The chosen resource's
/// advertised token is returned as-is, absent or not.
pub fn select_server_token(resources: &Vec<ResourceEntry>, machine_id: &Option<String>) -> (r:
    Option<String>)
    ensures
        (match machine_id {
            Some(mid) => (exists|k: int| #[trigger] matched_at(resources@, mid@, k))
                ==> r.deep_view() == resources@[choose|k: int| #[trigger]
                matched_at(resources@, mid@, k)].access_token.deep_view(),
            None => true,
        }),
        ((match machine_id {
            Some(mid) => !(exists|k: int| #[trigger] matched_at(resources@, mid@, k)),
            None => true,
        }) && server_count(resources@) == 1) ==> exists|k: int|
            0 <= k < resources@.len() && is_server(#[trigger] resources@[k]) && r.deep_view()
                == resources@[k].access_token.deep_view(),
        ((match machine_id {
            Some(mid) => !(exists|k: int| #[trigger] matched_at(resources@, mid@, k)),
            None => true,
        }) && server_count(resources@) != 1) ==> r is None,
{
    let n = resources.len();
    let mut i: usize = 0;
    let mut servers: usize = 0;
    let mut last_server: usize = 0;
    while i < n
        invariant
            n == resources@.len(),
            0 <= i <= n,
            servers == server_count(resources@.subrange(0, i as int)),
            servers <= i,
            servers > 0 ==> last_server < i && is_server(resources@[last_server as int]),
            match machine_id {
                Some(mid) => forall|j: int|
                    0 <= j < i ==> !(is_server(#[trigger] resources@[j])
                        && resources@[j].client_identifier@ == mid@),
                None => true,
            },
        decreases n - i,
    {
        let entry = &resources[i];
        let is_srv = contains_sub(entry.provides.as_str(), "server");
        proof {
            assert(resources@.subrange(0, i + 1 as int).drop_last() =~= resources@.subrange(
                0,
                i as int,
            ));
            assert(resources@.subrange(0, i + 1 as int).last() == resources@[i as int]);
        }
        if is_srv {
            if let Some(mid) = machine_id {
                if str_eq(entry.client_identifier.as_str(), mid.as_str()) {
                    proof {
                        assert(matched_at(resources@, mid@, i as int));
                        let k = choose|k: int| #[trigger] matched_at(resources@, mid@, k);
                        assert(k == i as int);
                    }
                    return clone_opt_token(&entry.access_token);
                }
            }
            servers = servers + 1;
            last_server = i;
        }
        i = i + 1;
    }
    proof {
        assert(resources@.subrange(0, n as int) =~= resources@);
    }
    if servers == 1 {
        let entry = &resources[last_server];
        clone_opt_token(&entry.access_token)
    } else {
        None
    }
}

/// Clone an optional token.
fn clone_opt_token(t: &Option<String>) -> (r: Option<String>)
    ensures
        r == *t,
{
    match t {
        Some(v) => Some(v.clone()),
        None => None,
    }
}

/// The per-process cache of resolved server access tokens, keyed by
/// the user's identity token.
pub struct TokenCache {
    pub entries: Vec<(String, String)>,
}

/// The value stored under a key sits first at `i`.
pub open spec fn cache_hit_at(entries: Seq<(String, String)>, key: Seq<char>, i: int) -> bool {
    &&& 0 <= i < entries.len()
    &&& entries[i].0@ == key
    &&& forall|j: int| 0 <= j < i ==> (#[trigger] entries[j]).0@ != key
}

impl TokenCache {
    /// An empty cache.
    pub fn new() -> (c: Self)
        ensures
            c.entries@.len() == 0,
    {
        TokenCache { entries: Vec::new() }
    }

    /// Look a token up.
    pub fn get(&self, key: &str) -> (r: Option<String>)
        ensures
            r is Some <==> exists|i: int| #[trigger] cache_hit_at(self.entries@, key@, i),
            r matches Some(v) ==> exists|i: int| #[trigger]
                cache_hit_at(self.entries@, key@, i) && v@ == self.entries@[i].1@,
    {
        let mut i: usize = 0;
        while i < self.entries.len()
            invariant
                0 <= i <= self.entries@.len(),
                forall|j: int| 0 <= j < i ==> (#[trigger] self.entries@[j]).0@ != key@,
            decreases self.entries@.len() - i,
        {
            if str_eq(self.entries[i].0.as_str(), key) {
                proof {
                    assert(cache_hit_at(self.entries@, key@, i as int));
                }
                return Some(self.entries[i].1.clone());
            }
            i = i + 1;
        }
        proof {
            assert forall|i2: int| #[trigger]
                cache_hit_at(self.entries@, key@, i2) implies false by {}
        }
        None
    }

    /// Store a token, replacing any prior entry under the same key.
    pub fn put(&mut self, key: String, value: String)
        ensures
            exists|i: int| #[trigger]
                cache_hit_at(final(self).entries@, key@, i) && final(self).entries@[i].1@
                    == value@,
            forall|j: int|
                0 <= j < old(self).entries@.len() && (#[trigger] old(self).entries@[j]).0@ != key@
                    ==> final(self).entries@.contains(old(self).entries@[j]),
    {
        let mut i: usize = 0;
        while i < self.entries.len()
            invariant
                0 <= i <= self.entries@.len(),
                self.entries@ == old(self).entries@,
                forall|j: int| 0 <= j < i ==> (#[trigger] self.entries@[j]).0@ != key@,
            decreases self.entries@.len() - i,
        {
            if str_eq(self.entries[i].0.as_str(), key.as_str()) {
                let ghost old_entries = self.entries@;
                self.entries.set(i, (key, value));
                proof {
                    assert(cache_hit_at(self.entries@, old_entries[i as int].0@, i as int));
                    assert forall|j: int|
                        0 <= j < old_entries.len() && (#[trigger] old_entries[j]).0@
                            != old_entries[i as int].0@ implies self.entries@.contains(
                        old_entries[j],
                    ) by {
                        assert(self.entries@[j] == old_entries[j]);
                    }
                }
                return ;
            }
            i = i + 1;
        }
        let ghost old_entries = self.entries@;
        self.entries.push((key, value));
        proof {
            assert(self.entries@[old_entries.len() as int].0@ == key@);
            assert(cache_hit_at(self.entries@, key@, old_entries.len() as int));
            assert forall|j: int|
                0 <= j < old_entries.len() && (#[trigger] old_entries[j]).0@ != key@ implies self.entries@.contains(
                old_entries[j],
            ) by {
                assert(self.entries@[j] == old_entries[j]);
            }
        }
    }
}

/// The retry decision after the upstream rejects a per-user token:
/// retry with the freshly resolved server token when one was resolved
/// and differs from the rejected one; else fall back to the admin
/// token when it is set and differs; else give up.
pub fn fallback_token(original: &String, resolved: &Option<String>, admin: &String) -> (r: Option<
    String,
>)
    ensures
        (match resolved {
            Some(t) => t@ != original@ ==> (r matches Some(v) && v@ == t@),
            None => true,
        }),
        ((match resolved {
            Some(t) => t@ == original@,
            None => true,
        }) && admin@.len() > 0 && admin@ != original@) ==> (r matches Some(v) && v@ == admin@),
        (match resolved {
            Some(t) => t@ == original@,
            None => true,
        }) && (admin@.len() == 0 || admin@ == original@) ==> r is None,
{
    if let Some(t) = resolved {
        if !str_eq(t.as_str(), original.as_str()) {
            return Some(t.clone());
        }
    }
    if !admin.as_str().is_empty() && !str_eq(admin.as_str(), original.as_str()) {
        return Some(admin.clone());
    }
    None
}

} // verus!
