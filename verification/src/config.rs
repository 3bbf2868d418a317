//! Configuration data and canonical topic derivation.
//!
//! A broker topic is a pure function of the topic prefix, an optional
//! identity, the repository alias and the committer name. The alias comes
//! from an explicit alias table or, absent an entry, from sanitizing the
//! raw repository URL. Collisions between distinct URLs that sanitize to
//! the same alias are accepted, not detected.

use vstd::prelude::*;

verus! {

use vstd::string::StrSliceExecFns;
use vstd::string::StringExecFns;
use crate::strutil::{spec_has_prefix, spec_has_suffix, has_prefix, has_suffix, str_eq,
    string_from_chars};

#[derive(Debug, Clone)]
pub struct ServerConfig {
    pub host: String,
    pub port: u16,
    pub bind_address: String,
}

#[derive(Debug, Clone)]
pub struct MqttConfig {
    pub broker_host: String,
    pub broker_port: u16,
    pub client_id: String,
    pub username: Option<String>,
    pub password: Option<String>,
    pub topic_prefix: String,
}

#[derive(Debug, Clone)]
pub struct IrcConfig {
    pub server: String,
    pub port: u16,
    pub nick: String,
    pub username: String,
    pub real_name: String,
    pub channels: Vec<String>,
    pub use_tls: bool,
    /// Broker topic filters to listen to.
    pub topic_filters: Vec<String>,
}

#[derive(Debug, Clone)]
pub struct GitConfig {
    pub hook_script_path: Option<String>,
    /// Alias table: pairs of repository URL and topic alias; the first
    /// matching entry wins.
    pub repository_mappings: Vec<(String, String)>,
}

#[derive(Debug, Clone)]
pub struct TokenConfig {
    pub token: String,
    pub username: String,
}

#[derive(Debug, Clone)]
pub struct AuthConfig {
    pub tokens: Vec<TokenConfig>,
    pub require_auth: bool,
}

#[derive(Debug, Clone)]
pub struct Config {
    pub server: ServerConfig,
    pub mqtt: MqttConfig,
    pub irc: IrcConfig,
    pub git: GitConfig,
    pub auth: AuthConfig,
}

pub open spec fn https_prefix() -> Seq<char> {
    seq!['h', 't', 't', 'p', 's', ':', '/', '/']
}

pub open spec fn http_prefix() -> Seq<char> {
    seq!['h', 't', 't', 'p', ':', '/', '/']
}

pub open spec fn git_at_prefix() -> Seq<char> {
    seq!['g', 'i', 't', '@']
}

pub open spec fn dot_git_suffix() -> Seq<char> {
    seq!['.', 'g', 'i', 't']
}

/// The scheme marker, if any, is dropped from the front of the URL.
pub open spec fn spec_strip_scheme(u: Seq<char>) -> Seq<char> {
    if spec_has_prefix(u, https_prefix()) {
        u.skip(8)
    } else if spec_has_prefix(u, http_prefix()) {
        u.skip(7)
    } else {
        u
    }
}

/// The credential marker, if any, is dropped from the front of the URL.
pub open spec fn spec_strip_cred(u: Seq<char>) -> Seq<char> {
    if spec_has_prefix(u, git_at_prefix()) {
        u.skip(4)
    } else {
        u
    }
}

/// A trailing `.git` is dropped from the end of the URL.
pub open spec fn spec_strip_dot_git(u: Seq<char>) -> Seq<char> {
    if spec_has_suffix(u, dot_git_suffix()) {
        u.take(u.len() - 4)
    } else {
        u
    }
}

/// Separators become underscores; all other characters are kept as they are.
pub open spec fn sanitize_char(c: char) -> char {
    if c == ':' || c == '/' || c == '.' {
        '_'
    } else {
        c
    }
}

/// The sanitized form of a raw repository URL: scheme and credential
/// markers and a trailing `.git` dropped, separators replaced.
pub open spec fn spec_sanitize(u: Seq<char>) -> Seq<char> {
    spec_strip_dot_git(spec_strip_cred(spec_strip_scheme(u))).map_values(|c: char| sanitize_char(c))
}

/// The view of the alias table as pairs of character sequences.
pub open spec fn mappings_view(ms: Seq<(String, String)>) -> Seq<(Seq<char>, Seq<char>)> {
    ms.map_values(|p: (String, String)| (p.0@, p.1@))
}

/// The alias of a repository URL: the first matching table entry, or the
/// sanitized URL when no entry matches.
pub open spec fn spec_alias(ms: Seq<(Seq<char>, Seq<char>)>, url: Seq<char>) -> Seq<char>
    decreases ms.len(),
{
    if ms.len() == 0 {
        spec_sanitize(url)
    } else if ms[0].0 == url {
        ms[0].1
    } else {
        spec_alias(ms.drop_first(), url)
    }
}

/// The canonical topic: `{prefix}/{identity}/{alias}/{committer}` when an
/// identity is present, else `{prefix}/{alias}/{committer}`.
pub open spec fn spec_topic(
    prefix: Seq<char>,
    identity: Option<Seq<char>>,
    alias: Seq<char>,
    committer: Seq<char>,
) -> Seq<char> {
    match identity {
        Some(u) => prefix + seq!['/'] + u + seq!['/'] + alias + seq!['/'] + committer,
        None => prefix + seq!['/'] + alias + seq!['/'] + committer,
    }
}

/// The view of an optional borrowed string.
pub open spec fn opt_str_view(o: Option<&str>) -> Option<Seq<char>> {
    match o {
        Some(s) => Some(s@),
        None => None,
    }
}

/// Topic derivation is deterministic: two topics derived from the same
/// prefix, identity, alias and committer are the same string.
pub proof fn lemma_topic_derivation_deterministic(
    prefix: Seq<char>,
    identity: Option<Seq<char>>,
    alias: Seq<char>,
    committer: Seq<char>,
    t1: Seq<char>,
    t2: Seq<char>,
)
    requires
        t1 == spec_topic(prefix, identity, alias, committer),
        t2 == spec_topic(prefix, identity, alias, committer),
    ensures
        t1 == t2,
{
}

impl Config {
    /// Sanitizes a raw repository URL into a topic alias.
    pub fn sanitize_repo_url(url: &str) -> (r: String)
        ensures
            r@ == spec_sanitize(url@),
    {
        proof {
            reveal_strlit("https://");
            reveal_strlit("http://");
            reveal_strlit("git@");
            reveal_strlit(".git");
            assert("https://"@ =~= https_prefix());
            assert("http://"@ =~= http_prefix());
            assert("git@"@ =~= git_at_prefix());
            assert(".git"@ =~= dot_git_suffix());
        }
        let url_len = url.unicode_len();
        let after_scheme: &str = if has_prefix(url, "https://") {
            url.substring_char(8, url_len)
        } else if has_prefix(url, "http://") {
            url.substring_char(7, url_len)
        } else {
            url
        };
        assert(after_scheme@ == spec_strip_scheme(url@));
        let after_cred: &str = if has_prefix(after_scheme, "git@") {
            after_scheme.substring_char(4, after_scheme.unicode_len())
        } else {
            after_scheme
        };
        assert(after_cred@ == spec_strip_cred(after_scheme@));
        let trimmed: &str = if has_suffix(after_cred, ".git") {
            after_cred.substring_char(0, after_cred.unicode_len() - 4)
        } else {
            after_cred
        };
        assert(trimmed@ == spec_strip_dot_git(after_cred@));
        let len = trimmed.unicode_len();
        let mut out: Vec<char> = Vec::new();
        let mut i: usize = 0;
        while i < len
            invariant
                len == trimmed@.len(),
                i <= len,
                out@ == trimmed@.subrange(0, i as int).map_values(|c: char| sanitize_char(c)),
            decreases len - i,
        {
            let c = trimmed.get_char(i);
            let s = if c == ':' || c == '/' || c == '.' {
                '_'
            } else {
                c
            };
            out.push(s);
            assert(out@ =~= trimmed@.subrange(0, i + 1 as int).map_values(
                |c: char| sanitize_char(c)));
            i = i + 1;
        }
        assert(trimmed@.subrange(0, len as int) =~= trimmed@);
        string_from_chars(&out)
    }

    /// The alias of a repository URL under this configuration's alias table.
    fn repo_alias(&self, repo_url: &str) -> (r: String)
        ensures
            r@ == spec_alias(mappings_view(self.git.repository_mappings@), repo_url@),
    {
        let n = self.git.repository_mappings.len();
        proof {
            assert(mappings_view(self.git.repository_mappings@).skip(0)
                =~= mappings_view(self.git.repository_mappings@));
        }
        let mut i: usize = 0;
        while i < n
            invariant
                n == self.git.repository_mappings@.len(),
                i <= n,
                spec_alias(mappings_view(self.git.repository_mappings@), repo_url@)
                    == spec_alias(mappings_view(self.git.repository_mappings@).skip(i as int),
                        repo_url@),
            decreases n - i,
        {
            let ghost ms = mappings_view(self.git.repository_mappings@);
            let pair = &self.git.repository_mappings[i];
            assert(ms.skip(i as int)[0] == ms[i as int]);
            if str_eq(pair.0.as_str(), repo_url) {
                return pair.1.clone();
            }
            assert(ms.skip(i as int).drop_first() =~= ms.skip(i + 1 as int));
            i = i + 1;
        }
        Config::sanitize_repo_url(repo_url)
    }

    /// Derives the canonical broker topic for a commit: the configured
    /// prefix, the identity when present, the repository alias and the
    /// committer, joined by `/`.
    pub fn mqtt_topic_for_repo(
        &self,
        repo_url: &str,
        committer: &str,
        username: Option<&str>,
    ) -> (r: String)
        ensures
            r@ == spec_topic(
                self.mqtt.topic_prefix@,
                opt_str_view(username),
                spec_alias(mappings_view(self.git.repository_mappings@), repo_url@),
                committer@,
            ),
    {
        proof {
            reveal_strlit("/");
            assert("/"@ =~= seq!['/']);
        }
        let alias = self.repo_alias(repo_url);
        let mut out = String::new();
        out.append(self.mqtt.topic_prefix.as_str());
        out.append("/");
        match username {
            Some(u) => {
                out.append(u);
                out.append("/");
            },
            None => {},
        }
        out.append(alias.as_str());
        out.append("/");
        out.append(committer);
        out
    }
}

impl Default for Config {
    /// The built-in configuration: a local broker and chat network, no
    /// alias entries, no tokens, and authentication required.
    fn default() -> (r: Config)
        ensures
            r.server.host@ == "localhost"@,
            r.server.port == 8080,
            r.server.bind_address@ == "0.0.0.0:8080"@,
            r.mqtt.broker_host@ == "localhost"@,
            r.mqtt.broker_port == 1883,
            r.mqtt.client_id@ == "git-friends"@,
            r.mqtt.username is None,
            r.mqtt.password is None,
            r.mqtt.topic_prefix@ == "git-friends"@,
            r.irc.server@ == "irc.libera.chat"@,
            r.irc.port == 6667,
            r.irc.nick@ == "git-friends"@,
            r.irc.username@ == "git-friends"@,
            r.irc.real_name@ == "Git Friends Bot"@,
            r.irc.channels@.len() == 1,
            r.irc.channels@[0]@ == "#git-friends"@,
            r.irc.use_tls == false,
            r.irc.topic_filters@.len() == 1,
            r.irc.topic_filters@[0]@ == "git-friends/+/+"@,
            r.git.hook_script_path is None,
            r.git.repository_mappings@.len() == 0,
            r.auth.tokens@.len() == 0,
            r.auth.require_auth == true,
    {
        Config {
            server: ServerConfig {
                host: String::from_str("localhost"),
                port: 8080,
                bind_address: String::from_str("0.0.0.0:8080"),
            },
            mqtt: MqttConfig {
                broker_host: String::from_str("localhost"),
                broker_port: 1883,
                client_id: String::from_str("git-friends"),
                username: None,
                password: None,
                topic_prefix: String::from_str("git-friends"),
            },
            irc: IrcConfig {
                server: String::from_str("irc.libera.chat"),
                port: 6667,
                nick: String::from_str("git-friends"),
                username: String::from_str("git-friends"),
                real_name: String::from_str("Git Friends Bot"),
                channels: vec![String::from_str("#git-friends")],
                use_tls: false,
                topic_filters: vec![String::from_str("git-friends/+/+")],
            },
            git: GitConfig {
                hook_script_path: None,
                repository_mappings: Vec::new(),
            },
            auth: AuthConfig {
                tokens: Vec::new(),
                require_auth: true,
            },
        }
    }
}

} // verus!
