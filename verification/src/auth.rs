//! Bearer-token authentication.
//!
//! The token table maps credential strings to identities, many-to-one.
//! Its abstract model is a `Map<Seq<char>, Seq<char>>`; a later binding for
//! the same token overwrites an earlier one. When authentication is
//! disabled every credential, including the empty string, validates as the
//! implicit identity `anonymous` without consulting the table.

use vstd::prelude::*;

use base64::Engine as _;

verus! {

use vstd::string::StrSliceExecFns;
use vstd::string::StringExecFns;
use crate::config::{AuthConfig, TokenConfig};
use crate::errors::GitFriendsError;
use crate::strutil::{spec_has_prefix, has_prefix, str_eq};

/// The view of a binding list as pairs of character sequences.
pub open spec fn pairs_of(s: Seq<TokenConfig>) -> Seq<(Seq<char>, Seq<char>)> {
    s.map_values(|tc: TokenConfig| (tc.token@, tc.username@))
}

/// The map induced by a binding list; a later binding wins.
pub open spec fn map_of(s: Seq<(Seq<char>, Seq<char>)>) -> Map<Seq<char>, Seq<char>>
    decreases s.len(),
{
    if s.len() == 0 {
        Map::empty()
    } else {
        map_of(s.drop_last()).insert(s.last().0, s.last().1)
    }
}

/// The identity bound to `t` by the latest binding, if any.
pub open spec fn last_user(s: Seq<(Seq<char>, Seq<char>)>, t: Seq<char>) -> Option<Seq<char>>
    decreases s.len(),
{
    if s.len() == 0 {
        None
    } else if s.last().0 == t {
        Some(s.last().1)
    } else {
        last_user(s.drop_last(), t)
    }
}

/// The binding list with every binding for `t` dropped.
pub open spec fn without_token(s: Seq<(Seq<char>, Seq<char>)>, t: Seq<char>) -> Seq<
    (Seq<char>, Seq<char>),
>
    decreases s.len(),
{
    if s.len() == 0 {
        Seq::empty()
    } else if s.last().0 == t {
        without_token(s.drop_last(), t)
    } else {
        without_token(s.drop_last(), t).push(s.last())
    }
}

/// The latest binding for `t` is exactly the map's binding for `t`.
pub proof fn lemma_last_user_map(s: Seq<(Seq<char>, Seq<char>)>, t: Seq<char>)
    ensures
        map_of(s).contains_key(t) <==> last_user(s, t) is Some,
        last_user(s, t) matches Some(u) ==> map_of(s)[t] == u,
    decreases s.len(),
{
    if s.len() > 0 {
        lemma_last_user_map(s.drop_last(), t);
    }
}

/// Dropping every binding for `t` removes exactly `t` from the map.
pub proof fn lemma_without_token_map(s: Seq<(Seq<char>, Seq<char>)>, t: Seq<char>)
    ensures
        map_of(without_token(s, t)) == map_of(s).remove(t),
    decreases s.len(),
{
    if s.len() == 0 {
        assert(map_of(without_token(s, t)) =~= map_of(s).remove(t));
    } else {
        lemma_without_token_map(s.drop_last(), t);
        if s.last().0 == t {
            assert(map_of(without_token(s, t)) =~= map_of(s).remove(t));
        } else {
            let w = without_token(s.drop_last(), t).push(s.last());
            assert(w.drop_last() =~= without_token(s.drop_last(), t));
            assert(map_of(without_token(s, t)) =~= map_of(s).remove(t));
        }
    }
}

/// No two bindings share a token.
pub open spec fn unique_tokens(s: Seq<(Seq<char>, Seq<char>)>) -> bool {
    forall|i: int, j: int| 0 <= i < j < s.len() ==> s[i].0 != s[j].0
}

/// Every listed token is a key of the map.
pub proof fn lemma_map_of_contains(s: Seq<(Seq<char>, Seq<char>)>, i: int)
    requires
        0 <= i < s.len(),
    ensures
        map_of(s).contains_key(s[i].0),
    decreases s.len(),
{
    if i < s.len() - 1 {
        lemma_map_of_contains(s.drop_last(), i);
        assert(s.drop_last()[i] == s[i]);
    }
}

/// With unique tokens the map binds each entry exactly as listed.
pub proof fn lemma_unique_map_binds(s: Seq<(Seq<char>, Seq<char>)>, i: int)
    requires
        unique_tokens(s),
        0 <= i < s.len(),
    ensures
        map_of(s).contains_key(s[i].0),
        map_of(s)[s[i].0] == s[i].1,
    decreases s.len(),
{
    if i < s.len() - 1 {
        let dl = s.drop_last();
        assert(unique_tokens(dl)) by {
            assert(forall|a: int, b: int|
                0 <= a < b < dl.len() ==> dl[a] == s[a] && dl[b] == s[b]);
        };
        lemma_unique_map_binds(dl, i);
        assert(dl[i] == s[i]);
        assert(s.last().0 != s[i].0);
    }
}

/// Every key of the map is some listed token.
pub proof fn lemma_map_of_key_index(s: Seq<(Seq<char>, Seq<char>)>, t: Seq<char>)
    requires
        map_of(s).contains_key(t),
    ensures
        exists|i: int| 0 <= i < s.len() && s[i].0 == t,
    decreases s.len(),
{
    if s.last().0 == t {
        assert(s[s.len() - 1].0 == t);
    } else {
        lemma_map_of_key_index(s.drop_last(), t);
        let w = choose|i: int| 0 <= i < s.drop_last().len() && s.drop_last()[i].0 == t;
        assert(s[w].0 == t);
    }
}

/// Dropping a token keeps the rest unique, free of that token, and drawn
/// from the original bindings.
pub proof fn lemma_without_token_wf(s: Seq<(Seq<char>, Seq<char>)>, t: Seq<char>)
    requires
        unique_tokens(s),
    ensures
        unique_tokens(without_token(s, t)),
        forall|k: int| 0 <= k < without_token(s, t).len() ==> (#[trigger] without_token(s, t)[k].0)
            != t,
        forall|k: int|
            0 <= k < without_token(s, t).len() ==> exists|j: int|
                0 <= j < s.len() && #[trigger] without_token(s, t)[k] == s[j],
    decreases s.len(),
{
    if s.len() > 0 {
        let dl = s.drop_last();
        let l = s.last();
        assert(unique_tokens(dl)) by {
            assert(forall|a: int, b: int|
                0 <= a < b < dl.len() ==> dl[a] == s[a] && dl[b] == s[b]);
        };
        lemma_without_token_wf(dl, t);
        let w = without_token(dl, t);
        if l.0 == t {
            assert forall|k: int| 0 <= k < w.len() implies exists|j: int|
                0 <= j < s.len() && #[trigger] w[k] == s[j] by {
                let j = choose|j: int| 0 <= j < dl.len() && w[k] == dl[j];
                assert(w[k] == s[j]);
            };
        } else {
            let r = w.push(l);
            assert(without_token(s, t) == r);
            assert forall|k: int| 0 <= k < r.len() implies exists|j: int|
                0 <= j < s.len() && #[trigger] r[k] == s[j] by {
                if k < w.len() {
                    let j = choose|j: int| 0 <= j < dl.len() && w[k] == dl[j];
                    assert(dl[j] == s[j]);
                    assert(r[k] == s[j]);
                } else {
                    assert(r[k] == s[s.len() - 1]);
                }
            };
            assert forall|a: int, b: int| 0 <= a < b < r.len() implies r[a].0 != r[b].0 by {
                if b < w.len() {
                    assert(r[a] == w[a] && r[b] == w[b]);
                } else {
                    assert(r[b] == l);
                    let j = choose|j: int| 0 <= j < dl.len() && w[a] == dl[j];
                    assert(dl[j] == s[j]);
                    assert(s[j].0 != s[s.len() - 1].0);
                    assert(r[a] == w[a]);
                }
            };
            assert forall|k: int| 0 <= k < r.len() implies (#[trigger] r[k].0) != t by {
                if k < w.len() {
                    assert(r[k] == w[k]);
                } else {
                    assert(r[k] == l);
                }
            };
        }
    }
}

/// The required shape of a bearer header: the scheme word and a space.
pub open spec fn bearer_prefix() -> Seq<char> {
    seq!['B', 'e', 'a', 'r', 'e', 'r', ' ']
}

pub struct AuthManager {
    tokens: Vec<TokenConfig>,
    require_auth: bool,
}

impl AuthManager {
    /// The stored list binds each token at most once.
    #[verifier::type_invariant]
    spec fn wf(self) -> bool {
        unique_tokens(pairs_of(self.tokens@))
    }

    /// The abstract token table: token to identity, latest binding wins.
    pub closed spec fn token_map(&self) -> Map<Seq<char>, Seq<char>> {
        map_of(pairs_of(self.tokens@))
    }

    /// Whether credentials are consulted at all.
    pub closed spec fn auth_required(&self) -> bool {
        self.require_auth
    }

    /// Whether credentials are consulted at all, as a runtime value.
    pub fn requires_auth(&self) -> (r: bool)
        ensures
            r == self.auth_required(),
    {
        self.require_auth
    }

    /// Builds the table from the configured bindings, in order; a later
    /// binding for the same token overwrites an earlier one.
    pub fn new(config: &AuthConfig) -> (r: AuthManager)
        ensures
            r.token_map() == map_of(pairs_of(config.tokens@)),
            r.auth_required() == config.require_auth,
    {
        let n = config.tokens.len();
        let mut m = AuthManager { tokens: Vec::new(), require_auth: config.require_auth };
        proof {
            assert(pairs_of(m.tokens@) =~= Seq::<(Seq<char>, Seq<char>)>::empty());
            assert(m.token_map() =~= map_of(pairs_of(config.tokens@.take(0))));
        }
        let mut i: usize = 0;
        while i < n
            invariant
                n == config.tokens@.len(),
                i <= n,
                m.token_map() == map_of(pairs_of(config.tokens@.take(i as int))),
                m.auth_required() == config.require_auth,
            decreases n - i,
        {
            let tc = &config.tokens[i];
            m.add_token(tc.token.clone(), tc.username.clone());
            proof {
                let taken = pairs_of(config.tokens@.take(i + 1 as int));
                assert(taken.drop_last() =~= pairs_of(config.tokens@.take(i as int)));
                assert(taken.last() == (config.tokens@[i as int].token@,
                    config.tokens@[i as int].username@));
            }
            i = i + 1;
        }
        assert(config.tokens@.take(n as int) =~= config.tokens@);
        m
    }

    /// Validates a raw token. With authentication disabled every token,
    /// including the empty string, validates as `anonymous`; otherwise the
    /// table decides.
    pub fn validate_token(&self, token: &str) -> (r: Option<&str>)
        ensures
            !self.auth_required() ==> (r matches Some(u) && u@ == "anonymous"@),
            self.auth_required() && self.token_map().contains_key(token@) ==> (
            r matches Some(u) && u@ == self.token_map()[token@]),
            self.auth_required() && !self.token_map().contains_key(token@) ==> r is None,
    {
        if !self.require_auth {
            return Some("anonymous");
        }
        let ghost ps = pairs_of(self.tokens@);
        let n = self.tokens.len();
        let mut found: Option<&String> = None;
        proof {
            assert(ps.take(0) =~= Seq::<(Seq<char>, Seq<char>)>::empty());
        }
        let mut i: usize = 0;
        while i < n
            invariant
                n == self.tokens@.len(),
                i <= n,
                ps == pairs_of(self.tokens@),
                match found {
                    Some(u) => last_user(ps.take(i as int), token@) == Some(u@),
                    None => last_user(ps.take(i as int), token@) is None,
                },
            decreases n - i,
        {
            let tc = &self.tokens[i];
            proof {
                assert(ps[i as int] == (self.tokens@[i as int].token@,
                    self.tokens@[i as int].username@));
                assert(ps.take(i + 1 as int).drop_last() =~= ps.take(i as int));
                assert(ps.take(i + 1 as int).last() == ps[i as int]);
            }
            if str_eq(tc.token.as_str(), token) {
                found = Some(&tc.username);
            }
            i = i + 1;
        }
        proof {
            assert(ps.take(n as int) =~= ps);
            lemma_last_user_map(ps, token@);
        }
        match found {
            Some(u) => Some(u.as_str()),
            None => None,
        }
    }

    /// Validates an `Authorization` header. The header must carry the
    /// bearer scheme; a missing scheme fails with an authentication error,
    /// an unknown token yields no identity. With authentication disabled
    /// every header validates as `anonymous`.
    pub fn validate_bearer_token(&self, auth_header: &str) -> (r: Result<
        Option<String>,
        GitFriendsError,
    >)
        ensures
            !self.auth_required() ==> (r matches Ok(o) && o matches Some(u) && u@
                == "anonymous"@),
            self.auth_required() && !spec_has_prefix(auth_header@, bearer_prefix()) ==> (
            r matches Err(e) && e is AuthenticationFailed),
            self.auth_required() && spec_has_prefix(auth_header@, bearer_prefix())
                && self.token_map().contains_key(auth_header@.skip(7)) ==> (r matches Ok(o)
                && o matches Some(u) && u@ == self.token_map()[auth_header@.skip(7)]),
            self.auth_required() && spec_has_prefix(auth_header@, bearer_prefix())
                && !self.token_map().contains_key(auth_header@.skip(7)) ==> (r matches Ok(o)
                && o is None),
    {
        if !self.require_auth {
            return Ok(Some(String::from_str("anonymous")));
        }
        proof {
            reveal_strlit("Bearer ");
            assert("Bearer "@ =~= bearer_prefix());
        }
        if !has_prefix(auth_header, "Bearer ") {
            return Err(GitFriendsError::AuthenticationFailed);
        }
        let token = auth_header.substring_char(7, auth_header.unicode_len());
        assert(token@ =~= auth_header@.skip(7));
        match self.validate_token(token) {
            Some(u) => Ok(Some(String::from_str(u))),
            None => Ok(None),
        }
    }

    /// Builds the binding list without one token, together with the
    /// identity that token was bound to, if any.
    fn without(&self, token: &str) -> (r: (Vec<TokenConfig>, Option<String>))
        ensures
            pairs_of(r.0@) == without_token(pairs_of(self.tokens@), token@),
            match r.1 {
                Some(u) => last_user(pairs_of(self.tokens@), token@) == Some(u@),
                None => last_user(pairs_of(self.tokens@), token@) is None,
            },
    {
        let ghost ps = pairs_of(self.tokens@);
        let n = self.tokens.len();
        let mut kept: Vec<TokenConfig> = Vec::new();
        let mut found: Option<String> = None;
        proof {
            assert(ps.take(0) =~= Seq::<(Seq<char>, Seq<char>)>::empty());
            assert(pairs_of(kept@) =~= Seq::<(Seq<char>, Seq<char>)>::empty());
        }
        let mut i: usize = 0;
        while i < n
            invariant
                n == self.tokens@.len(),
                i <= n,
                ps == pairs_of(self.tokens@),
                pairs_of(kept@) == without_token(ps.take(i as int), token@),
                match found {
                    Some(u) => last_user(ps.take(i as int), token@) == Some(u@),
                    None => last_user(ps.take(i as int), token@) is None,
                },
            decreases n - i,
        {
            let tc = &self.tokens[i];
            proof {
                assert(ps[i as int] == (self.tokens@[i as int].token@,
                    self.tokens@[i as int].username@));
                assert(ps.take(i + 1 as int).drop_last() =~= ps.take(i as int));
                assert(ps.take(i + 1 as int).last() == ps[i as int]);
            }
            if str_eq(tc.token.as_str(), token) {
                found = Some(tc.username.clone());
            } else {
                kept.push(TokenConfig { token: tc.token.clone(), username: tc.username.clone() });
                assert(pairs_of(kept@) =~= without_token(ps.take(i + 1 as int), token@));
            }
            i = i + 1;
        }
        assert(ps.take(n as int) =~= ps);
        (kept, found)
    }

    /// Adds a binding, overwriting any existing binding for the token.
    pub fn add_token(&mut self, token: String, username: String)
        ensures
            final(self).token_map() == old(self).token_map().insert(token@, username@),
            final(self).auth_required() == old(self).auth_required(),
    {
        let ghost t = token@;
        let ghost u = username@;
        let ghost ps = pairs_of(self.tokens@);
        proof {
            use_type_invariant(&*self);
        }
        let (mut kept, _) = self.without(token.as_str());
        kept.push(TokenConfig { token, username });
        proof {
            let w = without_token(ps, t);
            lemma_without_token_map(ps, t);
            lemma_without_token_wf(ps, t);
            let ps2 = pairs_of(kept@);
            assert(ps2.drop_last() =~= w);
            assert(ps2.last() == (t, u));
            assert(unique_tokens(ps2)) by {
                assert(forall|k: int| 0 <= k < w.len() ==> ps2[k] == w[k]);
            };
            assert(map_of(ps2) =~= map_of(ps).insert(t, u));
        }
        self.tokens = kept;
    }

    /// Removes the binding for the token and returns the identity it was
    /// bound to, if any.
    pub fn remove_token(&mut self, token: &str) -> (r: Option<String>)
        ensures
            final(self).token_map() == old(self).token_map().remove(token@),
            final(self).auth_required() == old(self).auth_required(),
            old(self).token_map().contains_key(token@) ==> (r matches Some(u) && u@ == old(
                self,
            ).token_map()[token@]),
            !old(self).token_map().contains_key(token@) ==> r is None,
    {
        let ghost ps = pairs_of(self.tokens@);
        proof {
            use_type_invariant(&*self);
        }
        let (kept, found) = self.without(token);
        proof {
            lemma_last_user_map(ps, token@);
            lemma_without_token_map(ps, token@);
            lemma_without_token_wf(ps, token@);
        }
        self.tokens = kept;
        found
    }

    /// Returns the table's bindings: exactly one entry for each bound
    /// token, carrying its identity, in no promised order.
    pub fn list_tokens(&self) -> (r: Vec<TokenConfig>)
        ensures
            forall|i: int|
                0 <= i < r@.len() ==> self.token_map().contains_key(#[trigger] r@[i].token@)
                    && self.token_map()[r@[i].token@] == r@[i].username@,
            forall|i: int, j: int| 0 <= i < j < r@.len() ==> r@[i].token@ != r@[j].token@,
            forall|t: Seq<char>|
                #[trigger] self.token_map().contains_key(t) ==> exists|i: int|
                    0 <= i < r@.len() && (#[trigger] r@[i].token@) == t,
    {
        let n = self.tokens.len();
        let mut out: Vec<TokenConfig> = Vec::new();
        let mut i: usize = 0;
        while i < n
            invariant
                n == self.tokens@.len(),
                i <= n,
                out@.len() == i,
                forall|j: int|
                    0 <= j < i ==> out@[j].token@ == self.tokens@[j].token@ && out@[j].username@
                        == self.tokens@[j].username@,
            decreases n - i,
        {
            let tc = &self.tokens[i];
            out.push(TokenConfig { token: tc.token.clone(), username: tc.username.clone() });
            i = i + 1;
        }
        proof {
            use_type_invariant(self);
            let ps = pairs_of(self.tokens@);
            assert(pairs_of(out@) =~= ps);
            assert forall|k: int| 0 <= k < out@.len() implies self.token_map().contains_key(
                #[trigger] out@[k].token@) && self.token_map()[out@[k].token@]
                == out@[k].username@ by {
                lemma_unique_map_binds(ps, k);
                assert(ps[k] == (out@[k].token@, out@[k].username@));
            };
            assert forall|a: int, b: int| 0 <= a < b < out@.len() implies out@[a].token@
                != out@[b].token@ by {
                assert(ps[a] == (out@[a].token@, out@[a].username@));
                assert(ps[b] == (out@[b].token@, out@[b].username@));
            };
            assert forall|t: Seq<char>| #[trigger]
                self.token_map().contains_key(t) implies exists|k: int|
                0 <= k < out@.len() && (#[trigger] out@[k].token@) == t by {
                lemma_map_of_key_index(ps, t);
                let w = choose|k: int| 0 <= k < ps.len() && ps[k].0 == t;
                assert(ps[w] == (out@[w].token@, out@[w].username@));
                assert(out@[w].token@ == t);
            };
        }
        out
    }

    /// Generates a fresh random credential: 22 characters of URL-safe
    /// base64 over 16 random bytes.
    pub fn generate_token() -> (r: String)
        ensures
            r@.len() == 22,
            forall|i: int| 0 <= i < r@.len() ==> is_b64_url_char(#[trigger] r@[i]),
    {
        let bytes = fresh_uuid_bytes();
        b64_url_no_pad(&bytes)
    }

    /// Generates a fresh binding for the given identity.
    pub fn generate_token_config(username: &str) -> (r: TokenConfig)
        ensures
            r.username@ == username@,
            r.token@.len() == 22,
            forall|i: int| 0 <= i < r.token@.len() ==> is_b64_url_char(#[trigger] r.token@[i]),
    {
        TokenConfig { token: AuthManager::generate_token(), username: String::from_str(username) }
    }
}

/// Relies on uuid's `Uuid::new_v4` and `Uuid::as_bytes`: a freshly drawn
/// random UUID is exactly 16 bytes. Nothing is promised of the bytes
/// themselves: they are random.
#[verifier::external_body]
fn fresh_uuid_bytes() -> (r: Vec<u8>)
    ensures
        r@.len() == 16,
{
    uuid::Uuid::new_v4().as_bytes().to_vec()
}

/// What base64's URL-safe unpadded encoding returns: a function of the
/// input bytes alone.
pub uninterp spec fn b64_url_of(bytes: Seq<u8>) -> Seq<char>;

/// A character of the URL-safe base64 alphabet: letters, digits, `-`, `_`.
pub open spec fn is_b64_url_char(c: char) -> bool {
    (65 <= c as u32 <= 90) || (97 <= c as u32 <= 122) || (48 <= c as u32 <= 57) || c as u32 == 45
        || c as u32 == 95
}

/// Relies on base64's `Engine::encode` with the `URL_SAFE_NO_PAD` engine:
/// the output depends on the input bytes alone, without padding it has
/// ceiling(4n/3) characters for n input bytes, and every character comes
/// from the URL-safe alphabet. The length bound keeps the engine's
/// internal size calculation from overflowing.
#[verifier::external_body]
fn b64_url_no_pad(bytes: &Vec<u8>) -> (r: String)
    requires
        bytes@.len() <= usize::MAX / 4,
    ensures
        r@ == b64_url_of(bytes@),
        r@.len() == (4 * bytes@.len() + 2) / 3,
        forall|i: int| 0 <= i < r@.len() ==> is_b64_url_char(#[trigger] r@[i]),
{
    base64::engine::general_purpose::URL_SAFE_NO_PAD.encode(bytes.as_slice())
}

/// After `add(T, I)` the table yields `I` for `T`: the map that `add`
/// leaves behind binds `T` to `I`, which is what `validate` returns for
/// `T` when authentication is required.
pub proof fn lemma_add_then_validate(m: Map<Seq<char>, Seq<char>>, t: Seq<char>, i: Seq<char>)
    ensures
        m.insert(t, i).contains_key(t),
        m.insert(t, i)[t] == i,
{
}

/// After `remove(T)` the table yields nothing for `T`: the map that
/// `remove` leaves behind has no binding for `T`, so `validate` returns
/// none for `T` when authentication is required.
pub proof fn lemma_remove_then_validate(m: Map<Seq<char>, Seq<char>>, t: Seq<char>)
    ensures
        !m.remove(t).contains_key(t),
{
}

} // verus!
