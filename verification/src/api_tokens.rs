//! API tokens managed from the dashboard, kept in memory per dashboard user.
//! The secret is shown once on creation; afterwards only its `tnk_xxxxxxxx`
//! prefix (the token's `id`) is listed.

use vstd::prelude::*;

use crate::clock::{rfc3339_text, UtcTime};
use crate::ids::{is_lower_hex, new_simple_id};
use crate::text::{same_text, trim, trimmed};
use crate::text_map::TextMap;

verus! {

/// Public token view (no secret). The `id` doubles as the displayed prefix.
#[derive(Debug, Clone)]
pub struct TokenInfo {
    pub id: String,
    pub name: String,
    pub scope: String,
    /// RFC3339 creation time.
    pub created_at: String,
    pub revoked: bool,
}

impl TokenInfo {
    /// A field-by-field copy.
    pub fn duplicate(&self) -> (r: Self)
        ensures
            r == *self,
    {
        TokenInfo {
            id: self.id.clone(),
            name: self.name.clone(),
            scope: self.scope.clone(),
            created_at: self.created_at.clone(),
            revoked: self.revoked,
        }
    }
}

/// Body of `POST /api/tokens`.
#[derive(Debug, Clone)]
pub struct CreateToken {
    pub name: String,
    pub scope: String,
}

/// `POST /api/tokens` response: the full secret (shown once) plus the stored view.
#[derive(Debug, Clone)]
pub struct CreatedToken {
    pub token: String,
    pub info: TokenInfo,
}

/// Why a token request was refused.
#[derive(Debug, Clone, Copy, PartialEq, Eq, Structural)]
pub enum TokenError {
    /// The scope is not `all`, `tcp` or `http` (bad request).
    InvalidScope,
    /// The name is empty once trimmed (bad request).
    NameRequired,
    /// No such token for this user (not found).
    NotFound,
}

/// The message the API answers with for each refusal.
pub open spec fn token_error_text(e: TokenError) -> Seq<char> {
    match e {
        TokenError::InvalidScope => "invalid scope"@,
        TokenError::NameRequired => "name is required"@,
        TokenError::NotFound => "token not found"@,
    }
}

impl TokenError {
    /// The HTTP status the API answers with: 400 for a bad request, 404 for
    /// an unknown token.
    pub fn http_status(&self) -> (r: u16)
        ensures
            r == match *self {
                TokenError::InvalidScope | TokenError::NameRequired => 400u16,
                TokenError::NotFound => 404u16,
            },
    {
        match self {
            TokenError::InvalidScope | TokenError::NameRequired => 400,
            TokenError::NotFound => 404,
        }
    }

    /// The message the API answers with.
    pub fn message(&self) -> (r: &'static str)
        ensures
            r@ == token_error_text(*self),
    {
        match self {
            TokenError::InvalidScope => "invalid scope",
            TokenError::NameRequired => "name is required",
            TokenError::NotFound => "token not found",
        }
    }
}

/// The accepted scopes.
pub open spec fn valid_scope(scope: Seq<char>) -> bool {
    ||| scope == seq!['a', 'l', 'l']
    ||| scope == seq!['t', 'c', 'p']
    ||| scope == seq!['h', 't', 't', 'p']
}

/// The `tnk_` prefix of every token.
pub open spec fn token_prefix() -> Seq<char> {
    seq!['t', 'n', 'k', '_']
}

/// The tokens `owner` holds.
pub open spec fn tokens_of(store: Map<Seq<char>, Vec<TokenInfo>>, owner: Seq<char>) -> Seq<TokenInfo> {
    if store.contains_key(owner) {
        store[owner]@
    } else {
        Seq::empty()
    }
}

/// Position of the first token of `s` with id `id`.
pub open spec fn first_token(s: Seq<TokenInfo>, id: Seq<char>) -> Option<int> {
    if exists|i: int|
        0 <= i < s.len() && #[trigger] s[i].id@ == id && forall|j: int| 0 <= j < i ==> s[j].id@ != id {
        Some(
            choose|i: int|
                0 <= i < s.len() && #[trigger] s[i].id@ == id && forall|j: int|
                    0 <= j < i ==> s[j].id@ != id,
        )
    } else {
        None
    }
}

/// A copy of a token list.
fn copy_tokens(v: &Vec<TokenInfo>) -> (r: Vec<TokenInfo>)
    ensures
        r@ == v@,
{
    let mut out: Vec<TokenInfo> = Vec::new();
    let mut i: usize = 0;
    while i < v.len()
        invariant
            i <= v@.len(),
            out@ == v@.subrange(0, i as int),
        decreases v@.len() - i,
    {
        out.push(v[i].duplicate());
        assert(out@ =~= v@.subrange(0, i + 1));
        i = i + 1;
    }
    assert(out@ =~= v@);
    out
}

/// Position of the first token of `list` with id `id`.
fn token_position(list: &Vec<TokenInfo>, id: &str) -> (r: Option<usize>)
    ensures
        r matches Some(k) ==> first_token(list@, id@) == Some(k as int) && k < list@.len(),
        r is None ==> first_token(list@, id@) is None,
{
    let mut i: usize = 0;
    while i < list.len()
        invariant
            i <= list@.len(),
            forall|j: int| 0 <= j < i ==> list@[j].id@ != id@,
        decreases list@.len() - i,
    {
        if same_text(list[i].id.as_str(), id) {
            let ghost s = list@;
            let ghost w = choose|w: int|
                0 <= w < s.len() && #[trigger] s[w].id@ == id@ && forall|j: int|
                    0 <= j < w ==> s[j].id@ != id@;
            assert(s[i as int].id@ == id@);
            assert(w == i) by {
                if w < i {
                } else if w > i {
                    assert(s[i as int].id@ != id@);
                }
            }
            return Some(i);
        }
        i = i + 1;
    }
    None
}

/// Dashboard API tokens, keyed by the owning user's email.
pub struct TokenStore {
    by_user: TextMap<Vec<TokenInfo>>,
}

impl View for TokenStore {
    type V = Map<Seq<char>, Vec<TokenInfo>>;

    closed spec fn view(&self) -> Map<Seq<char>, Vec<TokenInfo>> {
        self.by_user@
    }
}

impl TokenStore {
    /// No tokens.
    pub fn new() -> (s: Self)
        ensures
            s@ == Map::<Seq<char>, Vec<TokenInfo>>::empty(),
    {
        TokenStore { by_user: TextMap::new() }
    }

    /// The tokens of `owner`, oldest first.
    pub fn list(&self, owner: &str) -> (r: Vec<TokenInfo>)
        ensures
            r@ == tokens_of(self@, owner@),
    {
        match self.by_user.get(owner) {
            Some(v) => copy_tokens(v),
            None => Vec::new(),
        }
    }

    /// Mints a token for `owner` from `req`, with a fresh random secret,
    /// created now.
    pub fn create(&mut self, owner: &str, req: &CreateToken) -> (r: Result<CreatedToken, TokenError>)
        ensures
            match r {
                Ok(c) => {
                    &&& valid_scope(req.scope@)
                    &&& trimmed(req.name@).len() > 0
                    &&& c.info.name@ == trimmed(req.name@)
                    &&& c.info.scope@ == req.scope@
                    &&& !c.info.revoked
                    &&& c.token@.len() == 36
                    &&& c.token@.subrange(0, 4) == token_prefix()
                    &&& forall|i: int| 4 <= i < 36 ==> is_lower_hex(#[trigger] c.token@[i])
                    &&& c.info.id@ == c.token@.subrange(0, 12)
                    &&& exists|t: UtcTime| rfc3339_text(t.spec_secs(), t.spec_nanos()) == Some(c.info.created_at@)
                    &&& final(self)@ == old(self)@.insert(owner@, final(self)@[owner@])
                    &&& final(self)@[owner@]@ == tokens_of(old(self)@, owner@).push(c.info)
                },
                Err(e) => {
                    &&& final(self)@ == old(self)@
                    &&& e == (if !valid_scope(req.scope@) {
                        TokenError::InvalidScope
                    } else {
                        TokenError::NameRequired
                    })
                    &&& (e == TokenError::NameRequired ==> trimmed(req.name@).len() == 0)
                },
            },
    {
        let secret = new_simple_id();
        let now = UtcTime::now();
        let r = self.create_with(owner, req, secret.as_str(), &now);
        proof {
            if let Ok(c) = &r {
                assert forall|i: int| 4 <= i < 36 implies is_lower_hex(#[trigger] c.token@[i]) by {
                    assert(c.token@[i] == secret@[i - 4]);
                }
            }
        }
        r
    }

    /// Mints a token for `owner` from `req` with the given 32-digit secret and
    /// creation time. The token is `tnk_` and the secret; its id keeps the
    /// first 8 digits.
    pub fn create_with(&mut self, owner: &str, req: &CreateToken, secret: &str, now: &UtcTime) -> (r:
        Result<CreatedToken, TokenError>)
        requires
            secret@.len() == 32,
        ensures
            match r {
                Ok(c) => {
                    &&& valid_scope(req.scope@)
                    &&& trimmed(req.name@).len() > 0
                    &&& c.token@ == token_prefix() + secret@
                    &&& c.info.id@ == token_prefix() + secret@.subrange(0, 8)
                    &&& c.info.name@ == trimmed(req.name@)
                    &&& c.info.scope@ == req.scope@
                    &&& rfc3339_text(now.spec_secs(), now.spec_nanos()) == Some(c.info.created_at@)
                    &&& !c.info.revoked
                    &&& final(self)@ == old(self)@.insert(owner@, final(self)@[owner@])
                    &&& final(self)@[owner@]@ == tokens_of(old(self)@, owner@).push(c.info)
                    &&& c.token@.len() == 36
                    &&& c.token@.subrange(0, 4) == token_prefix()
                    &&& c.info.id@ == c.token@.subrange(0, 12)
                },
                Err(e) => {
                    &&& final(self)@ == old(self)@
                    &&& e == (if !valid_scope(req.scope@) {
                        TokenError::InvalidScope
                    } else {
                        TokenError::NameRequired
                    })
                    &&& (e == TokenError::NameRequired ==> trimmed(req.name@).len() == 0)
                },
            },
    {
        proof {
            reveal_strlit("all");
            reveal_strlit("tcp");
            reveal_strlit("http");
            reveal_strlit("tnk_");
        }
        let scope = req.scope.as_str();
        if !(same_text(scope, "all") || same_text(scope, "tcp") || same_text(scope, "http")) {
            assert(!valid_scope(req.scope@)) by {
                assert("all"@ =~= seq!['a', 'l', 'l']);
                assert("tcp"@ =~= seq!['t', 'c', 'p']);
                assert("http"@ =~= seq!['h', 't', 't', 'p']);
            }
            return Err(TokenError::InvalidScope);
        }
        assert(valid_scope(req.scope@)) by {
            assert("all"@ =~= seq!['a', 'l', 'l']);
            assert("tcp"@ =~= seq!['t', 'c', 'p']);
            assert("http"@ =~= seq!['h', 't', 't', 'p']);
        }
        let name = trim(req.name.as_str());
        if name.unicode_len() == 0 {
            return Err(TokenError::NameRequired);
        }
        let mut id = String::from_str("tnk_");
        id.append(secret.substring_char(0, 8));
        let mut token = String::from_str("tnk_");
        token.append(secret);
        assert("tnk_"@ =~= token_prefix());
        let info = TokenInfo {
            id,
            name: String::from_str(name),
            scope: String::from_str(scope),
            created_at: now.to_rfc3339(),
            revoked: false,
        };
        let mut list = match self.by_user.remove(owner) {
            Some(v) => v,
            None => Vec::new(),
        };
        list.push(info.duplicate());
        let ghost tokens = list@;
        self.by_user.insert(String::from_str(owner), list);
        assert(self@ =~= old(self)@.insert(owner@, self@[owner@]));
        assert(token@.subrange(0, 4) =~= token_prefix());
        assert(info.id@ =~= token@.subrange(0, 12));
        Ok(CreatedToken { token, info })
    }

    /// Revokes `owner`'s token `id`: it stays listed, marked revoked.
    pub fn revoke(&mut self, owner: &str, id: &str) -> (r: Result<(), TokenError>)
        ensures
            match first_token(tokens_of(old(self)@, owner@), id@) {
                Some(i) => {
                    &&& r is Ok
                    &&& final(self)@ == old(self)@.insert(owner@, final(self)@[owner@])
                    &&& final(self)@[owner@]@ == tokens_of(old(self)@, owner@).update(
                        i,
                        TokenInfo { revoked: true, ..tokens_of(old(self)@, owner@)[i] },
                    )
                },
                None => r == Err::<(), TokenError>(TokenError::NotFound) && final(self)@ == old(self)@,
            },
    {
        let found = match self.by_user.get(owner) {
            Some(list) => token_position(list, id),
            None => None,
        };
        match found {
            None => Err(TokenError::NotFound),
            Some(k) => {
                let mut list = match self.by_user.remove(owner) {
                    Some(v) => v,
                    None => Vec::new(),
                };
                assert(list@ == tokens_of(old(self)@, owner@));
                let mut token = list[k].duplicate();
                token.revoked = true;
                list.set(k, token);
                let ghost updated = list@;
                assert(updated =~= tokens_of(old(self)@, owner@).update(
                    k as int,
                    TokenInfo { revoked: true, ..tokens_of(old(self)@, owner@)[k as int] },
                ));
                self.by_user.insert(String::from_str(owner), list);
                assert(self@[owner@]@ == updated);
                assert(self@ =~= old(self)@.insert(owner@, self@[owner@]));
                Ok(())
            },
        }
    }
}

/// A minted token is listed for its owner, after the tokens the owner
/// already had, and no other user's tokens change.
pub proof fn law_created_token_listed(
    before: Map<Seq<char>, Vec<TokenInfo>>,
    after: Map<Seq<char>, Vec<TokenInfo>>,
    owner: Seq<char>,
    info: TokenInfo,
    other: Seq<char>,
)
    requires
        after == before.insert(owner, after[owner]),
        after[owner]@ == tokens_of(before, owner).push(info),
        other != owner,
    ensures
        tokens_of(after, owner) == tokens_of(before, owner).push(info),
        tokens_of(after, other) == tokens_of(before, other),
{
    assert(after.contains_key(owner));
}

/// A revoked token stays listed, marked revoked, in its place; the owner's
/// other tokens and every other user's tokens are unchanged.
pub proof fn law_revoked_token_stays_listed(
    before: Map<Seq<char>, Vec<TokenInfo>>,
    after: Map<Seq<char>, Vec<TokenInfo>>,
    owner: Seq<char>,
    i: int,
    other: Seq<char>,
)
    requires
        0 <= i < tokens_of(before, owner).len(),
        after == before.insert(owner, after[owner]),
        after[owner]@ == tokens_of(before, owner).update(
            i,
            TokenInfo { revoked: true, ..tokens_of(before, owner)[i] },
        ),
        other != owner,
    ensures
        tokens_of(after, owner).len() == tokens_of(before, owner).len(),
        tokens_of(after, owner)[i].revoked,
        tokens_of(after, owner)[i].id == tokens_of(before, owner)[i].id,
        forall|j: int|
            0 <= j < tokens_of(before, owner).len() && j != i ==> tokens_of(after, owner)[j] == tokens_of(
                before,
                owner,
            )[j],
        tokens_of(after, other) == tokens_of(before, other),
{
    assert(after.contains_key(owner));
}

} // verus!
