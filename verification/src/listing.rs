//! Continuation-token translation for paginated listings.
//!
//! Per-remote continuation tokens are not portable between providers, so
//! the proxy resumes listings by key range instead: a client-visible token
//! is the id of a persistent record holding the key to resume after. On
//! input, a present token must resolve to a record, whose stored key
//! overrides any `start_after` the client also supplied; the record is
//! marked consumed but stays valid (consumption is logged, not enforced).
//! On output, when the remote indicates more results, a fresh record is
//! minted whose key is the last key of the returned page.

use vstd::prelude::*;

use crate::error::{ProxyErrorCode, ProxyS3Error};

verus! {

/// The persistent record behind one continuation token. Its id in the
/// metadata store is the client-visible token string.
#[derive(Clone, Debug)]
pub struct ListObjectTokens {
    /// The key after which the listing resumes.
    pub start_after: String,
    pub created_at: i64,
    /// When the token was first fed back; never enforced, a consumed token
    /// still resolves.
    pub consumed_at: Option<i64>,
}

/// A fresh token record resuming after `start_after`.
pub open spec fn spec_mint(start_after: String, now: i64) -> ListObjectTokens {
    ListObjectTokens { start_after, created_at: now, consumed_at: None }
}

/// The record after its token was fed back: only the consumption timestamp
/// changes, and only on first consumption.
pub open spec fn spec_consume(t: ListObjectTokens, now: i64) -> ListObjectTokens {
    ListObjectTokens {
        start_after: t.start_after,
        created_at: t.created_at,
        consumed_at: match t.consumed_at {
            Some(first) => Some(first),
            None => Some(now),
        },
    }
}

/// The key the downstream listing resumes after: with no token, whatever
/// the client supplied; with a token, the record's stored key — which takes
/// precedence over the client's — or `InvalidToken` when the token did not
/// resolve to a record.
pub open spec fn spec_effective_start_after(
    token_present: bool,
    record: Option<ListObjectTokens>,
    client_start_after: Option<String>,
) -> Result<Option<String>, ProxyS3Error> {
    if !token_present {
        Ok(client_start_after)
    } else {
        match record {
            Some(rec) => Ok(Some(rec.start_after)),
            None => Err(ProxyS3Error::just_code_spec(ProxyErrorCode::InvalidToken)),
        }
    }
}

/// What the next page resumes after, if a next token is owed: the last key
/// of the returned page, when the remote said more results exist and the
/// page is non-empty. An empty page with more results mints no token, and
/// a final page mints none.
pub open spec fn spec_next_token_start_after(
    contents_keys: Seq<String>,
    downstream_has_more: bool,
) -> Option<String> {
    if downstream_has_more && contents_keys.len() > 0 {
        Some(contents_keys.last())
    } else {
        None
    }
}

impl ListObjectTokens {
    /// Builds the record behind a freshly minted token.
    pub fn mint(start_after: String, now: i64) -> (t: ListObjectTokens)
        ensures
            t == spec_mint(start_after, now),
    {
        ListObjectTokens { start_after, created_at: now, consumed_at: None }
    }

    /// Marks the record consumed; the stored key is never rewritten.
    pub fn consume(self, now: i64) -> (t: ListObjectTokens)
        ensures
            t == spec_consume(self, now),
    {
        let consumed_at = match self.consumed_at {
            Some(first) => Some(first),
            None => Some(now),
        };
        ListObjectTokens { start_after: self.start_after, created_at: self.created_at, consumed_at }
    }
}

/// Exec decision backing `spec_effective_start_after`.
pub fn effective_start_after(
    token_present: bool,
    record: Option<&ListObjectTokens>,
    client_start_after: Option<String>,
) -> (out: Result<Option<String>, ProxyS3Error>)
    ensures
        out == spec_effective_start_after(
            token_present,
            match record {
                Some(rec) => Some(*rec),
                None => None,
            },
            client_start_after,
        ),
{
    if !token_present {
        return Ok(client_start_after);
    }
    match record {
        Some(rec) => Ok(Some(rec.start_after.clone())),
        None => Err(ProxyS3Error::invalid_token()),
    }
}

/// Exec decision backing `spec_next_token_start_after`.
pub fn next_token_start_after(contents_keys: &Vec<String>, downstream_has_more: bool) -> (out:
    Option<String>)
    ensures
        out == spec_next_token_start_after(contents_keys@, downstream_has_more),
{
    if downstream_has_more && contents_keys.len() > 0 {
        Some(contents_keys[contents_keys.len() - 1].clone())
    } else {
        None
    }
}

/// Token round trip: when a page with more results behind it mints a next
/// token, feeding that token back — consumed or not, and whatever
/// `start_after` the client sends along — resumes the listing exactly
/// after the last key of the prior page.
pub proof fn lemma_token_round_trip(
    contents_keys: Seq<String>,
    mint_time: i64,
    consume_time: i64,
    client_start_after: Option<String>,
)
    requires
        contents_keys.len() > 0,
    ensures
        spec_next_token_start_after(contents_keys, true) == Some(contents_keys.last()),
        spec_effective_start_after(
            true,
            Some(
                spec_consume(spec_mint(contents_keys.last(), mint_time), consume_time),
            ),
            client_start_after,
        ) == Result::<Option<String>, ProxyS3Error>::Ok(Some(contents_keys.last())),
        // an unconsumed token resolves the same way
        spec_effective_start_after(
            true,
            Some(spec_mint(contents_keys.last(), mint_time)),
            client_start_after,
        ) == Result::<Option<String>, ProxyS3Error>::Ok(Some(contents_keys.last())),
{
}

} // verus!
