//! Sync accounts: their configuration, and the addresses of the server.

use vstd::prelude::*;

use crate::error::{AliazError, Failure};
use crate::text;
use crate::text::{cat, cat3, decimal_text, strip_trailing};

verus! {

/// The server that is used unless another one is named.
pub const DEFAULT_SYNC_URL: &'static str = "https://aliaz-sync.still-silence-6a39.workers.dev";

/// The configuration of synchronising. It does not hold the recovery phrase.
#[derive(Debug)]
pub struct SyncConfig {
    pub sync_url: String,
    pub username: String,
    pub user_id: String,
    pub token: String,
    pub latest_version: i64,
}

/// A configuration as it may be found: earlier versions kept the recovery phrase in it.
#[derive(Debug)]
pub struct StoredSyncConfig {
    pub sync_url: String,
    pub username: String,
    pub user_id: String,
    pub token: String,
    pub latest_version: i64,
    pub recovery_phrase: Option<String>,
}

/// What the server answers to a registration or a login.
#[derive(Debug)]
pub struct AccountResponse {
    pub user_id: String,
    pub token: String,
    pub latest_version: i64,
}

/// A configuration as it was found: what it says, and the recovery phrase that was kept in it.
pub open spec fn loaded(stored: StoredSyncConfig) -> (SyncConfig, Option<String>) {
    (
        SyncConfig {
            sync_url: stored.sync_url,
            username: stored.username,
            user_id: stored.user_id,
            token: stored.token,
            latest_version: stored.latest_version,
        },
        stored.recovery_phrase,
    )
}

/// A configuration as it is found once it was written: there is no recovery phrase in it.
pub open spec fn written(config: SyncConfig) -> StoredSyncConfig {
    StoredSyncConfig {
        sync_url: config.sync_url,
        username: config.username,
        user_id: config.user_id,
        token: config.token,
        latest_version: config.latest_version,
        recovery_phrase: None,
    }
}

/// A recovery phrase is taken out of a configuration once: what is written has none, says the same
/// otherwise, and need not be written again.
pub proof fn law_phrase_is_taken_out_once(stored: StoredSyncConfig)
    ensures
        loaded(stored).1 == stored.recovery_phrase,
        written(loaded(stored).0).recovery_phrase is None,
        written(loaded(stored).0) == (StoredSyncConfig { recovery_phrase: None, ..stored }),
        loaded(written(loaded(stored).0)) == (loaded(stored).0, None::<String>),
{
}

/// Takes the recovery phrase out of a configuration. Where there was one, it is to be stored, and
/// the configuration is to be written anew.
pub fn load_config(stored: StoredSyncConfig) -> (r: (SyncConfig, Option<String>))
    ensures
        r == loaded(stored),
{
    let config = SyncConfig {
        sync_url: stored.sync_url,
        username: stored.username,
        user_id: stored.user_id,
        token: stored.token,
        latest_version: stored.latest_version,
    };
    (config, stored.recovery_phrase)
}

/// The configuration, where there is one.
pub fn require_config(config: Option<SyncConfig>) -> (r: Result<SyncConfig, AliazError>)
    ensures
        match config {
            Some(c) => r == Ok::<SyncConfig, AliazError>(c),
            None => r matches Err(e) && e@ == Failure::SyncNotConfigured,
        },
{
    match config {
        Some(config) => Ok(config),
        None => Err(AliazError::SyncNotConfigured),
    }
}

/// The configuration of an account: one that is new on this computer starts from version 0, and one
/// that was just registered from the version that the server has.
pub open spec fn is_account(
    config: SyncConfig,
    sync_url: Seq<char>,
    username: Seq<char>,
    response: AccountResponse,
    login: bool,
) -> bool {
    &&& config.sync_url@ == sync_url
    &&& config.username@ == username
    &&& config.user_id == response.user_id
    &&& config.token == response.token
    &&& config.latest_version == if login {
        0
    } else {
        response.latest_version
    }
}

/// The configuration after a login. It starts from version 0, so that everything is pulled.
pub fn login_config(sync_url: &str, username: &str, response: AccountResponse) -> (r: SyncConfig)
    ensures
        is_account(r, sync_url@, username@, response, true),
{
    SyncConfig {
        sync_url: sync_url.to_owned(),
        username: username.to_owned(),
        user_id: response.user_id,
        token: response.token,
        latest_version: 0,
    }
}

/// The configuration after a registration. It starts from the version that the server has.
pub fn register_config(sync_url: &str, username: &str, response: AccountResponse) -> (r: SyncConfig)
    ensures
        is_account(r, sync_url@, username@, response, false),
{
    SyncConfig {
        sync_url: sync_url.to_owned(),
        username: username.to_owned(),
        user_id: response.user_id,
        token: response.token,
        latest_version: response.latest_version,
    }
}

/// The address to register or log in at.
pub fn account_url(sync_url: &str, path: &str) -> (r: String)
    ensures
        r@ == text::without_trailing(sync_url@, '/') + "/v1/"@ + path@,
{
    let base = strip_trailing(sync_url, '/');
    cat3(base.as_str(), "/v1/", path)
}

/// What the answer of the server to a registration or a login comes to: `status` is what the
/// server said.
pub fn account_request(success: bool, status: &str) -> (r: Result<(), AliazError>)
    ensures
        r is Ok <==> success,
        r matches Err(e) ==> e@ == Failure::ServerRefused(status@),
{
    if success {
        Ok(())
    } else {
        Err(AliazError::ServerRefused(status.to_owned()))
    }
}

/// The address of the records after a version.
pub open spec fn pull_url_of(config: SyncConfig) -> Seq<char> {
    text::without_trailing(config.sync_url@, '/') + "/v1/records?after="@ + text::decimal(
        config.latest_version as int,
    )
}

/// The address of the records after the version that was reached.
pub fn pull_url(config: &SyncConfig) -> (r: String)
    ensures
        r@ == pull_url_of(*config),
{
    let base = strip_trailing(config.sync_url.as_str(), '/');
    let version = decimal_text(config.latest_version);
    cat3(base.as_str(), "/v1/records?after=", version.as_str())
}

/// The address that records are sent to.
pub open spec fn push_url_of(config: SyncConfig) -> Seq<char> {
    text::without_trailing(config.sync_url@, '/') + "/v1/records"@
}

/// The address that records are sent to.
pub fn push_url(config: &SyncConfig) -> (r: String)
    ensures
        r@ == push_url_of(*config),
{
    let base = strip_trailing(config.sync_url.as_str(), '/');
    cat(base.as_str(), "/v1/records")
}

/// Slashes at the end of the server's address do not count, and what was reached is asked for
/// behind the address that records are sent to.
pub proof fn law_addresses(config: SyncConfig, base: Seq<char>, slashes: nat)
    requires
        base.len() > 0 ==> base.last() != '/',
        config.sync_url@ == base + Seq::new(slashes, |i: int| '/'),
    ensures
        push_url_of(config) == base + "/v1/records"@,
        pull_url_of(config) == push_url_of(config) + "?after="@ + text::decimal(
            config.latest_version as int,
        ),
{
    text::law_without_trailing(base, slashes, '/');
    reveal_strlit("/v1/records");
    reveal_strlit("?after=");
    reveal_strlit("/v1/records?after=");
    assert("/v1/records?after="@ =~= "/v1/records"@ + "?after="@);
    assert(pull_url_of(config) =~= push_url_of(config) + "?after="@ + text::decimal(
        config.latest_version as int,
    ));
}

/// After a login all records are asked for, after a registration those that are new since it, each
/// time from the server that was named and with the token that it gave.
pub proof fn law_account(
    config: SyncConfig,
    sync_url: Seq<char>,
    username: Seq<char>,
    response: AccountResponse,
    login: bool,
)
    requires
        is_account(config, sync_url, username, response, login),
    ensures
        config.sync_url@ == sync_url,
        config.username@ == username,
        config.user_id == response.user_id,
        config.token == response.token,
        login ==> config.latest_version == 0,
        login ==> pull_url_of(config) == push_url_of(config) + "?after=0"@,
        !login ==> config.latest_version == response.latest_version,
{
    if login {
        reveal_strlit("/v1/records");
        reveal_strlit("?after=0");
        reveal_strlit("/v1/records?after=");
        assert(text::decimal(0) =~= seq!['0']);
        assert(pull_url_of(config) =~= push_url_of(config) + "?after=0"@);
    }
}

} // verus!
