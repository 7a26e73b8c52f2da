//! The client that every read and write goes through.

use vstd::prelude::*;


verus! {

/// `clickhouse::Client`: where and how to reach the server.
#[verifier::external_type_specification]
#[verifier::external_body]
pub struct ExClient(clickhouse::Client);

/// The server address that a client holds.
pub uninterp spec fn client_url(c: clickhouse::Client) -> Seq<char>;

/// The database that a client holds.
pub uninterp spec fn client_database(c: clickhouse::Client) -> Option<Seq<char>>;

/// The user that a client holds.
pub uninterp spec fn client_user(c: clickhouse::Client) -> Option<Seq<char>>;

/// The password that a client holds.
pub uninterp spec fn client_password(c: clickhouse::Client) -> Option<Seq<char>>;

/// Whether a client holds an access token in place of user and password.
pub uninterp spec fn client_has_token(c: clickhouse::Client) -> bool;

/// The settings that a client sends with every query.
pub uninterp spec fn client_settings(c: clickhouse::Client) -> Map<Seq<char>, Seq<char>>;

/// `Client::default`: a client that holds nothing yet.
#[verifier::external_body]
fn empty_client() -> (r: clickhouse::Client)
    ensures
        client_database(r) is None,
        client_user(r) is None,
        client_password(r) is None,
        !client_has_token(r),
        client_settings(r).is_empty(),
{
    clickhouse::Client::default()
}

/// `Client::with_url` sets the address and leaves the credentials and settings. What it
/// makes of a `database` parameter inside the address is not stated.
#[verifier::external_body]
fn with_url(c: clickhouse::Client, url: &str) -> (r: clickhouse::Client)
    ensures
        client_url(r) == url@,
        client_user(r) == client_user(c),
        client_password(r) == client_password(c),
        client_has_token(r) == client_has_token(c),
        client_settings(r) == client_settings(c),
{
    c.with_url(url)
}

/// `Client::with_database` sets the database and leaves the rest.
#[verifier::external_body]
fn with_database(c: clickhouse::Client, database: &str) -> (r: clickhouse::Client)
    ensures
        client_database(r) == Some(database@),
        client_url(r) == client_url(c),
        client_user(r) == client_user(c),
        client_password(r) == client_password(c),
        client_has_token(r) == client_has_token(c),
        client_settings(r) == client_settings(c),
{
    c.with_database(database)
}

/// `Client::with_user` sets the user and leaves the rest. It panics on a client that
/// holds an access token.
#[verifier::external_body]
fn with_user(c: clickhouse::Client, user: &str) -> (r: clickhouse::Client)
    requires
        !client_has_token(c),
    ensures
        client_user(r) == Some(user@),
        client_url(r) == client_url(c),
        client_database(r) == client_database(c),
        client_password(r) == client_password(c),
        !client_has_token(r),
        client_settings(r) == client_settings(c),
{
    c.with_user(user)
}

/// `Client::with_password` sets the password and leaves the rest. It panics on a client
/// that holds an access token.
#[verifier::external_body]
fn with_password(c: clickhouse::Client, password: &str) -> (r: clickhouse::Client)
    requires
        !client_has_token(c),
    ensures
        client_password(r) == Some(password@),
        client_url(r) == client_url(c),
        client_database(r) == client_database(c),
        client_user(r) == client_user(c),
        !client_has_token(r),
        client_settings(r) == client_settings(c),
{
    c.with_password(password)
}

/// `Client::with_setting` sets one setting and leaves the rest.
#[verifier::external_body]
fn with_setting(c: clickhouse::Client, name: &str, value: &str) -> (r: clickhouse::Client)
    ensures
        client_settings(r) == client_settings(c).insert(name@, value@),
        client_url(r) == client_url(c),
        client_database(r) == client_database(c),
        client_user(r) == client_user(c),
        client_password(r) == client_password(c),
        client_has_token(r) == client_has_token(c),
{
    c.with_setting(name, value)
}

/// Where the server is and how to write to it.
pub struct ClickhouseConfig {
    pub url: String,
    pub database: String,
    pub user: String,
    /// Empty where the server asks for none.
    pub password: String,
    pub async_insert: bool,
}

/// The settings that make the server coalesce inserts: it answers only after a durable
/// flush, and recognises a batch that is sent again.
pub open spec fn async_settings() -> Map<Seq<char>, Seq<char>> {
    Map::<Seq<char>, Seq<char>>::empty().insert("async_insert"@, "1"@).insert(
        "wait_for_async_insert"@,
        "1"@,
    ).insert("async_insert_deduplicate"@, "1"@)
}

/// The client of a configuration.
pub fn build_client(cfg: &ClickhouseConfig) -> (r: clickhouse::Client)
    ensures
        client_url(r) == cfg.url@,
        client_database(r) == Some(cfg.database@),
        client_user(r) == Some(cfg.user@),
        client_password(r) == (if cfg.password@.len() == 0 {
            None
        } else {
            Some(cfg.password@)
        }),
        !client_has_token(r),
        client_settings(r) == (if cfg.async_insert {
            async_settings()
        } else {
            Map::<Seq<char>, Seq<char>>::empty()
        }),
        client_settings(r) == (if cfg.async_insert {
            Map::<Seq<char>, Seq<char>>::empty().insert("async_insert"@, "1"@).insert(
                "wait_for_async_insert"@,
                "1"@,
            ).insert("async_insert_deduplicate"@, "1"@)
        } else {
            Map::<Seq<char>, Seq<char>>::empty()
        }),
{
    let mut client = with_url(empty_client(), cfg.url.as_str());
    client = with_database(client, cfg.database.as_str());
    client = with_user(client, cfg.user.as_str());
    if !cfg.password.as_str().is_empty() {
        client = with_password(client, cfg.password.as_str());
    }
    if cfg.async_insert {
        client = with_setting(client, "async_insert", "1");
        client = with_setting(client, "wait_for_async_insert", "1");
        client = with_setting(client, "async_insert_deduplicate", "1");
    }
    client
}

/// Org-scoped read side of the results table. It holds no ambient org: every query binds
/// the org that the caller resolved.
pub struct ClickhouseResultsStore {
    client: clickhouse::Client,
}

impl View for ClickhouseResultsStore {
    type V = clickhouse::Client;

    closed spec fn view(&self) -> clickhouse::Client {
        self.client
    }
}

impl ClickhouseResultsStore {
    pub fn from_client(client: clickhouse::Client) -> (r: Self)
        ensures
            r@ == client,
    {
        ClickhouseResultsStore { client }
    }

    /// The client to read with.
    pub fn client(&self) -> (r: &clickhouse::Client)
        ensures
            *r == self@,
    {
        &self.client
    }
}

} // verus!
