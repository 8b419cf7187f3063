//! Credential configuration: which source supplies credentials, what a saved
//! configuration holds, and what `auth setup` takes in.
use vstd::prelude::*;

use crate::error::{fails_with, Error};
use crate::json::{entry_keys, entry_vals, object, push_member, Json, JsonView};
use crate::text::{
    chars_of, count_char, count_chars, has_prefix, is_blank, is_control, is_control_char,
    starts_with, string_of, strip_trailing, strip_trailing_chars, trim, trimmed,
};

verus! {

/// The saved configuration: the credentials that `auth setup` verified.
pub struct Config {
    pub username: String,
    pub password: String,
}

/// The credentials sent to the token endpoint.
pub struct Credentials {
    pub username: String,
    pub password: String,
}

/// What a configuration file holds, entry by entry: the credentials saved by
/// `auth setup`, and the 1Password references that earlier versions saved.
pub struct StoredConfig {
    pub username: Option<String>,
    pub password: Option<String>,
    pub username_ref: Option<String>,
    pub password_ref: Option<String>,
}

/// A 1Password reference `op://vault/item/field`: the `op://` scheme, at
/// least five `/`-separated parts, and no control character.
pub open spec fn is_reference(r: Seq<char>) -> bool {
    &&& has_prefix(r, "op://"@)
    &&& count_char(r, '/') + 1 >= 5
    &&& forall|i: int| 0 <= i < r.len() ==> !is_control(r[i])
}

/// Whether the text is a 1Password reference rather than a secret value.
pub fn valid_reference(reference: &str) -> (b: bool)
    ensures
        b == is_reference(reference@),
{
    let v = chars_of(reference);
    let scheme = chars_of("op://");
    if !starts_with(&v, &scheme) {
        return false;
    }
    if count_chars(&v, '/') < 4 {
        return false;
    }
    let mut i: usize = 0;
    while i < v.len()
        invariant
            v@ == reference@,
            i <= v@.len(),
            forall|j: int| 0 <= j < i ==> !is_control(v@[j]),
        decreases v@.len() - i,
    {
        if is_control_char(v[i]) {
            return false;
        }
        i = i + 1;
    }
    true
}

/// A text that is present and is a 1Password reference.
pub open spec fn reference_entry(v: Option<String>) -> bool {
    match v {
        Some(s) => is_reference(s@),
        None => false,
    }
}

/// A configuration saved by an earlier version: it names 1Password references,
/// in their own entries or in place of the credentials.
pub open spec fn is_legacy(c: StoredConfig) -> bool {
    ||| c.username_ref is Some
    ||| c.password_ref is Some
    ||| reference_entry(c.username)
    ||| reference_entry(c.password)
}

/// The message for a configuration that earlier versions saved.
pub open spec fn legacy_message() -> Seq<char> {
    "~/.mlc/config.toml holds 1Password references from an earlier version; run `mlc auth setup`"@
}

/// Whether an entry is absent or blank.
fn entry_blank(v: &Option<String>) -> (b: bool)
    ensures
        b == missing(*v),
{
    match v {
        Some(s) => is_blank(s.as_str()),
        None => true,
    }
}

/// Whether an entry is a 1Password reference.
fn entry_reference(v: &Option<String>) -> (b: bool)
    ensures
        b == reference_entry(*v),
{
    match v {
        Some(s) => valid_reference(s.as_str()),
        None => false,
    }
}

/// The credentials of a configuration file that was read. One that still
/// holds 1Password references asks for `mlc auth setup` to be run again; one
/// without both credentials is invalid.
pub fn stored_credentials(stored: &StoredConfig) -> (r: Result<Credentials, Error>)
    ensures
        is_legacy(*stored) ==> fails_with(r, 2, legacy_message()),
        !is_legacy(*stored) && (missing(stored.username) || missing(stored.password))
            ==> fails_with(r, 2, "Invalid ~/.mlc/config.toml"@),
        !is_legacy(*stored) && !missing(stored.username) && !missing(stored.password) ==> (
        r matches Ok(c) && stored.username == Some(c.username) && stored.password == Some(
            c.password,
        )),
{
    if stored.username_ref.is_some() || stored.password_ref.is_some() || entry_reference(
        &stored.username,
    ) || entry_reference(&stored.password) {
        return Err(
            Error::new(
                2,
                "~/.mlc/config.toml holds 1Password references from an earlier version; run `mlc auth setup`",
            ),
        );
    }
    if entry_blank(&stored.username) || entry_blank(&stored.password) {
        return Err(Error::new(2, "Invalid ~/.mlc/config.toml"));
    }
    match (&stored.username, &stored.password) {
        (Some(u), Some(p)) => Ok(Credentials { username: u.clone(), password: p.clone() }),
        _ => Err(Error::new(2, "Invalid ~/.mlc/config.toml")),
    }
}

/// The error when neither the environment nor a configuration file supplies
/// credentials.
pub fn no_credentials() -> (e: Error)
    ensures
        e.is(2, "Set MLC_USERNAME and MLC_PASSWORD, or run `mlc auth setup`"@),
{
    Error::new(2, "Set MLC_USERNAME and MLC_PASSWORD, or run `mlc auth setup`")
}

/// The configuration that `auth setup` saves once the credentials were
/// verified with a login: the credentials themselves.
pub fn saved_config(credentials: &Credentials) -> (c: Config)
    ensures
        c.username == credentials.username,
        c.password == credentials.password,
{
    Config { username: credentials.username.clone(), password: credentials.password.clone() }
}

/// Where credentials come from.
#[derive(Debug, PartialEq, Eq, Structural, Clone, Copy)]
pub enum Source {
    /// `MLC_USERNAME` and `MLC_PASSWORD`.
    Environment,
    /// The credentials saved in `~/.mlc/config.toml`.
    ConfigFile,
}

impl Source {
    pub open spec fn name(self) -> Seq<char> {
        match self {
            Source::Environment => "environment"@,
            Source::ConfigFile => "config file"@,
        }
    }

    /// The name that `auth status` and `doctor` report.
    pub fn as_str(&self) -> (s: &'static str)
        ensures
            s@ == self.name(),
    {
        match self {
            Source::Environment => "environment",
            Source::ConfigFile => "config file",
        }
    }
}

/// A variable that is unset, or set to whitespace only.
pub open spec fn missing(v: Option<String>) -> bool {
    match v {
        Some(s) => trim(s@).len() == 0,
        None => true,
    }
}

/// The decision on the environment: the environment is the source when both
/// variables are set and not blank; setting only one of them, or a blank one,
/// is an error rather than a silent fallback; with neither set the
/// configuration file decides (`None`).
pub fn environment_source(username: &Option<String>, password: &Option<String>) -> (r: Result<
    Option<Source>,
    Error,
>)
    ensures
        username is None && password is None ==> r matches Ok(None),
        !(username is None && password is None) && (missing(*username) || missing(*password))
            ==> fails_with(r, 2, "Set both nonempty MLC_USERNAME and MLC_PASSWORD"@),
        !missing(*username) && !missing(*password) ==> r matches Ok(Some(Source::Environment)),
{
    if username.is_none() && password.is_none() {
        return Ok(None);
    }
    let user_missing = match username {
        Some(v) => is_blank(v.as_str()),
        None => true,
    };
    let password_missing = match password {
        Some(v) => is_blank(v.as_str()),
        None => true,
    };
    if user_missing || password_missing {
        return Err(Error::new(2, "Set both nonempty MLC_USERNAME and MLC_PASSWORD"));
    }
    Ok(Some(Source::Environment))
}

/// The decision on a configuration file that was read: it is the source when
/// it holds credentials, and it is refused as `stored_credentials` refuses it.
pub fn config_source(stored: &StoredConfig) -> (r: Result<Source, Error>)
    ensures
        is_legacy(*stored) ==> fails_with(r, 2, legacy_message()),
        !is_legacy(*stored) && (missing(stored.username) || missing(stored.password))
            ==> fails_with(r, 2, "Invalid ~/.mlc/config.toml"@),
        !is_legacy(*stored) && !missing(stored.username) && !missing(stored.password)
            ==> r matches Ok(Source::ConfigFile),
{
    stored_credentials(stored)?;
    Ok(Source::ConfigFile)
}

/// The credentials from the environment: `Some` when both variables are set
/// and not blank, `None` when neither is set; setting only one, or a blank
/// one, is an error rather than a silent fallback.
pub fn env_credentials(username: &Option<String>, password: &Option<String>) -> (r: Result<
    Option<Credentials>,
    Error,
>)
    ensures
        username is None && password is None ==> r matches Ok(None),
        !(username is None && password is None) && (missing(*username) || missing(*password))
            ==> fails_with(r, 2, "Set both nonempty MLC_USERNAME and MLC_PASSWORD"@),
        !missing(*username) && !missing(*password) ==> (r matches Ok(Some(c)) && *username == Some(
            c.username,
        ) && *password == Some(c.password)),
{
    match environment_source(username, password)? {
        Some(_) => match (username, password) {
            (Some(u), Some(p)) => Ok(Some(Credentials { username: u.clone(), password: p.clone() })),
            _ => Err(Error::new(2, "Set both nonempty MLC_USERNAME and MLC_PASSWORD")),
        },
        None => Ok(None),
    }
}

/// Whether a configuration file that was read holds usable credentials.
pub open spec fn holds_credentials(stored: Option<StoredConfig>) -> bool {
    match stored {
        Some(c) => !is_legacy(c) && !missing(c.username) && !missing(c.password),
        None => false,
    }
}

/// The credentials for `auth setup`: those of the environment when both
/// variables are set; `None` when neither is set and a prompt can ask for
/// them; with neither set and no prompt possible (`--no-input`, or no
/// terminal), those already saved in the configuration file (`stored`, when
/// it could be read), so that setup can run again unattended. Setting only
/// one variable is an error, and so is having no credentials anywhere.
pub fn setup_input(
    username: &Option<String>,
    password: &Option<String>,
    no_input: bool,
    terminal: bool,
    stored: &Option<StoredConfig>,
) -> (r: Result<Option<Credentials>, Error>)
    ensures
        !(username is None && password is None) && (missing(*username) || missing(*password))
            ==> fails_with(r, 2, "Set both nonempty MLC_USERNAME and MLC_PASSWORD"@),
        !missing(*username) && !missing(*password) ==> (r matches Ok(Some(c)) && *username == Some(
            c.username,
        ) && *password == Some(c.password)),
        username is None && password is None && !no_input && terminal ==> r matches Ok(None),
        username is None && password is None && (no_input || !terminal) && holds_credentials(
            *stored,
        ) ==> (r matches Ok(Some(c)) && stored->0.username == Some(c.username) && stored->0.password
            == Some(c.password)),
        username is None && password is None && (no_input || !terminal) && !holds_credentials(
            *stored,
        ) ==> fails_with(
            r,
            2,
            "Set MLC_USERNAME and MLC_PASSWORD, or run `mlc auth setup` in a terminal"@,
        ),
{
    if let Some(c) = env_credentials(username, password)? {
        return Ok(Some(c));
    }
    if !no_input && terminal {
        return Ok(None);
    }
    if let Some(config) = stored {
        if let Ok(c) = stored_credentials(config) {
            return Ok(Some(c));
        }
    }
    Err(Error::new(2, "Set MLC_USERNAME and MLC_PASSWORD, or run `mlc auth setup` in a terminal"))
}

/// What happened in `auth setup`, reported back to `setup_step`.
pub enum SetupEvent {
    /// Credentials were obtained, from the environment, the prompts or the
    /// configuration file.
    Obtained(Credentials),
    /// The login with the pending credentials succeeded.
    LoginSucceeded,
    /// The login failed with this error.
    LoginFailed(Error),
    /// The configuration was saved at this path.
    Saved(String),
    /// Saving failed with this error.
    SaveFailed(Error),
}

/// What `auth setup` does next.
pub enum SetupAction {
    /// Log in with these credentials; they stay pending until it succeeds.
    Login(Credentials),
    /// Save these verified credentials.
    Save(Credentials),
    /// Print this report; setup is done.
    Report(Json),
    /// Stop with this error.
    Fail(Error),
}

/// One step of `auth setup`, from the pending credentials and what just
/// happened: obtained credentials are first verified with a login, and only
/// credentials whose login succeeded are saved.
pub fn setup_step(pending: Option<Credentials>, event: SetupEvent) -> (r: SetupAction)
    ensures
        event matches SetupEvent::Obtained(c) ==> r == SetupAction::Login(c),
        event is LoginSucceeded ==> (pending matches Some(c) ==> r == SetupAction::Save(c)),
        event is LoginSucceeded && pending is None ==> (r matches SetupAction::Fail(e) && e.is(
            2,
            "No credentials were verified"@,
        )),
        event matches SetupEvent::LoginFailed(e) ==> r == SetupAction::Fail(e),
        event matches SetupEvent::Saved(p) ==> (r matches SetupAction::Report(j) && j@
            == JsonView::Object(
            seq!["configured"@, "verified"@, "path"@],
            seq![JsonView::Bool(true), JsonView::Bool(true), JsonView::Str(p@)],
        )),
        event matches SetupEvent::SaveFailed(e) ==> r == SetupAction::Fail(e),
        r matches SetupAction::Save(c) ==> event is LoginSucceeded && pending == Some(c),
{
    match event {
        SetupEvent::Obtained(c) => SetupAction::Login(c),
        SetupEvent::LoginSucceeded => match pending {
            Some(c) => SetupAction::Save(c),
            None => SetupAction::Fail(Error::new(2, "No credentials were verified")),
        },
        SetupEvent::LoginFailed(e) => SetupAction::Fail(e),
        SetupEvent::Saved(path) => SetupAction::Report(setup_report(path.as_str())),
        SetupEvent::SaveFailed(e) => SetupAction::Fail(e),
    }
}

/// A line typed at a prompt without its line ending.
pub open spec fn typed(line: Seq<char>) -> Seq<char> {
    strip_trailing(strip_trailing(line, '\n'), '\r')
}

/// The credentials typed at the prompts of `auth setup`: the username
/// trimmed, the password without its line ending; both must be given.
pub fn prompted_credentials(username_line: &str, password_line: &str) -> (r: Result<
    Credentials,
    Error,
>)
    ensures
        trim(username_line@).len() == 0 || typed(password_line@).len() == 0 ==> fails_with(
            r,
            2,
            "Username and password must not be empty"@,
        ),
        trim(username_line@).len() > 0 && typed(password_line@).len() > 0 ==> (r matches Ok(c)
            && c.username@ == trim(username_line@) && c.password@ == typed(password_line@)),
{
    let username = trimmed(&chars_of(username_line));
    let password = strip_trailing_chars(
        &strip_trailing_chars(&chars_of(password_line), '\n'),
        '\r',
    );
    if username.len() == 0 || password.len() == 0 {
        return Err(Error::new(2, "Username and password must not be empty"));
    }
    Ok(Credentials { username: string_of(&username), password: string_of(&password) })
}

/// The report of `auth status`: the source, never a secret, and that nothing
/// was verified.
pub fn status_report(source: Source) -> (r: Json)
    ensures
        r@ == JsonView::Object(
            seq!["source"@, "verified"@],
            seq![JsonView::Str(source.name()), JsonView::Bool(false)],
        ),
{
    let mut e: Vec<(String, Json)> = Vec::new();
    push_member(&mut e, "source", Json::string(source.as_str()));
    push_member(&mut e, "verified", Json::Bool(false));
    assert(entry_keys(e@) =~= seq!["source"@, "verified"@]);
    assert(entry_vals(e@) =~= seq![JsonView::Str(source.name()), JsonView::Bool(false)]);
    object(e)
}

/// The report of `auth setup` after the credentials were verified with a
/// login and saved at `path`.
pub fn setup_report(path: &str) -> (r: Json)
    ensures
        r@ == JsonView::Object(
            seq!["configured"@, "verified"@, "path"@],
            seq![JsonView::Bool(true), JsonView::Bool(true), JsonView::Str(path@)],
        ),
{
    let mut e: Vec<(String, Json)> = Vec::new();
    push_member(&mut e, "configured", Json::Bool(true));
    push_member(&mut e, "verified", Json::Bool(true));
    push_member(&mut e, "path", Json::string(path));
    assert(entry_keys(e@) =~= seq!["configured"@, "verified"@, "path"@]);
    assert(entry_vals(e@) =~= seq![JsonView::Bool(true), JsonView::Bool(true), JsonView::Str(path@)]);
    object(e)
}

/// The report of `doctor` after a login and a data request succeeded.
pub fn doctor_report(source: Source, version: &str) -> (r: Json)
    ensures
        r@ == JsonView::Object(
            seq!["authenticated"@, "data_access"@, "source"@, "version"@],
            seq![
                JsonView::Bool(true),
                JsonView::Bool(true),
                JsonView::Str(source.name()),
                JsonView::Str(version@),
            ],
        ),
{
    let mut e: Vec<(String, Json)> = Vec::new();
    push_member(&mut e, "authenticated", Json::Bool(true));
    push_member(&mut e, "data_access", Json::Bool(true));
    push_member(&mut e, "source", Json::string(source.as_str()));
    push_member(&mut e, "version", Json::string(version));
    assert(entry_keys(e@) =~= seq!["authenticated"@, "data_access"@, "source"@, "version"@]);
    assert(entry_vals(e@) =~= seq![
        JsonView::Bool(true),
        JsonView::Bool(true),
        JsonView::Str(source.name()),
        JsonView::Str(version@),
    ]);
    object(e)
}

} // verus!
