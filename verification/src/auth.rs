//! The results of `auth status` and `auth login`.
use vstd::prelude::*;

use crate::config::{ConfigSource, GrafanaConfig};
use crate::error::{Error, ErrorV, Failure};
use crate::output::TableOutput;
use crate::text::{chars_of, decimal, owned, string_of, trim_chars, trim_seq, u64_decimal};
use crate::time::text_result_view;

verus! {

broadcast use vstd::string::group_string_axioms;

/// The result of `auth status`.
#[derive(Debug)]
pub struct AuthStatusResult {
    pub ok: bool,
    pub grafana_url: String,
    pub visible_datasources: usize,
    pub url_source: ConfigSource,
    pub token_source: ConfigSource,
}

/// The result of `auth login`.
#[derive(Debug)]
pub struct AuthLoginResult {
    pub ok: bool,
    pub grafana_url: String,
    pub profile_path: String,
    pub verified: bool,
    pub visible_datasources: Option<usize>,
}

/// The result of `auth status` once Grafana listed `visible_datasources`
/// datasources with this configuration.
pub fn status(config: &GrafanaConfig, visible_datasources: usize) -> (r: AuthStatusResult)
    ensures
        r.ok,
        r.grafana_url@ == config.base_url@,
        r.visible_datasources == visible_datasources,
        r.url_source == config.url_source,
        r.token_source == config.token_source,
{
    AuthStatusResult {
        ok: true,
        grafana_url: config.base_url.clone(),
        visible_datasources,
        url_source: config.url_source,
        token_source: config.token_source,
    }
}

/// An answer typed at a prompt: trimmed, and not blank.
pub open spec fn prompt_answer_spec(label: Seq<char>, raw: Seq<char>) -> Result<Seq<char>, ErrorV> {
    if trim_seq(raw).len() == 0 {
        Err(Failure::EmptyInput(label))
    } else {
        Ok(trim_seq(raw))
    }
}

/// Checks an answer typed at the prompt named `label` (see `prompt_answer_spec`).
pub fn finish_prompt(label: &str, raw: String) -> (r: Result<String, Error>)
    ensures
        text_result_view(r) == prompt_answer_spec(label@, raw@),
{
    let chars = chars_of(raw.as_str());
    let trimmed = trim_chars(&chars);
    if trimmed.len() == 0 {
        return Err(Failure::EmptyInput(owned(label)));
    }
    Ok(string_of(&trimmed))
}

/// The configuration `auth login` verifies and saves: the values it was
/// given, both counted as flags.
pub fn login_config(base_url: String, token: String) -> (c: GrafanaConfig)
    ensures
        c.base_url == base_url,
        c.token == token,
        c.url_source == ConfigSource::Flag,
        c.token_source == ConfigSource::Flag,
{
    GrafanaConfig {
        base_url,
        token,
        url_source: ConfigSource::Flag,
        token_source: ConfigSource::Flag,
    }
}

/// The result of `auth login` once the profile was saved at `profile_path`:
/// verified unless verification was skipped, with the datasources Grafana
/// listed when it was not.
pub fn login(
    config: GrafanaConfig,
    profile_path: String,
    skip_verification: bool,
    listed_datasources: usize,
) -> (r: AuthLoginResult)
    ensures
        r.ok,
        r.grafana_url == config.base_url,
        r.profile_path == profile_path,
        r.verified == !skip_verification,
        r.visible_datasources == if skip_verification {
            None
        } else {
            Some(listed_datasources)
        },
{
    let visible_datasources = if skip_verification {
        None
    } else {
        Some(listed_datasources)
    };
    AuthLoginResult {
        ok: true,
        grafana_url: config.base_url,
        profile_path,
        verified: !skip_verification,
        visible_datasources,
    }
}

/// Where `auth login` stands between its outside steps.
pub enum LoginState {
    /// The credentials are settled; Grafana was not asked and nothing was
    /// written yet.
    Ready,
    /// Grafana listed this many datasources, or verification was skipped
    /// (`None`); the profile is being written.
    Checked(Option<usize>),
}

/// What the last outside step of `auth login` reported.
pub enum LoginEvent {
    /// Grafana listed this many datasources with the credentials.
    Listed(usize),
    /// Listing the datasources failed.
    ListFailed,
    /// The profile was written at this path.
    Written(String),
    /// Writing the profile failed.
    WriteFailed,
}

/// What `auth login` does next.
pub enum LoginAction {
    /// List the datasources with the credentials, to verify them.
    Verify,
    /// Write the profile.
    Save,
    /// Report the result.
    Finish(AuthLoginResult),
    /// Stop with the failure of the last outside step; nothing more is done.
    Stop,
}

/// The first step of `auth login`: verify the credentials, unless that is
/// skipped, in which case the profile is written straight away.
pub open spec fn login_start_spec(skip_verification: bool) -> (LoginState, bool) {
    if skip_verification {
        (LoginState::Checked(None), true)
    } else {
        (LoginState::Ready, false)
    }
}

/// The first step of `auth login` (see `login_start_spec`): the state, and
/// `Save` or `Verify`.
pub fn login_start(skip_verification: bool) -> (r: (LoginState, LoginAction))
    ensures
        r.0 == login_start_spec(skip_verification).0,
        if login_start_spec(skip_verification).1 {
            r.1 is Save
        } else {
            r.1 is Verify
        },
{
    if skip_verification {
        (LoginState::Checked(None), LoginAction::Save)
    } else {
        (LoginState::Ready, LoginAction::Verify)
    }
}

/// The next step of `auth login` after an outside step. A verified login is
/// saved, a failed verification stops before anything is written, and a
/// written profile is reported (verified when Grafana listed datasources).
/// An event that does not belong to the state stops the login. So after the
/// start, a profile is written only right after Grafana listed datasources.
pub fn login_step(config: &GrafanaConfig, state: LoginState, event: LoginEvent) -> (r: (
    LoginState,
    LoginAction,
))
    ensures
        match (state, event) {
            (LoginState::Ready, LoginEvent::Listed(n)) => r.0 == LoginState::Checked(Some(n))
                && r.1 is Save,
            (LoginState::Checked(listed), LoginEvent::Written(path)) => {
                &&& r.0 == LoginState::Checked(listed)
                &&& r.1 matches LoginAction::Finish(res)
                &&& r.1->Finish_0.ok
                &&& r.1->Finish_0.grafana_url@ == config.base_url@
                &&& r.1->Finish_0.profile_path == path
                &&& r.1->Finish_0.verified == listed is Some
                &&& r.1->Finish_0.visible_datasources == listed
            },
            _ => r.0 == state && r.1 is Stop,
        },
        r.1 is Save <==> (state is Ready && event is Listed),
{
    match (state, event) {
        (LoginState::Ready, LoginEvent::Listed(n)) => (LoginState::Checked(Some(n)), LoginAction::Save),
        (LoginState::Checked(listed), LoginEvent::Written(path)) => {
            let result = AuthLoginResult {
                ok: true,
                grafana_url: config.base_url.clone(),
                profile_path: path,
                verified: listed.is_some(),
                visible_datasources: listed,
            };
            (LoginState::Checked(listed), LoginAction::Finish(result))
        },
        (state, _) => (state, LoginAction::Stop),
    }
}

impl TableOutput for AuthStatusResult {
    open spec fn table_text(&self) -> Seq<char> {
        "\u{2705} credentials look good\nSuccessfully reached Grafana API at "@ + self.grafana_url@
            + "\nVisible datasources: "@ + decimal(self.visible_datasources as nat)
            + "\nURL source: "@ + self.url_source.label() + "\nToken source: "@
            + self.token_source.label() + "\n"@
    }

    fn render_table(&self) -> (s: String) {
        let mut s = owned("\u{2705} credentials look good\nSuccessfully reached Grafana API at ");
        s.append(self.grafana_url.as_str());
        s.append("\nVisible datasources: ");
        let n = u64_decimal(self.visible_datasources as u64);
        s.append(n.as_str());
        s.append("\nURL source: ");
        s.append(self.url_source.as_label());
        s.append("\nToken source: ");
        s.append(self.token_source.as_label());
        s.append("\n");
        s
    }
}

impl TableOutput for AuthLoginResult {
    open spec fn table_text(&self) -> Seq<char> {
        "\u{2705} saved Grafana credentials\nGrafana URL: "@ + self.grafana_url@ + "\nProfile: "@
            + self.profile_path@ + "\n"@ + if self.verified {
            "Verification: success\n"@ + match self.visible_datasources {
                Some(n) => "Visible datasources: "@ + decimal(n as nat) + "\n"@,
                None => Seq::empty(),
            }
        } else {
            "Verification: skipped (--no-verify)\n"@
        }
    }

    fn render_table(&self) -> (s: String) {
        let mut s = owned("\u{2705} saved Grafana credentials\nGrafana URL: ");
        s.append(self.grafana_url.as_str());
        s.append("\nProfile: ");
        s.append(self.profile_path.as_str());
        s.append("\n");
        if self.verified {
            s.append("Verification: success\n");
            if let Some(n) = self.visible_datasources {
                s.append("Visible datasources: ");
                let t = u64_decimal(n as u64);
                s.append(t.as_str());
                s.append("\n");
            }
        } else {
            s.append("Verification: skipped (--no-verify)\n");
        }
        s
    }
}

} // verus!
