//! Where the Grafana URL and token come from: a flag, the environment, or the
//! profile that `auth login` saved.
use vstd::prelude::*;

use crate::error::{Error, ErrorV, Failure};
use crate::json::JsonValue;
use crate::text::{
    chars_of, opt_string_view, push_char, lemma_seq_less_asym, lemma_seq_less_total, lemma_seq_less_trans, owned, seq_less,
    str_eq, str_less, string_of, trim_chars, trim_seq, lemma_trim_idempotent, trim_start_seq,
    trim_end_seq,
};
use crate::time::{opt_view, text_result_view};

verus! {

broadcast use vstd::string::group_string_axioms;

/// The version of the profiles file this library writes.
pub const PROFILE_SCHEMA_VERSION: u32 = 1;

/// The name of the profile used when none is named.
pub const DEFAULT_PROFILE_NAME: &'static str = "default";

/// Where a setting came from.
#[derive(Clone, Copy, Debug, PartialEq, Eq, Structural)]
pub enum ConfigSource {
    Flag,
    Env,
    Profile,
}

impl ConfigSource {
    /// The words that name a source to the user.
    pub open spec fn label(self) -> Seq<char> {
        match self {
            ConfigSource::Flag => "--url/--token flag"@,
            ConfigSource::Env => "environment variable"@,
            ConfigSource::Profile => "saved profile"@,
        }
    }

    /// The words that name this source to the user.
    pub fn as_label(self) -> (r: &'static str)
        ensures
            r@ == self.label(),
    {
        match self {
            ConfigSource::Flag => "--url/--token flag",
            ConfigSource::Env => "environment variable",
            ConfigSource::Profile => "saved profile",
        }
    }
}

/// The URL and token given on the command line, if any.
#[derive(Clone, Debug, Default)]
pub struct AuthOverrides {
    pub base_url: Option<String>,
    pub token: Option<String>,
}

/// The settings a Grafana client is made from, with where each came from.
#[derive(Clone, Debug)]
pub struct GrafanaConfig {
    pub base_url: String,
    pub token: String,
    pub url_source: ConfigSource,
    pub token_source: ConfigSource,
}

/// A setting and where it came from.
#[derive(Debug)]
pub struct ResolvedValue {
    pub value: String,
    pub source: ConfigSource,
}

/// The URL and token as far as they could be resolved.
#[derive(Debug)]
pub struct ResolvedAuthInputs {
    pub base_url: Option<ResolvedValue>,
    pub token: Option<ResolvedValue>,
}

/// What reading an environment variable gave.
#[derive(Debug)]
pub enum EnvValue {
    NotPresent,
    NotUnicode,
    Present(String),
}

/// A setting that must not be blank: trimmed, or the failure that names it.
pub open spec fn non_empty_spec(value: Seq<char>, field_name: Seq<char>) -> Result<Seq<char>, ErrorV> {
    if trim_seq(value).len() == 0 {
        Err(Failure::EmptyValue(field_name))
    } else {
        Ok(trim_seq(value))
    }
}

/// Trims a setting, and refuses it when nothing is left.
pub fn sanitize_non_empty(value: String, field_name: &str) -> (r: Result<String, Error>)
    ensures
        text_result_view(r) == non_empty_spec(value@, field_name@),
{
    let chars = chars_of(value.as_str());
    let trimmed = trim_chars(&chars);
    if trimmed.len() == 0 {
        return Err(Failure::EmptyValue(owned(field_name)));
    }
    Ok(string_of(&trimmed))
}

/// What an environment variable contributes: its trimmed value, nothing, or a failure.
pub open spec fn env_spec(name: Seq<char>, value: EnvValue) -> Result<Option<Seq<char>>, ErrorV> {
    match value {
        EnvValue::NotPresent => Ok(None),
        EnvValue::NotUnicode => Err(Failure::NonUnicodeEnv(name)),
        EnvValue::Present(v) => match non_empty_spec(v@, name) {
            Ok(t) => Ok(Some(t)),
            Err(e) => Err(e),
        },
    }
}

/// The view of an optional-text result.
pub open spec fn opt_text_result_view(r: Result<Option<String>, Error>) -> Result<Option<Seq<char>>, ErrorV> {
    match r {
        Ok(o) => Ok(opt_string_view(o)),
        Err(e) => Err(e@),
    }
}

/// The value of an environment variable, trimmed; a blank or non-UTF-8 value is refused.
pub fn read_env(name: &str, value: EnvValue) -> (r: Result<Option<String>, Error>)
    ensures
        opt_text_result_view(r) == env_spec(name@, value),
{
    match value {
        EnvValue::NotPresent => Ok(None),
        EnvValue::NotUnicode => Err(Failure::NonUnicodeEnv(owned(name))),
        EnvValue::Present(v) => match sanitize_non_empty(v, name) {
            Ok(t) => Ok(Some(t)),
            Err(e) => Err(e),
        },
    }
}

/// The view of a resolved value.
pub open spec fn resolved_view(o: Option<ResolvedValue>) -> Option<(Seq<char>, ConfigSource)> {
    match o {
        Some(v) => Some((v.value@, v.source)),
        None => None,
    }
}

/// How one setting resolves: the flag if given, else the environment variable
/// if set, else the saved profile, else nothing. Whichever is taken must not be
/// blank, and is trimmed.
pub open spec fn resolve_spec(
    flag: Option<Seq<char>>,
    flag_name: Seq<char>,
    env_name: Seq<char>,
    env: EnvValue,
    profile: Option<Seq<char>>,
) -> Result<Option<(Seq<char>, ConfigSource)>, ErrorV> {
    match flag {
        Some(f) => match non_empty_spec(f, flag_name) {
            Ok(t) => Ok(Some((t, ConfigSource::Flag))),
            Err(e) => Err(e),
        },
        None => match env_spec(env_name, env) {
            Err(e) => Err(e),
            Ok(Some(t)) => Ok(Some((t, ConfigSource::Env))),
            Ok(None) => match profile {
                Some(p) => match non_empty_spec(p, "saved profile"@) {
                    Ok(t) => Ok(Some((t, ConfigSource::Profile))),
                    Err(e) => Err(e),
                },
                None => Ok(None),
            },
        },
    }
}

/// The view of the result of `resolve_value`.
pub open spec fn resolve_result_view(r: Result<Option<ResolvedValue>, Error>) -> Result<
    Option<(Seq<char>, ConfigSource)>,
    ErrorV,
> {
    match r {
        Ok(o) => Ok(resolved_view(o)),
        Err(e) => Err(e@),
    }
}

/// Resolves one setting (see `resolve_spec`).
pub fn resolve_value(
    flag_value: Option<String>,
    flag_name: &str,
    env_name: &str,
    env_value: EnvValue,
    profile_value: Option<String>,
) -> (r: Result<Option<ResolvedValue>, Error>)
    ensures
        resolve_result_view(r) == resolve_spec(
            opt_string_view(flag_value),
            flag_name@,
            env_name@,
            env_value,
            opt_string_view(profile_value),
        ),
{
    if let Some(value) = flag_value {
        return match sanitize_non_empty(value, flag_name) {
            Ok(v) => Ok(Some(ResolvedValue { value: v, source: ConfigSource::Flag })),
            Err(e) => Err(e),
        };
    }
    match read_env(env_name, env_value) {
        Err(e) => return Err(e),
        Ok(Some(value)) => return Ok(Some(ResolvedValue { value, source: ConfigSource::Env })),
        Ok(None) => {},
    }
    if let Some(value) = profile_value {
        return match sanitize_non_empty(value, "saved profile") {
            Ok(v) => Ok(Some(ResolvedValue { value: v, source: ConfigSource::Profile })),
            Err(e) => Err(e),
        };
    }
    Ok(None)
}

/// A setting comes from the flag whenever one is given; else from the
/// environment variable whenever it is set; only when neither is there from
/// the saved profile.
pub proof fn law_credential_precedence(
    flag: Option<Seq<char>>,
    flag_name: Seq<char>,
    env_name: Seq<char>,
    env: EnvValue,
    profile: Option<Seq<char>>,
)
    ensures
        flag is Some && trim_seq(flag->0).len() > 0 ==> resolve_spec(
            flag,
            flag_name,
            env_name,
            env,
            profile,
        ) == Ok::<_, ErrorV>(Some((trim_seq(flag->0), ConfigSource::Flag))),
        flag is None && env is Present && trim_seq(env->Present_0@).len() > 0 ==> resolve_spec(
            flag,
            flag_name,
            env_name,
            env,
            profile,
        ) == Ok::<_, ErrorV>(Some((trim_seq(env->Present_0@), ConfigSource::Env))),
        resolve_spec(flag, flag_name, env_name, env, profile) matches Ok(Some((_, src))) ==> (src
            == ConfigSource::Profile <==> (flag is None && env is NotPresent && profile is Some)),
{
}

/// A copy of an optional text.
fn copy_opt(o: &Option<String>) -> (r: Option<String>)
    ensures
        opt_string_view(r) == opt_string_view(*o),
{
    match o {
        Some(s) => Some(s.clone()),
        None => None,
    }
}

/// How the URL and the token resolve, the URL first.
pub open spec fn auth_inputs_spec(
    overrides: AuthOverrides,
    url_env: EnvValue,
    token_env: EnvValue,
    profile: Option<StoredProfile>,
) -> Result<(Option<(Seq<char>, ConfigSource)>, Option<(Seq<char>, ConfigSource)>), ErrorV> {
    let profile_url = match profile {
        Some(p) => Some(p.grafana_url@),
        None => None,
    };
    let profile_token = match profile {
        Some(p) => Some(p.grafana_token@),
        None => None,
    };
    match resolve_spec(opt_string_view(overrides.base_url), "--url"@, "GRAFANA_URL"@, url_env, profile_url) {
        Err(e) => Err(e),
        Ok(url) => match resolve_spec(
            opt_string_view(overrides.token),
            "--token"@,
            "GRAFANA_TOKEN"@,
            token_env,
            profile_token,
        ) {
            Err(e) => Err(e),
            Ok(token) => Ok((url, token)),
        },
    }
}

/// The view of resolved inputs.
pub open spec fn inputs_view(i: ResolvedAuthInputs) -> (
    Option<(Seq<char>, ConfigSource)>,
    Option<(Seq<char>, ConfigSource)>,
) {
    (resolved_view(i.base_url), resolved_view(i.token))
}

/// Resolves the URL and the token from the flags, the values of `GRAFANA_URL`
/// and `GRAFANA_TOKEN`, and the saved profile (see `resolve_spec`).
pub fn resolve_auth_inputs(
    overrides: &AuthOverrides,
    url_env: EnvValue,
    token_env: EnvValue,
    profile: &Option<StoredProfile>,
) -> (r: Result<ResolvedAuthInputs, Error>)
    ensures
        match r {
            Ok(i) => auth_inputs_spec(*overrides, url_env, token_env, *profile) == Ok::<
                _,
                ErrorV,
            >(inputs_view(i)),
            Err(e) => auth_inputs_spec(*overrides, url_env, token_env, *profile) == Err::<
                (Option<(Seq<char>, ConfigSource)>, Option<(Seq<char>, ConfigSource)>),
                ErrorV,
            >(e@),
        },
{
    let (profile_url, profile_token) = match profile {
        Some(p) => (Some(p.grafana_url.clone()), Some(p.grafana_token.clone())),
        None => (None, None),
    };
    let base_url = match resolve_value(
        copy_opt(&overrides.base_url),
        "--url",
        "GRAFANA_URL",
        url_env,
        profile_url,
    ) {
        Ok(v) => v,
        Err(e) => return Err(e),
    };
    let token = match resolve_value(
        copy_opt(&overrides.token),
        "--token",
        "GRAFANA_TOKEN",
        token_env,
        profile_token,
    ) {
        Ok(v) => v,
        Err(e) => return Err(e),
    };
    Ok(ResolvedAuthInputs { base_url, token })
}

/// The configuration that resolved inputs give: both must be there, the URL is
/// checked first.
pub open spec fn required_spec(
    url: Option<(Seq<char>, ConfigSource)>,
    token: Option<(Seq<char>, ConfigSource)>,
) -> Result<(Seq<char>, Seq<char>, ConfigSource, ConfigSource), ErrorV> {
    match url {
        None => Err(Failure::MissingUrl),
        Some(u) => match token {
            None => Err(Failure::MissingToken),
            Some(t) => Ok((u.0, t.0, u.1, t.1)),
        },
    }
}

/// The view of a configuration.
pub open spec fn config_view(c: GrafanaConfig) -> (Seq<char>, Seq<char>, ConfigSource, ConfigSource) {
    (c.base_url@, c.token@, c.url_source, c.token_source)
}

/// The view of a configuration result.
pub open spec fn config_result_view(r: Result<GrafanaConfig, Error>) -> Result<
    (Seq<char>, Seq<char>, ConfigSource, ConfigSource),
    ErrorV,
> {
    match r {
        Ok(c) => Ok(config_view(c)),
        Err(e) => Err(e@),
    }
}

impl ResolvedAuthInputs {
    /// The configuration, when both the URL and the token were resolved.
    pub fn into_required(self) -> (r: Result<GrafanaConfig, Error>)
        ensures
            config_result_view(r) == required_spec(
                resolved_view(self.base_url),
                resolved_view(self.token),
            ),
    {
        let base_url = match self.base_url {
            Some(v) => v,
            None => return Err(Failure::MissingUrl),
        };
        let token = match self.token {
            Some(v) => v,
            None => return Err(Failure::MissingToken),
        };
        Ok(
            GrafanaConfig {
                base_url: base_url.value,
                token: token.value,
                url_source: base_url.source,
                token_source: token.source,
            },
        )
    }
}

/// The configuration from the flags, the environment and the saved profile.
pub open spec fn config_spec(
    overrides: AuthOverrides,
    url_env: EnvValue,
    token_env: EnvValue,
    profile: Option<StoredProfile>,
) -> Result<(Seq<char>, Seq<char>, ConfigSource, ConfigSource), ErrorV> {
    match auth_inputs_spec(overrides, url_env, token_env, profile) {
        Err(e) => Err(e),
        Ok((url, token)) => required_spec(url, token),
    }
}

impl GrafanaConfig {
    /// Resolves the configuration (see `resolve_spec`), and requires both settings.
    pub fn resolve(
        overrides: &AuthOverrides,
        url_env: EnvValue,
        token_env: EnvValue,
        profile: &Option<StoredProfile>,
    ) -> (r: Result<GrafanaConfig, Error>)
        ensures
            config_result_view(r) == config_spec(*overrides, url_env, token_env, *profile),
    {
        match resolve_auth_inputs(overrides, url_env, token_env, profile) {
            Ok(inputs) => inputs.into_required(),
            Err(e) => Err(e),
        }
    }
}

/// A saved profile. Keys of the stored object that the library does not read
/// are kept in `extra`, in key order.
#[derive(Debug)]
pub struct StoredProfile {
    pub grafana_url: String,
    pub grafana_token: String,
    pub extra: Vec<(String, JsonValue)>,
}

/// The view of a saved profile: its URL, token and other keys.
pub open spec fn profile_view(p: StoredProfile) -> (Seq<char>, Seq<char>, Seq<(String, JsonValue)>) {
    (p.grafana_url@, p.grafana_token@, p.extra@)
}

/// Named profiles whose names strictly increase, as a sorted map holds them.
pub open spec fn keys_sorted(es: Seq<(String, StoredProfile)>) -> bool {
    forall|i: int, j: int|
        0 <= i < j < es.len() ==> seq_less(#[trigger] es[i].0@, #[trigger] es[j].0@)
}

/// Whether a profile is named `k`.
pub open spec fn has_name(es: Seq<(String, StoredProfile)>, k: Seq<char>) -> bool {
    exists|i: int| 0 <= i < es.len() && (#[trigger] es[i]).0@ == k
}

/// Named profiles as a map from name to profile.
pub open spec fn profiles_map(es: Seq<(String, StoredProfile)>) -> Map<
    Seq<char>,
    (Seq<char>, Seq<char>, Seq<(String, JsonValue)>),
> {
    Map::new(
        |k: Seq<char>| has_name(es, k),
        |k: Seq<char>| profile_named(es, k),
    )
}

/// The profile named `k` (one of them, when names repeat).
pub open spec fn profile_named(es: Seq<(String, StoredProfile)>, k: Seq<char>) -> (
    Seq<char>,
    Seq<char>,
    Seq<(String, JsonValue)>,
) {
    profile_view(es[name_index(es, k)].1)
}

/// A place of a profile named `k`, when there is one.
pub open spec fn name_index(es: Seq<(String, StoredProfile)>, k: Seq<char>) -> int {
    choose|i: int| 0 <= i < es.len() && (#[trigger] es[i]).0@ == k
}

/// In sorted profiles a name stands at one place only.
pub proof fn lemma_sorted_names_unique(es: Seq<(String, StoredProfile)>, i: int, j: int)
    requires
        keys_sorted(es),
        0 <= i < es.len(),
        0 <= j < es.len(),
        es[i].0@ == es[j].0@,
    ensures
        i == j,
{
    lemma_seq_less_asym(es[i].0@, es[i].0@);
    if i < j {
        assert(seq_less(es[i].0@, es[j].0@));
    } else if j < i {
        assert(seq_less(es[j].0@, es[i].0@));
    }
}

/// The map of sorted profiles holds each profile under its name.
pub proof fn lemma_profiles_map_at(es: Seq<(String, StoredProfile)>, n: int)
    requires
        keys_sorted(es),
        0 <= n < es.len(),
    ensures
        profiles_map(es).contains_key(es[n].0@),
        profiles_map(es)[es[n].0@] == profile_view(es[n].1),
{
    let k = es[n].0@;
    assert(has_name(es, k));
    let c = name_index(es, k);
    lemma_sorted_names_unique(es, n, c);
    assert(profile_named(es, k) == profile_view(es[n].1));
    assert(profiles_map(es)[k] == profile_named(es, k));
}

/// Replacing the profile that bears a name changes only that entry of the map.
proof fn lemma_update_map(
    es: Seq<(String, StoredProfile)>,
    i: int,
    e: (String, StoredProfile),
)
    requires
        keys_sorted(es),
        0 <= i < es.len(),
        es[i].0@ == e.0@,
    ensures
        keys_sorted(es.update(i, e)),
        profiles_map(es.update(i, e)) == profiles_map(es).insert(e.0@, profile_view(e.1)),
{
    let ne = es.update(i, e);
    assert(keys_sorted(ne)) by {
        assert forall|a: int, b: int| 0 <= a < b < ne.len() implies seq_less(
            #[trigger] ne[a].0@,
            #[trigger] ne[b].0@,
        ) by {
            assert(seq_less(es[a].0@, es[b].0@));
        }
    }
    let m = profiles_map(es).insert(e.0@, profile_view(e.1));
    assert forall|k: Seq<char>| #[trigger] profiles_map(ne).contains_key(k) == m.contains_key(k) by {
        if has_name(ne, k) {
            let j = choose|j: int| 0 <= j < ne.len() && (#[trigger] ne[j]).0@ == k;
            if j != i {
                assert(es[j].0@ == k);
                assert(has_name(es, k));
            }
        }
        if k != e.0@ && has_name(es, k) {
            let j = choose|j: int| 0 <= j < es.len() && (#[trigger] es[j]).0@ == k;
            assert(ne[j].0@ == k);
            assert(has_name(ne, k));
        }
        if k == e.0@ {
            assert(ne[i].0@ == k);
        }
    }
    assert forall|k: Seq<char>| #[trigger] profiles_map(ne).contains_key(k) implies profiles_map(
        ne,
    )[k] == m[k] by {
        let j = name_index(ne, k);
        lemma_profiles_map_at(ne, j);
        if j != i {
            lemma_profiles_map_at(es, j);
            if k == e.0@ {
                lemma_sorted_names_unique(es, i, j);
            }
        }
    }
    assert(profiles_map(ne) =~= m);
}

/// Putting a profile whose name is new at its sorted place adds it to the map.
proof fn lemma_insert_map(
    es: Seq<(String, StoredProfile)>,
    i: int,
    e: (String, StoredProfile),
)
    requires
        keys_sorted(es),
        0 <= i <= es.len(),
        forall|j: int| 0 <= j < i ==> seq_less(#[trigger] es[j].0@, e.0@),
        forall|j: int| i <= j < es.len() ==> seq_less(e.0@, #[trigger] es[j].0@),
    ensures
        keys_sorted(es.insert(i, e)),
        profiles_map(es.insert(i, e)) == profiles_map(es).insert(e.0@, profile_view(e.1)),
{
    let ne = es.insert(i, e);
    assert forall|j: int| 0 <= j < ne.len() implies #[trigger] ne[j] == if j < i {
        es[j]
    } else if j == i {
        e
    } else {
        es[j - 1]
    } by {}
    assert(keys_sorted(ne)) by {
        assert forall|a: int, b: int| 0 <= a < b < ne.len() implies seq_less(
            #[trigger] ne[a].0@,
            #[trigger] ne[b].0@,
        ) by {
            if a < i && b > i {
                lemma_seq_less_trans(es[a].0@, e.0@, es[b - 1].0@);
            } else if a < i && b < i {
                assert(seq_less(es[a].0@, es[b].0@));
            } else if a > i {
                assert(seq_less(es[a - 1].0@, es[b - 1].0@));
            }
        }
    }
    let m = profiles_map(es).insert(e.0@, profile_view(e.1));
    assert forall|k: Seq<char>| #[trigger] profiles_map(ne).contains_key(k) == m.contains_key(k) by {
        if has_name(ne, k) {
            let j = choose|j: int| 0 <= j < ne.len() && (#[trigger] ne[j]).0@ == k;
            if j < i {
                assert(es[j].0@ == k);
            } else if j > i {
                assert(es[j - 1].0@ == k);
            }
        }
        if has_name(es, k) {
            let j = choose|j: int| 0 <= j < es.len() && (#[trigger] es[j]).0@ == k;
            if j < i {
                assert(ne[j].0@ == k);
            } else {
                assert(ne[j + 1].0@ == k);
            }
        }
        if k == e.0@ {
            assert(ne[i].0@ == k);
        }
    }
    assert forall|k: Seq<char>| #[trigger] profiles_map(ne).contains_key(k) implies profiles_map(
        ne,
    )[k] == m[k] by {
        let j = name_index(ne, k);
        lemma_profiles_map_at(ne, j);
        if j < i {
            lemma_profiles_map_at(es, j);
            lemma_seq_less_asym(es[j].0@, e.0@);
        } else if j > i {
            lemma_profiles_map_at(es, j - 1);
            lemma_seq_less_asym(e.0@, es[j - 1].0@);
        }
    }
    assert(profiles_map(ne) =~= m);
}

/// Puts `profile` under `name`, replacing what stood there, and keeps the
/// names sorted: `BTreeMap::insert`.
pub fn insert_profile(entries: &mut Vec<(String, StoredProfile)>, name: String, profile: StoredProfile)
    requires
        keys_sorted(old(entries)@),
    ensures
        keys_sorted(final(entries)@),
        profiles_map(final(entries)@) == profiles_map(old(entries)@).insert(
            name@,
            profile_view(profile),
        ),
{
    let mut i: usize = 0;
    while i < entries.len() && str_less(entries[i].0.as_str(), name.as_str())
        invariant
            i <= entries@.len(),
            forall|j: int| 0 <= j < i ==> seq_less(#[trigger] entries@[j].0@, name@),
        decreases entries.len() - i,
    {
        i = i + 1;
    }
    let ghost before = entries@;
    if i < entries.len() && str_eq(entries[i].0.as_str(), name.as_str()) {
        proof {
            lemma_update_map(before, i as int, (name, profile));
        }
        entries.set(i, (name, profile));
    } else {
        proof {
            if i < before.len() {
                lemma_seq_less_total(before[i as int].0@, name@);
            }
            assert forall|j: int| i <= j < before.len() implies seq_less(
                name@,
                #[trigger] before[j].0@,
            ) by {
                if j > i {
                    lemma_seq_less_trans(name@, before[i as int].0@, before[j].0@);
                }
            }
            lemma_insert_map(before, i as int, (name, profile));
        }
        entries.insert(i, (name, profile));
    }
}

/// The place of the profile named `name`, if any.
pub fn find_profile(entries: &Vec<(String, StoredProfile)>, name: &str) -> (r: Option<usize>)
    ensures
        match r {
            Some(i) => i < entries@.len() && entries@[i as int].0@ == name@,
            None => !has_name(entries@, name@),
        },
{
    let mut i: usize = 0;
    while i < entries.len()
        invariant
            i <= entries@.len(),
            forall|j: int| 0 <= j < i ==> (#[trigger] entries@[j]).0@ != name@,
        decreases entries.len() - i,
    {
        if str_eq(entries[i].0.as_str(), name) {
            return Some(i);
        }
        i = i + 1;
    }
    None
}

/// The view of a saved profile result.
pub open spec fn profile_result_view(r: Result<StoredProfile, Error>) -> Result<
    (Seq<char>, Seq<char>, Seq<(String, JsonValue)>),
    ErrorV,
> {
    match r {
        Ok(p) => Ok(profile_view(p)),
        Err(e) => Err(e@),
    }
}

/// A profile made of a URL and a token, both trimmed and not blank; each
/// failure names its field.
pub open spec fn checked_profile_spec(
    url: Seq<char>,
    token: Seq<char>,
    url_field: Seq<char>,
    token_field: Seq<char>,
    extra: Seq<(String, JsonValue)>,
) -> Result<(Seq<char>, Seq<char>, Seq<(String, JsonValue)>), ErrorV> {
    match non_empty_spec(url, url_field) {
        Err(e) => Err(e),
        Ok(u) => match non_empty_spec(token, token_field) {
            Err(e) => Err(e),
            Ok(t) => Ok((u, t, extra)),
        },
    }
}

/// A saved profile as it is sanitized when loaded.
pub open spec fn sanitized_profile(p: StoredProfile) -> Result<
    (Seq<char>, Seq<char>, Seq<(String, JsonValue)>),
    ErrorV,
> {
    checked_profile_spec(
        p.grafana_url@,
        p.grafana_token@,
        "saved profile grafana_url"@,
        "saved profile grafana_token"@,
        p.extra@,
    )
}

impl StoredProfile {
    /// A new profile with no other keys.
    pub fn new(grafana_url: String, grafana_token: String) -> (r: Result<StoredProfile, Error>)
        ensures
            profile_result_view(r) == checked_profile_spec(
                grafana_url@,
                grafana_token@,
                "Grafana URL"@,
                "Grafana token"@,
                Seq::empty(),
            ),
    {
        let url = match sanitize_non_empty(grafana_url, "Grafana URL") {
            Ok(u) => u,
            Err(e) => return Err(e),
        };
        let token = match sanitize_non_empty(grafana_token, "Grafana token") {
            Ok(t) => t,
            Err(e) => return Err(e),
        };
        Ok(StoredProfile { grafana_url: url, grafana_token: token, extra: Vec::new() })
    }

    /// The profile with its URL and token trimmed; a blank one is refused.
    pub fn sanitize(self) -> (r: Result<StoredProfile, Error>)
        ensures
            profile_result_view(r) == sanitized_profile(self),
    {
        let url = match sanitize_non_empty(self.grafana_url, "saved profile grafana_url") {
            Ok(u) => u,
            Err(e) => return Err(e),
        };
        let token = match sanitize_non_empty(self.grafana_token, "saved profile grafana_token") {
            Ok(t) => t,
            Err(e) => return Err(e),
        };
        Ok(StoredProfile { grafana_url: url, grafana_token: token, extra: self.extra })
    }
}

/// A profile file of the first format: a single profile.
#[derive(Debug)]
pub struct LegacyProfileFile {
    pub grafana_url: String,
    pub grafana_token: String,
    pub extra: Vec<(String, JsonValue)>,
}

/// The profiles file: named profiles, the one in use, and the other keys of
/// the stored object (kept in key order).
#[derive(Debug)]
pub struct ProfilesFile {
    pub schema_version: u32,
    pub active_profile: String,
    pub profiles: Vec<(String, StoredProfile)>,
    pub extra: Vec<(String, JsonValue)>,
}

/// The schema version a file without one is read as.
pub fn default_schema_version() -> (v: u32)
    ensures
        v == PROFILE_SCHEMA_VERSION,
{
    PROFILE_SCHEMA_VERSION
}

/// The profile name a file without one is read as.
pub fn default_profile_name() -> (s: String)
    ensures
        s@ == DEFAULT_PROFILE_NAME@,
{
    owned(DEFAULT_PROFILE_NAME)
}

/// A profile name, trimmed; a blank one is the default name.
pub open spec fn normalized_name(name: Seq<char>) -> Seq<char> {
    if trim_seq(name).len() == 0 {
        DEFAULT_PROFILE_NAME@
    } else {
        trim_seq(name)
    }
}

/// A profile name, trimmed; a blank one is the default name.
pub fn normalize_profile_name(value: String) -> (r: String)
    ensures
        r@ == normalized_name(value@),
{
    let chars = chars_of(value.as_str());
    let trimmed = trim_chars(&chars);
    if trimmed.len() == 0 {
        owned(DEFAULT_PROFILE_NAME)
    } else {
        string_of(&trimmed)
    }
}

/// The profiles of a file as they are sanitized when loaded: in order, each
/// under its normalized name, a later one replacing an earlier one of the same
/// name; the first profile that fails to sanitize fails the whole.
pub open spec fn sanitized_map(es: Seq<(String, StoredProfile)>) -> Result<
    Map<Seq<char>, (Seq<char>, Seq<char>, Seq<(String, JsonValue)>)>,
    ErrorV,
>
    decreases es.len(),
{
    if es.len() == 0 {
        Ok(Map::empty())
    } else {
        match sanitized_map(es.drop_last()) {
            Err(e) => Err(e),
            Ok(m) => match sanitized_profile(es.last().1) {
                Err(e) => Err(e),
                Ok(p) => Ok(m.insert(normalized_name(es.last().0@), p)),
            },
        }
    }
}

/// Once a prefix of the profiles fails to sanitize, all of them fail the same way.
proof fn lemma_sanitized_map_err(es: Seq<(String, StoredProfile)>, i: int)
    requires
        0 <= i <= es.len(),
        sanitized_map(es.take(i)) is Err,
    ensures
        sanitized_map(es) == sanitized_map(es.take(i)),
    decreases es.len() - i,
{
    if i < es.len() {
        assert(es.drop_last().take(i) == es.take(i));
        lemma_sanitized_map_err(es.drop_last(), i);
    } else {
        assert(es.take(i) == es);
    }
}

/// The profile name in use after loading: the given one if a profile bears it,
/// else the default name if a profile bears that, else the first name.
pub open spec fn active_choice(
    name: Seq<char>,
    es: Seq<(String, StoredProfile)>,
) -> Seq<char> {
    if has_name(es, name) {
        name
    } else if has_name(es, DEFAULT_PROFILE_NAME@) {
        DEFAULT_PROFILE_NAME@
    } else if es.len() > 0 {
        es[0].0@
    } else {
        name
    }
}

impl ProfilesFile {
    /// Its profiles are sorted by name, each name once.
    pub open spec fn wf(&self) -> bool {
        keys_sorted(self.profiles@)
    }

    /// The file as it is used after loading: schema version 0 is read as the
    /// current one; the active name is normalized and, when no profile bears it,
    /// replaced (see `active_choice`); the profiles are sanitized (see
    /// `sanitized_map`) and sorted. So the schema version is never 0, every
    /// name and the active name are trimmed and not blank, and when there are
    /// profiles the active name is one of theirs (see also
    /// `law_sanitized_profiles_are_clean` for the stored URLs and tokens).
    pub fn sanitize(self) -> (r: Result<ProfilesFile, Error>)
        ensures
            match r {
                Err(e) => sanitized_map(self.profiles@) == Err::<
                    Map<Seq<char>, (Seq<char>, Seq<char>, Seq<(String, JsonValue)>)>,
                    ErrorV,
                >(e@),
                Ok(f) => {
                    &&& f.wf()
                    &&& sanitized_map(self.profiles@) == Ok::<_, ErrorV>(profiles_map(f.profiles@))
                    &&& f.schema_version == if self.schema_version == 0 {
                        PROFILE_SCHEMA_VERSION
                    } else {
                        self.schema_version
                    }
                    &&& f.active_profile@ == active_choice(
                        normalized_name(self.active_profile@),
                        f.profiles@,
                    )
                    &&& f.extra == self.extra
                    &&& forall|i: int|
                        0 <= i < f.profiles@.len() ==> {
                            let k = (#[trigger] f.profiles@[i]).0@;
                            trim_seq(k) == k && k.len() > 0
                        }
                    &&& f.profiles@.len() > 0 ==> has_name(f.profiles@, f.active_profile@)
                    &&& f.schema_version != 0
                    &&& trim_seq(f.active_profile@) == f.active_profile@
                    &&& f.active_profile@.len() > 0
                },
            },
    {
        let schema_version = if self.schema_version == 0 {
            PROFILE_SCHEMA_VERSION
        } else {
            self.schema_version
        };
        let mut active = normalize_profile_name(self.active_profile);
        let ghost orig = self.profiles@;
        let mut rest = self.profiles;
        let mut sanitized: Vec<(String, StoredProfile)> = Vec::new();
        let ghost mut done: int = 0;
        assert(orig.take(0) =~= Seq::<(String, StoredProfile)>::empty());
        assert(orig.skip(0) == orig);
        assert(profiles_map(sanitized@) =~= Map::empty());
        while rest.len() > 0
            invariant
                orig == self.profiles@,
                0 <= done <= orig.len(),
                rest@ == orig.skip(done),
                keys_sorted(sanitized@),
                sanitized_map(orig.take(done)) == Ok::<_, ErrorV>(profiles_map(sanitized@)),
            decreases rest.len(),
        {
            let (name, profile) = rest.remove(0);
            proof {
                assert(orig[done] == (name, profile));
                assert(orig.take(done + 1).drop_last() == orig.take(done));
                assert(orig.take(done + 1).last() == orig[done]);
                assert(rest@ == orig.skip(done + 1));
            }
            let key = normalize_profile_name(name);
            let clean = match profile.sanitize() {
                Ok(p) => p,
                Err(e) => {
                    proof {
                        assert(sanitized_profile(orig[done].1) == Err::<
                            (Seq<char>, Seq<char>, Seq<(String, JsonValue)>),
                            ErrorV,
                        >(e@));
                        assert(sanitized_map(orig.take(done + 1)) == Err::<
                            Map<Seq<char>, (Seq<char>, Seq<char>, Seq<(String, JsonValue)>)>,
                            ErrorV,
                        >(e@));
                        lemma_sanitized_map_err(orig, done + 1);
                    }
                    return Err(e);
                },
            };
            insert_profile(&mut sanitized, key, clean);
            proof {
                done = done + 1;
            }
        }
        assert(orig.take(done) == orig);
        proof {
            let ghost m = profiles_map(sanitized@);
            lemma_sanitized_names(orig, m);
            assert forall|i: int| 0 <= i < sanitized@.len() implies {
                let k = (#[trigger] sanitized@[i]).0@;
                trim_seq(k) == k && k.len() > 0
            } by {
                let k = sanitized@[i].0@;
                assert(has_name(sanitized@, k));
                assert(m.dom().contains(k));
                lemma_normalized_fixed(k);
            }
            if sanitized@.len() > 0 {
                assert(has_name(sanitized@, sanitized@[0].0@));
            }
            lemma_normalized_name_idempotent(self.active_profile@);
            lemma_normalized_fixed(normalized_name(self.active_profile@));
            lemma_normalized_name_idempotent(Seq::empty());
            lemma_normalized_fixed(DEFAULT_PROFILE_NAME@);
        }
        if find_profile(&sanitized, active.as_str()).is_none() {
            if find_profile(&sanitized, DEFAULT_PROFILE_NAME).is_some() {
                active = owned(DEFAULT_PROFILE_NAME);
            } else if sanitized.len() > 0 {
                active = sanitized[0].0.clone();
            }
        }
        Ok(
            ProfilesFile {
                schema_version,
                active_profile: active,
                profiles: sanitized,
                extra: self.extra,
            },
        )
    }

    /// The file a single-profile file stands for: that profile, under the
    /// default name, with no other keys.
    pub fn from_legacy(legacy: LegacyProfileFile) -> (r: Result<ProfilesFile, Error>)
        ensures
            match r {
                Err(e) => checked_profile_spec(
                    legacy.grafana_url@,
                    legacy.grafana_token@,
                    "Grafana URL"@,
                    "Grafana token"@,
                    Seq::empty(),
                ) == Err::<(Seq<char>, Seq<char>, Seq<(String, JsonValue)>), ErrorV>(e@),
                Ok(f) => {
                    &&& f.wf()
                    &&& checked_profile_spec(
                        legacy.grafana_url@,
                        legacy.grafana_token@,
                        "Grafana URL"@,
                        "Grafana token"@,
                        Seq::empty(),
                    ) matches Ok(p)
                    &&& profiles_map(f.profiles@) == Map::<
                        Seq<char>,
                        (Seq<char>, Seq<char>, Seq<(String, JsonValue)>),
                    >::empty().insert(DEFAULT_PROFILE_NAME@, p)
                    &&& f.schema_version == PROFILE_SCHEMA_VERSION
                    &&& f.active_profile@ == DEFAULT_PROFILE_NAME@
                    &&& f.extra@.len() == 0
                },
            },
    {
        let profile = match StoredProfile::new(legacy.grafana_url, legacy.grafana_token) {
            Ok(p) => p,
            Err(e) => return Err(e),
        };
        let mut profiles: Vec<(String, StoredProfile)> = Vec::new();
        insert_profile(&mut profiles, owned(DEFAULT_PROFILE_NAME), profile);
        proof {
            assert(profiles_map(Seq::<(String, StoredProfile)>::empty()) =~= Map::empty());
        }
        Ok(
            ProfilesFile {
                schema_version: PROFILE_SCHEMA_VERSION,
                active_profile: owned(DEFAULT_PROFILE_NAME),
                profiles,
                extra: Vec::new(),
            },
        )
    }
}

impl Default for ProfilesFile {
    /// An empty file: schema version 0, no active name, no profiles.
    fn default() -> (f: ProfilesFile)
        ensures
            f.schema_version == 0,
            f.active_profile@ == Seq::<char>::empty(),
            f.profiles@.len() == 0,
            f.extra@.len() == 0,
    {
        ProfilesFile {
            schema_version: 0,
            active_profile: String::new(),
            profiles: Vec::new(),
            extra: Vec::new(),
        }
    }
}

/// The name a new profile is saved under: the active name, or the default
/// name when the active one is blank.
pub open spec fn saved_name(active: Seq<char>) -> Seq<char> {
    if trim_seq(active).len() == 0 {
        DEFAULT_PROFILE_NAME@
    } else {
        active
    }
}

/// The profile `auth login` saves for a URL and a token.
pub open spec fn login_profile_spec(url: Seq<char>, token: Seq<char>) -> Result<
    (Seq<char>, Seq<char>, Seq<(String, JsonValue)>),
    ErrorV,
> {
    checked_profile_spec(url, token, "Grafana URL"@, "Grafana token"@, Seq::empty())
}

/// The profile that is used from a loaded file: the one under the active name,
/// else the first one.
pub open spec fn selected_profile(f: ProfilesFile) -> Option<
    (Seq<char>, Seq<char>, Seq<(String, JsonValue)>),
> {
    if has_name(f.profiles@, f.active_profile@) {
        Some(profiles_map(f.profiles@)[f.active_profile@])
    } else if f.profiles@.len() > 0 {
        Some(profile_view(f.profiles@[0].1))
    } else {
        None
    }
}

/// The view of an optional profile.
pub open spec fn opt_profile_view(o: Option<StoredProfile>) -> Option<
    (Seq<char>, Seq<char>, Seq<(String, JsonValue)>),
> {
    match o {
        Some(p) => Some(profile_view(p)),
        None => None,
    }
}

impl ProfilesFile {
    /// The file after `auth login` saved a URL and a token: the schema version
    /// at least the current one, a blank active name replaced by the default
    /// name, and the new profile under that name.
    pub fn with_saved_profile(self, base_url: &str, token: &str) -> (r: Result<ProfilesFile, Error>)
        requires
            self.wf(),
        ensures
            match r {
                Err(e) => login_profile_spec(base_url@, token@) == Err::<
                    (Seq<char>, Seq<char>, Seq<(String, JsonValue)>),
                    ErrorV,
                >(e@),
                Ok(f) => {
                    &&& f.wf()
                    &&& login_profile_spec(base_url@, token@) matches Ok(p)
                    &&& profiles_map(f.profiles@) == profiles_map(self.profiles@).insert(
                        saved_name(self.active_profile@),
                        p,
                    )
                    &&& f.active_profile@ == saved_name(self.active_profile@)
                    &&& f.schema_version == if self.schema_version < PROFILE_SCHEMA_VERSION {
                        PROFILE_SCHEMA_VERSION
                    } else {
                        self.schema_version
                    }
                    &&& f.extra == self.extra
                },
            },
    {
        let schema_version = if self.schema_version < PROFILE_SCHEMA_VERSION {
            PROFILE_SCHEMA_VERSION
        } else {
            self.schema_version
        };
        let active_chars = chars_of(self.active_profile.as_str());
        let active = if trim_chars(&active_chars).len() == 0 {
            owned(DEFAULT_PROFILE_NAME)
        } else {
            self.active_profile
        };
        let profile = match StoredProfile::new(owned(base_url), owned(token)) {
            Ok(p) => p,
            Err(e) => return Err(e),
        };
        let mut profiles = self.profiles;
        insert_profile(&mut profiles, active.clone(), profile);
        Ok(ProfilesFile { schema_version, active_profile: active, profiles, extra: self.extra })
    }
}

/// The profile to use from a loaded file (see `selected_profile`).
pub fn load_saved_profile(profiles: Option<ProfilesFile>) -> (r: Option<StoredProfile>)
    requires
        profiles matches Some(f) ==> f.wf(),
    ensures
        match profiles {
            None => r is None,
            Some(f) => opt_profile_view(r) == selected_profile(f),
        },
{
    let mut file = match profiles {
        Some(f) => f,
        None => return None,
    };
    let ghost f0 = file;
    match find_profile(&file.profiles, file.active_profile.as_str()) {
        Some(i) => {
            proof {
                lemma_profiles_map_at(f0.profiles@, i as int);
            }
            let (_, p) = file.profiles.remove(i);
            Some(p)
        },
        None => {
            if file.profiles.len() > 0 {
                let (_, p) = file.profiles.remove(0);
                Some(p)
            } else {
                None
            }
        },
    }
}

/// Saving a profile and then loading the file selects that profile: the
/// profile `auth login` saves is the one later commands use.
pub proof fn law_saved_profile_is_selected(before: ProfilesFile, after: ProfilesFile, url: Seq<char>, token: Seq<char>)
    requires
        before.wf(),
        after.wf(),
        login_profile_spec(url, token) is Ok,
        after.active_profile@ == saved_name(before.active_profile@),
        profiles_map(after.profiles@) == profiles_map(before.profiles@).insert(
            saved_name(before.active_profile@),
            login_profile_spec(url, token)->Ok_0,
        ),
    ensures
        selected_profile(after) == Some(login_profile_spec(url, token)->Ok_0),
{
    let k = after.active_profile@;
    assert(profiles_map(after.profiles@).contains_key(k));
}

/// Profiles as loading leaves them: sorted, each under its normalized name,
/// each already sanitized.
pub open spec fn clean_entries(es: Seq<(String, StoredProfile)>) -> bool {
    &&& keys_sorted(es)
    &&& forall|i: int| 0 <= i < es.len() ==> normalized_name((#[trigger] es[i]).0@) == es[i].0@
    &&& forall|i: int|
        0 <= i < es.len() ==> sanitized_profile((#[trigger] es[i]).1) == Ok::<_, ErrorV>(
            profile_view(es[i].1),
        )
}

/// A profile, given by its view, as loading sanitizes it.
pub open spec fn view_sanitized(v: (Seq<char>, Seq<char>, Seq<(String, JsonValue)>)) -> Result<
    (Seq<char>, Seq<char>, Seq<(String, JsonValue)>),
    ErrorV,
> {
    checked_profile_spec(v.0, v.1, "saved profile grafana_url"@, "saved profile grafana_token"@, v.2)
}

/// The map of sorted profiles is the map of all but the last, with the last added.
proof fn lemma_profiles_map_last(es: Seq<(String, StoredProfile)>)
    requires
        keys_sorted(es),
        es.len() > 0,
    ensures
        profiles_map(es) == profiles_map(es.drop_last()).insert(
            es.last().0@,
            profile_view(es.last().1),
        ),
{
    let dl = es.drop_last();
    let n = es.len() - 1;
    assert(keys_sorted(dl)) by {
        assert forall|a: int, b: int| 0 <= a < b < dl.len() implies seq_less(
            #[trigger] dl[a].0@,
            #[trigger] dl[b].0@,
        ) by {
            assert(seq_less(es[a].0@, es[b].0@));
        }
    }
    let m = profiles_map(dl).insert(es.last().0@, profile_view(es.last().1));
    assert forall|k: Seq<char>| #[trigger] profiles_map(es).contains_key(k) == m.contains_key(k) by {
        if has_name(es, k) {
            let j = name_index(es, k);
            if j < n {
                assert(dl[j].0@ == k);
            }
        }
        if has_name(dl, k) {
            let j = name_index(dl, k);
            assert(es[j].0@ == k);
        }
        if k == es.last().0@ {
            assert(es[n].0@ == k);
        }
    }
    assert forall|k: Seq<char>| #[trigger] profiles_map(es).contains_key(k) implies profiles_map(
        es,
    )[k] == m[k] by {
        let j = name_index(es, k);
        lemma_profiles_map_at(es, j);
        if j < n {
            lemma_profiles_map_at(dl, j);
            if k == es.last().0@ {
                lemma_sorted_names_unique(es, j, n);
            }
        }
    }
    assert(profiles_map(es) =~= m);
}

/// Sanitizing clean profiles gives back their map.
proof fn lemma_sanitized_clean(es: Seq<(String, StoredProfile)>)
    requires
        clean_entries(es),
    ensures
        sanitized_map(es) == Ok::<_, ErrorV>(profiles_map(es)),
    decreases es.len(),
{
    if es.len() == 0 {
        assert(profiles_map(es) =~= Map::empty());
    } else {
        let dl = es.drop_last();
        assert(clean_entries(dl)) by {
            assert forall|a: int, b: int| 0 <= a < b < dl.len() implies seq_less(
                #[trigger] dl[a].0@,
                #[trigger] dl[b].0@,
            ) by {
                assert(seq_less(es[a].0@, es[b].0@));
            }
            assert forall|i: int| 0 <= i < dl.len() implies normalized_name((#[trigger] dl[i]).0@)
                == dl[i].0@ by {
                assert(dl[i] == es[i]);
            }
            assert forall|i: int| 0 <= i < dl.len() implies sanitized_profile((#[trigger] dl[i]).1)
                == Ok::<_, ErrorV>(profile_view(dl[i].1)) by {
                assert(dl[i] == es[i]);
            }
        }
        lemma_sanitized_clean(dl);
        lemma_profiles_map_last(es);
        let last = es[es.len() - 1];
        assert(es.last() == last);
        assert(normalized_name(last.0@) == last.0@);
        assert(sanitized_profile(last.1) == Ok::<_, ErrorV>(profile_view(last.1)));
    }
}

/// Clean profiles with one more clean profile under a normalized name, kept
/// sorted, are clean.
proof fn lemma_saved_entries_clean(
    before: Seq<(String, StoredProfile)>,
    after: Seq<(String, StoredProfile)>,
    name: Seq<char>,
    p: (Seq<char>, Seq<char>, Seq<(String, JsonValue)>),
)
    requires
        clean_entries(before),
        keys_sorted(after),
        normalized_name(name) == name,
        view_sanitized(p) == Ok::<_, ErrorV>(p),
        profiles_map(after) == profiles_map(before).insert(name, p),
    ensures
        clean_entries(after),
{
    assert forall|i: int| 0 <= i < after.len() implies normalized_name((#[trigger] after[i]).0@)
        == after[i].0@ && sanitized_profile(after[i].1) == Ok::<_, ErrorV>(profile_view(after[i].1)) by {
        let k = after[i].0@;
        lemma_profiles_map_at(after, i);
        if k != name {
            assert(profiles_map(before).contains_key(k));
            let j = name_index(before, k);
            lemma_profiles_map_at(before, j);
            assert(before[j].0@ == k);
            assert(profile_view(after[i].1) == profile_view(before[j].1));
        }
    }
}

/// Every name of sanitized profiles is a normalized name.
proof fn lemma_sanitized_names(
    es: Seq<(String, StoredProfile)>,
    m: Map<Seq<char>, (Seq<char>, Seq<char>, Seq<(String, JsonValue)>)>,
)
    requires
        sanitized_map(es) == Ok::<_, ErrorV>(m),
    ensures
        forall|k: Seq<char>| #[trigger] m.dom().contains(k) ==> normalized_name(k) == k,
    decreases es.len(),
{
    if es.len() > 0 {
        let m0 = sanitized_map(es.drop_last())->Ok_0;
        lemma_sanitized_names(es.drop_last(), m0);
        lemma_normalized_name_idempotent(es.last().0@);
        assert forall|k: Seq<char>| #[trigger] m.dom().contains(k) implies normalized_name(k)
            == k by {
            if k != normalized_name(es.last().0@) {
                assert(m0.dom().contains(k));
            }
        }
    }
}

/// Whether a profile's URL or token is blank.
pub open spec fn profile_blank(p: StoredProfile) -> bool {
    trim_seq(p.grafana_url@).len() == 0 || trim_seq(p.grafana_token@).len() == 0
}

/// Law: loading saved profiles fails exactly when one of them has a blank URL
/// or token; when it succeeds, every stored URL and token is trimmed and not
/// blank.
pub proof fn law_sanitized_profiles_are_clean(es: Seq<(String, StoredProfile)>)
    ensures
        sanitized_map(es) is Err <==> exists|i: int|
            0 <= i < es.len() && profile_blank(#[trigger] es[i].1),
        sanitized_map(es) matches Ok(m) ==> forall|k: Seq<char>|
            #[trigger] m.dom().contains(k) ==> {
                &&& m[k].0.len() > 0
                &&& trim_seq(m[k].0) == m[k].0
                &&& m[k].1.len() > 0
                &&& trim_seq(m[k].1) == m[k].1
            },
    decreases es.len(),
{
    if es.len() > 0 {
        let init = es.drop_last();
        let last = es.last().1;
        law_sanitized_profiles_are_clean(init);
        lemma_trim_idempotent(last.grafana_url@);
        lemma_trim_idempotent(last.grafana_token@);
        if sanitized_map(init) is Err {
            let i = choose|i: int| 0 <= i < init.len() && profile_blank(#[trigger] init[i].1);
            assert(es[i] == init[i]);
        } else if profile_blank(last) {
            assert(es[es.len() - 1].1 == last);
        } else {
            assert forall|i: int| 0 <= i < es.len() implies !profile_blank(#[trigger] es[i].1) by {
                if i < init.len() {
                    assert(es[i] == init[i]);
                }
            }
            let m0 = sanitized_map(init)->Ok_0;
            let m = sanitized_map(es)->Ok_0;
            assert forall|k: Seq<char>| #[trigger] m.dom().contains(k) implies {
                &&& m[k].0.len() > 0
                &&& trim_seq(m[k].0) == m[k].0
                &&& m[k].1.len() > 0
                &&& trim_seq(m[k].1) == m[k].1
            } by {
                if k != normalized_name(es.last().0@) {
                    assert(m0.dom().contains(k));
                }
            }
        }
    }
}

/// A name that normalizing leaves as it is is trimmed and not blank.
proof fn lemma_normalized_fixed(k: Seq<char>)
    requires
        normalized_name(k) == k,
    ensures
        trim_seq(k) == k,
        k.len() > 0,
{
    reveal_strlit("default");
    assert(trim_start_seq(DEFAULT_PROFILE_NAME@) == DEFAULT_PROFILE_NAME@);
    assert(trim_end_seq(DEFAULT_PROFILE_NAME@) == DEFAULT_PROFILE_NAME@);
}

/// Normalizing a profile name twice normalizes it once.
proof fn lemma_normalized_name_idempotent(name: Seq<char>)
    ensures
        normalized_name(normalized_name(name)) == normalized_name(name),
{
    lemma_trim_idempotent(name);
    reveal_strlit("default");
    assert(trim_start_seq(DEFAULT_PROFILE_NAME@) == DEFAULT_PROFILE_NAME@);
    assert(trim_end_seq(DEFAULT_PROFILE_NAME@) == DEFAULT_PROFILE_NAME@);
}

/// The profile `auth login` saves is the one a later command uses: saving into
/// a file as loading leaves it (or into an empty one), writing it out and
/// loading it again (sanitizing it on the way in) selects the saved profile.
pub proof fn law_saved_profile_survives_reload(
    before: ProfilesFile,
    saved: ProfilesFile,
    reloaded: ProfilesFile,
    url: Seq<char>,
    token: Seq<char>,
)
    requires
        clean_entries(before.profiles@),
        normalized_name(before.active_profile@) == before.active_profile@ || trim_seq(
            before.active_profile@,
        ).len() == 0,
        login_profile_spec(url, token) is Ok,
        saved.wf(),
        profiles_map(saved.profiles@) == profiles_map(before.profiles@).insert(
            saved_name(before.active_profile@),
            login_profile_spec(url, token)->Ok_0,
        ),
        saved.active_profile@ == saved_name(before.active_profile@),
        reloaded.wf(),
        sanitized_map(saved.profiles@) == Ok::<_, ErrorV>(profiles_map(reloaded.profiles@)),
        reloaded.active_profile@ == active_choice(
            normalized_name(saved.active_profile@),
            reloaded.profiles@,
        ),
    ensures
        selected_profile(reloaded) == Some(login_profile_spec(url, token)->Ok_0),
{
    let name = saved_name(before.active_profile@);
    let p = login_profile_spec(url, token)->Ok_0;
    lemma_normalized_name_idempotent(before.active_profile@);
    lemma_normalized_name_idempotent(Seq::empty());
    if trim_seq(before.active_profile@).len() == 0 {
        assert(normalized_name(before.active_profile@) == DEFAULT_PROFILE_NAME@);
    }
    assert(normalized_name(name) == name);
    lemma_trim_idempotent(url);
    lemma_trim_idempotent(token);
    assert(view_sanitized(p) == Ok::<_, ErrorV>(p));
    lemma_saved_entries_clean(before.profiles@, saved.profiles@, name, p);
    lemma_sanitized_clean(saved.profiles@);
    assert(profiles_map(reloaded.profiles@) == profiles_map(saved.profiles@));
    assert(profiles_map(saved.profiles@).contains_key(name));
    assert(has_name(reloaded.profiles@, name));
}

/// `path` joined with the relative `name`, as `Path::join` joins them.
pub open spec fn child_path(path: Seq<char>, name: Seq<char>) -> Seq<char> {
    if path.len() == 0 || path.last() == '/' {
        path + name
    } else {
        path + seq!['/'] + name
    }
}

/// `path` joined with the relative `name`, as `Path::join` joins them.
pub fn join_path(path: &str, name: &str) -> (r: String)
    requires
        name@.len() == 0 || name@[0] != '/',
    ensures
        r@ == child_path(path@, name@),
{
    let chars = chars_of(path);
    let mut r = owned(path);
    if chars.len() > 0 && chars[chars.len() - 1] != '/' {
        push_char(&mut r, '/');
    }
    r.append(name);
    r
}

/// The directory that holds this tool's configuration: `$XDG_CONFIG_HOME`
/// when set and not empty, else `$HOME/.config` when `$HOME` is set and not
/// empty.
pub open spec fn profile_dir_spec(xdg: Option<Seq<char>>, home: Option<Seq<char>>) -> Option<Seq<char>> {
    match xdg {
        Some(x) if x.len() > 0 => Some(x),
        _ => match home {
            Some(h) if h.len() > 0 => Some(child_path(h, ".config"@)),
            _ => None,
        },
    }
}

/// The configuration directory (see `profile_dir_spec`).
pub fn profile_dir(xdg_config_home: Option<&str>, home: Option<&str>) -> (r: Option<String>)
    ensures
        opt_string_view(r) == profile_dir_spec(opt_view(xdg_config_home), opt_view(home)),
{
    if let Some(x) = xdg_config_home {
        if chars_of(x).len() > 0 {
            return Some(owned(x));
        }
    }
    if let Some(h) = home {
        if chars_of(h).len() > 0 {
            proof {
                reveal_strlit(".config");
            }
            return Some(join_path(h, ".config"));
        }
    }
    None
}

/// A file of this tool's configuration directory.
pub open spec fn config_file_spec(xdg: Option<Seq<char>>, home: Option<Seq<char>>, file: Seq<char>) -> Option<
    Seq<char>,
> {
    match profile_dir_spec(xdg, home) {
        Some(d) => Some(child_path(child_path(d, "lgtmcli"@), file)),
        None => None,
    }
}

/// The path of the profiles file.
pub fn profile_path(xdg_config_home: Option<&str>, home: Option<&str>) -> (r: Option<String>)
    ensures
        opt_string_view(r) == config_file_spec(
            opt_view(xdg_config_home),
            opt_view(home),
            "profiles.json"@,
        ),
{
    match profile_dir(xdg_config_home, home) {
        Some(d) => {
            proof {
                reveal_strlit("lgtmcli");
                reveal_strlit("profiles.json");
            }
            let tool = join_path(d.as_str(), "lgtmcli");
            Some(join_path(tool.as_str(), "profiles.json"))
        },
        None => None,
    }
}

/// The path of the single-profile file of the first format.
pub fn legacy_profile_path(xdg_config_home: Option<&str>, home: Option<&str>) -> (r: Option<String>)
    ensures
        opt_string_view(r) == config_file_spec(opt_view(xdg_config_home), opt_view(home), "profile.json"@),
{
    match profile_dir(xdg_config_home, home) {
        Some(d) => {
            proof {
                reveal_strlit("lgtmcli");
                reveal_strlit("profile.json");
            }
            let tool = join_path(d.as_str(), "lgtmcli");
            Some(join_path(tool.as_str(), "profile.json"))
        },
        None => None,
    }
}

/// The profile file to read: the profiles file if it exists, else the file of
/// the first format if it exists; nothing when no configuration directory is
/// known.
pub fn select_existing_profile_path(
    primary: Option<String>,
    primary_exists: bool,
    legacy: Option<String>,
    legacy_exists: bool,
) -> (r: Option<String>)
    ensures
        opt_string_view(r) == match primary {
            None => None,
            Some(p) => if primary_exists {
                Some(p@)
            } else {
                match legacy {
                    Some(l) if legacy_exists => Some(l@),
                    _ => None,
                }
            },
        },
{
    let primary = match primary {
        Some(p) => p,
        None => return None,
    };
    if primary_exists {
        return Some(primary);
    }
    match legacy {
        Some(l) if legacy_exists => Some(l),
        _ => None,
    }
}

} // verus!
