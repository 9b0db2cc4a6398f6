use lgtmcli::auth::{finish_prompt, login, login_config, login_start, login_step, status, LoginAction, LoginEvent, LoginState};
use lgtmcli::config::ConfigSource;
use lgtmcli::error::Failure;
use lgtmcli::output::TableOutput;

#[test]
fn status_reports_sources_and_count() {
    let mut config = login_config("https://g.example".into(), "t".into());
    config.token_source = ConfigSource::Profile;
    let r = status(&config, 1);
    assert!(r.ok);
    let text = r.render_table();
    assert!(text.contains("credentials look good"));
    assert!(text.contains("Visible datasources: 1"));
    assert!(text.contains("Token source: saved profile"));
    assert!(text.contains("URL source: --url/--token flag"));
}

#[test]
fn prompt_answers_are_trimmed_and_required() {
    assert_eq!(finish_prompt("Grafana URL", " https://x \n".into()).unwrap(), "https://x");
    assert!(matches!(finish_prompt("Grafana token", "\n".into()), Err(Failure::EmptyInput(l)) if l == "Grafana token"));
}

#[test]
fn login_result_reports_verification() {
    let r = login(login_config("u".into(), "t".into()), "/p/profiles.json".into(), true, 7);
    assert!(!r.verified);
    assert_eq!(r.visible_datasources, None);
    assert_eq!(
        r.render_table(),
        "\u{2705} saved Grafana credentials\nGrafana URL: u\nProfile: /p/profiles.json\nVerification: skipped (--no-verify)\n"
    );
    let r = login(login_config("u".into(), "t".into()), "/p".into(), false, 3);
    assert_eq!(r.visible_datasources, Some(3));
    assert!(r.render_table().ends_with("Verification: success\nVisible datasources: 3\n"));
}

#[test]
fn login_saves_only_after_verification() {
    let config = login_config("https://grafana.example.com".to_string(), "tok".to_string());
    let (state, action) = login_start(false);
    assert!(matches!(state, LoginState::Ready));
    assert!(matches!(action, LoginAction::Verify));
    let (_, action) = login_step(&config, LoginState::Ready, LoginEvent::ListFailed);
    assert!(matches!(action, LoginAction::Stop));
    let (state, action) = login_step(&config, LoginState::Ready, LoginEvent::Listed(3));
    assert!(matches!(state, LoginState::Checked(Some(3))));
    assert!(matches!(action, LoginAction::Save));
    let (_, action) = login_step(&config, state, LoginEvent::Written("/tmp/p.json".to_string()));
    match action {
        LoginAction::Finish(r) => {
            assert!(r.ok && r.verified);
            assert_eq!(r.grafana_url, "https://grafana.example.com");
            assert_eq!(r.profile_path, "/tmp/p.json");
            assert_eq!(r.visible_datasources, Some(3));
        },
        _ => panic!("expected the result"),
    }
    let (state, action) = login_start(true);
    assert!(matches!(action, LoginAction::Save));
    let (_, action) = login_step(&config, state, LoginEvent::WriteFailed);
    assert!(matches!(action, LoginAction::Stop));
    let (_, action) = login_step(&config, LoginState::Checked(None), LoginEvent::Written("p".to_string()));
    assert!(matches!(action, LoginAction::Finish(r) if !r.verified && r.visible_datasources.is_none()));
}
