use mlc_cli::config::{
    env_credentials, setup_step, SetupAction, SetupEvent, config_source, doctor_report, environment_source, prompted_credentials, saved_config,
    setup_input, setup_report, status_report, stored_credentials, valid_reference, Credentials,
    Source, StoredConfig,
};
use mlc_cli::json::Json;

fn stored(
    username: Option<&str>,
    password: Option<&str>,
    username_ref: Option<&str>,
    password_ref: Option<&str>,
) -> StoredConfig {
    StoredConfig {
        username: username.map(String::from),
        password: password.map(String::from),
        username_ref: username_ref.map(String::from),
        password_ref: password_ref.map(String::from),
    }
}

#[test]
fn setup_rejects_literal_secrets_without_echoing_them() {
    let config = stored(None, None, Some("FAKE_SECRET_USER"), Some("FAKE_SECRET_PASSWORD"));
    let error = match stored_credentials(&config) {
        Ok(_) => panic!("a configuration of references was accepted"),
        Err(error) => error,
    };
    assert_eq!(error.code, 2);
    assert!(!error.text().contains("FAKE_SECRET"));
    let error = match setup_input(&Some("FAKE_SECRET_USER".into()), &None, true, false, &None) {
        Ok(_) => panic!("half the credentials were accepted"),
        Err(error) => error,
    };
    assert_eq!(error.code, 2);
    assert!(!error.text().contains("FAKE_SECRET"));
}

#[test]
fn references_need_vault_item_and_field() {
    assert!(valid_reference("op://vault/item/field"));
    assert!(!valid_reference("op://vault/item"));
    assert!(!valid_reference("op:/vault/item/field/x"));
    assert!(!valid_reference("op://vault/item/fi\u{7}eld"));
}

#[test]
fn status_does_not_print_environment_secrets() {
    let source = environment_source(
        &Some("FAKE_SECRET_USER".into()),
        &Some("FAKE_SECRET_PASSWORD".into()),
    )
    .unwrap();
    assert_eq!(source, Some(Source::Environment));
    assert_eq!(
        status_report(Source::Environment),
        Json::Object(vec![
            ("source".into(), Json::Str("environment".into())),
            ("verified".into(), Json::Bool(false)),
        ])
    );
}

#[test]
fn incomplete_environment_does_not_silently_fall_back() {
    let error = environment_source(&Some("fake-user".into()), &None).unwrap_err();
    assert_eq!(error.code, 2);
    let blank = environment_source(&Some("fake-user".into()), &Some(" \n".into())).unwrap_err();
    assert_eq!(blank.message, "Set both nonempty MLC_USERNAME and MLC_PASSWORD");
    assert_eq!(environment_source(&None, &None).unwrap(), None);
}

#[test]
fn saved_credentials_make_the_config_file_the_source() {
    let config = stored(Some("fake-user"), Some("fake-password"), None, None);
    assert_eq!(config_source(&config).unwrap(), Source::ConfigFile);
    assert_eq!(Source::ConfigFile.as_str(), "config file");
    let credentials = stored_credentials(&config).unwrap();
    assert_eq!(credentials.username, "fake-user");
    assert_eq!(credentials.password, "fake-password");
    assert_eq!(
        status_report(Source::ConfigFile),
        Json::Object(vec![
            ("source".into(), Json::Str("config file".into())),
            ("verified".into(), Json::Bool(false)),
        ])
    );
}

#[test]
fn earlier_reference_configurations_ask_for_setup() {
    let legacy = stored(
        None,
        None,
        Some("op://example/item/username"),
        Some("op://example/item/password"),
    );
    let error = config_source(&legacy).unwrap_err();
    assert_eq!(error.code, 2);
    assert!(error.message.contains("run `mlc auth setup`"));
    let error = stored_credentials(&legacy).err().unwrap();
    assert_eq!(error.code, 2);
    assert!(error.message.contains("run `mlc auth setup`"));
    let in_place = stored(Some("op://v/i/username"), Some("fake-password"), None, None);
    assert!(stored_credentials(&in_place).err().unwrap().message.contains("mlc auth setup"));
    let half = stored(Some("fake-user"), None, None, None);
    assert_eq!(
        stored_credentials(&half).err().unwrap().message,
        "Invalid ~/.mlc/config.toml"
    );
}

#[test]
fn setup_takes_environment_or_prompts() {
    let env = setup_input(&Some("fake-user".into()), &Some("fake-password".into()), true, false, &None)
        .unwrap()
        .unwrap();
    assert_eq!((env.username.as_str(), env.password.as_str()), ("fake-user", "fake-password"));
    assert!(setup_input(&None, &None, false, true, &None).unwrap().is_none());
    for (no_input, terminal) in [(true, true), (false, false), (true, false)] {
        let error = match setup_input(&None, &None, no_input, terminal, &None) {
            Ok(_) => panic!("setup went on without credentials"),
            Err(error) => error,
        };
        assert_eq!(
            (error.code, error.message.as_str()),
            (2, "Set MLC_USERNAME and MLC_PASSWORD, or run `mlc auth setup` in a terminal")
        );
    }
    let typed = prompted_credentials("  fake-user\n", "fake password\r\n").unwrap();
    assert_eq!(typed.username, "fake-user");
    assert_eq!(typed.password, "fake password");
    assert_eq!(
        match prompted_credentials("fake-user\n", "\n") {
            Ok(_) => panic!("an empty password was accepted"),
            Err(error) => error.message,
        },
        "Username and password must not be empty"
    );
    let credentials = Credentials { username: "u".into(), password: "p".into() };
    let config = saved_config(&credentials);
    assert_eq!((config.username.as_str(), config.password.as_str()), ("u", "p"));
}

#[test]
fn reports_name_the_source_and_the_saved_path() {
    assert_eq!(
        setup_report("/home/u/.mlc/config.toml"),
        Json::Object(vec![
            ("configured".into(), Json::Bool(true)),
            ("verified".into(), Json::Bool(true)),
            ("path".into(), Json::Str("/home/u/.mlc/config.toml".into())),
        ])
    );
    assert_eq!(
        doctor_report(Source::Environment, "0.2.0"),
        Json::Object(vec![
            ("authenticated".into(), Json::Bool(true)),
            ("data_access".into(), Json::Bool(true)),
            ("source".into(), Json::Str("environment".into())),
            ("version".into(), Json::Str("0.2.0".into())),
        ])
    );
}

#[test]
fn setup_saves_private_local_credentials_without_op() {
    // The rerun of `auth setup` with neither variable set and no terminal takes
    // the credentials saved by the first run.
    let saved = Some(stored(Some("fake-user"), Some("fake-password"), None, None));
    let again = setup_input(&None, &None, false, false, &saved).unwrap().unwrap();
    assert_eq!((again.username.as_str(), again.password.as_str()), ("fake-user", "fake-password"));
    let again = setup_input(&None, &None, true, true, &saved).unwrap().unwrap();
    assert_eq!(again.password, "fake-password");
    let legacy = Some(stored(None, None, Some("op://example/item/username"), Some("op://example/item/password")));
    let error = match setup_input(&None, &None, false, false, &legacy) {
        Ok(_) => panic!("references were taken as credentials"),
        Err(error) => error,
    };
    assert_eq!(error.code, 2);
    assert!(setup_input(&None, &None, false, true, &saved).unwrap().is_none());
    assert_eq!(config_source(saved.as_ref().unwrap()).unwrap().as_str(), "config file");
}

#[test]
fn setup_saves_only_after_a_successful_login() {
    let credentials = || Credentials { username: "fake-user".into(), password: "fake-password".into() };
    let SetupAction::Login(login) = setup_step(None, SetupEvent::Obtained(credentials())) else {
        panic!("obtained credentials were not verified first")
    };
    assert_eq!(login.username, "fake-user");
    let SetupAction::Save(save) = setup_step(Some(login), SetupEvent::LoginSucceeded) else {
        panic!("verified credentials were not saved")
    };
    assert_eq!(save.password, "fake-password");
    let failed = mlc_cli::error::Error::new(2, "MLC rejected authentication or access (HTTP 401 Unauthorized)");
    match setup_step(Some(credentials()), SetupEvent::LoginFailed(failed)) {
        SetupAction::Fail(error) => assert_eq!(error.code, 2),
        _ => panic!("credentials that failed to log in went on"),
    }
    match setup_step(None, SetupEvent::LoginSucceeded) {
        SetupAction::Fail(error) => assert_eq!(error.message, "No credentials were verified"),
        _ => panic!("nothing to save was saved"),
    }
    match setup_step(None, SetupEvent::Saved("/h/.mlc/config.toml".into())) {
        SetupAction::Report(report) => assert_eq!(report, setup_report("/h/.mlc/config.toml")),
        _ => panic!("a saved setup was not reported"),
    }
    let write = mlc_cli::error::Error::new(1, "Cannot save configuration");
    assert!(matches!(setup_step(None, SetupEvent::SaveFailed(write)), SetupAction::Fail(_)));
}

#[test]
fn environment_credentials_need_both_variables() {
    let both = env_credentials(&Some("u".into()), &Some("p".into())).unwrap().unwrap();
    assert_eq!((both.username.as_str(), both.password.as_str()), ("u", "p"));
    assert!(env_credentials(&None, &None).unwrap().is_none());
    assert_eq!(
        env_credentials(&None, &Some("p".into())).err().unwrap().message,
        "Set both nonempty MLC_USERNAME and MLC_PASSWORD"
    );
}
