use backpack::ParseError;
use backpack::Profile;
use backpack::parse_profile;
use backpack::resolve_profile;

fn s(x: &str) -> String {
    x.to_string()
}

#[test]
fn test_appenv_display_trait() {
    assert_eq!(Profile::Dev.name(), "dev");
    assert_eq!(Profile::Prod.name(), "prod");
}

#[test]
fn test_appenv_from_str_valid() {
    assert!(matches!("dev".parse::<Profile>(), Ok(Profile::Dev)));
    assert!(matches!("prod".parse::<Profile>(), Ok(Profile::Prod)));
}

#[test]
fn test_appenv_from_str_invalid() {
    let result: Result<Profile, _> = "staging".parse();
    assert!(result.is_err());
    let err = result.unwrap_err();
    assert_eq!(err, "Invalid APP_ENV: staging. Must be 'dev' or 'prod'");
}

#[test]
fn test_resolve_profile_defaults_to_dev() {
    assert_eq!(resolve_profile(None), Ok(Profile::Dev));
}

#[test]
fn test_resolve_profile_recognizes_both_names() {
    assert_eq!(resolve_profile(Some(s("dev"))), Ok(Profile::Dev));
    assert_eq!(resolve_profile(Some(s("prod"))), Ok(Profile::Prod));
}

#[test]
fn test_resolve_profile_rejects_staging() {
    assert_eq!(
        resolve_profile(Some(s("staging"))),
        Err(ParseError::InvalidProfile(s("staging")))
    );
}

#[test]
fn test_resolve_profile_is_case_sensitive() {
    assert_eq!(
        resolve_profile(Some(s("Dev"))),
        Err(ParseError::InvalidProfile(s("Dev")))
    );
    assert_eq!(
        resolve_profile(Some(s("PROD"))),
        Err(ParseError::InvalidProfile(s("PROD")))
    );
}

#[test]
fn test_resolve_profile_rejects_empty_selector() {
    assert_eq!(
        resolve_profile(Some(s(""))),
        Err(ParseError::InvalidProfile(s("")))
    );
}

#[test]
fn test_parse_profile_matches_resolve() {
    assert_eq!(parse_profile(&s("dev")), Ok(Profile::Dev));
    assert_eq!(parse_profile(&s("prod")), Ok(Profile::Prod));
    assert!(parse_profile(&s("production")).is_err());
}

#[test]
fn test_parse_error_message_names_value_and_choices() {
    let e = ParseError::InvalidProfile(s("staging"));
    assert_eq!(e.message(), "Invalid APP_ENV: staging. Must be 'dev' or 'prod'");
}
