use backpack::EnvMap;
use backpack::FileOutcome;
use backpack::LoadError;
use backpack::Profile;
use backpack::candidate_files;
use backpack::load_files;
use backpack::load_outcomes;
use backpack::resolve_profile;

fn s(x: &str) -> String {
    x.to_string()
}

fn bytes(x: &str) -> Option<Vec<u8>> {
    Some(x.as_bytes().to_vec())
}

fn value_of(m: &EnvMap, key: &str) -> Option<String> {
    m.get(&key.to_string()).cloned()
}

#[test]
fn test_candidate_files_for_dev() {
    let files = candidate_files(Profile::Dev);
    assert_eq!(files, vec![s(".env"), s(".env.dev"), s(".env.local")]);
}

#[test]
fn test_candidate_files_for_prod() {
    let files = candidate_files(Profile::Prod);
    assert_eq!(files, vec![s(".env"), s(".env.prod"), s(".env.local")]);
}

#[test]
fn test_loads_basic_env_file() {
    let mut env = EnvMap::new();
    let result = load_files(&mut env, bytes("TEST_VAR=hello"), None, None);
    assert!(result.is_ok());
    assert_eq!(value_of(&env, "TEST_VAR"), Some(s("hello")));
}

#[test]
fn test_loads_dev_env_by_default() {
    let profile = resolve_profile(None).unwrap();
    assert_eq!(profile, Profile::Dev);
    assert_eq!(candidate_files(profile)[1], ".env.dev");

    let mut env = EnvMap::new();
    let result = load_files(&mut env, bytes("BASE_VAR=base"), bytes("DEV_VAR=development"), None);
    assert!(result.is_ok());
    assert_eq!(value_of(&env, "BASE_VAR"), Some(s("base")));
    assert_eq!(value_of(&env, "DEV_VAR"), Some(s("development")));
}

#[test]
fn test_loads_prod_env_when_specified() {
    let profile = resolve_profile(Some(s("prod"))).unwrap();
    assert_eq!(profile, Profile::Prod);
    assert_eq!(candidate_files(profile)[1], ".env.prod");

    let mut env = EnvMap::new();
    let result = load_files(&mut env, bytes("BASE_VAR=base"), bytes("PROD_VAR=production"), None);
    assert!(result.is_ok());
    assert_eq!(value_of(&env, "BASE_VAR"), Some(s("base")));
    assert_eq!(value_of(&env, "PROD_VAR"), Some(s("production")));
}

#[test]
fn test_loads_local_env_last() {
    let mut env = EnvMap::new();
    let result = load_files(
        &mut env,
        bytes("OVERRIDE_VAR=base"),
        bytes("OVERRIDE_VAR=dev"),
        bytes("OVERRIDE_VAR=local"),
    );
    assert!(result.is_ok());
    assert_eq!(value_of(&env, "OVERRIDE_VAR"), Some(s("local")));
}

#[test]
fn test_env_files_cascade_correctly() {
    let mut env = EnvMap::new();
    let result = load_files(
        &mut env,
        bytes("VAR1=from_base\nVAR2=from_base"),
        bytes("VAR2=from_dev\nVAR3=from_dev"),
        bytes("VAR3=from_local"),
    );
    assert!(result.is_ok());
    assert_eq!(value_of(&env, "VAR1"), Some(s("from_base")));
    assert_eq!(value_of(&env, "VAR2"), Some(s("from_dev")));
    assert_eq!(value_of(&env, "VAR3"), Some(s("from_local")));
}

#[test]
fn test_profile_file_overrides_base() {
    let profile = resolve_profile(None).unwrap();
    assert_eq!(candidate_files(profile)[1], ".env.dev");

    let mut env = EnvMap::new();
    let result = load_files(&mut env, bytes("A=1"), bytes("A=2"), None);
    assert!(result.is_ok());
    assert_eq!(value_of(&env, "A"), Some(s("2")));
}

#[test]
fn test_local_file_overrides_base_without_profile_file() {
    let mut env = EnvMap::new();
    let result = load_files(&mut env, bytes("A=1"), None, bytes("A=3"));
    assert!(result.is_ok());
    assert_eq!(value_of(&env, "A"), Some(s("3")));
}

#[test]
fn test_missing_env_files_dont_fail() {
    let mut env = EnvMap::new();
    let result = load_files(&mut env, None, None, None);
    assert!(result.is_ok());
    assert!(env.entries().is_empty());
}

#[test]
fn test_invalid_app_env_returns_error() {
    let result = resolve_profile(Some(s("invalid")));
    assert!(result.is_err());
    assert!(result.unwrap_err().message().contains("Invalid APP_ENV"));
}

#[test]
fn test_app_env_case_sensitive() {
    let result = resolve_profile(Some(s("Dev")));
    assert!(result.is_err());
}

#[test]
fn test_multiline_values() {
    let mut env = EnvMap::new();
    let result = load_files(&mut env, bytes("MULTILINE='line1\nline2\nline3'"), None, None);
    assert!(result.is_ok());
    let value = value_of(&env, "MULTILINE").unwrap();
    assert!(value.contains("line1"));
}

#[test]
fn test_empty_values() {
    let mut env = EnvMap::new();
    let result = load_files(&mut env, bytes("EMPTY_VAR="), None, None);
    assert!(result.is_ok());
    assert_eq!(value_of(&env, "EMPTY_VAR"), Some(s("")));
}

#[test]
fn test_values_with_equals_signs() {
    let mut env = EnvMap::new();
    let result = load_files(&mut env, bytes("URL=https://example.com?param=value"), None, None);
    assert!(result.is_ok());
    assert_eq!(value_of(&env, "URL"), Some(s("https://example.com?param=value")));
}

#[test]
fn test_comments_are_ignored() {
    let mut env = EnvMap::new();
    let result = load_files(
        &mut env,
        bytes("# This is a comment\nVAR1=value\n# Another comment"),
        None,
        None,
    );
    assert!(result.is_ok());
    assert_eq!(value_of(&env, "VAR1"), Some(s("value")));
}

#[test]
fn test_malformed_line_fails_with_parse() {
    let mut env = EnvMap::new();
    let result = load_files(&mut env, bytes("BAD LINE NO EQUALS"), None, None);
    assert_eq!(result, Err(LoadError::Parse));
}

#[test]
fn test_malformed_later_file_keeps_earlier_writes() {
    let mut env = EnvMap::new();
    let result = load_files(&mut env, bytes("A=1"), bytes("BAD LINE NO EQUALS"), None);
    assert_eq!(result, Err(LoadError::Parse));
    assert_eq!(value_of(&env, "A"), Some(s("1")));
}

#[test]
fn test_last_pair_wins_within_one_file() {
    let mut env = EnvMap::new();
    let result = load_files(&mut env, bytes("K=first\nK=second"), None, None);
    assert!(result.is_ok());
    assert_eq!(value_of(&env, "K"), Some(s("second")));
}

#[test]
fn test_env_map_set_and_get() {
    let mut env = EnvMap::new();
    assert_eq!(env.get(&s("A")), None);
    env.set(s("A"), s("1"));
    env.set(s("B"), s("2"));
    env.set(s("A"), s("3"));
    assert_eq!(value_of(&env, "A"), Some(s("3")));
    assert_eq!(value_of(&env, "B"), Some(s("2")));
    assert_eq!(
        env.entries(),
        &vec![(s("A"), s("1")), (s("B"), s("2")), (s("A"), s("3"))]
    );
}

#[test]
fn test_load_outcomes_applies_in_order() {
    let mut env = EnvMap::new();
    let outcomes = vec![
        FileOutcome::Parsed(vec![(s("A"), s("1")), (s("B"), s("1"))]),
        FileOutcome::Missing,
        FileOutcome::Parsed(vec![(s("B"), s("3"))]),
    ];
    let result = load_outcomes(&mut env, &outcomes);
    assert!(result.is_ok());
    assert_eq!(value_of(&env, "A"), Some(s("1")));
    assert_eq!(value_of(&env, "B"), Some(s("3")));
}

#[test]
fn test_load_outcomes_stops_at_malformed() {
    let mut env = EnvMap::new();
    let outcomes = vec![
        FileOutcome::Parsed(vec![(s("A"), s("1"))]),
        FileOutcome::Malformed,
        FileOutcome::Parsed(vec![(s("B"), s("2"))]),
    ];
    let result = load_outcomes(&mut env, &outcomes);
    assert_eq!(result, Err(LoadError::Parse));
    assert_eq!(value_of(&env, "A"), Some(s("1")));
    assert_eq!(value_of(&env, "B"), None);
}
