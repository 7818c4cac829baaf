use varsubst::dialect::{Config, OnNotPresent, RegexMatch, BASH_PATTERN};
use varsubst::engine::{substitute, substitute_matches};
use varsubst::source::{Env, Mapping, ValueSource};
use varsubst::Error;

fn vars(pairs: &[(&str, &str)]) -> Env {
    Env::new(pairs.iter().map(|(k, v)| (k.to_string(), Some(v.to_string()))).collect())
}

fn mapping(pairs: &[(&str, &str)]) -> Mapping {
    Mapping::new(pairs.iter().map(|(k, v)| (k.to_string(), v.to_string())).collect())
}

fn bash_with(policy: OnNotPresent) -> Config {
    let pair = vec![("\\$".to_string(), "$".to_string())];
    Config::new(BASH_PATTERN, policy, pair.clone(), pair).unwrap()
}

#[test]
fn stuff() {
    let value = "/home/u";
    let source = vars(&[("PWD", value)]);
    assert_eq!(varsubst::env("${PWD}", &source).expect("failed to expand"), value);
    assert_eq!(varsubst::env("$PWD", &source).expect("failed to expand"), value);
}

#[test]
fn braced_name_is_replaced() {
    let source = mapping(&[("PWD", "/home/u")]);
    let config = Config::bash().unwrap();
    assert_eq!(substitute(&config, "${PWD}", &source), Ok("/home/u".to_string()));
}

#[test]
fn missing_name_under_default_policy_is_empty() {
    let source = mapping(&[]);
    let config = Config::bash().unwrap();
    assert_eq!(substitute(&config, "$MISSING", &source), Ok(String::new()));
    assert_eq!(substitute(&config, "a $MISSING b", &source), Ok("a  b".to_string()));
}

#[test]
fn inline_default_is_used() {
    let source = mapping(&[]);
    let config = Config::bash().unwrap();
    assert_eq!(substitute(&config, "${MISSING-fallback}", &source), Ok("fallback".to_string()));
}

#[test]
fn inline_default_wins_over_every_policy() {
    let source = mapping(&[]);
    for policy in [OnNotPresent::Error, OnNotPresent::Passthrough, OnNotPresent::Default("x".to_string())] {
        let config = bash_with(policy);
        assert_eq!(substitute(&config, "<${NAME-dflt}>", &source), Ok("<dflt>".to_string()));
    }
}

#[test]
fn inline_default_ignored_when_present() {
    let source = mapping(&[("NAME", "val")]);
    let config = Config::bash().unwrap();
    assert_eq!(substitute(&config, "${NAME-dflt}", &source), Ok("val".to_string()));
}

#[test]
fn escaped_dollar_is_literal() {
    let source = mapping(&[("LITERAL", "oops")]);
    let config = Config::bash().unwrap();
    assert_eq!(substitute(&config, "\\$LITERAL", &source), Ok("$LITERAL".to_string()));
    assert_eq!(substitute(&config, "\\${LITERAL}", &source), Ok("${LITERAL}".to_string()));
}

#[test]
fn env_name_with_equals_is_invalid() {
    let source = vars(&[("BAD=NAME", "x")]);
    assert_eq!(source.get("BAD=NAME"), Err(Error::InvalidName));
    assert_eq!(source.get("BAD\0NAME"), Err(Error::InvalidName));
    assert!(Env::invalid_varible_name_pattern('='));
    assert!(Env::invalid_varible_name_pattern('\0'));
    assert!(!Env::invalid_varible_name_pattern('A'));
}

#[test]
fn env_value_that_is_not_text_is_invalid() {
    let source = Env::new(vec![("RAW".to_string(), None)]);
    assert_eq!(source.get("RAW"), Err(Error::InvalidValue));
    assert_eq!(varsubst::env("x$RAW", &source), Err(Error::InvalidValue));
    assert_eq!(source.get("OTHER"), Err(Error::NotPresent));
}

#[test]
fn mapping_accepts_any_name() {
    let source = mapping(&[("A=B", "1"), ("A=B", "2")]);
    assert_eq!(source.get("A=B"), Ok("1".to_string()));
    assert_eq!(source.get("C"), Err(Error::NotPresent));
}

#[test]
fn text_without_placeholders_is_unchanged() {
    let source = mapping(&[("A", "1")]);
    let config = Config::bash().unwrap();
    for text in ["", "plain text", "100% sure", "cost: 5 $", "{A}"] {
        assert_eq!(substitute(&config, text, &source), Ok(text.to_string()));
    }
}

#[test]
fn present_name_replaced_exactly() {
    let source = mapping(&[("NAME", "value")]);
    let config = Config::bash().unwrap();
    assert_eq!(substitute(&config, "pre $NAME post", &source), Ok("pre value post".to_string()));
    assert_eq!(substitute(&config, "$NAME.$NAME", &source), Ok("value.value".to_string()));
}

#[test]
fn passthrough_echoes_placeholder() {
    let source = mapping(&[("B", "2")]);
    let config = bash_with(OnNotPresent::Passthrough);
    assert_eq!(substitute(&config, "x $A ${C} $B", &source), Ok("x $A ${C} 2".to_string()));
}

#[test]
fn error_policy_fails_even_if_later_resolve() {
    let source = mapping(&[("B", "2")]);
    let config = bash_with(OnNotPresent::Error);
    assert_eq!(substitute(&config, "$A $B", &source), Err(Error::NotPresent));
    assert_eq!(substitute(&config, "$B", &source), Ok("2".to_string()));
}

#[test]
fn last_error_wins() {
    let source = Env::new(vec![("RAW".to_string(), None)]);
    let config = bash_with(OnNotPresent::Error);
    assert_eq!(substitute(&config, "$RAW $MISSING", &source), Err(Error::NotPresent));
    assert_eq!(substitute(&config, "$MISSING $RAW", &source), Err(Error::InvalidValue));
}

#[test]
fn docker_dialect() {
    let source = mapping(&[("A", "1")]);
    let config = Config::docker().unwrap();
    assert_eq!(substitute(&config, "$A ${A}", &source), Ok("1 ${A}".to_string()));
    assert_eq!(substitute(&config, "$$A", &source), Ok("$A".to_string()));
}

#[test]
fn cmd_dialect() {
    let source = mapping(&[("A", "1")]);
    let config = Config::cmd().unwrap();
    assert_eq!(substitute(&config, "%A% $A", &source), Ok("1 $A".to_string()));
    assert_eq!(substitute(&config, "%%A%", &source), Ok("%%A%".to_string()));
}

#[test]
fn bad_pattern_is_reported() {
    assert!(matches!(Config::new("(", OnNotPresent::Error, vec![], vec![]), Err(Error::Pattern)));
}

#[test]
fn matches_given_by_hand() {
    let source = mapping(&[("N", "v")]);
    let config = bash_with(OnNotPresent::Passthrough);
    let ms = vec![
        RegexMatch {
            before: "a\\$".to_string(),
            groups: vec![Some("$N".to_string()), Some("N".to_string()), None, None],
        },
        RegexMatch {
            before: "-".to_string(),
            groups: vec![Some("$M".to_string()), None, Some("M".to_string()), None],
        },
        RegexMatch {
            before: String::new(),
            groups: vec![Some("${M-d}".to_string()), None, Some("M".to_string()), Some("d".to_string())],
        },
    ];
    assert_eq!(substitute_matches(&config, &source, &ms, "!"), Ok("a$v-$Md!".to_string()));
}

#[test]
fn presets_keep_their_pattern_text() {
    let config = Config::bash().unwrap();
    assert_eq!(config.pattern_text(), BASH_PATTERN);
    assert_eq!(config.pattern().as_str(), BASH_PATTERN);
    assert!(matches!(config.on_not_present(), OnNotPresent::Default(f) if f.is_empty()));
    assert_eq!(config.escape(), &vec![("\\$".to_string(), "$".to_string())]);
}

#[test]
fn default_fallback_is_not_emitted() {
    let source = mapping(&[]);
    let config = bash_with(OnNotPresent::Default("fb".to_string()));
    assert_eq!(substitute(&config, "[$X]", &source), Ok("[]".to_string()));
}

#[test]
fn docker_and_cmd_keep_their_sentinel_pairs() {
    let dollar = vec![("$".to_string(), "$$".to_string())];
    let undo = vec![("$$".to_string(), "$".to_string())];
    for config in [Config::docker().unwrap(), Config::cmd().unwrap()] {
        assert_eq!(config.escape(), &dollar);
        assert_eq!(config.unescape(), &undo);
    }
}

#[test]
fn match_starting_before_previous_end_is_reported() {
    let source = mapping(&[]);
    let config = Config::new(r"(?<=\Kx)x", OnNotPresent::Passthrough, vec![], vec![]).unwrap();
    assert_eq!(substitute(&config, "xxx", &source), Err(Error::Pattern));
}
