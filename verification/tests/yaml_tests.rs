use perry_container_compose::env::EnvMap;
use perry_container_compose::yaml::{interpolate, parse_dotenv, split_chars};

fn env_of(pairs: &[(&str, &str)]) -> EnvMap {
    let mut env = EnvMap::new();
    for (k, v) in pairs {
        env.insert(k.to_string(), v.to_string());
    }
    env
}

#[test]
fn test_parse_dotenv_basic() {
    let content = "FOO=bar\nBAZ=qux\n# comment\n\nEMPTY=";
    let map = parse_dotenv(content);
    assert_eq!(map.get("FOO").unwrap(), "bar");
    assert_eq!(map.get("BAZ").unwrap(), "qux");
    assert_eq!(map.get("EMPTY").unwrap(), "");
}

#[test]
fn test_parse_dotenv_quoted() {
    let content = r#"A="hello world"
B='single quoted'
C="with \"escape\""
"#;
    let map = parse_dotenv(content);
    assert_eq!(map.get("A").unwrap(), "hello world");
    assert_eq!(map.get("B").unwrap(), "single quoted");
    assert_eq!(map.get("C").unwrap(), "with \"escape\"");
}

#[test]
fn test_interpolate_simple() {
    let env = env_of(&[("NAME", "world")]);
    assert_eq!(interpolate("Hello ${NAME}!", &env), "Hello world!");
}

#[test]
fn test_interpolate_default() {
    let env = EnvMap::new();
    assert_eq!(interpolate("${MISSING:-fallback}", &env), "fallback");
}

#[test]
fn test_interpolate_conditional() {
    let env = env_of(&[("SET", "yes")]);
    assert_eq!(interpolate("${SET:+value}", &env), "value");
    let empty = EnvMap::new();
    assert_eq!(interpolate("${UNSET:+value}", &empty), "");
}

#[test]
fn test_interpolate_dollar_dollar() {
    let env = EnvMap::new();
    assert_eq!(interpolate("$$FOO", &env), "$FOO");
}

#[test]
fn test_dotenv_parsing() {
    let content = r#"
# Comment
KEY=VALUE
SPACE_KEY =  VALUE
QUOTED="double"
SINGLE='single'
INLINE=VAL # comment
"#;
    let env = parse_dotenv(content);
    assert_eq!(env.get("KEY"), Some("VALUE".to_string()));
    assert_eq!(env.get("SPACE_KEY"), Some("VALUE".to_string()));
    assert_eq!(env.get("QUOTED"), Some("double".to_string()));
    assert_eq!(env.get("SINGLE"), Some("single".to_string()));
    assert_eq!(env.get("INLINE"), Some("VAL".to_string()));
}

#[test]
fn test_env_interpolation_manual() {
    let env = env_of(&[("VAR", "val"), ("EMPTY", "")]);
    assert_eq!(interpolate("hello ${VAR}", &env), "hello val");
    assert_eq!(interpolate("hello ${MISSING:-default}", &env), "hello default");
    assert_eq!(interpolate("hello ${EMPTY:-default}", &env), "hello default");
    assert_eq!(interpolate("hello ${VAR:-default}", &env), "hello val");
}

#[test]
fn interpolate_plain_variables_and_lone_dollars() {
    let env = env_of(&[("A_1", "x"), ("B", "y")]);
    assert_eq!(interpolate("$A_1-$B.", &env), "x-y.");
    assert_eq!(interpolate("cost: $ 5 and $", &env), "cost: $ 5 and $");
    assert_eq!(interpolate("${UNSET}", &env), "");
}

#[test]
fn interpolate_nested_braces_reach_the_matching_close() {
    let env = env_of(&[("B", "y")]);
    // the default text keeps its inner braces
    assert_eq!(interpolate("${A:-{B}}", &env), "{B}");
    // an unterminated expression takes the rest of the text
    assert_eq!(interpolate("${A:-z", &env), "z");
}

#[test]
fn dotenv_later_binding_wins_and_lines_without_equals_are_skipped() {
    let env = parse_dotenv("X=1\nnot a binding\nX=2\n  # indented comment\n");
    assert_eq!(env.get("X"), Some("2".to_string()));
    assert_eq!(env.len(), 1);
}

#[test]
fn split_keeps_empty_pieces() {
    assert_eq!(split_chars("a::b", ':'), vec!["a".to_string(), "".to_string(), "b".to_string()]);
    assert_eq!(split_chars("", ':'), vec!["".to_string()]);
}

#[test]
fn interpolation_of_a_compose_document_text() {
    let yaml = "\nservices:\n  web:\n    image: ${IMAGE:-nginx}\n";
    let env = env_of(&[("IMAGE", "redis")]);
    assert_eq!(interpolate(yaml, &env), "\nservices:\n  web:\n    image: redis\n");
    assert_eq!(interpolate(yaml, &EnvMap::new()), "\nservices:\n  web:\n    image: nginx\n");
}

#[test]
fn dotenv_binds_only_the_names_of_its_assignment_lines() {
    let content = "  A = 1 \n# B=2\n\nno equals here\n  C=3\nA=4\r\n";
    let map = parse_dotenv(content);
    assert_eq!(map.len(), 2);
    assert_eq!(map.get("A").unwrap(), "4");
    assert_eq!(map.get("C").unwrap(), "3");
    assert!(map.get("B").is_none());
    assert!(map.get("# B").is_none());
    assert!(map.get("no equals here").is_none());
}

#[test]
fn interpolation_plus_keeps_nested_braces() {
    let env = env_of(&[("ABC123", "set")]);
    assert_eq!(interpolate("${ABC123:+{plus_val}}", &env), "{plus_val}");
    assert_eq!(interpolate("${ABC123:+{x}}tail", &env), "{x}tail");
    assert_eq!(interpolate("${UNSET9:+{x}}", &env), "");
}
