use agentrt_console::config::{config_issues, get_str, set_nested, validate_config, ConfigError, YamlNode};
use agentrt_console::templates::PROJECT_CONFIG;

type Node = YamlNode<i64>;

fn s(x: &str) -> Node {
    YamlNode::Str(x.to_string())
}

fn map(entries: Vec<(&str, Node)>) -> Node {
    YamlNode::Mapping(entries.into_iter().map(|(k, v)| (s(k), v)).collect())
}

fn get<'a>(n: &'a Node, path: &[&str]) -> Option<&'a Node> {
    let mut cur = n;
    for p in path {
        while let YamlNode::Tagged(_, b) = cur {
            cur = b;
        }
        match cur {
            YamlNode::Mapping(es) => {
                cur = &es.iter().find(|(k, _)| matches!(k, YamlNode::Str(x) if x == p))?.1;
            }
            _ => return None,
        }
    }
    Some(cur)
}

fn keys(n: &Node) -> Vec<String> {
    match n {
        YamlNode::Mapping(es) => es
            .iter()
            .map(|(k, _)| match k {
                YamlNode::Str(x) => x.clone(),
                _ => "?".to_string(),
            })
            .collect(),
        _ => vec![],
    }
}

/// Converts a parsed YAML document into the library's tree.
fn tree(v: serde_yaml::Value) -> YamlNode<serde_yaml::Value> {
    match v {
        serde_yaml::Value::String(x) => YamlNode::Str(x),
        serde_yaml::Value::Mapping(m) => YamlNode::Mapping(m.into_iter().map(|(k, v)| (tree(k), tree(v))).collect()),
        serde_yaml::Value::Tagged(t) => {
            let t = *t;
            YamlNode::Tagged(t.tag.to_string(), Box::new(tree(t.value)))
        }
        other => YamlNode::Other(other),
    }
}

#[test]
fn set_existing_key_keeps_its_place() {
    let mut root = map(vec![("kernel", map(vec![("name", s("a")), ("level", YamlNode::Other(3))])), ("llm", map(vec![]))]);
    assert!(set_nested(&mut root, "kernel.name", s("b")).is_ok());
    assert!(matches!(get(&root, &["kernel", "name"]), Some(YamlNode::Str(x)) if x == "b"));
    assert!(matches!(get(&root, &["kernel", "level"]), Some(YamlNode::Other(3))));
    assert_eq!(keys(get(&root, &["kernel"]).unwrap()), vec!["name", "level"]);
    assert_eq!(keys(&root), vec!["kernel", "llm"]);
}

#[test]
fn set_creates_missing_mappings_at_the_end() {
    let mut root = map(vec![("kernel", map(vec![]))]);
    assert!(set_nested(&mut root, "llm.providers.openai", s("key")).is_ok());
    assert_eq!(keys(&root), vec!["kernel", "llm"]);
    assert!(matches!(get(&root, &["llm", "providers", "openai"]), Some(YamlNode::Str(x)) if x == "key"));
}

#[test]
fn set_through_a_scalar_fails_and_changes_nothing() {
    let mut root = map(vec![("kernel", s("flat"))]);
    let e = set_nested(&mut root, "kernel.name.first", s("x")).err().unwrap();
    assert!(matches!(e, ConfigError::CannotNavigate { ref part } if part == "name"));
    assert_eq!(e.message(), "Cannot navigate to 'name': parent is not a mapping");
    assert!(matches!(get(&root, &["kernel"]), Some(YamlNode::Str(x)) if x == "flat"));

    let e = set_nested(&mut root, "kernel.name", s("x")).err().unwrap();
    assert_eq!(e.message(), "Cannot set 'kernel.name': parent is not a mapping");

    let mut scalar: Node = YamlNode::Other(1);
    let e = set_nested(&mut scalar, "a", s("x")).err().unwrap();
    assert!(matches!(e, ConfigError::CannotSet { ref key } if key == "a"));
    assert!(matches!(scalar, YamlNode::Other(1)));
}

/// A document written out with its structure, for comparing two trees.
fn show(n: &Node) -> String {
    match n {
        YamlNode::Str(x) => format!("{x:?}"),
        YamlNode::Other(v) => format!("#{v}"),
        YamlNode::Tagged(t, b) => format!("{t} {}", show(b)),
        YamlNode::Mapping(es) => {
            format!("{{{}}}", es.iter().map(|(k, v)| format!("{}: {}", show(k), show(v))).collect::<Vec<_>>().join(", "))
        }
    }
}

#[test]
fn setting_twice_is_setting_once() {
    for key in ["kernel.name", "llm.providers.openai", "security", "kernel"] {
        let mut root = map(vec![("kernel", map(vec![("name", s("a"))])), ("security", YamlNode::Other(1))]);
        assert!(set_nested(&mut root, key, s("v")).is_ok());
        let once = show(&root);
        assert!(set_nested(&mut root, key, s("v")).is_ok());
        assert_eq!(show(&root), once);
    }
}

#[test]
fn set_looks_through_tags() {
    let mut root: Node = YamlNode::Tagged("!cfg".to_string(), Box::new(map(vec![("a", map(vec![]))])));
    assert!(set_nested(&mut root, "a.b", YamlNode::Other(5)).is_ok());
    assert!(matches!(root, YamlNode::Tagged(ref t, _) if t == "!cfg"));
    assert!(matches!(get(&root, &["a", "b"]), Some(YamlNode::Other(5))));
}

#[test]
fn odd_keys_split_on_every_dot() {
    let mut root = map(vec![]);
    assert!(set_nested(&mut root, "a..b", s("v")).is_ok());
    assert!(matches!(get(&root, &["a", "", "b"]), Some(YamlNode::Str(x)) if x == "v"));
    assert!(set_nested(&mut root, "", s("empty")).is_ok());
    assert!(matches!(get(&root, &[""]), Some(YamlNode::Str(x)) if x == "empty"));
}

#[test]
fn validation_reports_missing_sections_in_order() {
    let root = map(vec![("llm", map(vec![]))]);
    let issues = config_issues(&root);
    assert_eq!(issues, vec!["Missing required section: 'kernel'", "Missing required section: 'security'"]);
    let e = validate_config(&root).err().unwrap();
    assert_eq!(e.message(), "Configuration validation failed with 2 error(s)");
    let list: Node = YamlNode::Other(0);
    assert_eq!(config_issues(&list), vec!["Config root must be a YAML mapping"]);
    let full = map(vec![("kernel", map(vec![])), ("llm", s("x")), ("security", YamlNode::Other(1))]);
    assert!(validate_config(&full).is_ok());
}

#[test]
fn test_config_validate() {
    let root = tree(serde_yaml::from_str(PROJECT_CONFIG).unwrap());
    assert!(validate_config(&root).is_ok());
}

#[test]
fn test_config_set_and_validate() {
    let mut root = tree(serde_yaml::from_str(PROJECT_CONFIG).unwrap());
    assert!(set_nested(&mut root, "kernel.name", YamlNode::Str("test-agent".to_string())).is_ok());
    assert_eq!(get_str(match &root {
        YamlNode::Mapping(es) => &es.iter().find(|(k, _)| matches!(k, YamlNode::Str(x) if x == "kernel")).unwrap().1,
        _ => panic!("root is a mapping"),
    }, "name"), Some("test-agent".to_string()));
    assert!(validate_config(&root).is_ok());
}

#[test]
fn test_config_set_invalid_key() {
    let mut root = tree(serde_yaml::from_str(PROJECT_CONFIG).unwrap());
    assert!(set_nested(&mut root, "nonexistent.key.deep", YamlNode::Str("value".to_string())).is_ok());
    assert!(validate_config(&root).is_ok());
}

#[test]
fn get_str_reads_strings_only() {
    let root = map(vec![("name", s("agent-1")), ("version", YamlNode::Other(2))]);
    assert_eq!(get_str(&root, "name"), Some("agent-1".to_string()));
    assert_eq!(get_str(&root, "version"), None);
    assert_eq!(get_str(&root, "missing"), None);
    let tagged = map(vec![("name", YamlNode::Tagged("!t".to_string(), Box::new(s("tagged"))))]);
    assert_eq!(get_str(&tagged, "name"), Some("tagged".to_string()));
}
