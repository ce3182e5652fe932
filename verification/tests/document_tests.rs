use lv2render::config::parse_plugin_setting;
use lv2render::document::{
    chain_from_document, load_chain_from_yaml, parse_source, ChainDocument, ChainEntry,
    ConfigError, ParamSource,
};
use lv2render::plugin::PluginSetting;

fn number(text: &str) -> Option<u32> {
    match text.parse::<f32>() {
        Ok(value) => Some(value.to_bits()),
        Err(_) => None,
    }
}

fn narrow(bits: u64) -> u32 {
    (f64::from_bits(bits) as f32).to_bits()
}

fn bits(value: f32) -> u32 {
    value.to_bits()
}

fn load(text: &str) -> Result<Vec<PluginSetting>, ConfigError> {
    load_chain_from_yaml(text.as_bytes(), &number, &narrow)
}

fn fails_with(text: &str) -> String {
    load(text).unwrap_err().message()
}

fn same(a: &PluginSetting, b: &PluginSetting) -> bool {
    a.plugin_identifier == b.plugin_identifier && a.params == b.params
}

const README_CHAIN: &str = "\
# effect-chain.yaml
- \"Calf Reverb:Decay time=0.5\" # String format
- master_me:                   # Key-List format
    - leveler bypass=1
    - input gain=3
- Calf Bass Enhancer           # Simple name
";

#[test]
fn chain_file_of_the_three_forms() {
    let chain = load(README_CHAIN).unwrap();
    assert_eq!(chain.len(), 3);
    assert_eq!(chain[0].plugin_identifier, "Calf Reverb");
    assert_eq!(chain[0].params, vec![("Decay time".to_string(), bits(0.5))]);
    assert_eq!(chain[1].plugin_identifier, "master_me");
    assert_eq!(
        chain[1].params,
        vec![
            ("leveler bypass".to_string(), bits(1.0)),
            ("input gain".to_string(), bits(3.0)),
        ]
    );
    assert_eq!(chain[2].plugin_identifier, "Calf Bass Enhancer");
    assert!(chain[2].params.is_empty());
}

#[test]
fn list_and_text_forms_agree() {
    let from_list = load("- p q:\n    - a=1\n    - b=2.5\n    - a=3\n").unwrap();
    let from_text = load("- p q:a=1:b=2.5:a=3\n").unwrap();
    let from_line = parse_plugin_setting("p q:a=1:b=2.5:a=3", &number).unwrap();
    assert_eq!(from_list.len(), 1);
    assert_eq!(from_text.len(), 1);
    assert!(same(&from_list[0], &from_line));
    assert!(same(&from_text[0], &from_line));
    assert_eq!(from_line.params[0], ("a".to_string(), bits(3.0)));
}

#[test]
fn one_text_of_parameters_agrees_with_a_list() {
    let from_text = load("- p:\n    \"a=1:b=2.5:a=3\"\n- q:\n    \"a=1\"\n").unwrap();
    let from_list = load("- p:\n    - a=1\n    - b=2.5\n    - a=3\n- q:\n    - a=1\n").unwrap();
    assert_eq!(from_text.len(), 2);
    assert!(same(&from_text[0], &from_list[0]));
    assert!(same(&from_text[1], &from_list[1]));
    assert_eq!(
        from_text[0].params,
        vec![("a".to_string(), bits(3.0)), ("b".to_string(), bits(2.5))]
    );
    assert_eq!(from_text[1].params, vec![("a".to_string(), bits(1.0))]);
}

#[test]
fn chain_under_the_plugins_key() {
    let chain = load("title: x\nplugins:\n  - a\n  - b:\n      gain: 2\n      mix: 0.25\n").unwrap();
    assert_eq!(chain.len(), 2);
    assert_eq!(chain[0].plugin_identifier, "a");
    assert_eq!(chain[1].plugin_identifier, "b");
    assert_eq!(
        chain[1].params,
        vec![("gain".to_string(), bits(2.0)), ("mix".to_string(), bits(0.25))]
    );
}

#[test]
fn one_item_may_hold_several_plugins() {
    let chain = load("- a: x=1\n  b: 'y=2:z=3'\n  c: null\n- d\n").unwrap();
    let names: Vec<&str> = chain.iter().map(|s| s.plugin_identifier.as_str()).collect();
    assert_eq!(names, vec!["a", "b", "c", "d"]);
    assert_eq!(chain[0].params, vec![("x".to_string(), bits(1.0))]);
    assert_eq!(
        chain[1].params,
        vec![("y".to_string(), bits(2.0)), ("z".to_string(), bits(3.0))]
    );
    assert!(chain[2].params.is_empty());
}

#[test]
fn other_items_are_passed_over() {
    let chain = load("- 1\n- true\n- [a]\n- p:\n    - 5\n    - k=1\n- null\n").unwrap();
    assert_eq!(chain.len(), 1);
    assert_eq!(chain[0].plugin_identifier, "p");
    assert_eq!(chain[0].params, vec![("k".to_string(), bits(1.0))]);
    assert!(load("[]").unwrap().is_empty());
}

#[test]
fn tags_are_looked_through_but_not_on_the_plugins_key() {
    let chain = load("!chain\nplugins: !list\n  - !name a\n").unwrap();
    assert_eq!(chain.len(), 1);
    assert_eq!(chain[0].plugin_identifier, "a");
    assert!(matches!(
        load("? !tag plugins\n: [a]\n").unwrap_err(),
        ConfigError::NotAChain
    ));
}

#[test]
fn chain_file_errors() {
    assert!(matches!(load("[a").unwrap_err(), ConfigError::NotYaml(_)));
    assert!(!fails_with("[a").is_empty());
    assert!(matches!(load("plugins: a").unwrap_err(), ConfigError::PluginsNotAList));
    assert_eq!(fails_with("plugins: a"), "'plugins' must be a list");
    assert!(matches!(load("a: b").unwrap_err(), ConfigError::NotAChain));
    assert_eq!(
        fails_with("hello"),
        "YAML must be a list of plugins or contain a 'plugins' key"
    );
    assert!(matches!(load("- 'a=1'").unwrap_err(), ConfigError::Setting(_)));
    assert_eq!(fails_with("- 'a=1'"), "Missing plugin identifier");
    assert!(matches!(load("- 1: x=1").unwrap_err(), ConfigError::NameNotText));
    assert_eq!(fails_with("- 1: x=1"), "Plugin name must be a string");
    assert!(matches!(load("- p: [x]").unwrap_err(), ConfigError::Param(_)));
    assert_eq!(fails_with("- p: [x]"), "Expected key=value pair");
    assert_eq!(fails_with("- p: ''"), "Expected key=value pair");
    assert!(matches!(load("- p: {1: 2}").unwrap_err(), ConfigError::ParamNameNotText));
    assert_eq!(fails_with("- p: {1: 2}"), "Param name must be a string");
    assert!(matches!(load("- p: {a: x}").unwrap_err(), ConfigError::NotANumber(_)));
    assert_eq!(fails_with("- p: {a: x}"), "Param value for 'a' must be a number");
    assert_eq!(fails_with("- p: {a: 1e39}"), "Parameter 'a' must be a finite number");
    assert_eq!(fails_with("- p: {a: .nan}"), "Parameter 'a' must be a finite number");
}

#[test]
fn the_first_fault_counts() {
    assert_eq!(fails_with("- p: [x]\n- 'a=1'\n"), "Expected key=value pair");
    assert_eq!(fails_with("- 'a=1'\n- p: [x]\n"), "Missing plugin identifier");
    assert_eq!(fails_with("- 1: [x]\n"), "Plugin name must be a string");
}

#[test]
fn chain_from_a_document_written_by_hand() {
    let doc = ChainDocument::Entries(vec![
        ChainEntry::Other,
        ChainEntry::Text("p:a=1".to_string()),
        ChainEntry::Table(vec![
            (
                Some("q".to_string()),
                ParamSource::Table(vec![
                    (Some("x".to_string()), Some(2.0f64.to_bits())),
                    (Some(" y ".to_string()), Some(0.1f64.to_bits())),
                ]),
            ),
            (
                Some("r".to_string()),
                ParamSource::List(vec![None, Some("k=1:l=2".to_string())]),
            ),
        ]),
    ]);
    let chain = chain_from_document(&doc, &number, &narrow).unwrap();
    assert_eq!(chain.len(), 3);
    assert_eq!(chain[0].plugin_identifier, "p");
    assert_eq!(
        chain[1].params,
        vec![("x".to_string(), bits(2.0)), (" y ".to_string(), bits(0.1))]
    );
    assert_eq!(
        chain[2].params,
        vec![("k".to_string(), bits(1.0)), ("l".to_string(), bits(2.0))]
    );
}

#[test]
fn order_of_a_chain_is_that_of_the_file() {
    let first = load("- a\n- b: x=1\n").unwrap();
    let second = load("- c\n- a\n").unwrap();
    let both = load("- a\n- b: x=1\n- c\n- a\n").unwrap();
    let expected: Vec<&PluginSetting> = first.iter().chain(second.iter()).collect();
    assert_eq!(both.len(), expected.len());
    for (a, b) in both.iter().zip(expected) {
        assert!(same(a, b));
    }
}

#[test]
fn nothing_under_a_name_sets_nothing() {
    assert!(parse_source(&ParamSource::Other, &number, &narrow).unwrap().is_empty());
    let e = parse_source(&ParamSource::Text("x".to_string()), &number, &narrow).unwrap_err();
    assert_eq!(e.message(), "Expected key=value pair");
}
