use nlprule::build_info::{BuildInfo, Tagger};
use nlprule::composition::Composition;
use nlprule::pipeline::{
    is_off, resolve_id, resolve_name, Category, Group, RuleDefinition, Rules, RulesOptions,
    Tokenizer, TokenizerOptions,
};

fn group(id: &str, n: usize, name: &str, default: Option<&str>) -> Group {
    Group {
        id: id.to_string(),
        n,
        name: name.to_string(),
        default: default.map(|s| s.to_string()),
    }
}

fn category(default: Option<&str>) -> Category {
    Category {
        id: "CAT".to_string(),
        name: "Category".to_string(),
        kind: Some("style".to_string()),
        default: default.map(|s| s.to_string()),
    }
}

fn def(id: Option<&str>, g: Option<Group>, cat_default: Option<&str>) -> RuleDefinition {
    RuleDefinition {
        id: id.map(|s| s.to_string()),
        name: Some("a name".to_string()),
        default: None,
        group: g,
        category: Some(category(cat_default)),
        compiled: Ok(Composition::new(vec![])),
    }
}

fn no_filter() -> RulesOptions {
    RulesOptions { ids: vec![], ignore_ids: vec![] }
}

#[test]
fn id_falls_back_to_group_and_index() {
    let d = def(None, Some(group("G", 3, "g name", None)), None);
    assert_eq!(resolve_id(&d), "G.3");
}

#[test]
fn group_index_renders_in_decimal() {
    let d = def(None, Some(group("G", 120, "g name", None)), None);
    assert_eq!(resolve_id(&d), "G.120");
    let d = def(None, Some(group("G", 0, "g name", None)), None);
    assert_eq!(resolve_id(&d), "G.0");
}

#[test]
fn explicit_id_wins() {
    let d = def(Some("MY_ID"), Some(group("G", 3, "g name", None)), None);
    assert_eq!(resolve_id(&d), "MY_ID");
}

#[test]
fn name_falls_back_to_group() {
    let mut d = def(None, Some(group("G", 1, "the group name", None)), None);
    d.name = None;
    assert_eq!(resolve_name(&d), "the group name");
    d.name = Some("own".to_string());
    assert_eq!(resolve_name(&d), "own");
}

#[test]
fn enabled_state_inherits_from_group_then_category() {
    // Unset everywhere: enabled.
    let d = def(Some("x"), None, None);
    assert!(!is_off(&d));
    // Group says off.
    let d = def(Some("x"), Some(group("G", 1, "n", Some("off"))), None);
    assert!(is_off(&d));
    // The rule's own value beats the group's.
    let mut d = def(Some("x"), Some(group("G", 1, "n", Some("off"))), None);
    d.default = Some("on".to_string());
    assert!(!is_off(&d));
    // Category fallback.
    let d = def(Some("x"), None, Some("off"));
    assert!(is_off(&d));
}

#[test]
fn rules_pipeline_keeps_good_rules_and_counts_errors() {
    let defs: Vec<Result<RuleDefinition, String>> = vec![
        Ok(def(Some("a"), None, None)),
        Err("bad xml".to_string()),
        Ok(RuleDefinition { compiled: Err("boom".to_string()), ..def(Some("b"), None, None) }),
        Ok(def(Some("c"), None, None)),
        Err("bad xml".to_string()),
    ];
    let options = RulesOptions { ids: vec![], ignore_ids: vec!["c".to_string()] };
    let (rules, summary) = Rules::from_xml(defs, options);

    assert_eq!(rules.rules.len(), 1);
    assert_eq!(rules.rules[0].id, "a");
    assert_eq!(rules.rules[0].name, "a name");
    assert!(rules.rules[0].on);
    assert_eq!(rules.rules[0].category_id, "CAT");
    assert_eq!(rules.rules[0].category_name, "Category");
    assert_eq!(rules.rules[0].category_type, Some("style".to_string()));

    assert_eq!(
        summary,
        vec![("[Structure] bad xml".to_string(), 2), ("[Rule] boom".to_string(), 1)]
    );
}

#[test]
fn error_summary_is_sorted_by_frequency() {
    let mut defs: Vec<Result<RuleDefinition, String>> = vec![Err("boom".to_string())];
    for _ in 0..3 {
        defs.push(Err("bad".to_string()));
    }
    for _ in 0..2 {
        defs.push(Ok(RuleDefinition {
            compiled: Err("mid".to_string()),
            ..def(Some("x"), None, None)
        }));
    }
    let (rules, summary) = Rules::from_xml(defs, no_filter());
    assert!(rules.rules.is_empty());
    assert_eq!(
        summary,
        vec![
            ("[Structure] bad".to_string(), 3),
            ("[Rule] mid".to_string(), 2),
            ("[Structure] boom".to_string(), 1),
        ]
    );
}

#[test]
fn rules_pipeline_allow_list_filters() {
    let defs: Vec<Result<RuleDefinition, String>> =
        vec![Ok(def(Some("a"), None, None)), Ok(def(Some("b"), None, None))];
    let options = RulesOptions { ids: vec!["b".to_string()], ignore_ids: vec![] };
    let (rules, summary) = Rules::from_xml(defs, options);
    assert_eq!(rules.rules.len(), 1);
    assert_eq!(rules.rules[0].id, "b");
    assert!(summary.is_empty());
}

#[test]
fn rules_pipeline_resolves_off_rules_but_keeps_them() {
    let defs: Vec<Result<RuleDefinition, String>> =
        vec![Ok(def(Some("a"), Some(group("G", 1, "n", Some("off"))), None))];
    let (rules, _) = Rules::from_xml(defs, no_filter());
    assert_eq!(rules.rules.len(), 1);
    assert!(!rules.rules[0].on);
}

fn tagger() -> Tagger {
    Tagger {
        word_store: vec![("word".to_string(), 1)],
        tag_store: vec![("NN".to_string(), 0)],
    }
}

fn disamb_options(allow_errors: bool) -> TokenizerOptions {
    TokenizerOptions { ids: vec![], ignore_ids: vec![], allow_errors }
}

#[test]
fn tokenizer_pipeline_truncates_at_the_first_failure() {
    let defs: Vec<Result<RuleDefinition, String>> = vec![
        Ok(def(Some("one"), None, None)),
        Err("oops".to_string()),
        Ok(def(Some("three"), None, None)),
        Ok(def(Some("four"), None, None)),
        Ok(def(Some("five"), None, None)),
    ];
    let mut info = BuildInfo::new(tagger());
    let r = Tokenizer::<u32>::from_xml(defs, &mut info, None, disamb_options(true));
    let (tok, warning) = r.expect("errors are allowed, so the build succeeds");
    // Only the rule before the failure is kept; later successes are not.
    assert_eq!(tok.rules.len(), 1);
    assert_eq!(tok.rules[0].id, "one");
    assert_eq!(warning, Some("[Structure] oops".to_string()));
}

#[test]
fn tokenizer_pipeline_keeps_only_the_last_error() {
    let defs: Vec<Result<RuleDefinition, String>> = vec![
        Err("first".to_string()),
        Ok(RuleDefinition { compiled: Err("second".to_string()), ..def(Some("b"), None, None) }),
    ];
    let mut info = BuildInfo::new(tagger());
    let r = Tokenizer::<u32>::from_xml(defs, &mut info, None, disamb_options(true));
    let (tok, warning) = r.unwrap();
    assert!(tok.rules.is_empty());
    assert_eq!(warning, Some("[Rule] second".to_string()));
}

#[test]
fn tokenizer_pipeline_fails_hard_without_allow_errors() {
    let defs: Vec<Result<RuleDefinition, String>> = vec![Err("oops".to_string())];
    let mut info = BuildInfo::new(tagger());
    let r = Tokenizer::<u32>::from_xml(defs, &mut info, None, disamb_options(false));
    assert_eq!(r.err(), Some("Error constructing Disambiguator: [Structure] oops".to_string()));
}

#[test]
fn tokenizer_forwards_chunker_tagger_and_options() {
    let defs: Vec<Result<RuleDefinition, String>> = vec![Ok(def(None, Some(group("G", 2, "n", None)), None))];
    let mut info = BuildInfo::new(tagger());
    let r = Tokenizer::from_xml(defs, &mut info, Some(42u32), disamb_options(true));
    let (tok, warning) = r.unwrap();
    assert_eq!(warning, None);
    assert_eq!(tok.chunker, Some(42u32));
    assert_eq!(tok.rules.len(), 1);
    assert_eq!(tok.rules[0].id, "G.2");
    assert_eq!(tok.tagger.word_store, vec![("word".to_string(), 1)]);
    assert_eq!(tok.tagger.tag_store, vec![("NN".to_string(), 0)]);
    assert!(tok.options.allow_errors);
}

#[test]
fn tokenizer_filter_lists_apply() {
    let defs: Vec<Result<RuleDefinition, String>> =
        vec![Ok(def(Some("a"), None, None)), Ok(def(Some("b"), None, None))];
    let mut info = BuildInfo::new(tagger());
    let options = TokenizerOptions {
        ids: vec![],
        ignore_ids: vec!["a".to_string()],
        allow_errors: false,
    };
    let r = Tokenizer::<u32>::from_xml(defs, &mut info, None, options);
    let (tok, _) = r.unwrap();
    assert_eq!(tok.rules.len(), 1);
    assert_eq!(tok.rules[0].id, "b");
}
