use nlprule::build_info::{BuildInfo, Tagger};
use nlprule::matcher::{
    CapturedGroup, CompiledRegex, MatchGraph, Matcher, StringOrIdx,
};
use nlprule::text_matcher::{POSFilter, PosMatcher, TextMatcher};

fn literal(s: &str, negate: bool, case_sensitive: bool, eaf: bool) -> Matcher {
    Matcher::new_string(StringOrIdx::Literal(s.to_string()), negate, case_sensitive, eaf)
}

#[test]
fn empty_probe_is_always_false_when_flagged() {
    let graph = MatchGraph::empty();
    let m = literal("", false, true, true);
    assert!(!m.is_match("", &graph));
    let m = literal("", true, true, true);
    // Even negation is bypassed.
    assert!(!m.is_match("", &graph));
}

#[test]
fn default_graph_is_empty() {
    let graph = MatchGraph::default();
    assert!(graph.groups.is_empty());
}

#[test]
fn empty_probe_matches_empty_literal_without_flag() {
    let graph = MatchGraph::empty();
    let m = literal("", false, true, false);
    assert!(m.is_match("", &graph));
}

#[test]
fn literal_case_sensitivity() {
    let graph = MatchGraph::empty();
    let m = literal("ABC", false, true, false);
    assert!(!m.is_match("abc", &graph));
    assert!(m.is_match("ABC", &graph));
    let m = literal("ABC", false, false, false);
    assert!(m.is_match("abc", &graph));
    assert!(m.is_match("aBc", &graph));
    assert!(!m.is_match("abd", &graph));
}

#[test]
fn negate_inverts_the_base_match() {
    let graph = MatchGraph::empty();
    let m = literal("a", true, true, false);
    assert!(m.is_match("b", &graph));
    assert!(!m.is_match("a", &graph));
}

#[test]
fn regex_matcher_searches_the_pattern() {
    let graph = MatchGraph::empty();
    let re = CompiledRegex::new("^ab+$").unwrap();
    let m = Matcher::new_regex(re, false, false);
    assert!(m.is_match("abb", &graph));
    assert!(!m.is_match("ac", &graph));
    assert!(!m.is_match("xabb", &graph));
}

#[test]
fn invalid_regex_is_rejected() {
    assert!(CompiledRegex::new("(").is_none());
}

#[test]
fn needs_graph_only_for_back_references() {
    let m = literal("x", false, true, false);
    assert!(!m.needs_graph());
    let m = Matcher::new_string(StringOrIdx::Idx(1), false, true, false);
    assert!(m.needs_graph());
    let re = CompiledRegex::new("a").unwrap();
    let m = Matcher::new_regex(re, false, false);
    assert!(!m.needs_graph());
}

#[test]
fn back_reference_resolves_from_the_graph() {
    let graph = MatchGraph {
        groups: vec![Some(CapturedGroup { start: 0, end: 1, text: "foo".to_string() })],
    };
    let m = Matcher::new_string(StringOrIdx::Idx(0), false, true, false);
    assert!(m.is_match("foo", &graph));
    assert!(!m.is_match("bar", &graph));
}

fn tagger() -> Tagger {
    Tagger {
        word_store: vec![
            ("apple".to_string(), 10),
            ("ant".to_string(), 11),
            ("bee".to_string(), 12),
        ],
        tag_store: vec![
            ("NN".to_string(), 0),
            ("VB".to_string(), 1),
            ("JJ".to_string(), 2),
        ],
    }
}

#[test]
fn text_matcher_precomputes_regex_sets() {
    let mut info = BuildInfo::new(tagger());
    let re = CompiledRegex::new("^a").unwrap();
    let m = Matcher::new_regex(re, false, false);
    let t = TextMatcher::new(m, &mut info);
    assert_eq!(t.set, Some(vec![10, 11]));
}

#[test]
fn text_matcher_set_honours_negation() {
    let mut info = BuildInfo::new(tagger());
    let re = CompiledRegex::new("^a").unwrap();
    let m = Matcher::new_regex(re, true, false);
    let t = TextMatcher::new(m, &mut info);
    assert_eq!(t.set, Some(vec![12]));
}

#[test]
fn text_matcher_keeps_no_set_for_plain_strings() {
    let mut info = BuildInfo::new(tagger());
    let m = literal("apple", false, true, false);
    let t = TextMatcher::new(m, &mut info);
    assert!(t.set.is_none());
}

#[test]
fn text_matcher_keeps_no_set_for_back_references() {
    let mut info = BuildInfo::new(tagger());
    let m = Matcher::new_string(StringOrIdx::Idx(0), false, true, false);
    let t = TextMatcher::new(m, &mut info);
    assert!(t.set.is_none());
}

#[test]
fn broad_regex_set_is_discarded_and_cached() {
    let mut words: Vec<(String, u32)> = Vec::new();
    for i in 0..101u32 {
        words.push((format!("w{}", i), i));
    }
    words.push(("other".to_string(), 999));
    let mut info = BuildInfo::new(Tagger { word_store: words, tag_store: vec![] });

    let re = CompiledRegex::new("^w").unwrap();
    let m = Matcher::new_regex(re, false, false);
    let t = TextMatcher::new(m, &mut info);
    // 101 distinct matching words: over the cutoff, so no set is kept.
    assert!(t.set.is_none());

    // An equal signature is answered from the cache with the same result.
    let re = CompiledRegex::new("^w").unwrap();
    let m = Matcher::new_regex(re, false, false);
    let t = TextMatcher::new(m, &mut info);
    assert!(t.set.is_none());
}

#[test]
fn regex_set_at_cutoff_is_kept() {
    let mut words: Vec<(String, u32)> = Vec::new();
    for i in 0..100u32 {
        words.push((format!("w{}", i), i));
    }
    let mut info = BuildInfo::new(Tagger { word_store: words, tag_store: vec![] });
    let re = CompiledRegex::new("^w").unwrap();
    let m = Matcher::new_regex(re, false, false);
    let t = TextMatcher::new(m, &mut info);
    let set = t.set.expect("exactly one hundred ids should be kept");
    assert_eq!(set.len(), 100);
}

#[test]
fn pos_matcher_masks_the_tag_space() {
    let mut info = BuildInfo::new(tagger());
    let m = literal("VB", false, true, false);
    let p = PosMatcher::new(m, &mut info);
    assert_eq!(p.mask, vec![false, true, false]);
    let f = POSFilter::new(p);
    assert_eq!(f.matcher.mask, vec![false, true, false]);
}

#[test]
fn pos_matcher_with_negation() {
    let mut info = BuildInfo::new(tagger());
    let m = literal("VB", true, true, false);
    let p = PosMatcher::new(m, &mut info);
    assert_eq!(p.mask, vec![true, false, true]);
}
