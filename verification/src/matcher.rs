use vstd::prelude::*;
use vstd::string::StringExecFns;

verus! {

/// What the regex engine answers: whether `pattern` matches anywhere in
/// `text`. The answer depends on the pattern and the text alone.
pub uninterp spec fn regex_match(pattern: Seq<char>, text: Seq<char>) -> bool;

/// What case folding yields for a sequence of characters; the result
/// depends on the characters alone.
pub uninterp spec fn lower_of(s: Seq<char>) -> Seq<char>;

#[verifier::external_type_specification]
#[verifier::external_body]
pub struct ExRegex(regex::Regex);

/// A compiled regular expression together with the pattern it was
/// compiled from.
pub struct CompiledRegex {
    pattern: String,
    compiled: regex::Regex,
}

impl CompiledRegex {
    /// The pattern this regex was compiled from.
    pub closed spec fn pattern_view(self) -> Seq<char> {
        self.pattern@
    }

    /// Relies on regex::Regex::new: compiles the pattern, failing on
    /// invalid syntax; the stored pattern is the one handed in.
    #[verifier::external_body]
    pub fn new(pattern: &str) -> (r: Option<CompiledRegex>)
        ensures
            r matches Some(re) ==> re.pattern_view() == pattern@,
    {
        match regex::Regex::new(pattern) {
            Ok(compiled) => Some(CompiledRegex { pattern: pattern.to_owned(), compiled }),
            Err(_) => None,
        }
    }

    /// Relies on regex::Regex::is_match: true exactly when the pattern
    /// matches somewhere in `text`, a function of pattern and text alone.
    #[verifier::external_body]
    pub fn is_match(&self, text: &str) -> (r: bool)
        ensures
            r == regex_match(self.pattern_view(), text@),
    {
        self.compiled.is_match(text)
    }

    pub fn pattern(&self) -> (r: &str)
        ensures
            r@ == self.pattern_view(),
    {
        self.pattern.as_str()
    }
}

/// Relies on str::to_lowercase: the folded text depends on the
/// characters alone.
#[verifier::external_body]
fn lowercase(s: &str) -> (r: String)
    ensures
        r@ == lower_of(s@),
{
    s.to_lowercase()
}

/// The text a leaf matcher compares against: either a fixed string or
/// the index of an earlier capture group whose text is resolved from the
/// match graph at evaluation time.
pub enum StringOrIdx {
    Literal(String),
    Idx(usize),
}

/// The three leaf comparison modes.
pub enum MatcherKind {
    StringOrIdx(StringOrIdx),
    Pattern(CompiledRegex),
}

/// The tokens one capture group matched during one evaluation attempt.
pub struct CapturedGroup {
    pub start: usize,
    pub end: usize,
    pub text: String,
}

/// Runtime record of which token span each capture group matched, indexed
/// by group id; owned by the caller of the matching loop and handed into
/// evaluation by reference.
pub struct MatchGraph {
    pub groups: Vec<Option<CapturedGroup>>,
}

impl MatchGraph {
    /// The captured text per group id.
    pub open spec fn view_texts(self) -> Seq<Option<Seq<char>>> {
        self.groups@.map_values(
            |g: Option<CapturedGroup>|
                match g {
                    Some(c) => Some(c.text@),
                    None => None,
                },
        )
    }

    /// An empty graph: no group has matched anything yet.
    pub fn empty() -> (r: MatchGraph)
        ensures
            r.view_texts() == Seq::<Option<Seq<char>>>::empty(),
    {
        let r = MatchGraph { groups: Vec::new() };
        proof {
            assert(r.view_texts() =~= Seq::<Option<Seq<char>>>::empty());
        }
        r
    }
}

impl Default for MatchGraph {
    /// The state before matching begins: an empty graph.
    fn default() -> (r: MatchGraph)
        ensures
            r.view_texts() == Seq::<Option<Seq<char>>>::empty(),
    {
        MatchGraph::empty()
    }
}

/// A single leaf-level comparison: literal string, capture-group
/// back-reference, or regex, with negation, case sensitivity and an
/// empty-probe policy. Immutable once built.
pub struct Matcher {
    pub matcher: MatcherKind,
    pub negate: bool,
    pub case_sensitive: bool,
    pub empty_always_false: bool,
}

/// Equality of two probe texts under the matcher's case policy.
pub open spec fn spec_text_eq(a: Seq<char>, b: Seq<char>, case_sensitive: bool) -> bool {
    if case_sensitive {
        a == b
    } else {
        lower_of(a) == lower_of(b)
    }
}

/// What `Matcher::is_match` returns, over the probe text and the captured
/// texts of the graph. If `empty_always_false` is set and the probe is
/// empty the answer is false outright, bypassing negation; otherwise the
/// base comparison is made per mode and negation is applied last.
pub open spec fn spec_is_match(m: Matcher, text: Seq<char>, graph_texts: Seq<Option<Seq<char>>>) -> bool {
    if m.empty_always_false && text.len() == 0 {
        false
    } else {
        let base = match m.matcher {
            MatcherKind::StringOrIdx(StringOrIdx::Literal(s)) => spec_text_eq(
                text,
                s@,
                m.case_sensitive,
            ),
            MatcherKind::StringOrIdx(StringOrIdx::Idx(i)) => spec_text_eq(
                text,
                graph_texts[i as int]->Some_0,
                m.case_sensitive,
            ),
            MatcherKind::Pattern(re) => regex_match(re.pattern_view(), text),
        };
        base != m.negate
    }
}

impl Matcher {
    /// True exactly for the back-reference mode, the one mode that needs
    /// the match graph at evaluation time.
    pub open spec fn spec_needs_graph(self) -> bool {
        self.matcher matches MatcherKind::StringOrIdx(StringOrIdx::Idx(_))
    }

    /// The graph holds a captured group for the index this matcher
    /// refers to, so evaluation can resolve its text.
    pub open spec fn resolvable_in(self, graph_texts: Seq<Option<Seq<char>>>) -> bool {
        self.matcher matches MatcherKind::StringOrIdx(StringOrIdx::Idx(i)) ==> i
            < graph_texts.len() && graph_texts[i as int] is Some
    }

    /// A regex-backed matcher; case handling is delegated to the pattern,
    /// so `case_sensitive` is fixed to true.
    pub fn new_regex(regex: CompiledRegex, negate: bool, empty_always_false: bool) -> (r: Matcher)
        ensures
            r == (Matcher {
                matcher: MatcherKind::Pattern(regex),
                negate,
                case_sensitive: true,
                empty_always_false,
            }),
    {
        Matcher {
            matcher: MatcherKind::Pattern(regex),
            negate,
            case_sensitive: true,
            empty_always_false,
        }
    }

    /// A string- or back-reference-backed matcher.
    pub fn new_string(
        string_or_idx: StringOrIdx,
        negate: bool,
        case_sensitive: bool,
        empty_always_false: bool,
    ) -> (r: Matcher)
        ensures
            r == (Matcher {
                matcher: MatcherKind::StringOrIdx(string_or_idx),
                negate,
                case_sensitive,
                empty_always_false,
            }),
    {
        Matcher {
            matcher: MatcherKind::StringOrIdx(string_or_idx),
            negate,
            case_sensitive,
            empty_always_false,
        }
    }

    pub fn needs_graph(&self) -> (r: bool)
        ensures
            r == self.spec_needs_graph(),
    {
        matches!(&self.matcher, MatcherKind::StringOrIdx(StringOrIdx::Idx(_)))
    }

    /// Evaluates this matcher against one probe text.
    pub fn is_match(&self, text: &str, graph: &MatchGraph) -> (r: bool)
        requires
            self.resolvable_in(graph.view_texts()),
        ensures
            r == spec_is_match(*self, text@, graph.view_texts()),
    {
        if self.empty_always_false && text.is_empty() {
            return false;
        }
        let base: bool = match &self.matcher {
            MatcherKind::StringOrIdx(StringOrIdx::Literal(s)) => text_eq(
                text,
                s.as_str(),
                self.case_sensitive,
            ),
            MatcherKind::StringOrIdx(StringOrIdx::Idx(i)) => {
                let resolved = match &graph.groups[*i] {
                    Some(c) => c.text.as_str(),
                    None => "",
                };
                text_eq(text, resolved, self.case_sensitive)
            },
            MatcherKind::Pattern(re) => re.is_match(text),
        };
        base != self.negate
    }
}

/// A matcher with `empty_always_false` set never accepts the empty probe,
/// whatever its mode, negation and case flags.
pub proof fn lemma_empty_always_false(m: Matcher, graph_texts: Seq<Option<Seq<char>>>)
    requires
        m.empty_always_false,
    ensures
        !spec_is_match(m, Seq::<char>::empty(), graph_texts),
{
}

fn text_eq(a: &str, b: &str, case_sensitive: bool) -> (r: bool)
    ensures
        r == spec_text_eq(a@, b@, case_sensitive),
{
    if case_sensitive {
        let x = a.to_owned();
        let y = b.to_owned();
        x == y
    } else {
        let x = lowercase(a);
        let y = lowercase(b);
        x == y
    }
}

} // verus!
