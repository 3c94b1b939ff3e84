use vstd::prelude::*;
use crate::build_info::{cache_lookup, opt_ids_view, sig_view, BuildInfo, RegexSignature};
use crate::matcher::{spec_is_match, MatchGraph, Matcher, MatcherKind};

verus! {

/// The distinct ids of the vocabulary entries the matcher accepts, in
/// scan order.
pub open spec fn matched_ids(words: Seq<(String, u32)>, m: Matcher) -> Seq<u32>
    decreases words.len(),
{
    if words.len() == 0 {
        Seq::empty()
    } else {
        let rest = matched_ids(words.drop_last(), m);
        if spec_is_match(m, words.last().0@, Seq::empty()) && !rest.contains(words.last().1) {
            rest.push(words.last().1)
        } else {
            rest
        }
    }
}

/// The value the mask holds at tag id `i`: what the matcher answered for
/// the store entry carrying that id, the later entry winning when ids
/// repeat, and false when no entry carries it.
pub open spec fn tag_mask_value(tags: Seq<(String, u32)>, m: Matcher, i: int) -> bool
    decreases tags.len(),
{
    if tags.len() == 0 {
        false
    } else if tags.last().1 == i {
        spec_is_match(m, tags.last().0@, Seq::empty())
    } else {
        tag_mask_value(tags.drop_last(), m, i)
    }
}

/// A matcher plus, for cacheable regex matchers, the precomputed set of
/// vocabulary ids known to satisfy it; `None` means evaluation falls back
/// to the matcher itself.
pub struct TextMatcher {
    pub matcher: Matcher,
    pub set: Option<Vec<u32>>,
}

/// Broad patterns are not precomputed: a set larger than this is
/// discarded to bound memory.
pub const SET_CUTOFF: usize = 100;

impl TextMatcher {
    /// Compiles a matcher against the build's vocabulary. Back-reference
    /// matchers and plain string matchers keep no set; a regex matcher's
    /// set is taken from the build cache under its (pattern, negate,
    /// empty policy) signature, and on a miss the whole vocabulary is
    /// scanned once, the result — dropped when it exceeds the cutoff —
    /// entering the cache before it is returned.
    pub fn new(matcher: Matcher, info: &mut BuildInfo) -> (r: TextMatcher)
        ensures
            r.matcher == matcher,
            final(info).spec_tagger() == old(info).spec_tagger(),
            !(matcher.matcher is Pattern) ==> r.set is None && final(info).cache_entries() == old(
                info,
            ).cache_entries(),
            matcher.matcher matches MatcherKind::Pattern(re) ==> {
                let k = (re.pattern_view(), matcher.negate, matcher.empty_always_false);
                match cache_lookup(old(info).cache_entries(), k) {
                    Some(v) => opt_ids_view(r.set) == v && final(info).cache_entries() == old(
                        info,
                    ).cache_entries(),
                    None => {
                        let ids = matched_ids(old(info).spec_tagger().word_store@, matcher);
                        let stored: Option<Seq<u32>> = if ids.len() > SET_CUTOFF {
                            None
                        } else {
                            Some(ids)
                        };
                        &&& opt_ids_view(r.set) == stored
                        &&& final(info).cache_entries().len() == old(info).cache_entries().len()
                            + 1
                        &&& final(info).cache_entries().drop_last() == old(info).cache_entries()
                        &&& sig_view(final(info).cache_entries().last().0) == k
                        &&& opt_ids_view(final(info).cache_entries().last().1) == stored
                    },
                }
            },
    {
        let graph = MatchGraph::empty();
        if matcher.needs_graph() {
            return TextMatcher { matcher, set: None };
        }
        match &matcher.matcher {
            MatcherKind::Pattern(re) => {
                let sig = RegexSignature {
                    pattern: re.pattern().to_owned(),
                    negate: matcher.negate,
                    empty_always_false: matcher.empty_always_false,
                };
                let cached = info.cache_get(&sig);
                match cached {
                    Some(v) => {
                        let set = clone_opt_ids(v);
                        TextMatcher { matcher, set }
                    },
                    None => {
                        let words = info.tagger().word_store();
                        let n = words.len();
                        let mut ids: Vec<u32> = Vec::new();
                        let mut i: usize = 0;
                        while i < n
                            invariant
                                i <= n,
                                *info == *old(info),
                                words@ == old(info).spec_tagger().word_store@,
                                n == words@.len(),
                                !matcher.spec_needs_graph(),
                                graph.view_texts() == Seq::<Option<Seq<char>>>::empty(),
                                ids@ == matched_ids(words@.take(i as int), matcher),
                            decreases n - i,
                        {
                            let pair = &words[i];
                            let matched = matcher.is_match(pair.0.as_str(), &graph);
                            proof {
                                assert(words@.take(i + 1).drop_last() =~= words@.take(i as int));
                                assert(words@.take(i + 1).last() == words@[i as int]);
                            }
                            if matched {
                                if !contains_u32(&ids, pair.1) {
                                    ids.push(pair.1);
                                }
                            }
                            i += 1;
                        }
                        proof {
                            assert(words@.take(n as int) =~= words@);
                        }
                        let stored: Option<Vec<u32>> = if ids.len() > SET_CUTOFF {
                            None
                        } else {
                            Some(ids)
                        };
                        let set = clone_opt_ids(&stored);
                        info.cache_insert(sig, stored);
                        proof {
                            assert(info.cache_entries().drop_last() =~= old(info).cache_entries());
                        }
                        TextMatcher { matcher, set }
                    },
                }
            },
            _ => TextMatcher { matcher, set: None },
        }
    }
}

/// A matcher compiled into a dense boolean mask over the tag-id space;
/// runtime part-of-speech matching is one array index.
pub struct PosMatcher {
    pub mask: Vec<bool>,
}

impl PosMatcher {
    /// Evaluates the matcher against every tag of the store, recording
    /// the answer at the tag's id; the tag space is bounded, so no
    /// cutoff applies.
    pub fn new(matcher: Matcher, info: &mut BuildInfo) -> (r: PosMatcher)
        requires
            old(info).spec_tagger().wf(),
            !matcher.spec_needs_graph(),
        ensures
            *final(info) == *old(info),
            r.mask@.len() == old(info).spec_tagger().tag_store@.len(),
            forall|i: int|
                0 <= i < r.mask@.len() ==> r.mask@[i] == tag_mask_value(
                    old(info).spec_tagger().tag_store@,
                    matcher,
                    i,
                ),
    {
        let graph = MatchGraph::empty();
        let tags = info.tagger().tag_store();
        let n = tags.len();
        let mut mask: Vec<bool> = vec![false; n];
        let mut j: usize = 0;
        while j < n
            invariant
                j <= n,
                *info == *old(info),
                tags@ == old(info).spec_tagger().tag_store@,
                n == tags@.len(),
                old(info).spec_tagger().wf(),
                !matcher.spec_needs_graph(),
                graph.view_texts() == Seq::<Option<Seq<char>>>::empty(),
                mask@.len() == n,
                forall|i: int|
                    0 <= i < n ==> mask@[i] == tag_mask_value(tags@.take(j as int), matcher, i),
            decreases n - j,
        {
            let pair = &tags[j];
            let matched = matcher.is_match(pair.0.as_str(), &graph);
            let id = pair.1 as usize;
            mask.set(id, matched);
            proof {
                assert forall|i: int| 0 <= i < n implies mask@[i] == tag_mask_value(
                    tags@.take(j + 1),
                    matcher,
                    i,
                ) by {
                    assert(tags@.take(j + 1).drop_last() =~= tags@.take(j as int));
                    assert(tags@.take(j + 1).last() == tags@[j as int]);
                }
            }
            j += 1;
        }
        proof {
            assert(tags@.take(n as int) =~= tags@);
        }
        PosMatcher { mask }
    }
}

/// A disambiguation filter backed by a compiled part-of-speech matcher.
pub struct POSFilter {
    pub matcher: PosMatcher,
}

impl POSFilter {
    pub fn new(matcher: PosMatcher) -> (r: POSFilter)
        ensures
            r.matcher == matcher,
    {
        POSFilter { matcher }
    }
}

fn contains_u32(v: &Vec<u32>, x: u32) -> (r: bool)
    ensures
        r == v@.contains(x),
{
    let n = v.len();
    let mut i: usize = 0;
    while i < n
        invariant
            i <= n,
            n == v@.len(),
            forall|j: int| 0 <= j < i ==> v@[j] != x,
        decreases n - i,
    {
        if v[i] == x {
            return true;
        }
        i += 1;
    }
    false
}

fn clone_opt_ids(v: &Option<Vec<u32>>) -> (r: Option<Vec<u32>>)
    ensures
        opt_ids_view(r) == opt_ids_view(*v),
{
    match v {
        Some(x) => {
            let n = x.len();
            let mut out: Vec<u32> = Vec::new();
            let mut i: usize = 0;
            while i < n
                invariant
                    i <= n,
                    n == x@.len(),
                    out@ == x@.take(i as int),
                decreases n - i,
            {
                out.push(x[i]);
                proof {
                    assert(x@.take(i + 1) =~= x@.take(i as int).push(x@[i as int]));
                }
                i += 1;
            }
            proof {
                assert(x@.take(n as int) =~= x@);
            }
            Some(out)
        },
        None => None,
    }
}

} // verus!
