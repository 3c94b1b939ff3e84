use vstd::prelude::*;

verus! {

/// Read-only vocabulary (word to id) and tag (tag text to id) tables the
/// compilation pass runs against, fully materialized before it starts.
pub struct Tagger {
    pub word_store: Vec<(String, u32)>,
    pub tag_store: Vec<(String, u32)>,
}

impl Tagger {
    /// Every tag id indexes into the tag space, so a mask sized to the
    /// store can be written at each id.
    pub open spec fn wf(self) -> bool {
        forall|j: int|
            0 <= j < self.tag_store@.len() ==> (#[trigger] self.tag_store@[j]).1 < self.tag_store@.len()
    }

    pub fn word_store(&self) -> (r: &Vec<(String, u32)>)
        ensures
            r == &self.word_store,
    {
        &self.word_store
    }

    pub fn tag_store(&self) -> (r: &Vec<(String, u32)>)
        ensures
            r == &self.tag_store,
    {
        &self.tag_store
    }
}

/// The signature a precomputed regex result is cached under: the pattern
/// together with the flags that change which ids match.
pub struct RegexSignature {
    pub pattern: String,
    pub negate: bool,
    pub empty_always_false: bool,
}

/// The signature as a mathematical key.
pub open spec fn sig_view(s: RegexSignature) -> (Seq<char>, bool, bool) {
    (s.pattern@, s.negate, s.empty_always_false)
}

/// An optional id set as a mathematical value.
pub open spec fn opt_ids_view(v: Option<Vec<u32>>) -> Option<Seq<u32>> {
    match v {
        Some(x) => Some(x@),
        None => None,
    }
}

/// First-match lookup in the cache's entry list.
pub open spec fn cache_lookup(
    entries: Seq<(RegexSignature, Option<Vec<u32>>)>,
    k: (Seq<char>, bool, bool),
) -> Option<Option<Seq<u32>>>
    decreases entries.len(),
{
    if entries.len() == 0 {
        None
    } else if sig_view(entries[0].0) == k {
        Some(opt_ids_view(entries[0].1))
    } else {
        cache_lookup(entries.drop_first(), k)
    }
}

/// Build-scoped state: the tagger the pass runs against and the mutable
/// regex-result cache, discarded when the pass ends.
pub struct BuildInfo {
    tagger: Tagger,
    regex_cache: Vec<(RegexSignature, Option<Vec<u32>>)>,
}

impl BuildInfo {
    pub closed spec fn spec_tagger(self) -> Tagger {
        self.tagger
    }

    pub closed spec fn cache_entries(self) -> Seq<(RegexSignature, Option<Vec<u32>>)> {
        self.regex_cache@
    }

    /// Fresh build state with an empty cache.
    pub fn new(tagger: Tagger) -> (r: BuildInfo)
        ensures
            r.spec_tagger() == tagger,
            r.cache_entries() == Seq::<(RegexSignature, Option<Vec<u32>>)>::empty(),
    {
        let r = BuildInfo { tagger, regex_cache: Vec::new() };
        proof {
            assert(r.cache_entries() =~= Seq::<(RegexSignature, Option<Vec<u32>>)>::empty());
        }
        r
    }

    pub fn tagger(&self) -> (r: &Tagger)
        ensures
            *r == self.spec_tagger(),
    {
        &self.tagger
    }

    /// Looks the signature up in the cache.
    pub fn cache_get(&self, sig: &RegexSignature) -> (r: Option<&Option<Vec<u32>>>)
        ensures
            match r {
                Some(v) => cache_lookup(self.cache_entries(), sig_view(*sig)) == Some(
                    opt_ids_view(*v),
                ),
                None => cache_lookup(self.cache_entries(), sig_view(*sig)) is None,
            },
    {
        let n = self.regex_cache.len();
        proof {
            assert(self.regex_cache@.skip(0) =~= self.regex_cache@);
        }
        let mut i: usize = 0;
        while i < n
            invariant
                i <= n,
                n == self.regex_cache@.len(),
                cache_lookup(self.regex_cache@, sig_view(*sig)) == cache_lookup(
                    self.regex_cache@.skip(i as int),
                    sig_view(*sig),
                ),
            decreases n - i,
        {
            let entry = &self.regex_cache[i];
            proof {
                assert(self.regex_cache@.skip(i as int)[0] == self.regex_cache@[i as int]);
            }
            if sig_eq(&entry.0, sig) {
                return Some(&entry.1);
            }
            proof {
                assert(self.regex_cache@.skip(i as int).drop_first() =~= self.regex_cache@.skip(
                    i + 1,
                ));
            }
            i += 1;
        }
        proof {
            assert(self.regex_cache@.skip(n as int) =~= Seq::<(
                RegexSignature,
                Option<Vec<u32>>,
            )>::empty());
        }
        None
    }

    /// Records a signature's result; an existing entry is never
    /// overwritten, so earlier lookups stay valid.
    pub fn cache_insert(&mut self, sig: RegexSignature, value: Option<Vec<u32>>)
        ensures
            final(self).cache_entries() == old(self).cache_entries().push((sig, value)),
            final(self).spec_tagger() == old(self).spec_tagger(),
    {
        self.regex_cache.push((sig, value));
    }
}

/// A lookup that misses resolves to a freshly pushed entry.
pub proof fn lemma_cache_lookup_push(
    entries: Seq<(RegexSignature, Option<Vec<u32>>)>,
    e: (RegexSignature, Option<Vec<u32>>),
    k: (Seq<char>, bool, bool),
)
    ensures
        cache_lookup(entries.push(e), k) == if cache_lookup(entries, k) is Some {
            cache_lookup(entries, k)
        } else if sig_view(e.0) == k {
            Some(opt_ids_view(e.1))
        } else {
            None
        },
    decreases entries.len(),
{
    let p = entries.push(e);
    if entries.len() == 0 {
        assert(p[0] == e);
        assert(cache_lookup(entries, k) is None);
        if sig_view(e.0) == k {
            assert(cache_lookup(p, k) == Some(opt_ids_view(e.1)));
        } else {
            assert(p.drop_first() =~= Seq::<(RegexSignature, Option<Vec<u32>>)>::empty());
            assert(cache_lookup(p, k) == cache_lookup(p.drop_first(), k));
            assert(cache_lookup(p.drop_first(), k) is None);
        }
    } else {
        assert(p[0] == entries[0]);
        if sig_view(entries[0].0) == k {
            assert(cache_lookup(p, k) == Some(opt_ids_view(p[0].1)));
            assert(cache_lookup(entries, k) == Some(opt_ids_view(entries[0].1)));
        } else {
            assert(p.drop_first() =~= entries.drop_first().push(e));
            lemma_cache_lookup_push(entries.drop_first(), e, k);
            assert(cache_lookup(p, k) == cache_lookup(entries.drop_first().push(e), k));
            assert(cache_lookup(entries, k) == cache_lookup(entries.drop_first(), k));
        }
    }
}

/// Compiling the same regex signature twice within one build is a pure
/// cache hit: once a miss has entered its result, looking the signature
/// up again answers exactly that result, with no second vocabulary scan.
pub proof fn lemma_recompile_is_cache_hit(
    entries_before: Seq<(RegexSignature, Option<Vec<u32>>)>,
    entries_after: Seq<(RegexSignature, Option<Vec<u32>>)>,
    k: (Seq<char>, bool, bool),
    stored: Option<Seq<u32>>,
)
    requires
        cache_lookup(entries_before, k) is None,
        entries_after.len() == entries_before.len() + 1,
        entries_after.drop_last() == entries_before,
        sig_view(entries_after.last().0) == k,
        opt_ids_view(entries_after.last().1) == stored,
    ensures
        cache_lookup(entries_after, k) == Some(stored),
{
    assert(entries_after =~= entries_before.push(entries_after.last()));
    lemma_cache_lookup_push(entries_before, entries_after.last(), k);
}

fn sig_eq(a: &RegexSignature, b: &RegexSignature) -> (r: bool)
    ensures
        r == (sig_view(*a) == sig_view(*b)),
{
    a.pattern == b.pattern && a.negate == b.negate && a.empty_always_false == b.empty_always_false
}

} // verus!
