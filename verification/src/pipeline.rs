use vstd::prelude::*;
use vstd::string::StringExecFns;
use crate::build_info::{BuildInfo, Tagger};
use crate::composition::Composition;

verus! {

/// The group a rule definition may belong to, supplying fallback
/// identity and enabled-state metadata.
pub struct Group {
    pub id: String,
    pub n: usize,
    pub name: String,
    pub default: Option<String>,
}

/// The category a grammar rule belongs to; structurally guaranteed to be
/// present upstream.
pub struct Category {
    pub id: String,
    pub name: String,
    pub kind: Option<String>,
    pub default: Option<String>,
}

/// One structural rule definition as the parsing collaborator hands it
/// over: its own metadata, its optional group and category ancestors,
/// and the outcome of compiling its pattern into a composition.
pub struct RuleDefinition {
    pub id: Option<String>,
    pub name: Option<String>,
    pub default: Option<String>,
    pub group: Option<Group>,
    pub category: Option<Category>,
    pub compiled: Result<Composition, String>,
}

/// The decimal digits of `n`, most significant first.
pub open spec fn dec_str(n: nat) -> Seq<char>
    decreases n,
{
    if n < 10 {
        seq![digit_char(n)]
    } else {
        dec_str(n / 10).push(digit_char(n % 10))
    }
}

/// The character for one decimal digit.
pub open spec fn digit_char(d: nat) -> char {
    if d == 0 {
        '0'
    } else if d == 1 {
        '1'
    } else if d == 2 {
        '2'
    } else if d == 3 {
        '3'
    } else if d == 4 {
        '4'
    } else if d == 5 {
        '5'
    } else if d == 6 {
        '6'
    } else if d == 7 {
        '7'
    } else if d == 8 {
        '8'
    } else {
        '9'
    }
}

/// The definition carries an explicit id or can fall back to its group.
pub open spec fn spec_resolvable_id(d: RuleDefinition) -> bool {
    d.id is Some || d.group is Some
}

/// A grammar definition resolves fully: id and name each have an
/// explicit value or a group to fall back to, and a category is present.
pub open spec fn spec_resolvable_grammar(d: RuleDefinition) -> bool {
    (d.id is Some || d.group is Some) && (d.name is Some || d.group is Some) && d.category is Some
}

/// The resolved rule id: the explicit id, else `"{group.id}.{group.n}"`.
pub open spec fn spec_resolved_id(d: RuleDefinition) -> Seq<char> {
    match d.id {
        Some(s) => s@,
        None => d.group->Some_0.id@ + seq!['.'] + dec_str(d.group->Some_0.n as nat),
    }
}

/// The resolved rule name: the explicit name, else the group's.
pub open spec fn spec_resolved_name(d: RuleDefinition) -> Seq<char> {
    match d.name {
        Some(s) => s@,
        None => d.group->Some_0.name@,
    }
}

/// Whether the category's own `default` turns rules off.
pub open spec fn spec_category_off(c: Option<Category>) -> bool {
    match c {
        Some(cat) => match cat.default {
            Some(s) => s@ == "off"@,
            None => false,
        },
        None => false,
    }
}

/// The resolved enabled state, inverted: the rule's own `default` if
/// set, else the group's if set, else the category's, else enabled.
pub open spec fn spec_is_off(d: RuleDefinition) -> bool {
    match d.default {
        Some(s) => s@ == "off"@,
        None => match d.group {
            Some(g) => match g.default {
                Some(s) => s@ == "off"@,
                None => spec_category_off(d.category),
            },
            None => spec_category_off(d.category),
        },
    }
}

/// Membership of a text among the values of a string list.
pub open spec fn seq_contains_text(v: Seq<String>, t: Seq<char>) -> bool {
    exists|i: int| 0 <= i < v.len() && v[i]@ == t
}

/// The decimal rendering of a number.
pub fn usize_to_string(n: usize) -> (s: String)
    ensures
        s@ == dec_str(n as nat),
    decreases n,
{
    if n < 10 {
        let d = digit_str(n);
        d.to_owned()
    } else {
        let mut s = usize_to_string(n / 10);
        let d = digit_str(n % 10);
        s.append(d);
        proof {
            assert(dec_str((n / 10) as nat).push(digit_char((n % 10) as nat)) =~= dec_str(
                (n / 10) as nat,
            ) + seq![digit_char((n % 10) as nat)]);
        }
        s
    }
}

fn digit_str(d: usize) -> (r: &'static str)
    requires
        d < 10,
    ensures
        r@ == seq![digit_char(d as nat)],
{
    proof {
        reveal_strlit("0");
        reveal_strlit("1");
        reveal_strlit("2");
        reveal_strlit("3");
        reveal_strlit("4");
        reveal_strlit("5");
        reveal_strlit("6");
        reveal_strlit("7");
        reveal_strlit("8");
        reveal_strlit("9");
        assert("0"@ =~= seq![digit_char(0)]);
        assert("1"@ =~= seq![digit_char(1)]);
        assert("2"@ =~= seq![digit_char(2)]);
        assert("3"@ =~= seq![digit_char(3)]);
        assert("4"@ =~= seq![digit_char(4)]);
        assert("5"@ =~= seq![digit_char(5)]);
        assert("6"@ =~= seq![digit_char(6)]);
        assert("7"@ =~= seq![digit_char(7)]);
        assert("8"@ =~= seq![digit_char(8)]);
        assert("9"@ =~= seq![digit_char(9)]);
    }
    if d == 0 {
        "0"
    } else if d == 1 {
        "1"
    } else if d == 2 {
        "2"
    } else if d == 3 {
        "3"
    } else if d == 4 {
        "4"
    } else if d == 5 {
        "5"
    } else if d == 6 {
        "6"
    } else if d == 7 {
        "7"
    } else if d == 8 {
        "8"
    } else {
        "9"
    }
}

fn str_eq(a: &str, b: &str) -> (r: bool)
    ensures
        r == (a@ == b@),
{
    let x = a.to_owned();
    let y = b.to_owned();
    x == y
}

fn contains_str(v: &Vec<String>, s: &str) -> (r: bool)
    ensures
        r == seq_contains_text(v@, s@),
{
    let n = v.len();
    let mut i: usize = 0;
    while i < n
        invariant
            i <= n,
            n == v@.len(),
            forall|j: int| 0 <= j < i ==> (#[trigger] v@[j])@ != s@,
        decreases n - i,
    {
        if str_eq(v[i].as_str(), s) {
            return true;
        }
        i += 1;
    }
    false
}

/// The resolved id of a definition.
pub fn resolve_id(d: &RuleDefinition) -> (r: String)
    requires
        spec_resolvable_id(*d),
    ensures
        r@ == spec_resolved_id(*d),
{
    match &d.id {
        Some(s) => s.clone(),
        None => {
            let g = d.group.as_ref().unwrap();
            let mut s = g.id.clone();
            s.append(".");
            let num = usize_to_string(g.n);
            s.append(num.as_str());
            proof {
                reveal_strlit(".");
                assert("."@ =~= seq!['.']);
                assert(g.id@ + seq!['.'] + dec_str(g.n as nat) =~= (g.id@ + "."@) + num@);
            }
            s
        },
    }
}

/// The resolved name of a definition.
pub fn resolve_name(d: &RuleDefinition) -> (r: String)
    requires
        d.name is Some || d.group is Some,
    ensures
        r@ == spec_resolved_name(*d),
{
    match &d.name {
        Some(s) => s.clone(),
        None => d.group.as_ref().unwrap().name.clone(),
    }
}

/// The resolved enabled state, inverted.
pub fn is_off(d: &RuleDefinition) -> (r: bool)
    ensures
        r == spec_is_off(*d),
{
    match &d.default {
        Some(s) => str_eq(s.as_str(), "off"),
        None => match &d.group {
            Some(g) => match &g.default {
                Some(s) => str_eq(s.as_str(), "off"),
                None => category_off(&d.category),
            },
            None => category_off(&d.category),
        },
    }
}

fn category_off(c: &Option<Category>) -> (r: bool)
    ensures
        r == spec_category_off(*c),
{
    match c {
        Some(cat) => match &cat.default {
            Some(s) => str_eq(s.as_str(), "off"),
            None => false,
        },
        None => false,
    }
}

/// A compiled grammar rule with its resolved metadata.
pub struct Rule {
    pub id: String,
    pub name: String,
    pub on: bool,
    pub category_id: String,
    pub category_name: String,
    pub category_type: Option<String>,
    pub composition: Composition,
}

/// The mathematical content of a rule.
pub ghost struct SpecRule {
    pub id: Seq<char>,
    pub name: Seq<char>,
    pub on: bool,
    pub category_id: Seq<char>,
    pub category_name: Seq<char>,
    pub category_type: Option<Seq<char>>,
    pub composition: Composition,
}

impl Rule {
    pub open spec fn model(self) -> SpecRule {
        SpecRule {
            id: self.id@,
            name: self.name@,
            on: self.on,
            category_id: self.category_id@,
            category_name: self.category_name@,
            category_type: match self.category_type {
                Some(s) => Some(s@),
                None => None,
            },
            composition: self.composition,
        }
    }
}

/// The grammar rule set a build produces.
pub struct Rules {
    pub rules: Vec<Rule>,
}

/// The configuration the pipeline filters by: an allow-list (empty
/// allows all) and a deny-list of resolved ids.
pub struct RulesOptions {
    pub ids: Vec<String>,
    pub ignore_ids: Vec<String>,
}

/// A definition passes the filter: allowed (or everything is) and not
/// denied.
pub open spec fn spec_kept(d: RuleDefinition, ids: Seq<String>, ignore_ids: Seq<String>) -> bool {
    (ids.len() == 0 || seq_contains_text(ids, spec_resolved_id(d))) && !seq_contains_text(
        ignore_ids,
        spec_resolved_id(d),
    )
}

/// The rule a definition resolves and compiles to.
pub open spec fn spec_rule_of(d: RuleDefinition, c: Composition) -> SpecRule {
    SpecRule {
        id: spec_resolved_id(d),
        name: spec_resolved_name(d),
        on: !spec_is_off(d),
        category_id: d.category->Some_0.id@,
        category_name: d.category->Some_0.name@,
        category_type: match d.category->Some_0.kind {
            Some(s) => Some(s@),
            None => None,
        },
        composition: c,
    }
}

/// The rules the grammar pipeline keeps, in definition order: every
/// definition that parsed, compiled and passed the filter.
pub open spec fn spec_built_rules(
    defs: Seq<Result<RuleDefinition, String>>,
    ids: Seq<String>,
    ignore_ids: Seq<String>,
) -> Seq<SpecRule>
    decreases defs.len(),
{
    if defs.len() == 0 {
        Seq::empty()
    } else {
        let rest = spec_built_rules(defs.drop_last(), ids, ignore_ids);
        match defs.last() {
            Ok(d) => match d.compiled {
                Ok(c) => if spec_kept(d, ids, ignore_ids) {
                    rest.push(spec_rule_of(d, c))
                } else {
                    rest
                },
                Err(_) => rest,
            },
            Err(_) => rest,
        }
    }
}

pub open spec fn rule_tag() -> Seq<char> {
    "[Rule] "@
}

pub open spec fn structure_tag() -> Seq<char> {
    "[Structure] "@
}

/// The tagged failure messages the definitions produce, in order: a
/// parse failure or a compilation failure each contribute one.
pub open spec fn spec_error_msgs(defs: Seq<Result<RuleDefinition, String>>) -> Seq<Seq<char>>
    decreases defs.len(),
{
    if defs.len() == 0 {
        Seq::empty()
    } else {
        let rest = spec_error_msgs(defs.drop_last());
        match defs.last() {
            Ok(d) => match d.compiled {
                Err(e) => rest.push(rule_tag() + e@),
                Ok(_) => rest,
            },
            Err(e) => rest.push(structure_tag() + e@),
        }
    }
}

/// How often `m` occurs among the messages.
pub open spec fn count_matching(msgs: Seq<Seq<char>>, m: Seq<char>) -> nat
    decreases msgs.len(),
{
    if msgs.len() == 0 {
        0
    } else {
        count_matching(msgs.drop_last(), m) + if msgs.last() == m {
            1nat
        } else {
            0nat
        }
    }
}

/// Some entry of the summary carries this message.
pub open spec fn exists_key(s: Seq<(String, usize)>, t: Seq<char>) -> bool {
    exists|k: int| 0 <= k < s.len() && (#[trigger] s[k]).0@ == t
}

/// Every entry carries a message's exact occurrence count, at least one.
pub open spec fn counts_ok(msgs: Seq<Seq<char>>, s: Seq<(String, usize)>) -> bool {
    forall|k: int|
        0 <= k < s.len() ==> (#[trigger] s[k]).1 as nat == count_matching(msgs, s[k].0@) && s[k].1
            >= 1
}

/// No message appears under two entries.
pub open spec fn keys_distinct(s: Seq<(String, usize)>) -> bool {
    forall|k1: int, k2: int|
        0 <= k1 < k2 < s.len() ==> (#[trigger] s[k1]).0@ != (#[trigger] s[k2]).0@
}

/// Every message has its entry.
pub open spec fn summary_complete(msgs: Seq<Seq<char>>, s: Seq<(String, usize)>) -> bool {
    forall|j: int| 0 <= j < msgs.len() ==> exists_key(s, #[trigger] msgs[j])
}

/// The summary holds exactly the distinct messages, each with its count.
pub open spec fn valid_summary(msgs: Seq<Seq<char>>, s: Seq<(String, usize)>) -> bool {
    counts_ok(msgs, s) && keys_distinct(s) && summary_complete(msgs, s)
}

/// Entries come most frequent first.
pub open spec fn sorted_desc(s: Seq<(String, usize)>) -> bool {
    forall|k1: int, k2: int| 0 <= k1 < k2 < s.len() ==> (#[trigger] s[k1]).1 >= (#[trigger] s[k2]).1
}

proof fn lemma_count_le_len(msgs: Seq<Seq<char>>, m: Seq<char>)
    ensures
        count_matching(msgs, m) <= msgs.len(),
    decreases msgs.len(),
{
    if msgs.len() > 0 {
        lemma_count_le_len(msgs.drop_last(), m);
    }
}

proof fn lemma_count_push(msgs: Seq<Seq<char>>, x: Seq<char>, m: Seq<char>)
    ensures
        count_matching(msgs.push(x), m) == count_matching(msgs, m) + if x == m {
            1nat
        } else {
            0nat
        },
{
    assert(msgs.push(x).drop_last() =~= msgs);
    assert(msgs.push(x).last() == x);
}

proof fn lemma_count_zero(msgs: Seq<Seq<char>>, m: Seq<char>)
    requires
        forall|j: int| 0 <= j < msgs.len() ==> #[trigger] msgs[j] != m,
    ensures
        count_matching(msgs, m) == 0,
    decreases msgs.len(),
{
    if msgs.len() > 0 {
        lemma_count_zero(msgs.drop_last(), m);
    }
}

/// Folds one more tagged message into the per-message counts.
fn record_error(errors: &mut Vec<(String, usize)>, msg: String, Ghost(msgs): Ghost<Seq<Seq<char>>>)
    requires
        valid_summary(msgs, old(errors)@),
        msgs.len() < usize::MAX,
    ensures
        valid_summary(msgs.push(msg@), final(errors)@),
{
    let ghost prior = errors@;
    let ghost newm = msgs.push(msg@);
    let n = errors.len();
    let mut k: usize = 0;
    while k < n
        invariant
            k <= n,
            n == errors@.len(),
            errors@ == prior,
            valid_summary(msgs, prior),
            msgs.len() < usize::MAX,
            newm == msgs.push(msg@),
            forall|j: int| 0 <= j < k ==> (#[trigger] errors@[j]).0@ != msg@,
        decreases n - k,
    {
        if str_eq(errors[k].0.as_str(), msg.as_str()) {
            proof {
                lemma_count_le_len(msgs, msg@);
                assert(prior[k as int].1 as nat == count_matching(msgs, prior[k as int].0@));
                assert(prior[k as int].0@ == msg@);
            }
            let key = errors[k].0.clone();
            let c = errors[k].1;
            errors.set(k, (key, c + 1));
            proof {
                assert forall|k2: int| 0 <= k2 < errors@.len() implies (#[trigger] errors@[k2]).1
                    as nat == count_matching(newm, errors@[k2].0@) && errors@[k2].1 >= 1 by {
                    lemma_count_push(msgs, msg@, errors@[k2].0@);
                    if k2 == k {
                        assert(errors@[k2].0@ == msg@);
                    } else {
                        assert(errors@[k2] == prior[k2]);
                        if k2 < k as int {
                            assert(prior[k2].0@ != prior[k as int].0@);
                        } else {
                            assert(prior[k as int].0@ != prior[k2].0@);
                        }
                        assert(errors@[k2].0@ != msg@);
                    }
                }
                assert forall|k1: int, k2: int| 0 <= k1 < k2 < errors@.len() implies (
                #[trigger] errors@[k1]).0@ != (#[trigger] errors@[k2]).0@ by {
                    assert(errors@[k1].0@ == prior[k1].0@);
                    assert(errors@[k2].0@ == prior[k2].0@);
                }
                assert forall|j: int| 0 <= j < newm.len() implies exists_key(
                    errors@,
                    #[trigger] newm[j],
                ) by {
                    if j < msgs.len() {
                        assert(exists_key(prior, msgs[j]));
                        let w = choose|w: int| 0 <= w < prior.len() && prior[w].0@ == msgs[j];
                        assert(errors@[w].0@ == newm[j]);
                    } else {
                        assert(newm[j] == msg@);
                        assert(errors@[k as int].0@ == msg@);
                    }
                }
            }
            return ;
        }
        k += 1;
    }
    errors.push((msg, 1));
    proof {
        assert forall|j: int| 0 <= j < msgs.len() implies #[trigger] msgs[j] != msg@ by {
            assert(exists_key(prior, msgs[j]));
            let w = choose|w: int| 0 <= w < prior.len() && prior[w].0@ == msgs[j];
        }
        lemma_count_zero(msgs, msg@);
        assert forall|k2: int| 0 <= k2 < errors@.len() implies (#[trigger] errors@[k2]).1 as nat
            == count_matching(newm, errors@[k2].0@) && errors@[k2].1 >= 1 by {
            lemma_count_push(msgs, msg@, errors@[k2].0@);
            if k2 < prior.len() {
                assert(errors@[k2] == prior[k2]);
                assert(errors@[k2].0@ != msg@);
            } else {
                assert(errors@[k2].0@ == msg@);
            }
        }
        assert forall|k1: int, k2: int| 0 <= k1 < k2 < errors@.len() implies (
        #[trigger] errors@[k1]).0@ != (#[trigger] errors@[k2]).0@ by {
            if k2 < prior.len() {
                assert(prior[k1].0@ != prior[k2].0@);
            } else {
                assert(errors@[k1].0@ != msg@);
            }
        }
        assert forall|j: int| 0 <= j < newm.len() implies exists_key(errors@, #[trigger] newm[j]) by {
            if j < msgs.len() {
                let w = choose|w: int| 0 <= w < prior.len() && prior[w].0@ == msgs[j];
                assert(errors@[w].0@ == newm[j]);
            } else {
                assert(errors@[prior.len() as int].0@ == msg@);
            }
        }
    }
}

/// No entry of the first list shares its message with one of the second.
pub open spec fn cross_distinct(a: Seq<(String, usize)>, b: Seq<(String, usize)>) -> bool {
    forall|k: int, l: int|
        0 <= k < a.len() && 0 <= l < b.len() ==> (#[trigger] a[k]).0@ != (#[trigger] b[l]).0@
}

/// Every message has its entry in one of the two lists.
pub open spec fn complete_two(
    msgs: Seq<Seq<char>>,
    a: Seq<(String, usize)>,
    b: Seq<(String, usize)>,
) -> bool {
    forall|j: int|
        0 <= j < msgs.len() ==> exists_key(a, #[trigger] msgs[j]) || exists_key(b, msgs[j])
}

/// Orders the summary most frequent first, by insertion, keeping its
/// entries.
fn sort_summary(input: Vec<(String, usize)>, Ghost(msgs): Ghost<Seq<Seq<char>>>) -> (r: Vec<
    (String, usize),
>)
    requires
        valid_summary(msgs, input@),
    ensures
        valid_summary(msgs, r@),
        sorted_desc(r@),
{
    let mut u = input;
    let mut out: Vec<(String, usize)> = Vec::new();
    while u.len() > 0
        invariant
            sorted_desc(out@),
            counts_ok(msgs, out@),
            counts_ok(msgs, u@),
            keys_distinct(out@),
            keys_distinct(u@),
            cross_distinct(out@, u@),
            complete_two(msgs, out@, u@),
        decreases u@.len(),
    {
        let ghost u_prior = u@;
        let ghost out_prior = out@;
        let e = u.remove(0);
        proof {
            assert(e == u_prior[0]);
            assert(u@ =~= u_prior.drop_first());
        }
        let m = out.len();
        let mut p: usize = 0;
        while p < m && out[p].1 >= e.1
            invariant
                p <= m,
                m == out@.len(),
                out@ == out_prior,
                forall|q: int| 0 <= q < p ==> (#[trigger] out@[q]).1 >= e.1,
            decreases m - p,
        {
            p += 1;
        }
        out.insert(p, e);
        proof {
            let ghost pi = p as int;
            assert(out@ =~= out_prior.insert(pi, e));
            assert forall|k1: int, k2: int| 0 <= k1 < k2 < out@.len() implies (
            #[trigger] out@[k1]).1 >= (#[trigger] out@[k2]).1 by {
                if k1 < pi && k2 < pi {
                    assert(out@[k1] == out_prior[k1] && out@[k2] == out_prior[k2]);
                } else if k1 < pi && k2 == pi {
                    assert(out@[k1] == out_prior[k1]);
                } else if k1 < pi && k2 > pi {
                    assert(out@[k1] == out_prior[k1] && out@[k2] == out_prior[k2 - 1]);
                    assert(out_prior[k1].1 >= out_prior[k2 - 1].1);
                } else if k1 == pi {
                    assert(out@[k2] == out_prior[k2 - 1]);
                    assert(pi < m);
                    assert(out_prior[pi].1 < e.1);
                    assert(out_prior[k2 - 1].1 <= out_prior[pi].1);
                } else {
                    assert(out@[k1] == out_prior[k1 - 1] && out@[k2] == out_prior[k2 - 1]);
                }
            }
            assert forall|k: int| 0 <= k < out@.len() implies (#[trigger] out@[k]).1 as nat
                == count_matching(msgs, out@[k].0@) && out@[k].1 >= 1 by {
                if k < pi {
                    assert(out@[k] == out_prior[k]);
                } else if k == pi {
                    assert(out@[k] == u_prior[0]);
                } else {
                    assert(out@[k] == out_prior[k - 1]);
                }
            }
            assert forall|k1: int, k2: int| 0 <= k1 < k2 < out@.len() implies (
            #[trigger] out@[k1]).0@ != (#[trigger] out@[k2]).0@ by {
                if k1 == pi {
                    assert(out@[k2] == out_prior[k2 - 1]);
                    assert(out@[k1].0@ != out@[k2].0@);
                } else if k2 == pi {
                    assert(out@[k1] == out_prior[k1]);
                    assert(out@[k1].0@ != u_prior[0].0@);
                } else {
                    let j1: int = if k1 < pi {
                        k1
                    } else {
                        k1 - 1
                    };
                    let j2: int = if k2 < pi {
                        k2
                    } else {
                        k2 - 1
                    };
                    assert(out@[k1] == out_prior[j1] && out@[k2] == out_prior[j2]);
                }
            }
            assert forall|k: int, l: int| 0 <= k < out@.len() && 0 <= l < u@.len() implies (
            #[trigger] out@[k]).0@ != (#[trigger] u@[l]).0@ by {
                assert(u@[l] == u_prior[l + 1]);
                if k == pi {
                    assert(out@[k] == u_prior[0]);
                    assert(u_prior[0].0@ != u_prior[l + 1].0@);
                } else {
                    let j: int = if k < pi {
                        k
                    } else {
                        k - 1
                    };
                    assert(out@[k] == out_prior[j]);
                }
            }
            assert forall|j: int| 0 <= j < msgs.len() implies exists_key(out@, #[trigger] msgs[j])
                || exists_key(u@, msgs[j]) by {
                if exists_key(out_prior, msgs[j]) {
                    let w = choose|w: int| 0 <= w < out_prior.len() && out_prior[w].0@ == msgs[j];
                    if w < pi {
                        assert(out@[w].0@ == msgs[j]);
                    } else {
                        assert(out@[w + 1].0@ == msgs[j]);
                    }
                } else {
                    assert(exists_key(u_prior, msgs[j]));
                    let w = choose|w: int| 0 <= w < u_prior.len() && u_prior[w].0@ == msgs[j];
                    if w == 0 {
                        assert(out@[pi].0@ == msgs[j]);
                    } else {
                        assert(u@[w - 1].0@ == msgs[j]);
                    }
                }
            }
        }
    }
    proof {
        assert forall|j: int| 0 <= j < msgs.len() implies exists_key(out@, #[trigger] msgs[j]) by {
            assert(exists_key(out@, msgs[j]) || exists_key(u@, msgs[j]));
            if exists_key(u@, msgs[j]) {
                let w = choose|w: int| 0 <= w < u@.len() && u@[w].0@ == msgs[j];
            }
        }
    }
    out
}

/// The rules' mathematical contents, in order.
pub open spec fn models_of(rules: Seq<Rule>) -> Seq<SpecRule> {
    rules.map_values(|r: Rule| r.model())
}

proof fn lemma_error_msgs_len(defs: Seq<Result<RuleDefinition, String>>)
    ensures
        spec_error_msgs(defs).len() <= defs.len(),
    decreases defs.len(),
{
    if defs.len() > 0 {
        lemma_error_msgs_len(defs.drop_last());
    }
}

fn rule_msg(e: &str) -> (r: String)
    ensures
        r@ == rule_tag() + e@,
{
    let mut s = "[Rule] ".to_owned();
    s.append(e);
    s
}

fn structure_msg(e: &str) -> (r: String)
    ensures
        r@ == structure_tag() + e@,
{
    let mut s = "[Structure] ".to_owned();
    s.append(e);
    s
}

impl Rules {
    /// Builds the grammar rule set from the parsed definitions: each one
    /// that parsed and compiled is resolved and, when it passes the
    /// filter, kept in order; every failure is counted under its tagged
    /// message, never fatal, and the counts come back sorted most
    /// frequent first for the caller to report.
    pub fn from_xml(defs: Vec<Result<RuleDefinition, String>>, options: RulesOptions) -> (r: (
        Rules,
        Vec<(String, usize)>,
    ))
        requires
            forall|i: int|
                0 <= i < defs@.len() ==> ((#[trigger] defs@[i]) matches Ok(d)
                    ==> spec_resolvable_grammar(d)),
        ensures
            models_of(r.0.rules@) == spec_built_rules(defs@, options.ids@, options.ignore_ids@),
            valid_summary(spec_error_msgs(defs@), r.1@),
            sorted_desc(r.1@),
    {
        let mut rules: Vec<Rule> = Vec::new();
        let mut errors: Vec<(String, usize)> = Vec::new();
        let mut rest = defs;
        let ghost all = rest@;
        let n = rest.len();
        let mut i: usize = 0;
        proof {
            assert(models_of(rules@) =~= spec_built_rules(
                all.take(0),
                options.ids@,
                options.ignore_ids@,
            ));
            assert(spec_error_msgs(all.take(0)) =~= Seq::<Seq<char>>::empty());
        }
        while i < n
            invariant
                i <= n,
                n == all.len(),
                rest@ == all.skip(i as int),
                forall|j: int|
                    0 <= j < all.len() ==> ((#[trigger] all[j]) matches Ok(d)
                        ==> spec_resolvable_grammar(d)),
                models_of(rules@) == spec_built_rules(
                    all.take(i as int),
                    options.ids@,
                    options.ignore_ids@,
                ),
                valid_summary(spec_error_msgs(all.take(i as int)), errors@),
            decreases n - i,
        {
            let ghost msgs = spec_error_msgs(all.take(i as int));
            let ghost rules_prior = rules@;
            let def = rest.remove(0);
            proof {
                assert(def == all[i as int]);
                assert(rest@ =~= all.skip(i + 1));
                assert(all.take(i + 1).drop_last() =~= all.take(i as int));
                assert(all.take(i + 1).last() == all[i as int]);
                lemma_error_msgs_len(all.take(i as int));
            }
            match def {
                Ok(d) => {
                    let rid = resolve_id(&d);
                    let rname = resolve_name(&d);
                    let off = is_off(&d);
                    let keep = (options.ids.len() == 0 || contains_str(
                        &options.ids,
                        rid.as_str(),
                    )) && !contains_str(&options.ignore_ids, rid.as_str());
                    let RuleDefinition { category, compiled, .. } = d;
                    match compiled {
                        Ok(c) => {
                            if keep {
                                let cat = category.unwrap();
                                let rule = Rule {
                                    id: rid,
                                    name: rname,
                                    on: !off,
                                    category_id: cat.id,
                                    category_name: cat.name,
                                    category_type: cat.kind,
                                    composition: c,
                                };
                                proof {
                                    assert(rule.model() == spec_rule_of(all[i as int]->Ok_0, c));
                                }
                                rules.push(rule);
                                proof {
                                    assert(models_of(rules@) =~= models_of(rules_prior).push(
                                        rule.model(),
                                    ));
                                }
                            }
                        },
                        Err(e) => {
                            let msg = rule_msg(e.as_str());
                            record_error(&mut errors, msg, Ghost(msgs));
                        },
                    }
                },
                Err(e) => {
                    let msg = structure_msg(e.as_str());
                    record_error(&mut errors, msg, Ghost(msgs));
                },
            }
            i += 1;
        }
        proof {
            assert(all.take(n as int) =~= all);
        }
        let summary = sort_summary(errors, Ghost(spec_error_msgs(all)));
        (Rules { rules }, summary)
    }
}

/// A compiled disambiguation rule with its resolved id.
pub struct DisambiguationRule {
    pub id: String,
    pub composition: Composition,
}

/// The mathematical content of a disambiguation rule.
pub ghost struct SpecDisambRule {
    pub id: Seq<char>,
    pub composition: Composition,
}

impl DisambiguationRule {
    pub open spec fn model(self) -> SpecDisambRule {
        SpecDisambRule { id: self.id@, composition: self.composition }
    }
}

/// The disambiguation rules' mathematical contents, in order.
pub open spec fn disamb_models_of(rules: Seq<DisambiguationRule>) -> Seq<SpecDisambRule> {
    rules.map_values(|r: DisambiguationRule| r.model())
}

/// The configuration the tokenizer pipeline consumes: the filter lists
/// and whether a failure is downgraded to a warning.
pub struct TokenizerOptions {
    pub ids: Vec<String>,
    pub ignore_ids: Vec<String>,
    pub allow_errors: bool,
}

/// The tokenizer a build produces: its tagger, an opaque optional
/// chunker forwarded as-is, the disambiguation rules, and the options it
/// was built with.
pub struct Tokenizer<C> {
    pub tagger: Tagger,
    pub chunker: Option<C>,
    pub rules: Vec<DisambiguationRule>,
    pub options: TokenizerOptions,
}

/// The single error slot's final content: the tagged message of the
/// last definition that failed, if any did.
pub open spec fn spec_disamb_error(defs: Seq<Result<RuleDefinition, String>>) -> Option<Seq<char>>
    decreases defs.len(),
{
    if defs.len() == 0 {
        None
    } else {
        match defs.last() {
            Err(e) => Some(structure_tag() + e@),
            Ok(d) => match d.compiled {
                Err(e) => Some(rule_tag() + e@),
                Ok(_) => spec_disamb_error(defs.drop_last()),
            },
        }
    }
}

/// The disambiguation rules the pipeline keeps: a definition counts only
/// when it parsed and compiled, passes the filter, and no earlier
/// definition had failed — after the first failure nothing more is
/// included, though later failures still overwrite the error slot.
pub open spec fn spec_disamb_rules(
    defs: Seq<Result<RuleDefinition, String>>,
    ids: Seq<String>,
    ignore_ids: Seq<String>,
) -> Seq<SpecDisambRule>
    decreases defs.len(),
{
    if defs.len() == 0 {
        Seq::empty()
    } else {
        let rest = spec_disamb_rules(defs.drop_last(), ids, ignore_ids);
        match defs.last() {
            Ok(d) => match d.compiled {
                Ok(c) => if spec_disamb_error(defs.drop_last()) is None && spec_kept(
                    d,
                    ids,
                    ignore_ids,
                ) {
                    rest.push(SpecDisambRule { id: spec_resolved_id(d), composition: c })
                } else {
                    rest
                },
                Err(_) => rest,
            },
            Err(_) => rest,
        }
    }
}

/// An optional message as a mathematical value.
pub open spec fn opt_text(o: Option<String>) -> Option<Seq<char>> {
    match o {
        Some(s) => Some(s@),
        None => None,
    }
}

pub open spec fn disamb_error_prefix() -> Seq<char> {
    "Error constructing Disambiguator: "@
}

fn clone_store(v: &Vec<(String, u32)>) -> (r: Vec<(String, u32)>)
    ensures
        r@ == v@,
{
    let n = v.len();
    let mut out: Vec<(String, u32)> = Vec::new();
    let mut i: usize = 0;
    while i < n
        invariant
            i <= n,
            n == v@.len(),
            out@ == v@.take(i as int),
        decreases n - i,
    {
        let pair = &v[i];
        out.push((pair.0.clone(), pair.1));
        proof {
            assert(v@.take(i + 1) =~= v@.take(i as int).push(v@[i as int]));
        }
        i += 1;
    }
    proof {
        assert(v@.take(n as int) =~= v@);
    }
    out
}

fn clone_tagger(t: &Tagger) -> (r: Tagger)
    ensures
        r.word_store@ == t.word_store@,
        r.tag_store@ == t.tag_store@,
{
    Tagger { word_store: clone_store(&t.word_store), tag_store: clone_store(&t.tag_store) }
}

impl<C> Tokenizer<C> {
    /// The tokenizer was built from these inputs: its rules are the ones
    /// the pipeline keeps, its tagger mirrors the build's, and the
    /// chunker and options are forwarded unchanged.
    pub open spec fn spec_built_from(
        self,
        defs: Seq<Result<RuleDefinition, String>>,
        tagger: Tagger,
        chunker: Option<C>,
        options: TokenizerOptions,
    ) -> bool {
        &&& disamb_models_of(self.rules@) == spec_disamb_rules(
            defs,
            options.ids@,
            options.ignore_ids@,
        )
        &&& self.tagger.word_store@ == tagger.word_store@
        &&& self.tagger.tag_store@ == tagger.tag_store@
        &&& self.chunker == chunker
        &&& self.options == options
    }

    /// Builds the disambiguating tokenizer from the parsed definitions.
    /// Unlike the grammar pipeline, a single error slot is kept: each
    /// failure overwrites it, and after the first failure no further
    /// definition is included even when it would build. A recorded error
    /// aborts the construction, unless `allow_errors` downgrades it to a
    /// returned warning beside the truncated rule set.
    pub fn from_xml(
        defs: Vec<Result<RuleDefinition, String>>,
        build_info: &mut BuildInfo,
        chunker: Option<C>,
        options: TokenizerOptions,
    ) -> (r: Result<(Tokenizer<C>, Option<String>), String>)
        requires
            forall|i: int|
                0 <= i < defs@.len() ==> ((#[trigger] defs@[i]) matches Ok(d)
                    ==> spec_resolvable_id(d)),
        ensures
            *final(build_info) == *old(build_info),
            match spec_disamb_error(defs@) {
                None => r matches Ok(p) && p.1 is None && p.0.spec_built_from(
                    defs@,
                    old(build_info).spec_tagger(),
                    chunker,
                    options,
                ),
                Some(m) => if options.allow_errors {
                    r matches Ok(p) && p.1 matches Some(w) && w@ == m && p.0.spec_built_from(
                        defs@,
                        old(build_info).spec_tagger(),
                        chunker,
                        options,
                    )
                } else {
                    r matches Err(e) && e@ == disamb_error_prefix() + m
                },
            },
    {
        let mut rules: Vec<DisambiguationRule> = Vec::new();
        let mut error: Option<String> = None;
        let mut rest = defs;
        let ghost all = rest@;
        let n = rest.len();
        let mut i: usize = 0;
        proof {
            assert(disamb_models_of(rules@) =~= spec_disamb_rules(
                all.take(0),
                options.ids@,
                options.ignore_ids@,
            ));
        }
        while i < n
            invariant
                i <= n,
                n == all.len(),
                rest@ == all.skip(i as int),
                forall|j: int|
                    0 <= j < all.len() ==> ((#[trigger] all[j]) matches Ok(d)
                        ==> spec_resolvable_id(d)),
                opt_text(error) == spec_disamb_error(all.take(i as int)),
                disamb_models_of(rules@) == spec_disamb_rules(
                    all.take(i as int),
                    options.ids@,
                    options.ignore_ids@,
                ),
            decreases n - i,
        {
            let ghost rules_prior = rules@;
            let def = rest.remove(0);
            proof {
                assert(def == all[i as int]);
                assert(rest@ =~= all.skip(i + 1));
                assert(all.take(i + 1).drop_last() =~= all.take(i as int));
                assert(all.take(i + 1).last() == all[i as int]);
            }
            match def {
                Ok(d) => {
                    let rid = resolve_id(&d);
                    let keep = error.is_none() && (options.ids.len() == 0 || contains_str(
                        &options.ids,
                        rid.as_str(),
                    )) && !contains_str(&options.ignore_ids, rid.as_str());
                    let RuleDefinition { compiled, .. } = d;
                    match compiled {
                        Ok(c) => {
                            if keep {
                                let rule = DisambiguationRule { id: rid, composition: c };
                                rules.push(rule);
                                proof {
                                    assert(disamb_models_of(rules@) =~= disamb_models_of(
                                        rules_prior,
                                    ).push(rule.model()));
                                }
                            }
                        },
                        Err(e) => {
                            error = Some(rule_msg(e.as_str()));
                        },
                    }
                },
                Err(e) => {
                    error = Some(structure_msg(e.as_str()));
                },
            }
            i += 1;
        }
        proof {
            assert(all.take(n as int) =~= all);
        }
        let tagger = clone_tagger(build_info.tagger());
        match error {
            None => Ok((Tokenizer { tagger, chunker, rules, options }, None)),
            Some(e) => {
                if options.allow_errors {
                    Ok((Tokenizer { tagger, chunker, rules, options }, Some(e)))
                } else {
                    let mut s = "Error constructing Disambiguator: ".to_owned();
                    s.append(e.as_str());
                    Err(s)
                }
            },
        }
    }
}

} // verus!
