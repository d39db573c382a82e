//! Operations on the daemon's ordered list of loaded rules: look-up, toggling,
//! removal, reordering, editing and choosing the rule that handles a request.

use vstd::prelude::*;

use crate::config::{all_wf, ProfileMeta, ProfileRaw, RuleState};
use crate::errors::GiantError;
use crate::rules::{compiled_rule, or_default, raw_loads, raw_rule, regex_compile_error, rule_matches, target_authority, rewritten_path,
    MatchRule, RequestInfo, RewrittenUri, Rule, RuleRaw, Target};
use crate::seqs::{first_where, lemma_first_where, lemma_first_where_at, lemma_first_where_none};
use crate::text::{dec, owned, str_eq};

verus! {

/// The rule has the id `id`.
pub open spec fn has_id(id: Seq<char>) -> spec_fn(Rule) -> bool {
    |r: Rule| r.id@ == id
}

/// The rule does not have the id `id`.
pub open spec fn lacks_id(id: Seq<char>) -> spec_fn(Rule) -> bool {
    |r: Rule| r.id@ != id
}

/// The rule with its `enabled` flag flipped.
pub open spec fn flipped(r: Rule) -> Rule {
    Rule { enabled: !r.enabled, ..r }
}

/// The list after toggling the first rule with the id `id`; unchanged when
/// there is none.
pub open spec fn toggled(rules: Seq<Rule>, id: Seq<char>) -> Seq<Rule> {
    match first_where(rules, has_id(id)) {
        Some(i) => rules.update(i, flipped(rules[i])),
        None => rules,
    }
}

/// The index of the first rule with the id `id`.
pub fn find_rule(rules: &Vec<Rule>, id: &str) -> (r: Option<usize>)
    ensures
        match r {
            Some(i) => first_where(rules@, has_id(id@)) == Some(i as int),
            None => first_where(rules@, has_id(id@)) is None,
        },
{
    let mut i: usize = 0;
    while i < rules.len()
        invariant
            i <= rules@.len(),
            forall|j: int| 0 <= j < i ==> !has_id(id@)(#[trigger] rules@[j]),
        decreases rules.len() - i,
    {
        if str_eq(rules[i].id.as_str(), id) {
            proof {
                lemma_first_where_at(rules@, has_id(id@), i as int);
            }
            return Some(i);
        }
        i = i + 1;
    }
    proof {
        lemma_first_where_none(rules@, has_id(id@));
    }
    None
}

/// Toggles the first rule with the id `id` and returns its new `enabled`
/// flag; `None`, with the list unchanged, when no rule has that id.
pub fn toggle_rule(rules: &mut Vec<Rule>, id: &str) -> (r: Option<bool>)
    ensures
        final(rules)@ == toggled(old(rules)@, id@),
        match first_where(old(rules)@, has_id(id@)) {
            Some(i) => r == Some(!old(rules)@[i].enabled),
            None => r is None,
        },
        all_wf(old(rules)@) ==> all_wf(final(rules)@),
{
    match find_rule(rules, id) {
        Some(i) => {
            proof {
                lemma_first_where(old(rules)@, has_id(id@));
            }
            let mut r = rules[i].duplicate();
            r.enabled = !r.enabled;
            let enabled = r.enabled;
            rules.set(i, r);
            proof {
                lemma_first_where(old(rules)@, has_id(id@));
                assert(rules@ =~= toggled(old(rules)@, id@));
            }
            Some(enabled)
        },
        None => None,
    }
}

/// Toggling the same rule twice leaves the list as it was.
pub proof fn lemma_toggle_twice(rules: Seq<Rule>, id: Seq<char>)
    ensures
        toggled(toggled(rules, id), id) == rules,
{
    lemma_first_where(rules, has_id(id));
    match first_where(rules, has_id(id)) {
        Some(i) => {
            let t = toggled(rules, id);
            assert forall|j: int| 0 <= j < i implies !has_id(id)(#[trigger] t[j]) by {
                assert(t[j] == rules[j]);
            }
            lemma_first_where_at(t, has_id(id), i);
            assert(toggled(t, id) =~= rules);
        },
        None => {},
    }
}

/// Toggling changes only the `enabled` flag of the toggled rule: ids, order
/// and every other field stay as they were.
pub proof fn lemma_toggle_keeps_rest(rules: Seq<Rule>, id: Seq<char>)
    ensures
        toggled(rules, id).len() == rules.len(),
        forall|j: int| 0 <= j < rules.len() ==> {
            let t = #[trigger] toggled(rules, id)[j];
            &&& t.id == rules[j].id
            &&& t.match_rule == rules[j].match_rule
            &&& t.target == rules[j].target
            &&& t.preserve_host == rules[j].preserve_host
            &&& t.priority == rules[j].priority
            &&& t.compiled_regex == rules[j].compiled_regex
        },
{
    lemma_first_where(rules, has_id(id));
}

/// Removes every rule with the id `id`, keeping the others in order; returns
/// whether any rule was removed.
pub fn remove_rule(rules: &mut Vec<Rule>, id: &str) -> (removed: bool)
    ensures
        final(rules)@ == old(rules)@.filter(lacks_id(id@)),
        removed <==> exists|j: int| 0 <= j < old(rules)@.len() && #[trigger] old(rules)@[j].id@ == id@,
        removed <==> final(rules)@.len() < old(rules)@.len(),
        all_wf(old(rules)@) ==> all_wf(final(rules)@),
{
    let ghost orig = rules@;
    let mut kept: Vec<Rule> = Vec::new();
    let n = rules.len();
    let mut i: usize = 0;
    let mut found = false;
    while i < n
        invariant
            n == rules@.len(),
            rules@ == orig,
            i <= n,
            kept@ == orig.take(i as int).filter(lacks_id(id@)),
            found <==> exists|j: int| 0 <= j < i && #[trigger] orig[j].id@ == id@,
            !found ==> kept@.len() == i,
            found ==> kept@.len() < i,
        decreases n - i,
    {
        proof {
            assert(orig.take(i as int + 1) =~= orig.take(i as int).push(orig[i as int]));
            orig.take(i as int).lemma_filter_push(orig[i as int], lacks_id(id@));
            orig.take(i as int).lemma_filter_len(lacks_id(id@));
        }
        if str_eq(rules[i].id.as_str(), id) {
            found = true;
        } else {
            kept.push(rules[i].duplicate());
        }
        i = i + 1;
    }
    proof {
        assert(orig.take(n as int) =~= orig);
        if all_wf(orig) {
            assert forall|k: int| 0 <= k < kept@.len() implies (#[trigger] kept@[k]).wf() by {
                orig.lemma_filter_contains_rev(lacks_id(id@), kept@[k]);
                assert(kept@.contains(kept@[k]));
            }
        }
    }
    *rules = kept;
    found
}

/// Reordering: each id of `order` in turn moves the first remaining rule with
/// that id to the end of `sorted`; ids that match no remaining rule are
/// skipped; the rules never named follow, in their old order.
pub open spec fn reorder_from(sorted: Seq<Rule>, rest: Seq<Rule>, order: Seq<String>) -> Seq<Rule>
    decreases order.len(),
{
    if order.len() == 0 {
        sorted + rest
    } else {
        match first_where(rest, has_id(order[0]@)) {
            Some(p) => reorder_from(sorted.push(rest[p]), rest.remove(p), order.drop_first()),
            None => reorder_from(sorted, rest, order.drop_first()),
        }
    }
}

/// The list reordered by `order` (see `reorder_from`).
pub open spec fn reordered(rules: Seq<Rule>, order: Seq<String>) -> Seq<Rule> {
    reorder_from(Seq::empty(), rules, order)
}

/// Moves the rules named in `order` to the front, in that order; the others
/// keep their relative order after them.
pub fn reorder_rules(rules: &mut Vec<Rule>, order: &Vec<String>)
    ensures
        final(rules)@ == reordered(old(rules)@, order@),
        all_wf(old(rules)@) ==> all_wf(final(rules)@),
{
    let ghost orig = rules@;
    let mut sorted: Vec<Rule> = Vec::new();
    let mut k: usize = 0;
    assert(order@.skip(0) =~= order@);
    while k < order.len()
        invariant
            k <= order@.len(),
            reorder_from(sorted@, rules@, order@.skip(k as int)) == reordered(orig, order@),
            all_wf(orig) ==> all_wf(sorted@) && all_wf(rules@),
        decreases order.len() - k,
    {
        let ghost before_sorted = sorted@;
        let ghost before_rest = rules@;
        proof {
            assert(order@.skip(k as int).drop_first() =~= order@.skip(k as int + 1));
            assert(order@.skip(k as int)[0] == order@[k as int]);
        }
        match find_rule(rules, order[k].as_str()) {
            Some(p) => {
                proof {
                    lemma_first_where(rules@, has_id(order@[k as int]@));
                }
                let r = rules.remove(p);
                sorted.push(r);
                proof {
                    assert(rules@ == before_rest.remove(p as int));
                    assert(sorted@ == before_sorted.push(before_rest[p as int]));
                    if all_wf(orig) {
                        assert forall|j: int| 0 <= j < rules@.len() implies (#[trigger] rules@[j]).wf() by {
                            if j < p {
                                assert(rules@[j] == before_rest[j]);
                            } else {
                                assert(rules@[j] == before_rest[j + 1]);
                            }
                        }
                        assert forall|j: int| 0 <= j < sorted@.len() implies (#[trigger] sorted@[j]).wf() by {
                            if j < before_sorted.len() {
                                assert(sorted@[j] == before_sorted[j]);
                            }
                        }
                    }
                }
            },
            None => {},
        }
        k = k + 1;
    }
    proof {
        assert(order@.skip(k as int).len() == 0);
        if all_wf(orig) {
            assert forall|j: int| 0 <= j < sorted@.len() + rules@.len()
                implies (#[trigger] (sorted@ + rules@)[j]).wf() by {
                if j < sorted@.len() {
                    assert((sorted@ + rules@)[j] == sorted@[j]);
                } else {
                    assert((sorted@ + rules@)[j] == rules@[j - sorted@.len()]);
                }
            }
        }
    }
    sorted.append(rules);
    *rules = sorted;
}

/// Reordering never adds, drops or duplicates a rule: the result holds
/// exactly the rules it started with.
pub proof fn lemma_reorder_permutes(sorted: Seq<Rule>, rest: Seq<Rule>, order: Seq<String>)
    ensures
        reorder_from(sorted, rest, order).to_multiset() == sorted.to_multiset().add(rest.to_multiset()),
        reorder_from(sorted, rest, order).len() == sorted.len() + rest.len(),
    decreases order.len(),
{
    broadcast use vstd::seq_lib::group_to_multiset_ensures;
    broadcast use vstd::multiset::group_multiset_axioms;
    if order.len() == 0 {
        vstd::seq_lib::lemma_multiset_commutative(sorted, rest);
    } else {
        match first_where(rest, has_id(order[0]@)) {
            Some(p) => {
                lemma_first_where(rest, has_id(order[0]@));
                lemma_reorder_permutes(sorted.push(rest[p]), rest.remove(p), order.drop_first());
                assert(sorted.push(rest[p]).to_multiset().add(rest.remove(p).to_multiset())
                    =~= sorted.to_multiset().add(rest.to_multiset()));
            },
            None => {
                lemma_reorder_permutes(sorted, rest, order.drop_first());
            },
        }
    }
}

/// Reordering the daemon's rules keeps exactly the same rules.
pub proof fn lemma_reordered_is_permutation(rules: Seq<Rule>, order: Seq<String>)
    ensures
        reordered(rules, order).to_multiset() == rules.to_multiset(),
        reordered(rules, order).len() == rules.len(),
{
    broadcast use vstd::seq_lib::group_to_multiset_ensures;
    broadcast use vstd::multiset::group_multiset_axioms;
    lemma_reorder_permutes(Seq::empty(), rules, order);
    assert(Seq::<Rule>::empty().to_multiset().add(rules.to_multiset()) =~= rules.to_multiset());
}

/// The state reported for each loaded rule: its id, its flag, and a match
/// count of zero.
pub fn rule_states(rules: &Vec<Rule>) -> (states: Vec<RuleState>)
    ensures
        states@.len() == rules@.len(),
        forall|i: int| 0 <= i < rules@.len() ==> {
            &&& (#[trigger] states@[i]).id == rules@[i].id
            &&& states@[i].enabled == rules@[i].enabled
            &&& states@[i].matched_count == 0
        },
{
    let mut states: Vec<RuleState> = Vec::new();
    let mut i: usize = 0;
    while i < rules.len()
        invariant
            i <= rules@.len(),
            states@.len() == i,
            forall|k: int| 0 <= k < i ==> {
                &&& (#[trigger] states@[k]).id == rules@[k].id
                &&& states@[k].enabled == rules@[k].enabled
                &&& states@[k].matched_count == 0
            },
        decreases rules.len() - i,
    {
        states.push(RuleState { id: rules[i].id.clone(), enabled: rules[i].enabled, matched_count: 0 });
        i = i + 1;
    }
    states
}

/// The fields an edit of a rule sets; the others keep their values.
#[derive(Debug, Clone)]
pub struct RuleUpdate {
    pub id: Option<String>,
    pub enabled: Option<bool>,
    pub match_rule: Option<MatchRule>,
    pub target: Option<Target>,
    pub preserve_host: Option<bool>,
    /// A new priority; it is cut to its low 32 bits.
    pub priority: Option<u64>,
}

/// The raw rule an edit gives: each field from the edit when it sets it, else
/// from the existing rule.
pub open spec fn merged(existing: Rule, u: RuleUpdate) -> RuleRaw {
    RuleRaw {
        id: match u.id { Some(x) => x, None => existing.id },
        enabled: match u.enabled { Some(x) => x, None => existing.enabled },
        match_rule: match u.match_rule { Some(x) => x, None => existing.match_rule },
        target: match u.target { Some(x) => x, None => existing.target },
        preserve_host: match u.preserve_host { Some(x) => x, None => existing.preserve_host },
        priority: match u.priority { Some(x) => x as u32, None => existing.priority },
    }
}

/// The error answered when no rule has the requested id.
pub open spec fn is_not_found(e: GiantError) -> bool {
    e matches GiantError::ApiError(m) && m@ == "rule not found"@
}

/// Edits the first rule with the id `id`. Fails with `rule not found` when no
/// rule has it, and with the regex's compile error when the edited rule's
/// regex does not compile; the list is unchanged then.
pub fn update_rule(rules: &mut Vec<Rule>, id: &str, u: RuleUpdate) -> (r: Result<(), GiantError>)
    ensures
        match first_where(old(rules)@, has_id(id@)) {
            None => r matches Err(e) && is_not_found(e) && final(rules)@ == old(rules)@,
            Some(i) => {
                let m = merged(old(rules)@[i], u);
                if raw_loads(m) {
                    r is Ok && final(rules)@ == old(rules)@.update(i, compiled_rule(m))
                } else {
                    &&& r matches Err(e)
                    &&& e matches GiantError::RuleError(msg)
                    &&& m.match_rule.regex matches Some(p)
                    &&& regex_compile_error(p@) == Some(msg@)
                    &&& final(rules)@ == old(rules)@
                }
            },
        },
        all_wf(old(rules)@) ==> all_wf(final(rules)@),
{
    let idx = match find_rule(rules, id) {
        Some(i) => i,
        None => {
            return Err(GiantError::ApiError(owned("rule not found")));
        },
    };
    proof {
        lemma_first_where(rules@, has_id(id@));
    }
    let existing = &rules[idx];
    let raw = RuleRaw {
        id: match &u.id { Some(x) => x.clone(), None => existing.id.clone() },
        enabled: match u.enabled { Some(x) => x, None => existing.enabled },
        match_rule: match &u.match_rule { Some(x) => x.duplicate(), None => existing.match_rule.duplicate() },
        target: match &u.target { Some(x) => x.duplicate(), None => existing.target.duplicate() },
        preserve_host: match u.preserve_host { Some(x) => x, None => existing.preserve_host },
        priority: match u.priority { Some(x) => x as u32, None => existing.priority },
    };
    proof {
        assert(raw == merged(old(rules)@[idx as int], u));
    }
    match Rule::from_raw(raw) {
        Ok(rule) => {
            rules.set(idx, rule);
            proof {
                assert forall|j: int| 0 <= j < rules@.len() && all_wf(old(rules)@)
                    implies (#[trigger] rules@[j]).wf() by {
                    if j != idx {
                        assert(rules@[j] == old(rules)@[j]);
                    }
                }
            }
            Ok(())
        },
        Err(e) => Err(e),
    }
}

/// Loads a new rule and appends it to the list. When the rule's regex does not
/// compile it fails with the compile error, and the list is unchanged.
pub fn add_rule(rules: &mut Vec<Rule>, raw: RuleRaw) -> (r: Result<(), GiantError>)
    ensures
        r is Ok <==> raw_loads(raw),
        r is Ok ==> final(rules)@ == old(rules)@.push(compiled_rule(raw)),
        r is Err ==> final(rules)@ == old(rules)@,
        r matches Err(e) ==> (raw.match_rule.regex matches Some(p)
            && regex_compile_error(p@) matches Some(m)
            && e matches GiantError::RuleError(msg) && msg@ == m),
        all_wf(old(rules)@) ==> all_wf(final(rules)@),
{
    match Rule::from_raw(raw) {
        Ok(rule) => {
            rules.push(rule);
            proof {
                assert forall|j: int| 0 <= j < rules@.len() && all_wf(old(rules)@)
                    implies (#[trigger] rules@[j]).wf() by {
                    if j < old(rules)@.len() {
                        assert(rules@[j] == old(rules)@[j]);
                    }
                }
            }
            Ok(())
        },
        Err(e) => Err(e),
    }
}

/// The profile written back for the active profile `name` after its rules were
/// edited: no description, format version 1, and the rules in their current
/// order.
pub fn profile_from_rules(name: &str, rules: &Vec<Rule>) -> (p: ProfileRaw)
    ensures
        p.meta.name@ == name@,
        p.meta.description is None,
        p.meta.format_version == 1,
        p.rules@.len() == rules@.len(),
        forall|i: int| 0 <= i < rules@.len() ==> #[trigger] p.rules@[i] == raw_rule(rules@[i]),
{
    let mut raws: Vec<RuleRaw> = Vec::new();
    let mut i: usize = 0;
    while i < rules.len()
        invariant
            i <= rules@.len(),
            raws@.len() == i,
            forall|k: int| 0 <= k < i ==> #[trigger] raws@[k] == raw_rule(rules@[k]),
        decreases rules.len() - i,
    {
        raws.push(rules[i].to_raw());
        i = i + 1;
    }
    ProfileRaw {
        meta: ProfileMeta { name: owned(name), description: None, format_version: 1 },
        rules: raws,
    }
}

/// The rule is enabled and matches the request.
pub open spec fn handles(req: RequestInfo) -> spec_fn(Rule) -> bool {
    |r: Rule| r.enabled && rule_matches(r, req)
}

/// The URL under which a request is reported: its full URI when it has a
/// scheme, else `https://` followed by its `Host` header and its path and query.
pub open spec fn display_url(req: RequestInfo) -> Seq<char> {
    match req.scheme {
        Some(_) => req.url@,
        None => "https://"@ + or_default(req.host_header, Seq::empty())
            + or_default(req.path_and_query, "/"@),
    }
}

/// How a request matched by a rule is forwarded.
#[derive(Debug, Clone)]
pub struct Forward {
    /// The position of the rule in the list.
    pub rule_index: usize,
    pub rule_id: String,
    /// The rewritten request URI.
    pub uri: RewrittenUri,
    /// The `X-Forwarded-Host` header to set: the original `Host`, when not empty.
    pub forwarded_host: Option<String>,
    /// The `X-Forwarded-Proto` header to set: the original scheme, else `https`.
    pub forwarded_proto: String,
    /// The `Host` header to set when the rule does not preserve the host.
    pub host_header: Option<String>,
}

/// What the proxy does with a request.
#[derive(Debug, Clone)]
pub enum Route {
    Redirect(Forward),
    Passthrough,
}

/// The forwarding of a request matched by rule `r` at position `i`.
pub open spec fn forward_ok(f: Forward, i: int, r: Rule, req: RequestInfo) -> bool {
    &&& f.rule_index == i
    &&& f.rule_id == r.id
    &&& f.uri.scheme@ == r.target.scheme@
    &&& f.uri.authority@ == target_authority(r.target)
    &&& f.uri.path_and_query@ == rewritten_path(r.target, req)
    &&& match req.host_header {
        Some(h) => if h@.len() > 0 { f.forwarded_host matches Some(x) && x@ == h@ } else { f.forwarded_host is None },
        None => f.forwarded_host is None,
    }
    &&& f.forwarded_proto@ == or_default(req.scheme, "https"@)
    &&& if r.preserve_host {
        f.host_header is None
    } else {
        f.host_header matches Some(hh) && hh@ == target_authority(r.target)
    }
}

/// Chooses what happens to a request: the first enabled rule that matches it
/// redirects it; with none, it passes through. Also gives the URL under which
/// the request is reported.
pub fn route_request(rules: &Vec<Rule>, req: &RequestInfo) -> (res: (Route, String))
    requires
        all_wf(rules@),
    ensures
        res.1@ == display_url(*req),
        match first_where(rules@, handles(*req)) {
            Some(i) => res.0 matches Route::Redirect(f) && forward_ok(f, i, rules@[i], *req),
            None => res.0 is Passthrough,
        },
{
    let shown = display_url_of(req);
    let mut i: usize = 0;
    while i < rules.len()
        invariant
            i <= rules@.len(),
            all_wf(rules@),
            shown@ == display_url(*req),
            forall|j: int| 0 <= j < i ==> !handles(*req)(#[trigger] rules@[j]),
        decreases rules.len() - i,
    {
        let rule = &rules[i];
        if rule.enabled && rule.matches(req) {
            proof {
                lemma_first_where_at(rules@, handles(*req), i as int);
            }
            let forwarded_host = match &req.host_header {
                Some(h) => if h.as_str().unicode_len() > 0 { Some(h.clone()) } else { None },
                None => None,
            };
            let forwarded_proto = match &req.scheme {
                Some(s) => s.clone(),
                None => owned("https"),
            };
            let uri = rule.rewrite_uri(req);
            let host_header = if rule.preserve_host { None } else { Some(uri.authority.clone()) };
            let f = Forward {
                rule_index: i,
                rule_id: rule.id.clone(),
                uri,
                forwarded_host,
                forwarded_proto,
                host_header,
            };
            return (Route::Redirect(f), shown);
        }
        i = i + 1;
    }
    proof {
        lemma_first_where_none(rules@, handles(*req));
    }
    (Route::Passthrough, shown)
}

/// The first enabled rule that matches a request handles it; every enabled
/// rule before it does not match.
pub proof fn lemma_first_match_wins(rules: Seq<Rule>, req: RequestInfo)
    ensures
        match first_where(rules, handles(req)) {
            Some(i) => 0 <= i < rules.len() && rules[i].enabled && rule_matches(rules[i], req)
                && forall|j: int| 0 <= j < i && #[trigger] rules[j].enabled ==> !rule_matches(rules[j], req),
            None => forall|j: int| 0 <= j < rules.len() && #[trigger] rules[j].enabled
                ==> !rule_matches(rules[j], req),
        },
{
    lemma_first_where(rules, handles(req));
    match first_where(rules, handles(req)) {
        Some(i) => {
            assert forall|j: int| 0 <= j < i && #[trigger] rules[j].enabled implies !rule_matches(rules[j], req) by {
                assert(!handles(req)(rules[j]));
            }
        },
        None => {
            assert forall|j: int| 0 <= j < rules.len() && #[trigger] rules[j].enabled implies !rule_matches(rules[j], req) by {
                assert(!handles(req)(rules[j]));
            }
        },
    }
}

/// The URL under which a request is reported (see `display_url`).
pub fn display_url_of(req: &RequestInfo) -> (s: String)
    ensures
        s@ == display_url(*req),
{
    match &req.scheme {
        Some(_) => req.url.clone(),
        None => {
            let mut s = owned("https://");
            match &req.host_header {
                Some(h) => s.append(h.as_str()),
                None => {},
            }
            match &req.path_and_query {
                Some(q) => s.append(q.as_str()),
                None => s.append("/"),
            }
            s
        },
    }
}

/// The profile to start with: the one asked for, else the configured default;
/// fails when there is neither.
pub fn choose_profile(requested: Option<String>, default_profile: &Option<String>) -> (r: Result<String, GiantError>)
    ensures
        match requested {
            Some(n) => r == Ok::<String, GiantError>(n),
            None => match *default_profile {
                Some(d) => r == Ok::<String, GiantError>(d),
                None => r matches Err(e) && e matches GiantError::ApiError(m)
                    && m@ == "no profile specified and no default configured"@,
            },
        },
{
    match requested {
        Some(n) => Ok(n),
        None => match default_profile {
            Some(d) => Ok(d.clone()),
            None => Err(GiantError::ApiError(owned("no profile specified and no default configured"))),
        },
    }
}

/// How a redirect sets the request's headers: a rule with `preserve_host`
/// leaves the `Host` header alone, any other rule sets it to the target's
/// `host:port`; `X-Forwarded-Host` carries the original non-empty `Host`
/// header, and `X-Forwarded-Proto` the original scheme (`https` when the
/// request had none).
pub proof fn lemma_forward_headers(f: Forward, i: int, r: Rule, req: RequestInfo)
    requires
        forward_ok(f, i, r, req),
    ensures
        r.preserve_host ==> f.host_header is None,
        !r.preserve_host ==> (f.host_header matches Some(h)
            && h@ == r.target.host@ + ":"@ + dec(r.target.port as nat)),
        req.host_header matches Some(h) ==> (h@.len() > 0
            ==> (f.forwarded_host matches Some(x) && x@ == h@)),
        req.host_header matches Some(h) ==> (h@.len() == 0 ==> f.forwarded_host is None),
        req.host_header is None ==> f.forwarded_host is None,
        req.scheme matches Some(s) ==> f.forwarded_proto@ == s@,
        req.scheme is None ==> f.forwarded_proto@ == "https"@,
{
}

/// The redirect goes to the rule's target: its scheme, its `host:port`, and
/// the target's path when it has one, else the request's path and query
/// (`/` when there is none).
pub proof fn lemma_forward_target(f: Forward, i: int, r: Rule, req: RequestInfo)
    requires
        forward_ok(f, i, r, req),
    ensures
        f.rule_id == r.id,
        f.uri.scheme@ == r.target.scheme@,
        f.uri.authority@ == r.target.host@ + ":"@ + dec(r.target.port as nat),
        r.target.path matches Some(p) ==> f.uri.path_and_query@ == p@,
        r.target.path is None ==> (req.path_and_query matches Some(pq) ==> f.uri.path_and_query@ == pq@),
        (r.target.path is None && req.path_and_query is None) ==> f.uri.path_and_query@ == "/"@,
{
}

/// An edit takes each field it sets and keeps each field it leaves unset:
/// the rule it loads to has the edit's id, flag, match section, target and
/// `preserve_host` where the edit gives them, and otherwise the existing
/// rule's; a priority given is cut to its low 32 bits.
pub proof fn lemma_update_takes_edit(existing: Rule, u: RuleUpdate)
    ensures
        ({
            let e = compiled_rule(merged(existing, u));
            &&& (u.id matches Some(x) ==> e.id == x)
            &&& (u.id is None ==> e.id == existing.id)
            &&& (u.enabled matches Some(x) ==> e.enabled == x)
            &&& (u.enabled is None ==> e.enabled == existing.enabled)
            &&& (u.match_rule matches Some(x) ==> e.match_rule == x && e.compiled_regex == x.regex)
            &&& (u.match_rule is None ==> e.match_rule == existing.match_rule)
            &&& (u.target matches Some(x) ==> e.target == x)
            &&& (u.target is None ==> e.target == existing.target)
            &&& (u.preserve_host matches Some(x) ==> e.preserve_host == x)
            &&& (u.preserve_host is None ==> e.preserve_host == existing.preserve_host)
            &&& (u.priority matches Some(x) ==> e.priority == x % 0x1_0000_0000)
            &&& (u.priority is None ==> e.priority == existing.priority)
        }),
{
    if let Some(x) = u.priority {
        assert((x as u32) == x % 0x1_0000_0000) by (bit_vector);
    }
}

} // verus!
