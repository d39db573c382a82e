//! Importing profiles from the legacy `rules.json` and from Proxyman's Map
//! Remote export, and exporting a profile as a mitmproxy addon.

use vstd::prelude::*;

use crate::config::{ProfileMeta, ProfileRaw};
use crate::errors::GiantError;
use crate::rules::{MatchRule, RuleRaw, Target};
use crate::seqs::{dedup_into, first_where, lemma_first_where_at, lemma_first_where_none};
use crate::text::{chars_of, contains_view, dec, lemma_dec_injective, lemma_dec_len, lemma_views_push, views, first_index, find_char, owned, push_decimal,
    str_eq, string_of_range, trim, trimmed, unescape_from, unescaped};

verus! {

/// One rule of the legacy `rules.json`: a URL regex and where it goes.
#[derive(Debug, Clone)]
pub struct LegacyRule {
    pub id: String,
    pub enabled: bool,
    pub regex: String,
    pub host: String,
    pub port: u16,
    pub scheme: String,
}

impl LegacyRule {
    /// A copy of this rule.
    pub fn duplicate(&self) -> (r: LegacyRule)
        ensures
            r == *self,
    {
        LegacyRule {
            id: self.id.clone(),
            enabled: self.enabled,
            regex: self.regex.clone(),
            host: self.host.clone(),
            port: self.port,
            scheme: self.scheme.clone(),
        }
    }
}

/// The profile rule a legacy rule becomes: matched by its regex alone, sent to
/// its host, port and scheme, preserving the host, priority 0.
pub open spec fn legacy_rule(lr: LegacyRule) -> RuleRaw {
    RuleRaw {
        id: lr.id,
        enabled: lr.enabled,
        match_rule: MatchRule { host: None, path: None, not_path: None, method: None, regex: Some(lr.regex) },
        target: Target { host: lr.host, port: lr.port, scheme: lr.scheme, path: None },
        preserve_host: true,
        priority: 0,
    }
}

/// The profile a named list of legacy rules becomes.
pub open spec fn legacy_profile_ok(name: String, rules: Seq<LegacyRule>, p: ProfileRaw) -> bool {
    &&& p.meta.name == name
    &&& p.meta.description matches Some(d) && d@ == "imported from legacy rules.json"@
    &&& p.meta.format_version == 1
    &&& p.rules@.len() == rules.len()
    &&& forall|i: int| 0 <= i < rules.len() ==> #[trigger] p.rules@[i] == legacy_rule(rules[i])
}

/// Converts one legacy rule.
pub fn legacy_rule_raw(lr: LegacyRule) -> (r: RuleRaw)
    ensures
        r == legacy_rule(lr),
{
    RuleRaw {
        id: lr.id,
        enabled: lr.enabled,
        match_rule: MatchRule { host: None, path: None, not_path: None, method: None, regex: Some(lr.regex) },
        target: Target { host: lr.host, port: lr.port, scheme: lr.scheme, path: None },
        preserve_host: true,
        priority: 0,
    }
}

/// The profile named `name` made of the legacy rules, in order.
pub fn legacy_profile(name: String, rules: &Vec<LegacyRule>) -> (p: ProfileRaw)
    ensures
        legacy_profile_ok(name, rules@, p),
{
    let mut raws: Vec<RuleRaw> = Vec::new();
    let mut i: usize = 0;
    while i < rules.len()
        invariant
            i <= rules@.len(),
            raws@.len() == i,
            forall|k: int| 0 <= k < i ==> #[trigger] raws@[k] == legacy_rule(rules@[k]),
        decreases rules.len() - i,
    {
        raws.push(legacy_rule_raw(rules[i].duplicate()));
        i = i + 1;
    }
    ProfileRaw {
        meta: ProfileMeta {
            name,
            description: Some(owned("imported from legacy rules.json")),
            format_version: 1,
        },
        rules: raws,
    }
}

/// The profiles of a legacy `rules.json` have pairwise distinct names (they
/// are the keys of one JSON object).
pub open spec fn legacy_names_distinct(legacy: Seq<(String, Vec<LegacyRule>)>) -> bool {
    forall|i: int, j: int| 0 <= i < j < legacy.len() ==> #[trigger] legacy[i].0@ != #[trigger] legacy[j].0@
}

/// Converts every profile of a legacy `rules.json` (profile name and its
/// rules, in the order given).
pub fn import_legacy(legacy: &Vec<(String, Vec<LegacyRule>)>) -> (profiles: Vec<ProfileRaw>)
    requires
        legacy_names_distinct(legacy@),
    ensures
        profiles@.len() == legacy@.len(),
        forall|i: int| 0 <= i < legacy@.len()
            ==> legacy_profile_ok(legacy@[i].0, legacy@[i].1@, #[trigger] profiles@[i]),
{
    let mut profiles: Vec<ProfileRaw> = Vec::new();
    let mut i: usize = 0;
    while i < legacy.len()
        invariant
            i <= legacy@.len(),
            profiles@.len() == i,
            forall|k: int| 0 <= k < i ==> legacy_profile_ok(legacy@[k].0, legacy@[k].1@, #[trigger] profiles@[k]),
        decreases legacy.len() - i,
    {
        let (name, rules) = &legacy[i];
        profiles.push(legacy_profile(name.clone(), rules));
        i = i + 1;
    }
    profiles
}

/// The legacy entry is named `name`.
pub open spec fn entry_named(name: Seq<char>) -> spec_fn((String, Vec<LegacyRule>)) -> bool {
    |e: (String, Vec<LegacyRule>)| e.0@ == name
}

/// Converts the profile named `profile_name` of a legacy `rules.json`; fails
/// with `profile '<name>' not found in legacy file` when there is none.
pub fn import_legacy_profile(legacy: &Vec<(String, Vec<LegacyRule>)>, profile_name: &str)
    -> (r: Result<ProfileRaw, GiantError>)
    requires
        legacy_names_distinct(legacy@),
    ensures
        match first_where(legacy@, entry_named(profile_name@)) {
            Some(i) => r matches Ok(p) && legacy_profile_ok(legacy@[i].0, legacy@[i].1@, p),
            None => r matches Err(e) && e matches GiantError::ConfigError(m)
                && m@ == "profile '"@ + profile_name@ + "' not found in legacy file"@,
        },
{
    let mut i: usize = 0;
    while i < legacy.len()
        invariant
            i <= legacy@.len(),
            forall|j: int| 0 <= j < i ==> !entry_named(profile_name@)(#[trigger] legacy@[j]),
        decreases legacy.len() - i,
    {
        let (name, rules) = &legacy[i];
        if str_eq(name.as_str(), profile_name) {
            proof {
                lemma_first_where_at(legacy@, entry_named(profile_name@), i as int);
            }
            return Ok(legacy_profile(name.clone(), rules));
        }
        i = i + 1;
    }
    proof {
        lemma_first_where_none(legacy@, entry_named(profile_name@));
    }
    let mut m = owned("profile '");
    m.append(profile_name);
    m.append("' not found in legacy file");
    Err(GiantError::ConfigError(m))
}

/// The text of `format!("{:?}", s)`: `s` quoted and escaped as Rust debug output.
pub uninterp spec fn debug_quoted(s: Seq<char>) -> Seq<char>;

/// Formats a string with `{:?}`; the text is named `debug_quoted`.
#[verifier::external_body]
fn debug_str(s: &str) -> (r: String)
    ensures
        r@ == debug_quoted(s@),
{
    format!("{:?}", s)
}

/// The addon line for one rule: its regex (debug-quoted), host, port and scheme.
pub open spec fn mitm_line(r: RuleRaw, regex: Seq<char>) -> Seq<char> {
    "    ("@ + debug_quoted(regex) + ", \""@ + r.target.host@ + "\", "@ + dec(r.target.port as nat)
        + ", \""@ + r.target.scheme@ + "\"),\n"@
}

/// The addon lines of the enabled rules that have a regex, in order.
pub open spec fn mitm_rules_code(rules: Seq<RuleRaw>) -> Seq<char>
    decreases rules.len(),
{
    if rules.len() == 0 {
        Seq::empty()
    } else {
        let r = rules.last();
        mitm_rules_code(rules.drop_last()) + (if r.enabled && r.match_rule.regex is Some {
            mitm_line(r, r.match_rule.regex->0@)
        } else {
            Seq::empty()
        })
    }
}

/// The text of the addon before the rule lines.
pub open spec fn mitm_head() -> Seq<char> {
    "import re\nfrom mitmproxy import http\n\nRULES = [\n"@
}

/// The text of the addon after the rule lines.
pub open spec fn mitm_tail() -> Seq<char> {
    "]\n\ndef request(flow: http.HTTPFlow) -> None:\n    url = flow.request.pretty_url\n    for pattern, host, port, scheme in RULES:\n        if re.search(pattern, url):\n            flow.request.host = host\n            flow.request.port = port\n            flow.request.scheme = scheme\n            break\n"@
}

/// A mitmproxy addon that redirects like the profile's enabled regex rules:
/// one `(pattern, host, port, scheme)` entry per such rule, in order.
pub fn export_mitmproxy_addon(profile: &ProfileRaw) -> (s: String)
    ensures
        s@ == mitm_head() + mitm_rules_code(profile.rules@) + mitm_tail(),
{
    let mut code = String::new();
    let mut i: usize = 0;
    while i < profile.rules.len()
        invariant
            i <= profile.rules@.len(),
            code@ == mitm_rules_code(profile.rules@.take(i as int)),
        decreases profile.rules.len() - i,
    {
        let rule = &profile.rules[i];
        proof {
            assert(profile.rules@.take(i as int + 1).drop_last() =~= profile.rules@.take(i as int));
        }
        if rule.enabled {
            if let Some(regex) = &rule.match_rule.regex {
                code.append("    (");
                code.append(debug_str(regex.as_str()).as_str());
                code.append(", \"");
                code.append(rule.target.host.as_str());
                code.append("\", ");
                push_decimal(&mut code, rule.target.port as u64);
                code.append(", \"");
                code.append(rule.target.scheme.as_str());
                code.append("\"),\n");
            }
        }
        proof {
            assert(code@ =~= mitm_rules_code(profile.rules@.take(i as int + 1)));
        }
        i = i + 1;
    }
    proof {
        assert(profile.rules@.take(profile.rules@.len() as int) =~= profile.rules@);
    }
    let mut s = owned("import re\nfrom mitmproxy import http\n\nRULES = [\n");
    s.append(code.as_str());
    s.append("]\n\ndef request(flow: http.HTTPFlow) -> None:\n    url = flow.request.pretty_url\n    for pattern, host, port, scheme in RULES:\n        if re.search(pattern, url):\n            flow.request.host = host\n            flow.request.port = port\n            flow.request.scheme = scheme\n            break\n");
    s
}

/// The method section of a Proxyman rule: which method keys are present.
#[derive(Debug, Clone)]
pub struct ProxymanMethod {
    pub any: bool,
    pub get: bool,
    pub post: bool,
    pub put: bool,
    pub delete: bool,
    pub patch: bool,
}

/// A URL split into parts, as Proxyman stores it (missing parts are empty).
#[derive(Debug, Clone)]
pub struct ProxymanURLComponent {
    pub scheme: String,
    pub host: String,
    pub port: String,
    pub path: String,
}

/// One Map Remote rule of a Proxyman export.
#[derive(Debug, Clone)]
pub struct ProxymanRule {
    pub id: String,
    pub name: String,
    pub is_enabled: bool,
    pub map_from_url: String,
    pub regex: String,
    pub method: Option<ProxymanMethod>,
    pub preserve_host_header: bool,
    pub preserve_original_url: bool,
    pub to_url_component: ProxymanURLComponent,
    pub from_url_component: Option<ProxymanURLComponent>,
}

/// The method filter a Proxyman method section gives: none for `any` (or no
/// key), else the first of GET, POST, PUT, DELETE, PATCH that is present.
pub open spec fn method_text(m: ProxymanMethod) -> Option<Seq<char>> {
    if m.any {
        None
    } else if m.get {
        Some("GET"@)
    } else if m.post {
        Some("POST"@)
    } else if m.put {
        Some("PUT"@)
    } else if m.delete {
        Some("DELETE"@)
    } else if m.patch {
        Some("PATCH"@)
    } else {
        None
    }
}

/// An optional string holds the optional text.
pub open spec fn holds_text(o: Option<String>, t: Option<Seq<char>>) -> bool {
    match (o, t) {
        (None, None) => true,
        (Some(a), Some(b)) => a@ == b,
        _ => false,
    }
}

impl ProxymanMethod {
    /// The method filter of this section (see `method_text`).
    pub fn to_method_string(&self) -> (r: Option<String>)
        ensures
            holds_text(r, method_text(*self)),
    {
        if self.any {
            return None;
        }
        if self.get {
            return Some(owned("GET"));
        }
        if self.post {
            return Some(owned("POST"));
        }
        if self.put {
            return Some(owned("PUT"));
        }
        if self.delete {
            return Some(owned("DELETE"));
        }
        if self.patch {
            return Some(owned("PATCH"));
        }
        None
    }
}

/// Whether `c` is alphabetic or numeric in Unicode (`char::is_alphanumeric`).
pub uninterp spec fn char_alphanumeric(c: char) -> bool;

/// Calls `char::is_alphanumeric`; the answer is named `char_alphanumeric`.
#[verifier::external_body]
fn is_alphanumeric(c: char) -> (b: bool)
    ensures
        b == char_alphanumeric(c),
{
    c.is_alphanumeric()
}

/// The Unicode lower-case form of `s` (`str::to_lowercase`).
pub uninterp spec fn lowercased(s: Seq<char>) -> Seq<char>;

/// Calls `str::to_lowercase`; the result is named `lowercased`.
#[verifier::external_body]
fn to_lowercase(s: &str) -> (r: String)
    ensures
        r@ == lowercased(s@),
{
    s.to_lowercase()
}

/// The ASCII lower-case form of a character; other characters are unchanged.
pub open spec fn ascii_lower(c: char) -> char {
    if 'A' <= c && c <= 'Z' {
        (((c as u8) + 32) as u8) as char
    } else {
        c
    }
}

/// The character a slug keeps for `c`: letters and digits (lower-cased) and
/// `-` and `_` stay; everything else becomes `_`.
pub open spec fn slug_char(c: char) -> char {
    if char_alphanumeric(c) || c == '-' || c == '_' {
        ascii_lower(c)
    } else {
        '_'
    }
}

/// `s` without its leading `_` characters.
pub open spec fn trim_start_underscores(s: Seq<char>) -> Seq<char>
    decreases s.len(),
{
    if s.len() > 0 && s[0] == '_' {
        trim_start_underscores(s.drop_first())
    } else {
        s
    }
}

/// `s` without its trailing `_` characters.
pub open spec fn trim_end_underscores(s: Seq<char>) -> Seq<char>
    decreases s.len(),
{
    if s.len() > 0 && s.last() == '_' {
        trim_end_underscores(s.drop_last())
    } else {
        s
    }
}

/// The slug of a name: each character mapped by `slug_char`, then `_`
/// trimmed from both ends.
pub open spec fn slug(s: Seq<char>) -> Seq<char> {
    trim_end_underscores(trim_start_underscores(s.map_values(|c: char| slug_char(c))))
}

fn ascii_lowercase(c: char) -> (r: char)
    ensures
        r == ascii_lower(c),
{
    if 'A' <= c && c <= 'Z' {
        let b: u8 = c as u8;
        (b + 32) as char
    } else {
        c
    }
}

/// The slug of a name (see `slug`).
pub fn slugify(s: &str) -> (r: String)
    ensures
        r@ == slug(s@),
{
    let cs = chars_of(s);
    let mut mapped: Vec<char> = Vec::new();
    let mut i: usize = 0;
    while i < cs.len()
        invariant
            i <= cs@.len(),
            cs@ == s@,
            mapped@ == cs@.take(i as int).map_values(|c: char| slug_char(c)),
        decreases cs.len() - i,
    {
        let c = cs[i];
        let m = if is_alphanumeric(c) || c == '-' || c == '_' { ascii_lowercase(c) } else { '_' };
        mapped.push(m);
        proof {
            assert(mapped@ =~= cs@.take(i as int + 1).map_values(|c: char| slug_char(c)));
        }
        i = i + 1;
    }
    proof {
        assert(cs@.take(cs@.len() as int) =~= cs@);
    }
    let ghost all = mapped@;
    let mut lo: usize = 0;
    proof {
        assert(all.skip(0) =~= all);
    }
    while lo < mapped.len() && mapped[lo] == '_'
        invariant
            lo <= mapped@.len(),
            mapped@ == all,
            trim_start_underscores(all.skip(lo as int)) == trim_start_underscores(all),
        decreases mapped.len() - lo,
    {
        proof {
            assert(all.skip(lo as int).drop_first() =~= all.skip(lo as int + 1));
        }
        lo = lo + 1;
    }
    let mut hi: usize = mapped.len();
    proof {
        assert(trim_start_underscores(all.skip(lo as int)) == all.skip(lo as int));
        assert(all.subrange(lo as int, hi as int) =~= all.skip(lo as int));
    }
    while hi > lo && mapped[hi - 1] == '_'
        invariant
            lo <= hi <= mapped@.len(),
            mapped@ == all,
            trim_end_underscores(all.subrange(lo as int, hi as int)) == slug(s@),
        decreases hi,
    {
        proof {
            assert(all.subrange(lo as int, hi as int).drop_last() =~= all.subrange(lo as int, hi as int - 1));
        }
        hi = hi - 1;
    }
    string_of_range(mapped.as_slice(), lo, hi)
}

/// The profile and rule id a Proxyman rule name gives: `[PREFIX] rest`
/// gives the trimmed, lower-cased prefix and the slug of the trimmed rest;
/// any other name gives `default` and the slug of the whole name.
pub open spec fn profile_prefix(name: Seq<char>) -> (Seq<char>, Seq<char>) {
    if name.len() > 0 && name[0] == '[' {
        let rest = name.drop_first();
        match first_index(rest, ']') {
            Some(c) => (lowercased(trimmed(rest.take(c))), slug(trimmed(rest.skip(c + 1)))),
            None => ("default"@, slug(name)),
        }
    } else {
        ("default"@, slug(name))
    }
}

/// Splits a Proxyman rule name into profile and rule id (see `profile_prefix`).
pub fn extract_profile_prefix(name: &str) -> (r: (String, String))
    ensures
        r.0@ == profile_prefix(name@).0,
        r.1@ == profile_prefix(name@).1,
{
    let cs = chars_of(name);
    if cs.len() > 0 && cs[0] == '[' {
        let rest = string_of_range(cs.as_slice(), 1, cs.len());
        let rcs = chars_of(rest.as_str());
        proof {
            assert(rcs@ =~= name@.drop_first());
        }
        match find_char(rcs.as_slice(), ']') {
            Some(close) => {
                let prefix = to_lowercase(trim(string_of_range(rcs.as_slice(), 0, close).as_str()).as_str());
                let suffix = trim(string_of_range(rcs.as_slice(), close + 1, rcs.len()).as_str());
                proof {
                    assert(rcs@.subrange(0, close as int) =~= rcs@.take(close as int));
                    assert(rcs@.subrange(close + 1, rcs@.len() as int) =~= rcs@.skip(close + 1));
                }
                return (prefix, slugify(suffix.as_str()));
            },
            None => {},
        }
    }
    (owned("default"), slugify(name))
}

/// The decimal value of a string of digits.
pub open spec fn digits_value(s: Seq<char>) -> int
    decreases s.len(),
{
    if s.len() == 0 {
        0
    } else {
        digits_value(s.drop_last()) * 10 + (s.last() as int - '0' as int)
    }
}

/// Every character of `s` is an ASCII digit.
pub open spec fn all_digits(s: Seq<char>) -> bool {
    forall|i: int| 0 <= i < s.len() ==> '0' <= #[trigger] s[i] && s[i] <= '9'
}

/// What `str::parse` gives for an unsigned integer type whose largest value
/// is `max`: an optional `+`, then one or more ASCII digits whose value is at
/// most `max`; anything else is an error.
pub open spec fn parsed_bounded(s: Seq<char>, max: nat) -> Option<nat> {
    let body = if s.len() > 0 && s[0] == '+' { s.drop_first() } else { s };
    if body.len() > 0 && all_digits(body) && digits_value(body) <= max {
        Some(digits_value(body) as nat)
    } else {
        None
    }
}

/// What `str::parse::<u16>` gives (see `parsed_bounded`).
pub open spec fn parsed_u16(s: Seq<char>) -> Option<u16> {
    match parsed_bounded(s, 65535) {
        Some(v) => Some(v as u16),
        None => None,
    }
}

/// What `str::parse::<u32>` gives (see `parsed_bounded`).
pub open spec fn parsed_u32(s: Seq<char>) -> Option<u32> {
    match parsed_bounded(s, 4294967295) {
        Some(v) => Some(v as u32),
        None => None,
    }
}

proof fn lemma_digits_grow(s: Seq<char>, k: int)
    requires
        all_digits(s),
        0 <= k <= s.len(),
    ensures
        digits_value(s.take(k)) <= digits_value(s),
        0 <= digits_value(s.take(k)),
    decreases s.len() - k,
{
    if k < s.len() {
        lemma_digits_grow(s, k + 1);
        assert(s.take(k + 1).drop_last() =~= s.take(k));
        assert(s.take(k + 1).last() == s[k]);
    } else {
        assert(s.take(k) =~= s);
    }
    lemma_digits_nonneg(s.take(k));
}

proof fn lemma_digits_nonneg(s: Seq<char>)
    requires
        all_digits(s),
    ensures
        0 <= digits_value(s),
    decreases s.len(),
{
    if s.len() > 0 {
        assert(all_digits(s.drop_last())) by {
            assert forall|i: int| 0 <= i < s.drop_last().len() implies '0' <= #[trigger] s.drop_last()[i]
                && s.drop_last()[i] <= '9' by {
                assert(s.drop_last()[i] == s[i]);
            }
        }
        lemma_digits_nonneg(s.drop_last());
    }
}

/// Parses an unsigned number of at most `max` as `str::parse` does (see
/// `parsed_bounded`).
pub fn parse_bounded(s: &str, max: u64) -> (r: Option<u64>)
    requires
        max <= u32::MAX,
    ensures
        r matches Some(v) ==> parsed_bounded(s@, max as nat) == Some(v as nat),
        r is None ==> parsed_bounded(s@, max as nat) is None,
        r matches Some(v) ==> v <= max,
{
    let cs = chars_of(s);
    let start: usize = if cs.len() > 0 && cs[0] == '+' { 1 } else { 0 };
    let ghost body = if s@.len() > 0 && s@[0] == '+' { s@.drop_first() } else { s@ };
    proof {
        assert(cs@.skip(start as int) =~= body);
    }
    if start >= cs.len() {
        return None;
    }
    let mut value: u64 = 0;
    let mut i: usize = start;
    while i < cs.len()
        invariant
            start <= i <= cs@.len(),
            cs@ == s@,
            body == cs@.skip(start as int),
            body == (if s@.len() > 0 && s@[0] == '+' { s@.drop_first() } else { s@ }),
            body.len() > 0,
            all_digits(body.take(i - start)),
            value as int == digits_value(body.take(i - start)),
            value <= max,
            max <= u32::MAX,
        decreases cs.len() - i,
    {
        let c = cs[i];
        let ghost pre = body.take(i - start);
        let ghost next = body.take(i - start + 1);
        proof {
            assert(next.drop_last() =~= pre);
            assert(next.last() == c);
        }
        if !('0' <= c && c <= '9') {
            proof {
                assert(body[i - start] == c);
                assert(!all_digits(body));
            }
            return None;
        }
        let d = (c as u64) - ('0' as u64);
        let nv = value * 10 + d;
        if nv > max {
            proof {
                assert(all_digits(next)) by {
                    assert forall|j: int| 0 <= j < next.len() implies '0' <= #[trigger] next[j] && next[j] <= '9' by {
                        if j < next.len() - 1 {
                            assert(next[j] == pre[j]);
                        }
                    }
                }
                assert(digits_value(next) == digits_value(pre) * 10 + (c as int - '0' as int));
                assert(digits_value(next) == nv as int);
                if all_digits(body) {
                    lemma_digits_grow(body, i - start + 1);
                    assert(digits_value(body) > max);
                }
            }
            return None;
        }
        proof {
            assert forall|j: int| 0 <= j < next.len() implies '0' <= #[trigger] next[j] && next[j] <= '9' by {
                if j < next.len() - 1 {
                    assert(next[j] == pre[j]);
                }
            }
        }
        value = nv;
        i = i + 1;
    }
    proof {
        assert(body.take(i - start) =~= body);
    }
    Some(value)
}

/// The `k`-th id tried for a rule whose id is `base`: `base` itself first,
/// then `base_2`, `base_3`, and so on.
pub open spec fn candidate_id(base: Seq<char>, k: nat) -> Seq<char> {
    if k <= 1 {
        base
    } else {
        base + "_"@ + dec(k)
    }
}

/// The first id, from the `k`-th on, that `seen` does not hold.
pub open spec fn fresh_id_from(seen: Seq<Seq<char>>, base: Seq<char>, k: nat) -> Seq<char>
    decreases seen.len() + 2 - k,
{
    if !seen.contains(candidate_id(base, k)) || k > seen.len() + 1 {
        candidate_id(base, k)
    } else {
        fresh_id_from(seen, base, k + 1)
    }
}

/// The ids a list of rule ids becomes when each repeat gets the first free
/// numbered suffix, in order.
pub open spec fn dedup_rule_ids(seen: Seq<Seq<char>>, ids: Seq<Seq<char>>) -> Seq<Seq<char>>
    decreases ids.len(),
{
    if ids.len() == 0 {
        Seq::empty()
    } else {
        let f = fresh_id_from(seen, ids[0], 1);
        seq![f] + dedup_rule_ids(seen.push(f), ids.drop_first())
    }
}

/// Different attempts give different ids.
pub proof fn lemma_candidate_injective(base: Seq<char>, k1: nat, k2: nat)
    requires
        1 <= k1,
        1 <= k2,
        candidate_id(base, k1) == candidate_id(base, k2),
    ensures
        k1 == k2,
{
    reveal_strlit("_");
    if k1 >= 2 && k2 >= 2 {
        let pre = base + "_"@;
        assert(candidate_id(base, k1).skip(pre.len() as int) =~= dec(k1));
        assert(candidate_id(base, k2).skip(pre.len() as int) =~= dec(k2));
        lemma_dec_injective(k1, k2);
    } else if k1 >= 2 {
        lemma_dec_len(k1);
        assert(candidate_id(base, k1).len() > base.len());
    } else if k2 >= 2 {
        lemma_dec_len(k2);
        assert(candidate_id(base, k2).len() > base.len());
    }
}

/// `seen` cannot hold `m` different attempts unless it has `m` entries.
pub proof fn lemma_attempts_fit(seen: Seq<Seq<char>>, base: Seq<char>, m: nat)
    requires
        forall|k: nat| 1 <= k <= m ==> seen.contains(#[trigger] candidate_id(base, k)),
    ensures
        m <= seen.len(),
{
    let cands = Seq::new(m, |i: int| candidate_id(base, (i + 1) as nat));
    assert(cands.no_duplicates()) by {
        assert forall|i: int, j: int| 0 <= i < cands.len() && 0 <= j < cands.len() && i != j
            implies cands[i] != cands[j] by {
            if cands[i] == cands[j] {
                lemma_candidate_injective(base, (i + 1) as nat, (j + 1) as nat);
            }
        }
    }
    cands.unique_seq_to_set();
    seen.lemma_cardinality_of_set();
    assert(cands.to_set().subset_of(seen.to_set())) by {
        assert forall|x: Seq<char>| cands.to_set().contains(x) implies seen.to_set().contains(x) by {
            let i = choose|i: int| 0 <= i < cands.len() && cands[i] == x;
            assert(seen.contains(candidate_id(base, (i + 1) as nat)));
        }
    }
    vstd::seq_lib::seq_to_set_is_finite(seen);
    vstd::set_lib::lemma_len_subset(cands.to_set(), seen.to_set());
}

/// When the attempts before the `k`-th are taken, the first free attempt
/// from the `k`-th on is the first free attempt overall.
proof fn lemma_fresh_step(seen: Seq<Seq<char>>, base: Seq<char>, k: nat)
    requires
        1 <= k <= seen.len() + 1,
        seen.contains(candidate_id(base, k)),
    ensures
        fresh_id_from(seen, base, k) == fresh_id_from(seen, base, k + 1),
{
}

/// A fresh id is not in `seen`.
pub proof fn lemma_fresh_is_fresh(seen: Seq<Seq<char>>, base: Seq<char>, k: nat)
    requires
        1 <= k,
        forall|j: nat| 1 <= j < k ==> seen.contains(#[trigger] candidate_id(base, j)),
    ensures
        !seen.contains(fresh_id_from(seen, base, k)),
    decreases seen.len() + 2 - k,
{
    if seen.contains(candidate_id(base, k)) {
        if k > seen.len() + 1 {
            assert forall|j: nat| 1 <= j <= k implies seen.contains(#[trigger] candidate_id(base, j)) by {}
            lemma_attempts_fit(seen, base, k);
        } else {
            lemma_fresh_is_fresh(seen, base, k + 1);
        }
    }
}

/// Deduplicated ids are all different, and none of them was seen before.
pub proof fn lemma_dedup_ids_unique(seen: Seq<Seq<char>>, ids: Seq<Seq<char>>)
    ensures
        dedup_rule_ids(seen, ids).len() == ids.len(),
        dedup_rule_ids(seen, ids).no_duplicates(),
        forall|i: int| 0 <= i < ids.len() ==> !seen.contains(#[trigger] dedup_rule_ids(seen, ids)[i]),
    decreases ids.len(),
{
    if ids.len() > 0 {
        let f = fresh_id_from(seen, ids[0], 1);
        lemma_fresh_is_fresh(seen, ids[0], 1);
        lemma_dedup_ids_unique(seen.push(f), ids.drop_first());
        let rest = dedup_rule_ids(seen.push(f), ids.drop_first());
        let all = dedup_rule_ids(seen, ids);
        assert(all == seq![f] + rest);
        assert forall|i: int| 0 <= i < ids.len() implies !seen.contains(#[trigger] all[i]) by {
            if i > 0 {
                assert(all[i] == rest[i - 1]);
                assert(!seen.push(f).contains(rest[i - 1]));
                if seen.contains(rest[i - 1]) {
                    let k = choose|k: int| 0 <= k < seen.len() && seen[k] == rest[i - 1];
                    assert(seen.push(f)[k] == rest[i - 1]);
                }
            }
        }
        assert forall|i: int, j: int| 0 <= i < all.len() && 0 <= j < all.len() && i != j
            implies all[i] != all[j] by {
            if i == 0 && j > 0 {
                assert(all[j] == rest[j - 1]);
                assert(seen.push(f)[seen.len() as int] == f);
            } else if j == 0 && i > 0 {
                assert(all[i] == rest[i - 1]);
                assert(seen.push(f)[seen.len() as int] == f);
            } else if i > 0 && j > 0 {
                assert(all[i] == rest[i - 1]);
                assert(all[j] == rest[j - 1]);
            }
        }
    }
}

/// The rule ids of raw rules.
pub open spec fn raw_ids(rules: Seq<RuleRaw>) -> Seq<Seq<char>> {
    rules.map_values(|r: RuleRaw| r.id@)
}

/// Two raw rules agree on everything but their ids.
pub open spec fn same_but_id(a: RuleRaw, b: RuleRaw) -> bool {
    &&& a.enabled == b.enabled
    &&& a.match_rule == b.match_rule
    &&& a.target == b.target
    &&& a.preserve_host == b.preserve_host
    &&& a.priority == b.priority
}

/// Gives each repeated id the first free numbered suffix (`id_2`, `id_3`, ...),
/// in order; nothing else changes.
pub fn dedupe_rule_ids(rules: &mut Vec<RuleRaw>)
    requires
        old(rules)@.len() < u32::MAX,
    ensures
        final(rules)@.len() == old(rules)@.len(),
        raw_ids(final(rules)@) == dedup_rule_ids(Seq::empty(), raw_ids(old(rules)@)),
        forall|i: int| 0 <= i < old(rules)@.len() ==> same_but_id(#[trigger] final(rules)@[i], old(rules)@[i]),
{
    let ghost orig = rules@;
    let ghost target = dedup_rule_ids(Seq::empty(), raw_ids(orig));
    let mut seen: Vec<String> = Vec::new();
    let n = rules.len();
    let mut i: usize = 0;
    proof {
        assert(raw_ids(orig).skip(0) =~= raw_ids(orig));
        assert(views(seen@) =~= Seq::<Seq<char>>::empty());
        lemma_dedup_ids_unique(Seq::empty(), raw_ids(orig));
        assert(target.skip(0) =~= target);
    }
    while i < n
        invariant
            n == orig.len() == rules@.len(),
            target.len() == n,
            n < u32::MAX,
            i <= n,
            seen@.len() == i,
            views(seen@) == target.take(i as int),
            target.skip(i as int) == dedup_rule_ids(views(seen@), raw_ids(orig).skip(i as int)),
            forall|k: int| i <= k < n ==> #[trigger] rules@[k] == orig[k],
            forall|k: int| 0 <= k < i ==> #[trigger] rules@[k].id@ == target[k],
            forall|k: int| 0 <= k < n ==> same_but_id(#[trigger] rules@[k], orig[k]),
        decreases n - i,
    {
        let ghost sv = views(seen@);
        let base = rules[i].id.clone();
        let mut id = base.clone();
        let mut counter: u32 = 1;
        proof {
            assert(raw_ids(orig).skip(i as int)[0] == base@);
            assert(raw_ids(orig).skip(i as int).drop_first() =~= raw_ids(orig).skip(i as int + 1));
        }
        while contains_view(&seen, id.as_str())
            invariant
                views(seen@) == sv,
                sv.len() == i,
                i < n < u32::MAX,
                1 <= counter <= sv.len() + 1,
                id@ == candidate_id(base@, counter as nat),
                fresh_id_from(sv, base@, counter as nat) == fresh_id_from(sv, base@, 1),
                forall|j: nat| 1 <= j < counter ==> sv.contains(#[trigger] candidate_id(base@, j)),
            decreases sv.len() + 1 - counter,
        {
            proof {
                assert forall|j: nat| 1 <= j <= counter implies sv.contains(#[trigger] candidate_id(base@, j)) by {}
                lemma_attempts_fit(sv, base@, counter as nat);
                lemma_fresh_step(sv, base@, counter as nat);
            }
            counter = counter + 1;
            let mut next = base.clone();
            next.append("_");
            push_decimal(&mut next, counter as u64);
            id = next;
        }
        proof {
            assert(fresh_id_from(sv, base@, counter as nat) == id@);
            assert(target.skip(i as int)[0] == id@);
            assert(target.skip(i as int).drop_first() =~= target.skip(i as int + 1));
            lemma_views_push(seen@, id);
            assert(target.take(i as int + 1) =~= target.take(i as int).push(id@));
        }
        seen.push(id.clone());
        let mut r = rules[i].duplicate();
        r.id = id;
        rules.set(i, r);
        i = i + 1;
    }
    proof {
        assert(raw_ids(rules@) =~= target);
    }
}

/// A text, or none when it is empty.
pub open spec fn nonempty_text(s: Seq<char>) -> Option<Seq<char>> {
    if s.len() == 0 { None } else { Some(s) }
}

/// The rule matches on Proxyman's "map from" URL as a regex.
pub open spec fn uses_regex(pr: ProxymanRule) -> bool {
    pr.regex@ == "useRegex"@ && pr.map_from_url@.len() > 0
}

/// The text of a part of the "map from" component, when it is set and not empty.
pub open spec fn from_host(pr: ProxymanRule) -> Option<Seq<char>> {
    match pr.from_url_component {
        Some(f) => nonempty_text(f.host@),
        None => None,
    }
}

/// See `from_host`.
pub open spec fn from_path(pr: ProxymanRule) -> Option<Seq<char>> {
    match pr.from_url_component {
        Some(f) => nonempty_text(f.path@),
        None => None,
    }
}

/// The profile a Proxyman rule goes to.
pub open spec fn profile_of(pr: ProxymanRule) -> Seq<char> {
    profile_prefix(pr.name@).0
}

/// The rule id a Proxyman rule gets before repeats are renamed.
pub open spec fn base_id_of(pr: ProxymanRule) -> Seq<char> {
    profile_prefix(pr.name@).1
}

/// `r` is the profile rule the Proxyman rule `pr` becomes (ids aside): its
/// match is the unescaped "map from" regex when the rule uses regex matching,
/// else the non-empty host and path of the "map from" component; its target
/// is the "map to" component, with `localhost`, port 80 (for a missing or
/// unreadable port) and `http` as defaults; it preserves the host when either
/// Proxyman flag asks for it.
pub open spec fn proxyman_converted(pr: ProxymanRule, r: RuleRaw) -> bool {
    let to = pr.to_url_component;
    &&& r.enabled == pr.is_enabled
    &&& holds_text(r.match_rule.method, match pr.method { Some(m) => method_text(m), None => None })
    &&& r.match_rule.not_path is None
    &&& if uses_regex(pr) {
        &&& r.match_rule.host is None
        &&& r.match_rule.path is None
        &&& holds_text(r.match_rule.regex, Some(unescaped(pr.map_from_url@, '/')))
    } else {
        &&& r.match_rule.regex is None
        &&& holds_text(r.match_rule.host, from_host(pr))
        &&& holds_text(r.match_rule.path, from_path(pr))
    }
    &&& r.target.host@ == (if to.host@.len() == 0 { "localhost"@ } else { to.host@ })
    &&& r.target.port == (match parsed_u16(to.port@) { Some(p) => p, None => 80u16 })
    &&& r.target.scheme@ == (if to.scheme@.len() == 0 { "http"@ } else { to.scheme@ })
    &&& holds_text(r.target.path, nonempty_text(to.path@))
    &&& r.preserve_host == (pr.preserve_host_header || pr.preserve_original_url)
    &&& r.priority == 0
}

fn nonempty_copy(s: &String) -> (r: Option<String>)
    ensures
        holds_text(r, nonempty_text(s@)),
{
    if s.as_str().unicode_len() == 0 { None } else { Some(s.clone()) }
}

fn method_of(m: &Option<ProxymanMethod>) -> (r: Option<String>)
    ensures
        holds_text(r, match *m { Some(x) => method_text(x), None => None }),
{
    match m {
        Some(x) => x.to_method_string(),
        None => None,
    }
}

/// Converts one Proxyman rule: its profile name and the profile rule it
/// becomes, with its id not yet made unique.
pub fn convert_proxyman_rule(pr: &ProxymanRule) -> (r: (String, RuleRaw))
    ensures
        r.0@ == profile_of(*pr),
        r.1.id@ == base_id_of(*pr),
        proxyman_converted(*pr, r.1),
{
    let (profile_name, rule_id) = extract_profile_prefix(pr.name.as_str());
    let port: u16 = match parse_u16(pr.to_url_component.port.as_str()) {
        Some(p) => p,
        None => 80,
    };
    let use_regex = str_eq(pr.regex.as_str(), "useRegex") && pr.map_from_url.as_str().unicode_len() > 0;
    let match_rule = if use_regex {
        let cs = chars_of(pr.map_from_url.as_str());
        let un = unescape_from(&cs, 0, cs.len(), '/');
        proof {
            assert(cs@.subrange(0, cs@.len() as int) =~= cs@);
        }
        MatchRule {
            host: None,
            path: None,
            not_path: None,
            method: method_of(&pr.method),
            regex: Some(string_of_range(un.as_slice(), 0, un.len())),
        }
    } else {
        let (host, path) = match &pr.from_url_component {
            Some(f) => (nonempty_copy(&f.host), nonempty_copy(&f.path)),
            None => (None, None),
        };
        MatchRule { host, path, not_path: None, method: method_of(&pr.method), regex: None }
    };
    proof {
        if use_regex {
            assert(match_rule.regex->0@ =~= unescaped(pr.map_from_url@, '/'));
        }
    }
    let to = &pr.to_url_component;
    let target = Target {
        host: if to.host.as_str().unicode_len() == 0 { owned("localhost") } else { to.host.clone() },
        port,
        scheme: if to.scheme.as_str().unicode_len() == 0 { owned("http") } else { to.scheme.clone() },
        path: nonempty_copy(&to.path),
    };
    let rule = RuleRaw {
        id: rule_id,
        enabled: pr.is_enabled,
        match_rule,
        target,
        preserve_host: pr.preserve_host_header || pr.preserve_original_url,
        priority: 0,
    };
    (profile_name, rule)
}

/// The profiles of a Proxyman export, each named once, in order of first
/// appearance.
pub open spec fn proxyman_profile_names(prs: Seq<ProxymanRule>) -> Seq<Seq<char>> {
    dedup_into(Seq::empty(), prs.map_values(|pr: ProxymanRule| profile_of(pr)))
}

/// The Proxyman rule goes to profile `name`.
pub open spec fn goes_to(name: Seq<char>) -> spec_fn(ProxymanRule) -> bool {
    |pr: ProxymanRule| profile_of(pr) == name
}

/// The Proxyman rules that go to profile `name`, in order.
pub open spec fn members(prs: Seq<ProxymanRule>, name: Seq<char>) -> Seq<ProxymanRule> {
    prs.filter(goes_to(name))
}

/// `p` is the imported profile `name` of a Proxyman export: its rules are
/// the export's rules for that profile, converted, in order, with repeated ids
/// given numbered suffixes.
pub open spec fn proxyman_profile_ok(prs: Seq<ProxymanRule>, name: Seq<char>, p: ProfileRaw) -> bool {
    let ms = members(prs, name);
    &&& p.meta.name@ == name
    &&& p.meta.description matches Some(d) && d@ == "imported from proxyman"@
    &&& p.meta.format_version == 1
    &&& p.rules@.len() == ms.len()
    &&& raw_ids(p.rules@) == dedup_rule_ids(Seq::empty(), ms.map_values(|pr: ProxymanRule| base_id_of(pr)))
    &&& forall|j: int| 0 <= j < ms.len() ==> proxyman_converted(ms[j], #[trigger] p.rules@[j])
}

/// Imports a Proxyman Map Remote export: one profile per `[PREFIX]` of the rule
/// names (`default` for names without one), in order of first appearance,
/// each holding its rules in order with unique ids.
pub fn import_proxyman(prs: &Vec<ProxymanRule>) -> (profiles: Vec<ProfileRaw>)
    requires
        prs@.len() < u32::MAX,
    ensures
        profiles@.len() == proxyman_profile_names(prs@).len(),
        forall|g: int| 0 <= g < profiles@.len()
            ==> proxyman_profile_ok(prs@, proxyman_profile_names(prs@)[g], #[trigger] profiles@[g]),
{
    let n = prs.len();
    let ghost names_all = prs@.map_values(|pr: ProxymanRule| profile_of(pr));
    let mut items: Vec<(String, RuleRaw)> = Vec::new();
    let mut i: usize = 0;
    while i < n
        invariant
            n == prs@.len(),
            i <= n,
            items@.len() == i,
            forall|k: int| 0 <= k < i ==> {
                &&& (#[trigger] items@[k]).0@ == profile_of(prs@[k])
                &&& items@[k].1.id@ == base_id_of(prs@[k])
                &&& proxyman_converted(prs@[k], items@[k].1)
            },
        decreases n - i,
    {
        items.push(convert_proxyman_rule(&prs[i]));
        i = i + 1;
    }
    // the profile names, each once, in order of first appearance
    let mut names: Vec<String> = Vec::new();
    let mut k: usize = 0;
    proof {
        assert(names_all.skip(0) =~= names_all);
        assert(views(names@) =~= Seq::<Seq<char>>::empty());
    }
    while k < n
        invariant
            n == prs@.len() == items@.len(),
            k <= n,
            names_all == prs@.map_values(|pr: ProxymanRule| profile_of(pr)),
            forall|j: int| 0 <= j < n ==> (#[trigger] items@[j]).0@ == profile_of(prs@[j]),
            dedup_into(views(names@), names_all.skip(k as int)) == proxyman_profile_names(prs@),
        decreases n - k,
    {
        proof {
            assert(names_all.skip(k as int).drop_first() =~= names_all.skip(k as int + 1));
            assert(names_all.skip(k as int)[0] == items@[k as int].0@);
        }
        if !contains_view(&names, items[k].0.as_str()) {
            proof {
                lemma_views_push(names@, items@[k as int].0);
            }
            names.push(items[k].0.clone());
        }
        k = k + 1;
    }
    proof {
        assert(names_all.skip(n as int) =~= Seq::<Seq<char>>::empty());
    }
    let ghost all_names = views(names@);
    let mut profiles: Vec<ProfileRaw> = Vec::new();
    let mut g: usize = 0;
    while g < names.len()
        invariant
            n == prs@.len() == items@.len(),
            n < u32::MAX,
            all_names == views(names@),
            all_names == proxyman_profile_names(prs@),
            g <= names@.len(),
            profiles@.len() == g,
            forall|j: int| 0 <= j < n ==> {
                &&& (#[trigger] items@[j]).0@ == profile_of(prs@[j])
                &&& items@[j].1.id@ == base_id_of(prs@[j])
                &&& proxyman_converted(prs@[j], items@[j].1)
            },
            forall|h: int| 0 <= h < g ==> proxyman_profile_ok(prs@, all_names[h], #[trigger] profiles@[h]),
        decreases names.len() - g,
    {
        let name = &names[g];
        let ghost pred = goes_to(name@);
        let mut group: Vec<RuleRaw> = Vec::new();
        let mut j: usize = 0;
        while j < n
            invariant
                n == prs@.len() == items@.len(),
                n < u32::MAX,
                j <= n,
                pred == goes_to(name@),
                forall|q: int| 0 <= q < n ==> {
                    &&& (#[trigger] items@[q]).0@ == profile_of(prs@[q])
                    &&& items@[q].1.id@ == base_id_of(prs@[q])
                    &&& proxyman_converted(prs@[q], items@[q].1)
                },
                group@.len() == prs@.take(j as int).filter(pred).len(),
                forall|q: int| 0 <= q < group@.len() ==> {
                    &&& (#[trigger] group@[q]).id@ == base_id_of(prs@.take(j as int).filter(pred)[q])
                    &&& proxyman_converted(prs@.take(j as int).filter(pred)[q], group@[q])
                },
            decreases n - j,
        {
            proof {
                assert(prs@.take(j as int + 1) =~= prs@.take(j as int).push(prs@[j as int]));
                prs@.take(j as int).lemma_filter_push(prs@[j as int], pred);
            }
            if str_eq(items[j].0.as_str(), name.as_str()) {
                group.push(items[j].1.duplicate());
            }
            j = j + 1;
        }
        proof {
            assert(prs@.take(n as int) =~= prs@);
            prs@.filter(pred).lemma_filter_len(pred);
        }
        let ghost before = group@;
        let ghost ms = members(prs@, name@);
        proof {
            assert(raw_ids(before) =~= ms.map_values(|pr: ProxymanRule| base_id_of(pr)));
            prs@.lemma_filter_len(pred);
        }
        dedupe_rule_ids(&mut group);
        profiles.push(ProfileRaw {
            meta: ProfileMeta {
                name: name.clone(),
                description: Some(owned("imported from proxyman")),
                format_version: 1,
            },
            rules: group,
        });
        proof {
            let p = profiles@[g as int];
            assert forall|q: int| 0 <= q < ms.len() implies proxyman_converted(ms[q], #[trigger] p.rules@[q]) by {
                assert(same_but_id(p.rules@[q], before[q]));
            }
            assert(all_names[g as int] == name@);
        }
        g = g + 1;
    }
    profiles
}


/// Parses a port number as `str::parse::<u16>` does (see `parsed_u16`).
pub fn parse_u16(s: &str) -> (r: Option<u16>)
    ensures
        r == parsed_u16(s@),
{
    let r = parse_bounded(s, 65535);
    match r {
        Some(v) => {
            proof {
                assert(parsed_bounded(s@, 65535) == Some(v as nat));
            }
            Some(v as u16)
        },
        None => None,
    }
}

/// Parses a number as `str::parse::<u32>` does (see `parsed_u32`).
pub fn parse_u32(s: &str) -> (r: Option<u32>)
    ensures
        r == parsed_u32(s@),
{
    let r = parse_bounded(s, 4294967295);
    match r {
        Some(v) => {
            proof {
                assert(parsed_bounded(s@, 4294967295) == Some(v as nat));
            }
            Some(v as u32)
        },
        None => None,
    }
}

/// Every profile imported from a Proxyman export has unique rule ids.
pub proof fn lemma_imported_ids_unique(prs: Seq<ProxymanRule>, name: Seq<char>, p: ProfileRaw)
    requires
        proxyman_profile_ok(prs, name, p),
    ensures
        raw_ids(p.rules@).no_duplicates(),
{
    lemma_dedup_ids_unique(Seq::empty(), members(prs, name).map_values(|pr: ProxymanRule| base_id_of(pr)));
}

/// A rule whose id was not taken before keeps it.
pub proof fn lemma_fresh_id_keeps_free_ids(seen: Seq<Seq<char>>, base: Seq<char>)
    requires
        !seen.contains(base),
    ensures
        fresh_id_from(seen, base, 1) == base,
{
}

/// A converted Proxyman rule is on exactly when the Proxyman rule is, keeps
/// the host when the Proxyman rule preserves the host header or the original
/// URL, has priority 0, and targets the Proxyman target with `localhost`,
/// port 80 and `http` standing in for an empty host, an unreadable port and
/// an empty scheme.
pub proof fn lemma_proxyman_rule_fields(pr: ProxymanRule, r: RuleRaw)
    requires
        proxyman_converted(pr, r),
    ensures
        r.enabled == pr.is_enabled,
        r.preserve_host == (pr.preserve_host_header || pr.preserve_original_url),
        r.priority == 0,
        pr.to_url_component.host@.len() == 0 ==> r.target.host@ == "localhost"@,
        pr.to_url_component.host@.len() > 0 ==> r.target.host@ == pr.to_url_component.host@,
        parsed_u16(pr.to_url_component.port@) matches Some(p) ==> r.target.port == p,
        parsed_u16(pr.to_url_component.port@) is None ==> r.target.port == 80,
        pr.to_url_component.scheme@.len() == 0 ==> r.target.scheme@ == "http"@,
        pr.to_url_component.scheme@.len() > 0 ==> r.target.scheme@ == pr.to_url_component.scheme@,
{
}

/// Every rule of an imported Proxyman profile is on exactly when the
/// Proxyman rule it comes from (the `j`-th rule of the export that goes to
/// that profile) is on: a disabled Proxyman rule is imported disabled.
pub proof fn lemma_imported_rules_keep_enabled(prs: Seq<ProxymanRule>, name: Seq<char>, p: ProfileRaw, j: int)
    requires
        proxyman_profile_ok(prs, name, p),
        0 <= j < p.rules@.len(),
    ensures
        prs.filter(goes_to(name)).len() == p.rules@.len(),
        profile_of(prs.filter(goes_to(name))[j]) == name,
        p.rules@[j].enabled == prs.filter(goes_to(name))[j].is_enabled,
{
    let ms = members(prs, name);
    assert(proxyman_converted(ms[j], p.rules@[j]));
    lemma_proxyman_rule_fields(ms[j], p.rules@[j]);
    assert(ms.contains(ms[j]));
    broadcast use vstd::seq_lib::group_filter_ensures;
}

} // verus!
