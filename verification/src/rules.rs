//! Map Remote rules: what a rule matches, where it sends a request, and how
//! a rule is checked when it is loaded.

use vstd::prelude::*;

use crate::errors::GiantError;
use crate::text::{before_char, copy_opt, dec, owned, push_decimal, chars_of, find_char, string_of_range, str_eq,
    lemma_first_index};

verus! {

/// The match section of a rule: glob patterns for host and path, an optional
/// excluded path, an optional method filter and an optional full-URL regex.
#[derive(Debug, Clone)]
pub struct MatchRule {
    pub host: Option<String>,
    pub path: Option<String>,
    pub not_path: Option<String>,
    pub method: Option<String>,
    pub regex: Option<String>,
}

/// Where a matched request is sent.
#[derive(Debug, Clone)]
pub struct Target {
    pub host: String,
    pub port: u16,
    pub scheme: String,
    pub path: Option<String>,
}

/// A rule as it is written in a profile.
#[derive(Debug, Clone)]
pub struct RuleRaw {
    pub id: String,
    pub enabled: bool,
    pub match_rule: MatchRule,
    pub target: Target,
    pub preserve_host: bool,
    pub priority: u32,
}

/// A loaded rule. `compiled_regex` holds the regex of the match section once
/// it has been compiled successfully.
#[derive(Debug, Clone)]
pub struct Rule {
    pub id: String,
    pub enabled: bool,
    pub match_rule: MatchRule,
    pub target: Target,
    pub preserve_host: bool,
    pub priority: u32,
    pub compiled_regex: Option<String>,
}

/// What rule matching reads of an incoming request.
#[derive(Debug, Clone)]
pub struct RequestInfo {
    /// The full request URI as text.
    pub url: String,
    /// The request method, such as `GET`.
    pub method: String,
    /// The scheme of the request URI, when it has one.
    pub scheme: Option<String>,
    /// The value of the `Host` header, when present and readable as text.
    pub host_header: Option<String>,
    /// The host of the URI's authority (HTTP/2 `:authority`), when present.
    pub authority_host: Option<String>,
    /// The path of the URI.
    pub path: String,
    /// The path and query of the URI, when present.
    pub path_and_query: Option<String>,
}

/// The URI a matched request is rewritten to.
#[derive(Debug, Clone)]
pub struct RewrittenUri {
    pub scheme: String,
    /// `host:port` of the target.
    pub authority: String,
    pub path_and_query: String,
}

/// The default of `preserve_host`.
pub fn default_true() -> (b: bool)
    ensures
        b,
{
    true
}

/// The default scheme of a target.
pub fn default_http() -> (s: String)
    ensures
        s@ == "http"@,
{
    owned("http")
}

/// Whether `glob_match::glob_match(glob, path)` holds.
pub uninterp spec fn glob_matches(glob: Seq<char>, path: Seq<char>) -> bool;

/// Calls `glob_match::glob_match`; its answer is named `glob_matches`.
#[verifier::external_body]
fn glob(pattern: &str, path: &str) -> (r: bool)
    ensures
        r == glob_matches(pattern@, path@),
{
    glob_match::glob_match(pattern, path)
}

/// What `regex::Regex::new(pattern)` gives: `None` when it compiles, else the
/// text of the error.
pub uninterp spec fn regex_compile_error(pattern: Seq<char>) -> Option<Seq<char>>;

/// Calls `regex::Regex::new` and reports its error as text; the outcome is named
/// `regex_compile_error`.
#[verifier::external_body]
fn regex_check(pattern: &str) -> (r: Option<String>)
    ensures
        r matches Some(m) ==> regex_compile_error(pattern@) == Some(m@),
        r is None ==> regex_compile_error(pattern@) is None,
{
    match regex::Regex::new(pattern) {
        Ok(_) => None,
        Err(e) => Some(e.to_string()),
    }
}

/// Whether the regex compiled from `pattern` matches somewhere in `haystack`
/// (`regex::Regex::is_match`).
pub uninterp spec fn regex_finds(pattern: Seq<char>, haystack: Seq<char>) -> bool;

/// Compiles `pattern` with `regex::Regex::new` and calls `is_match` on
/// `haystack`; the answer is named `regex_finds`.
#[verifier::external_body]
fn regex_is_match(pattern: &str, haystack: &str) -> (r: bool)
    requires
        regex_compile_error(pattern@) is None,
    ensures
        r == regex_finds(pattern@, haystack@),
{
    match regex::Regex::new(pattern) {
        Ok(re) => re.is_match(haystack),
        Err(_) => false,
    }
}

/// The contents of an optional string, or `default`.
pub open spec fn or_default(o: Option<String>, default: Seq<char>) -> Seq<char> {
    match o {
        Some(s) => s@,
        None => default,
    }
}

/// The host a request is addressed to: the `Host` header without its port,
/// else the URI authority's host, else empty.
pub open spec fn request_host(req: RequestInfo) -> Seq<char> {
    match req.host_header {
        Some(h) => before_char(h@, ':'),
        None => or_default(req.authority_host, Seq::empty()),
    }
}

/// The method filter lets `method` through: none set, `ANY`, or the same method.
pub open spec fn method_allows(filter: Option<String>, method: Seq<char>) -> bool {
    match filter {
        None => true,
        Some(m) => m@ == "ANY"@ || m@ == method,
    }
}

/// The glob part of the match section accepts the request: the host pattern
/// (default `*`) matches its host, the path pattern (if any) matches its path,
/// and the excluded path pattern (if any) does not.
pub open spec fn globs_accept(m: MatchRule, req: RequestInfo) -> bool {
    &&& glob_matches(or_default(m.host, "*"@), request_host(req))
    &&& (m.path matches Some(p) ==> glob_matches(p@, req.path@))
    &&& (m.not_path matches Some(np) ==> !glob_matches(np@, req.path@))
}

/// A rule matches a request: its method filter lets the request's method
/// through, and then its regex (when it has one) finds a match in the full URL;
/// otherwise its globs accept the request.
pub open spec fn rule_matches(r: Rule, req: RequestInfo) -> bool {
    &&& method_allows(r.match_rule.method, req.method@)
    &&& match r.compiled_regex {
        Some(p) => regex_finds(p@, req.url@),
        None => globs_accept(r.match_rule, req),
    }
}

/// The rule that loading `raw` gives.
pub open spec fn compiled_rule(raw: RuleRaw) -> Rule {
    Rule {
        id: raw.id,
        enabled: raw.enabled,
        match_rule: raw.match_rule,
        target: raw.target,
        preserve_host: raw.preserve_host,
        priority: raw.priority,
        compiled_regex: raw.match_rule.regex,
    }
}

/// The form in which a rule is written back to a profile.
pub open spec fn raw_rule(r: Rule) -> RuleRaw {
    RuleRaw {
        id: r.id,
        enabled: r.enabled,
        match_rule: r.match_rule,
        target: r.target,
        preserve_host: r.preserve_host,
        priority: r.priority,
    }
}

/// A raw rule loads: it has no regex, or its regex compiles.
pub open spec fn raw_loads(raw: RuleRaw) -> bool {
    raw.match_rule.regex matches Some(p) ==> regex_compile_error(p@) is None
}

/// The path and query a matched request is sent to: the target's path, else
/// the original path and query, else `/`.
pub open spec fn rewritten_path(t: Target, req: RequestInfo) -> Seq<char> {
    match t.path {
        Some(p) => p@,
        None => or_default(req.path_and_query, "/"@),
    }
}

/// The `host:port` authority of a target.
pub open spec fn target_authority(t: Target) -> Seq<char> {
    t.host@ + ":"@ + dec(t.port as nat)
}

impl Rule {
    /// A loaded rule: its compiled regex is the regex of its match section,
    /// and that regex compiles.
    pub open spec fn wf(self) -> bool {
        &&& self.compiled_regex == self.match_rule.regex
        &&& (self.compiled_regex matches Some(p) ==> regex_compile_error(p@) is None)
    }

    /// Loads a raw rule, compiling its regex. Fails, with the regex error's
    /// text, exactly when the regex does not compile.
    pub fn from_raw(raw: RuleRaw) -> (r: Result<Rule, GiantError>)
        ensures
            r is Ok <==> raw_loads(raw),
            r matches Ok(rule) ==> rule == compiled_rule(raw) && rule.wf(),
            r matches Err(e) ==> (raw.match_rule.regex matches Some(p)
                && regex_compile_error(p@) matches Some(m)
                && e matches GiantError::RuleError(msg) && msg@ == m),
    {
        let compiled_regex = match &raw.match_rule.regex {
            Some(p) => {
                match regex_check(p.as_str()) {
                    Some(msg) => {
                        return Err(GiantError::RuleError(msg));
                    },
                    None => Some(p.clone()),
                }
            },
            None => None,
        };
        Ok(Rule {
            id: raw.id,
            enabled: raw.enabled,
            match_rule: raw.match_rule,
            target: raw.target,
            preserve_host: raw.preserve_host,
            priority: raw.priority,
            compiled_regex,
        })
    }

    /// Whether this rule matches the request.
    pub fn matches(&self, req: &RequestInfo) -> (b: bool)
        requires
            self.wf(),
        ensures
            b == rule_matches(*self, *req),
    {
        if let Some(m) = &self.match_rule.method {
            if !(str_eq(m.as_str(), "ANY") || str_eq(m.as_str(), req.method.as_str())) {
                return false;
            }
        }
        if let Some(re) = &self.compiled_regex {
            return regex_is_match(re.as_str(), req.url.as_str());
        }
        let host = request_host_of(req);
        let host_ok = match &self.match_rule.host {
            Some(h) => glob(h.as_str(), host.as_str()),
            None => glob("*", host.as_str()),
        };
        if !host_ok {
            return false;
        }
        if let Some(p) = &self.match_rule.path {
            if !glob(p.as_str(), req.path.as_str()) {
                return false;
            }
        }
        if let Some(np) = &self.match_rule.not_path {
            if glob(np.as_str(), req.path.as_str()) {
                return false;
            }
        }
        true
    }

    /// The URI a request matched by this rule is sent to: the target's scheme,
    /// `host:port`, and the target's path or else the original path and query.
    pub fn rewrite_uri(&self, original: &RequestInfo) -> (u: RewrittenUri)
        ensures
            u.scheme@ == self.target.scheme@,
            u.authority@ == target_authority(self.target),
            u.path_and_query@ == rewritten_path(self.target, *original),
    {
        let path_and_query = match &self.target.path {
            Some(p) => p.clone(),
            None => match &original.path_and_query {
                Some(q) => q.clone(),
                None => owned("/"),
            },
        };
        let mut authority = self.target.host.clone();
        authority.append(":");
        push_decimal(&mut authority, self.target.port as u64);
        RewrittenUri { scheme: self.target.scheme.clone(), authority, path_and_query }
    }

    /// The rule in the form it is written back to a profile.
    pub fn to_raw(&self) -> (r: RuleRaw)
        ensures
            r == raw_rule(*self),
    {
        RuleRaw {
            id: self.id.clone(),
            enabled: self.enabled,
            match_rule: self.match_rule.duplicate(),
            target: self.target.duplicate(),
            preserve_host: self.preserve_host,
            priority: self.priority,
        }
    }
}

impl Rule {
    /// A copy of this rule.
    pub fn duplicate(&self) -> (r: Rule)
        ensures
            r == *self,
    {
        Rule {
            id: self.id.clone(),
            enabled: self.enabled,
            match_rule: self.match_rule.duplicate(),
            target: self.target.duplicate(),
            preserve_host: self.preserve_host,
            priority: self.priority,
            compiled_regex: copy_opt(&self.compiled_regex),
        }
    }
}

impl MatchRule {
    /// A copy of this match section.
    pub fn duplicate(&self) -> (r: MatchRule)
        ensures
            r == *self,
    {
        MatchRule {
            host: copy_opt(&self.host),
            path: copy_opt(&self.path),
            not_path: copy_opt(&self.not_path),
            method: copy_opt(&self.method),
            regex: copy_opt(&self.regex),
        }
    }
}

impl MatchRule {
    /// What a rule list shows for this match: the regex, else the host
    /// pattern, else `-`.
    pub fn display(&self) -> (s: String)
        ensures
            s@ == (match self.regex {
                Some(r) => r@,
                None => or_default(self.host, "-"@),
            }),
    {
        match &self.regex {
            Some(r) => r.clone(),
            None => match &self.host {
                Some(h) => h.clone(),
                None => owned("-"),
            },
        }
    }
}

impl Target {
    /// The target as a URL: `scheme://host:port`.
    pub fn display(&self) -> (s: String)
        ensures
            s@ == self.scheme@ + "://"@ + target_authority(*self),
    {
        let mut s = self.scheme.clone();
        s.append("://");
        s.append(self.host.as_str());
        s.append(":");
        push_decimal(&mut s, self.port as u64);
        s
    }

    /// A copy of this target.
    pub fn duplicate(&self) -> (r: Target)
        ensures
            r == *self,
    {
        Target {
            host: self.host.clone(),
            port: self.port,
            scheme: self.scheme.clone(),
            path: copy_opt(&self.path),
        }
    }
}

impl RuleRaw {
    /// A copy of this raw rule.
    pub fn duplicate(&self) -> (r: RuleRaw)
        ensures
            r == *self,
    {
        RuleRaw {
            id: self.id.clone(),
            enabled: self.enabled,
            match_rule: self.match_rule.duplicate(),
            target: self.target.duplicate(),
            preserve_host: self.preserve_host,
            priority: self.priority,
        }
    }
}

/// The host a request is addressed to (see `request_host`).
pub fn request_host_of(req: &RequestInfo) -> (h: String)
    ensures
        h@ == request_host(*req),
{
    match &req.host_header {
        Some(hv) => {
            let cs = chars_of(hv.as_str());
            proof {
                lemma_first_index(cs@, ':');
            }
            match find_char(cs.as_slice(), ':') {
                Some(i) => {
                    let r = string_of_range(cs.as_slice(), 0, i);
                    r
                },
                None => hv.clone(),
            }
        },
        None => match &req.authority_host {
            Some(a) => a.clone(),
            None => String::new(),
        },
    }
}

/// Loading a rule and writing it back gives the rule as it was written.
pub proof fn lemma_rule_roundtrip(raw: RuleRaw)
    ensures
        raw_rule(compiled_rule(raw)) == raw,
{
}

/// A rule whose method filter names another method than the request's (and
/// is not `ANY`) never matches the request, whatever its regex or globs say.
pub proof fn lemma_method_filter_rejects(r: Rule, req: RequestInfo, m: String)
    requires
        r.match_rule.method == Some(m),
        m@ != "ANY"@,
        m@ != req.method@,
    ensures
        !rule_matches(r, req),
{
}

/// When the method filter lets the request through, a rule with a regex
/// matches exactly when the regex finds a match in the request's full URL;
/// its host and path globs play no part.
pub proof fn lemma_regex_overrides_globs(r: Rule, req: RequestInfo, p: String)
    requires
        r.compiled_regex == Some(p),
        r.match_rule.method matches Some(m) ==> (m@ == "ANY"@ || m@ == req.method@),
    ensures
        rule_matches(r, req) == regex_finds(p@, req.url@),
{
}

/// Without a regex, and with the method let through, a rule matches exactly
/// when its host glob (default `*`) matches the request's host, its path glob
/// (if any) matches the path, and its excluded path glob (if any) does not.
pub proof fn lemma_globs_decide(r: Rule, req: RequestInfo)
    requires
        r.compiled_regex is None,
        r.match_rule.method matches Some(m) ==> (m@ == "ANY"@ || m@ == req.method@),
    ensures
        rule_matches(r, req) == (glob_matches(or_default(r.match_rule.host, "*"@), request_host(req))
            && (r.match_rule.path matches Some(p) ==> glob_matches(p@, req.path@))
            && (r.match_rule.not_path matches Some(np) ==> !glob_matches(np@, req.path@))),
{
}

} // verus!
