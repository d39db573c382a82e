//! Daemon configuration, profiles and the state the daemon reports.

use vstd::prelude::*;

use crate::errors::GiantError;
use crate::rules::{Rule, RuleRaw, compiled_rule, raw_loads, raw_rule, regex_compile_error};
use crate::text::{chars_of, copy_opt, owned, sort_strings, string_of_range, texts_sorted, views};

verus! {

/// The daemon's configuration file.
#[derive(Debug, Clone)]
pub struct AppConfig {
    pub version: u32,
    pub listen_port: u16,
    pub pac_port: u16,
    pub log_level: String,
    pub log_max_size_mb: u32,
    pub log_max_files: u32,
    pub auto_start: bool,
    pub default_profile: Option<String>,
    pub routing_mode: String,
    pub browser: Option<String>,
    pub bypass_hosts: Vec<String>,
}

/// The configuration format version written today.
pub fn default_version() -> (v: u32)
    ensures
        v == 1,
{
    1
}

/// The default port of the proxy listener.
pub fn default_listen_port() -> (p: u16)
    ensures
        p == 8080,
{
    8080
}

/// The default port of the PAC server.
pub fn default_pac_port() -> (p: u16)
    ensures
        p == 9876,
{
    9876
}

/// The default log level.
pub fn default_log_level() -> (s: String)
    ensures
        s@ == "info"@,
{
    owned("info")
}

/// The default size at which a log file is rotated, in megabytes.
pub fn default_log_max_size_mb() -> (n: u32)
    ensures
        n == 10,
{
    10
}

/// The default number of rotated log files kept.
pub fn default_log_max_files() -> (n: u32)
    ensures
        n == 5,
{
    5
}

/// The default routing mode.
pub fn default_routing_mode() -> (s: String)
    ensures
        s@ == "manual"@,
{
    owned("manual")
}

/// The configuration used when there is no configuration file: every field at
/// its default.
pub open spec fn is_default_config(c: AppConfig) -> bool {
    &&& c.version == 1
    &&& c.listen_port == 8080
    &&& c.pac_port == 9876
    &&& c.log_level@ == "info"@
    &&& c.log_max_size_mb == 10
    &&& c.log_max_files == 5
    &&& !c.auto_start
    &&& c.default_profile is None
    &&& c.routing_mode@ == "manual"@
    &&& c.browser is None
    &&& c.bypass_hosts@.len() == 0
}

impl AppConfig {
    /// The configuration used when there is no configuration file.
    pub fn default_config() -> (c: AppConfig)
        ensures
            is_default_config(c),
    {
        AppConfig {
            version: default_version(),
            listen_port: default_listen_port(),
            pac_port: default_pac_port(),
            log_level: default_log_level(),
            log_max_size_mb: default_log_max_size_mb(),
            log_max_files: default_log_max_files(),
            auto_start: false,
            default_profile: None,
            routing_mode: default_routing_mode(),
            browser: None,
            bypass_hosts: Vec::new(),
        }
    }

    /// The configuration after migration to the current format: `None` when it
    /// is already current (version 1 or later), else the same configuration
    /// marked as version 1.
    pub fn migrate(self) -> (r: Option<AppConfig>)
        ensures
            r is None <==> self.version >= 1,
            r matches Some(c) ==> c == (AppConfig { version: 1, ..self }),
    {
        if self.version < 1 {
            Some(AppConfig { version: 1, ..self })
        } else {
            None
        }
    }
}

/// The `[meta]` section of a profile.
#[derive(Debug, Clone)]
pub struct ProfileMeta {
    pub name: String,
    pub description: Option<String>,
    pub format_version: u32,
}

/// A profile as it is written in its file.
#[derive(Debug, Clone)]
pub struct ProfileRaw {
    pub meta: ProfileMeta,
    pub rules: Vec<RuleRaw>,
}

/// A loaded profile.
#[derive(Debug, Clone)]
pub struct Profile {
    pub meta: ProfileMeta,
    pub rules: Vec<Rule>,
}

impl ProfileMeta {
    /// A copy of this meta section.
    pub fn duplicate(&self) -> (m: ProfileMeta)
        ensures
            m == *self,
    {
        ProfileMeta {
            name: self.name.clone(),
            description: copy_opt(&self.description),
            format_version: self.format_version,
        }
    }
}

/// The rule at `i` repeats the id of an earlier rule.
pub open spec fn repeats_id(rules: Seq<RuleRaw>, i: int) -> bool {
    exists|j: int| 0 <= j < i && #[trigger] rules[j].id@ == rules[i].id@
}

/// The rule at `i` keeps its profile from loading: it repeats an earlier id,
/// or its regex does not compile.
pub open spec fn rule_fault(rules: Seq<RuleRaw>, i: int) -> bool {
    repeats_id(rules, i) || !raw_loads(rules[i])
}

/// The message of the error reported for the faulty rule at `i`.
pub open spec fn fault_message(rules: Seq<RuleRaw>, i: int) -> Seq<char> {
    if repeats_id(rules, i) {
        "duplicate rule id: "@ + rules[i].id@
    } else {
        match rules[i].match_rule.regex {
            Some(p) => match regex_compile_error(p@) {
                Some(m) => m,
                None => Seq::empty(),
            },
            None => Seq::empty(),
        }
    }
}

/// A profile loads when none of its rules is faulty.
pub open spec fn profile_loads(raw: ProfileRaw) -> bool {
    forall|i: int| 0 <= i < raw.rules@.len() ==> !#[trigger] rule_fault(raw.rules@, i)
}

/// The profile that loading `raw` gives.
pub open spec fn loaded_profile(raw: ProfileRaw, p: Profile) -> bool {
    &&& p.meta == raw.meta
    &&& p.rules@.len() == raw.rules@.len()
    &&& forall|i: int| 0 <= i < raw.rules@.len()
        ==> #[trigger] p.rules@[i] == compiled_rule(raw.rules@[i])
}

/// Every rule of a loaded rule list is well formed.
pub open spec fn all_wf(rules: Seq<Rule>) -> bool {
    forall|i: int| 0 <= i < rules.len() ==> (#[trigger] rules[i]).wf()
}

/// The raw profile written back for a loaded profile.
pub open spec fn written_back(p: Profile, raw: ProfileRaw) -> bool {
    &&& raw.meta == p.meta
    &&& raw.rules@.len() == p.rules@.len()
    &&& forall|i: int| 0 <= i < p.rules@.len() ==> #[trigger] raw.rules@[i] == raw_rule(p.rules@[i])
}

/// Whether some string of `seen` has the characters of `s`.
fn contains_str(seen: &Vec<String>, s: &String) -> (r: bool)
    ensures
        r == exists|j: int| 0 <= j < seen@.len() && #[trigger] seen@[j]@ == s@,
{
    let mut j: usize = 0;
    while j < seen.len()
        invariant
            j <= seen@.len(),
            forall|k: int| 0 <= k < j ==> #[trigger] seen@[k]@ != s@,
        decreases seen.len() - j,
    {
        if seen[j] == *s {
            return true;
        }
        j = j + 1;
    }
    false
}

impl Profile {
    /// Loads a raw profile: every rule is loaded in order. Fails at the first
    /// rule that repeats an earlier rule's id (`duplicate rule id: <id>`) or whose
    /// regex does not compile (the regex error's text).
    pub fn from_raw(raw: ProfileRaw) -> (r: Result<Profile, GiantError>)
        ensures
            r is Ok <==> profile_loads(raw),
            r matches Ok(p) ==> loaded_profile(raw, p) && all_wf(p.rules@),
            r matches Err(e) ==> exists|i: int|
                0 <= i < raw.rules@.len() && #[trigger] rule_fault(raw.rules@, i)
                && (forall|j: int| 0 <= j < i ==> !rule_fault(raw.rules@, j))
                && (e matches GiantError::RuleError(m) && m@ == fault_message(raw.rules@, i)),
    {
        let mut seen: Vec<String> = Vec::new();
        let mut rules: Vec<Rule> = Vec::new();
        let n = raw.rules.len();
        let mut i: usize = 0;
        while i < n
            invariant
                n == raw.rules@.len(),
                i <= n,
                seen@.len() == i,
                rules@.len() == i,
                forall|k: int| 0 <= k < i ==> #[trigger] seen@[k]@ == raw.rules@[k].id@,
                forall|k: int| 0 <= k < i ==> !#[trigger] rule_fault(raw.rules@, k),
                forall|k: int| 0 <= k < i ==> #[trigger] rules@[k] == compiled_rule(raw.rules@[k]),
                all_wf(rules@),
            decreases n - i,
        {
            let rule_raw = raw.rules[i].duplicate();
            if contains_str(&seen, &rule_raw.id) {
                let mut msg = owned("duplicate rule id: ");
                msg.append(rule_raw.id.as_str());
                proof {
                    let j = choose|j: int| 0 <= j < seen@.len() && #[trigger] seen@[j]@ == rule_raw.id@;
                    assert(raw.rules@[j].id@ == raw.rules@[i as int].id@);
                    assert(repeats_id(raw.rules@, i as int));
                    assert(rule_fault(raw.rules@, i as int));
                }
                return Err(GiantError::RuleError(msg));
            }
            proof {
                assert forall|j: int| 0 <= j < i implies #[trigger] raw.rules@[j].id@ != raw.rules@[i as int].id@ by {
                    assert(seen@[j]@ == raw.rules@[j].id@);
                }
                assert(!repeats_id(raw.rules@, i as int));
            }
            seen.push(rule_raw.id.clone());
            match Rule::from_raw(rule_raw) {
                Ok(rule) => {
                    rules.push(rule);
                },
                Err(e) => {
                    proof {
                        assert(rule_fault(raw.rules@, i as int));
                    }
                    return Err(e);
                },
            }
            i = i + 1;
        }
        Ok(Profile { meta: raw.meta, rules })
    }

    /// The profile in the form it is written back to its file.
    pub fn to_raw(&self) -> (raw: ProfileRaw)
        ensures
            written_back(*self, raw),
    {
        let mut rules: Vec<RuleRaw> = Vec::new();
        let mut i: usize = 0;
        while i < self.rules.len()
            invariant
                i <= self.rules@.len(),
                rules@.len() == i,
                forall|k: int| 0 <= k < i ==> #[trigger] rules@[k] == raw_rule(self.rules@[k]),
            decreases self.rules.len() - i,
        {
            rules.push(self.rules[i].to_raw());
            i = i + 1;
        }
        ProfileRaw { meta: self.meta.duplicate(), rules }
    }
}

/// Loading a profile and writing it back gives the profile as it was written.
pub proof fn lemma_profile_roundtrip(raw: ProfileRaw, p: Profile, back: ProfileRaw)
    requires
        loaded_profile(raw, p),
        written_back(p, back),
    ensures
        back.meta == raw.meta,
        back.rules@ == raw.rules@,
{
    assert forall|i: int| 0 <= i < raw.rules@.len() implies back.rules@[i] == raw.rules@[i] by {
        crate::rules::lemma_rule_roundtrip(raw.rules@[i]);
    }
    assert(back.rules@ =~= raw.rules@);
}

/// What the daemon reports about one loaded rule.
#[derive(Debug, Clone)]
pub struct RuleState {
    pub id: String,
    pub enabled: bool,
    pub matched_count: u64,
}

/// What the daemon writes to its state file.
#[derive(Debug, Clone)]
pub struct DaemonState {
    pub running: bool,
    pub active_profile: Option<String>,
    pub also_profiles: Vec<String>,
    pub listen_addr: String,
    pub routing_mode: String,
    pub pid: u32,
    pub started_at: String,
    pub version: String,
    pub rules: Vec<RuleState>,
    pub proxy_services: Vec<String>,
}

/// The profile name a file name gives: the stem of a file whose extension is
/// `toml` (`Path::extension` and `Path::file_stem`: a file name `<stem>.toml`
/// with a non-empty stem); none for other files.
pub open spec fn toml_stem(f: Seq<char>) -> Option<Seq<char>> {
    if f.len() > 5 && f.skip(f.len() - 5) == ".toml"@ {
        Some(f.take(f.len() - 5))
    } else {
        None
    }
}

/// The profile names of a directory's file names, in their order.
pub open spec fn toml_stems(files: Seq<Seq<char>>) -> Seq<Seq<char>>
    decreases files.len(),
{
    if files.len() == 0 {
        Seq::empty()
    } else {
        toml_stems(files.drop_last()) + match toml_stem(files.last()) {
            Some(s) => seq![s],
            None => Seq::empty(),
        }
    }
}

/// The profile name of one file name, if it is a profile file.
pub fn profile_name_of(file_name: &str) -> (r: Option<String>)
    ensures
        match toml_stem(file_name@) {
            Some(s) => r matches Some(x) && x@ == s,
            None => r is None,
        },
{
    let cs = chars_of(file_name);
    let n = cs.len();
    proof {
        reveal_strlit(".toml");
    }
    if n > 5 && cs[n - 5] == '.' && cs[n - 4] == 't' && cs[n - 3] == 'o' && cs[n - 2] == 'm'
        && cs[n - 1] == 'l' {
        proof {
            assert(file_name@.skip(n - 5) =~= ".toml"@);
        }
        let stem = string_of_range(cs.as_slice(), 0, n - 5);
        proof {
            assert(cs@.subrange(0, n - 5) =~= cs@.take(n - 5));
        }
        Some(stem)
    } else {
        proof {
            if n > 5 && file_name@.skip(n - 5) == ".toml"@ {
                assert(file_name@.skip(n - 5)[0] == cs@[n - 5]);
                assert(file_name@.skip(n - 5)[1] == cs@[n - 4]);
                assert(file_name@.skip(n - 5)[2] == cs@[n - 3]);
                assert(file_name@.skip(n - 5)[3] == cs@[n - 2]);
                assert(file_name@.skip(n - 5)[4] == cs@[n - 1]);
            }
        }
        None
    }
}

/// The profiles in a directory, given the names of its files: the stems of
/// the `.toml` files, sorted.
pub fn profile_names(file_names: &Vec<String>) -> (names: Vec<String>)
    ensures
        views(names@).to_multiset() == toml_stems(views(file_names@)).to_multiset(),
        texts_sorted(views(names@)),
{
    let mut names: Vec<String> = Vec::new();
    let mut i: usize = 0;
    while i < file_names.len()
        invariant
            i <= file_names@.len(),
            views(names@) == toml_stems(views(file_names@).take(i as int)),
        decreases file_names.len() - i,
    {
        proof {
            assert(views(file_names@).take(i as int + 1).drop_last() =~= views(file_names@).take(i as int));
            assert(views(file_names@).take(i as int + 1).last() == file_names@[i as int]@);
        }
        match profile_name_of(file_names[i].as_str()) {
            Some(stem) => {
                proof {
                    crate::text::lemma_views_push(names@, stem);
                }
                names.push(stem);
            },
            None => {
                assert(views(names@) =~= views(names@) + Seq::<Seq<char>>::empty());
            },
        }
        i = i + 1;
    }
    proof {
        assert(views(file_names@).take(i as int) =~= views(file_names@));
    }
    sort_strings(&mut names);
    names
}

} // verus!
