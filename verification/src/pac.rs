//! The proxy auto-config (PAC) script that sends matched hosts to the proxy.

use vstd::prelude::*;

use crate::rules::Rule;
use crate::seqs::{dedup_into, lemma_dedup_covers, lemma_dedup_no_duplicates};
use crate::text::{lemma_first_index, unescaped, unescape_from, chars_of, contains_view, dec, find_char, first_index, has_char, lemma_views_push,
    owned, push_decimal, string_of_range, views};

verus! {

/// `s` with every leading copy of `p` removed (`str::trim_start_matches`).
pub open spec fn strip_all(s: Seq<char>, p: Seq<char>) -> Seq<char>
    decreases s.len(),
{
    if p.len() > 0 && s.len() >= p.len() && s.take(p.len() as int) == p {
        strip_all(s.skip(p.len() as int), p)
    } else {
        s
    }
}

/// What is left of a regex after its anchor, its scheme, `://` and a leading
/// `.*` are stripped.
pub open spec fn regex_rest(re: Seq<char>) -> Seq<char> {
    strip_all(strip_all(strip_all(strip_all(strip_all(strip_all(strip_all(
        re, "^"@), "(https)"@), "(http)"@), "https"@), "http"@), "://"@), ".*"@)
}

/// The host glob read off a URL regex such as `^(https)://.*\.example\.com/path.*`:
/// the literal host up to the first `/`, with `\.` unescaped and prefixed with `*`, when
/// it has a dot and no `(` or `[`; otherwise none.
pub open spec fn regex_hosts(re: Seq<char>) -> Seq<Seq<char>> {
    let rest = regex_rest(re);
    match first_index(rest, '/') {
        Some(k) => {
            let host = unescaped(rest.take(k), '.');
            if host.contains('.') && !host.contains('(') && !host.contains('[') {
                seq![seq!['*'] + host]
            } else {
                Seq::empty()
            }
        },
        None => Seq::empty(),
    }
}

/// Where `strip_all` leaves off, as an index into `cs`.
fn strip_from(cs: &Vec<char>, start: usize, p: &Vec<char>) -> (r: usize)
    requires
        start <= cs@.len(),
    ensures
        start <= r <= cs@.len(),
        cs@.skip(r as int) == strip_all(cs@.skip(start as int), p@),
    decreases cs@.len() - start,
{
    let n = cs.len();
    let m = p.len();
    if m == 0 || n - start < m {
        return start;
    }
    let mut j: usize = 0;
    while j < m
        invariant
            m == p@.len(),
            start + m <= n == cs@.len(),
            j <= m,
            forall|k: int| 0 <= k < j ==> cs@[start + k] == p@[k],
        decreases m - j,
    {
        if cs[start + j] != p[j] {
            proof {
                assert(cs@.skip(start as int).take(m as int)[j as int] != p@[j as int]);
            }
            return start;
        }
        j = j + 1;
    }
    proof {
        assert(cs@.skip(start as int).take(m as int) =~= p@);
        assert(cs@.skip(start as int).skip(m as int) =~= cs@.skip((start + m) as int));
    }
    strip_from(cs, start + m, p)
}

/// The host glob read off a URL regex, if any (see `regex_hosts`).
pub fn extract_hosts_from_regex(re: &str) -> (hosts: Vec<String>)
    ensures
        hosts@.len() == regex_hosts(re@).len(),
        forall|i: int| 0 <= i < hosts@.len() ==> #[trigger] hosts@[i]@ == regex_hosts(re@)[i],
{
    let cs = chars_of(re);
    let mut at: usize = 0;
    proof {
        assert(cs@.skip(0) =~= cs@);
    }
    at = strip_from(&cs, at, &chars_of("^"));
    at = strip_from(&cs, at, &chars_of("(https)"));
    at = strip_from(&cs, at, &chars_of("(http)"));
    at = strip_from(&cs, at, &chars_of("https"));
    at = strip_from(&cs, at, &chars_of("http"));
    at = strip_from(&cs, at, &chars_of("://"));
    at = strip_from(&cs, at, &chars_of(".*"));
    let rest_len = cs.len() - at;
    let ghost rest = cs@.skip(at as int);
    assert(rest == regex_rest(re@));
    let mut hosts: Vec<String> = Vec::new();
    let rest_cs = chars_of(string_of_range(cs.as_slice(), at, cs.len()).as_str());
    assert(rest_cs@ =~= rest);
    match find_char(rest_cs.as_slice(), '/') {
        Some(k) => {
            let host = unescape_from(&rest_cs, 0, k, '.');
            proof {
                assert(rest_cs@.subrange(0, k as int) =~= rest.take(k as int));
            }
            if has_char(host.as_slice(), '.') && !has_char(host.as_slice(), '(')
                && !has_char(host.as_slice(), '[') {
                let mut h = owned("*");
                h.append(string_of_range(host.as_slice(), 0, host.len()).as_str());
                proof {
                    assert(host@.subrange(0, host@.len() as int) =~= host@);
                    assert(h@ =~= seq!['*'] + host@) by {
                        reveal_strlit("*");
                    }
                }
                hosts.push(h);
            }
        },
        None => {},
    }
    hosts
}

/// The host globs a rule contributes to the PAC script: none when disabled;
/// else its host pattern, then the host read off its regex.
pub open spec fn rule_pac_hosts(r: Rule) -> Seq<Seq<char>> {
    if !r.enabled {
        Seq::empty()
    } else {
        (match r.match_rule.host {
            Some(h) => seq![h@],
            None => Seq::empty(),
        }) + (match r.match_rule.regex {
            Some(re) => regex_hosts(re@),
            None => Seq::empty(),
        })
    }
}

/// The host globs of all rules, in rule order, repeats included.
pub open spec fn pac_candidates(rules: Seq<Rule>) -> Seq<Seq<char>>
    decreases rules.len(),
{
    if rules.len() == 0 {
        Seq::empty()
    } else {
        pac_candidates(rules.drop_last()) + rule_pac_hosts(rules.last())
    }
}

/// The host globs the PAC script sends to the proxy: each candidate once, at
/// its first appearance.
pub open spec fn pac_hosts(rules: Seq<Rule>) -> Seq<Seq<char>> {
    dedup_into(Seq::empty(), pac_candidates(rules))
}

/// The clause that sends one host glob to the proxy.
pub open spec fn pac_clause(h: Seq<char>, port: u16) -> Seq<char> {
    "  if (shExpMatch(host, \""@ + h + "\")) {\n    return \"PROXY 127.0.0.1:"@ + dec(port as nat)
        + "\";\n  }"@
}

/// The clauses for the host globs, one per line.
pub open spec fn clauses_text(hosts: Seq<Seq<char>>, port: u16) -> Seq<char>
    decreases hosts.len(),
{
    if hosts.len() == 0 {
        Seq::empty()
    } else if hosts.len() == 1 {
        pac_clause(hosts[0], port)
    } else {
        clauses_text(hosts.drop_last(), port) + "\n"@ + pac_clause(hosts.last(), port)
    }
}

/// The PAC script: the clauses, then a `DIRECT` default.
pub open spec fn pac_script(hosts: Seq<Seq<char>>, port: u16) -> Seq<char> {
    "function FindProxyForURL(url, host) {\n"@ + (if hosts.len() == 0 {
        "  return \"DIRECT\";"@
    } else {
        clauses_text(hosts, port) + "\n  return \"DIRECT\";"@
    }) + "\n}"@
}

/// The host globs one rule contributes (see `rule_pac_hosts`).
fn rule_hosts(r: &Rule) -> (v: Vec<String>)
    ensures
        views(v@) == rule_pac_hosts(*r),
{
    let mut v: Vec<String> = Vec::new();
    if !r.enabled {
        assert(views(v@) =~= rule_pac_hosts(*r));
        return v;
    }
    match &r.match_rule.host {
        Some(h) => {
            v.push(h.clone());
        },
        None => {},
    }
    let ghost first = views(v@);
    match &r.match_rule.regex {
        Some(re) => {
            let hs = extract_hosts_from_regex(re.as_str());
            let mut k: usize = 0;
            while k < hs.len()
                invariant
                    k <= hs@.len(),
                    hs@.len() == regex_hosts(re@).len(),
                    forall|i: int| 0 <= i < hs@.len() ==> #[trigger] hs@[i]@ == regex_hosts(re@)[i],
                    views(v@) == first + regex_hosts(re@).take(k as int),
                decreases hs.len() - k,
            {
                proof {
                    lemma_views_push(v@, hs@[k as int]);
                    assert(first + regex_hosts(re@).take(k as int + 1)
                        =~= (first + regex_hosts(re@).take(k as int)).push(hs@[k as int]@));
                }
                v.push(hs[k].clone());
                k = k + 1;
            }
            proof {
                assert(regex_hosts(re@).take(k as int) =~= regex_hosts(re@));
            }
        },
        None => {
            assert(first + Seq::<Seq<char>>::empty() =~= first);
        },
    }
    proof {
        assert(views(v@) =~= rule_pac_hosts(*r));
    }
    v
}

/// Appends one PAC clause to `s`.
fn push_clause(s: &mut String, h: &str, port: u16)
    ensures
        final(s)@ == old(s)@ + pac_clause(h@, port),
{
    s.append("  if (shExpMatch(host, \"");
    s.append(h);
    s.append("\")) {\n    return \"PROXY 127.0.0.1:");
    push_decimal(s, port as u64);
    s.append("\";\n  }");
    proof {
        assert(final(s)@ =~= old(s)@ + pac_clause(h@, port));
    }
}

/// The PAC script for the rules: every host glob of an enabled rule (its host
/// pattern, and the host read off its regex) is sent to the proxy on
/// `proxy_port`, each once; everything else goes `DIRECT`.
pub fn generate_pac(rules: &Vec<Rule>, proxy_port: u16) -> (s: String)
    ensures
        s@ == pac_script(pac_hosts(rules@), proxy_port),
{
    let mut cand: Vec<String> = Vec::new();
    let mut i: usize = 0;
    while i < rules.len()
        invariant
            i <= rules@.len(),
            views(cand@) == pac_candidates(rules@.take(i as int)),
        decreases rules.len() - i,
    {
        let hs = rule_hosts(&rules[i]);
        let ghost before = cand@;
        let mut k: usize = 0;
        while k < hs.len()
            invariant
                k <= hs@.len(),
                views(hs@) == rule_pac_hosts(rules@[i as int]),
                views(cand@) == views(before) + views(hs@).take(k as int),
            decreases hs.len() - k,
        {
            proof {
                lemma_views_push(cand@, hs@[k as int]);
                assert(views(before) + views(hs@).take(k as int + 1)
                    =~= (views(before) + views(hs@).take(k as int)).push(hs@[k as int]@));
            }
            cand.push(hs[k].clone());
            k = k + 1;
        }
        proof {
            assert(views(hs@).take(k as int) =~= views(hs@));
            assert(rules@.take(i as int + 1).drop_last() =~= rules@.take(i as int));
        }
        i = i + 1;
    }
    proof {
        assert(rules@.take(rules@.len() as int) =~= rules@);
    }
    let mut seen: Vec<String> = Vec::new();
    let mut k: usize = 0;
    proof {
        assert(views(cand@).skip(0) =~= views(cand@));
        assert(views(seen@) =~= Seq::<Seq<char>>::empty());
    }
    while k < cand.len()
        invariant
            k <= cand@.len(),
            views(cand@) == pac_candidates(rules@),
            dedup_into(views(seen@), views(cand@).skip(k as int)) == pac_hosts(rules@),
        decreases cand.len() - k,
    {
        proof {
            assert(views(cand@).skip(k as int).drop_first() =~= views(cand@).skip(k as int + 1));
            assert(views(cand@).skip(k as int)[0] == cand@[k as int]@);
        }
        if !contains_view(&seen, cand[k].as_str()) {
            proof {
                lemma_views_push(seen@, cand@[k as int]);
            }
            seen.push(cand[k].clone());
        }
        k = k + 1;
    }
    proof {
        assert(views(cand@).skip(k as int) =~= Seq::<Seq<char>>::empty());
    }
    let ghost hosts = views(seen@);
    let mut body = String::new();
    let mut j: usize = 0;
    while j < seen.len()
        invariant
            j <= seen@.len(),
            hosts == views(seen@),
            body@ == clauses_text(hosts.take(j as int), proxy_port),
        decreases seen.len() - j,
    {
        proof {
            assert(hosts.take(j as int + 1).drop_last() =~= hosts.take(j as int));
            assert(hosts.take(j as int + 1).last() == seen@[j as int]@);
        }
        if j > 0 {
            body.append("\n");
        } else {
            assert(hosts.take(1)[0] == seen@[0]@);
        }
        push_clause(&mut body, seen[j].as_str(), proxy_port);
        j = j + 1;
    }
    proof {
        assert(hosts.take(j as int) =~= hosts);
    }
    let mut s = owned("function FindProxyForURL(url, host) {\n");
    if seen.len() == 0 {
        s.append("  return \"DIRECT\";");
    } else {
        s.append(body.as_str());
        s.append("\n  return \"DIRECT\";");
    }
    s.append("\n}");
    proof {
        assert(s@ =~= pac_script(pac_hosts(rules@), proxy_port));
    }
    s
}

/// The PAC script names each host glob at most once, and names every host
/// glob of every enabled rule.
pub proof fn lemma_pac_hosts(rules: Seq<Rule>)
    ensures
        pac_hosts(rules).no_duplicates(),
        forall|i: int| 0 <= i < pac_candidates(rules).len()
            ==> pac_hosts(rules).contains(#[trigger] pac_candidates(rules)[i]),
{
    lemma_dedup_no_duplicates(Seq::empty(), pac_candidates(rules));
    lemma_dedup_covers(Seq::empty(), pac_candidates(rules));
}

/// `s` begins with `p`.
pub open spec fn begins(s: Seq<char>, p: Seq<char>) -> bool {
    p.len() <= s.len() && s.take(p.len() as int) == p
}

proof fn lemma_not_begins(s: Seq<char>, p: Seq<char>, k: int)
    requires
        0 <= k < p.len(),
        k < s.len() ==> s[k] != p[k],
    ensures
        !begins(s, p),
        strip_all(s, p) == s,
{
    if begins(s, p) {
        assert(s.take(p.len() as int)[k] == s[k]);
    }
}

proof fn lemma_strip_once(p: Seq<char>, r: Seq<char>)
    requires
        p.len() > 0,
        !begins(r, p),
    ensures
        strip_all(p + r, p) == r,
{
    let s = p + r;
    assert(s.take(p.len() as int) =~= p);
    assert(s.skip(p.len() as int) =~= r);
    assert(strip_all(r, p) == r);
    assert(strip_all(s, p) == strip_all(s.skip(p.len() as int), p));
}

/// Unescaping adds no character but the one it unescapes.
proof fn lemma_unescaped_from(s: Seq<char>, c: char, y: char)
    requires
        unescaped(s, c).contains(y),
    ensures
        y == c || s.contains(y),
    decreases s.len(),
{
    let u = unescaped(s, c);
    let k = choose|k: int| 0 <= k < u.len() && u[k] == y;
    if s.len() >= 2 && s[0] == '\\' && s[1] == c {
        if k > 0 {
            assert(unescaped(s.skip(2), c)[k - 1] == y);
            lemma_unescaped_from(s.skip(2), c, y);
            if y != c {
                let j = choose|j: int| 0 <= j < s.skip(2).len() && s.skip(2)[j] == y;
                assert(s[j + 2] == y);
            }
        }
    } else if s.len() > 0 {
        if k > 0 {
            assert(unescaped(s.drop_first(), c)[k - 1] == y);
            lemma_unescaped_from(s.drop_first(), c, y);
            if y != c {
                let j = choose|j: int| 0 <= j < s.drop_first().len() && s.drop_first()[j] == y;
                assert(s[j + 1] == y);
            }
        } else {
            assert(s[0] == y);
        }
    }
}

/// For a URL regex `^https://<h>/<t>` or `^http://<h>/<t>`, possibly with a
/// `.*` wildcard before the host (`^https://.*<h>/<t>`), whose host part `h`
/// does not begin with `.*`, holds no `/`, `(` or `[`, and has a dot once `\.`
/// is unescaped, the host globs read off it are exactly `*` followed by the
/// unescaped host: the literal scheme, `://` and the wildcard are stripped
/// before the host is taken.
pub proof fn lemma_scheme_regex_host(secure: bool, wild: bool, h: Seq<char>, t: Seq<char>)
    requires
        !(h.len() >= 2 && h[0] == '.' && h[1] == '*'),
        !h.contains('/'),
        !h.contains('('),
        !h.contains('['),
        unescaped(h, '.').contains('.'),
    ensures
        regex_hosts((if secure { "^https://"@ } else { "^http://"@ }) + (if wild { ".*"@ } else { ""@ })
            + h + "/"@ + t) == seq![seq!['*'] + unescaped(h, '.')],
{
    reveal_strlit("^https://");
    reveal_strlit("^http://");
    reveal_strlit("^");
    reveal_strlit("(https)");
    reveal_strlit("(http)");
    reveal_strlit("https");
    reveal_strlit("http");
    reveal_strlit("://");
    reveal_strlit(".*");
    reveal_strlit("");
    reveal_strlit("/");
    let y = h + "/"@ + t;
    let w = if wild { ".*"@ } else { ""@ };
    let x = w + y;
    let re = (if secure { "^https://"@ } else { "^http://"@ }) + w + h + "/"@ + t;
    // The host part is not empty; a one-character host is a dot.
    assert(h.len() >= 1) by {
        if h.len() == 0 {
            assert(unescaped(h, '.') =~= Seq::<char>::empty());
        }
    }
    if h.len() == 1 {
        assert(unescaped(h.drop_first(), '.') =~= Seq::<char>::empty());
        assert(unescaped(h, '.') =~= seq![h[0]]);
        assert(h[0] == '.');
    }
    assert(y[h.len() as int] == '/');
    assert forall|j: int| 0 <= j < h.len() implies y[j] == h[j] && y[j] != '/' by {
        if y[j] == '/' {
            assert(h[j] == '/');
        }
    }
    let s2 = "://"@ + x;
    let s1 = if secure { "https"@ + s2 } else { "http"@ + s2 };
    assert(re =~= "^"@ + s1);
    assert(s1[0] == 'h');
    lemma_not_begins(s1, "^"@, 0);
    lemma_strip_once("^"@, s1);
    lemma_not_begins(s1, "(https)"@, 0);
    lemma_not_begins(s1, "(http)"@, 0);
    lemma_not_begins(s2, "https"@, 0);
    lemma_not_begins(s2, "http"@, 0);
    if secure {
        lemma_strip_once("https"@, s2);
    } else {
        assert(s1[4] == ':');
        lemma_not_begins(s1, "https"@, 4);
        lemma_strip_once("http"@, s2);
    }
    // Neither `://` nor `.*` begins the host part.
    if h.len() >= 2 {
        assert(y[1] == h[1]);
        lemma_not_begins(y, "://"@, 1);
        if h[0] != '.' {
            lemma_not_begins(y, ".*"@, 0);
        } else {
            lemma_not_begins(y, ".*"@, 1);
        }
    } else {
        lemma_not_begins(y, "://"@, 0);
        lemma_not_begins(y, ".*"@, 1);
    }
    if wild {
        assert(x[0] == '.');
        lemma_not_begins(x, "://"@, 0);
        lemma_strip_once("://"@, x);
        lemma_strip_once(".*"@, y);
    } else {
        assert(x =~= y);
        lemma_strip_once("://"@, x);
    }
    assert(regex_rest(re) == y);
    lemma_first_index(y, '/');
    match first_index(y, '/') {
        Some(k) => {
            if k < h.len() {
                assert(y[k] != '/');
            }
            if k > h.len() {
                assert(y[h.len() as int] != '/');
            }
            assert(k == h.len());
        },
        None => {
            assert(y[h.len() as int] != '/');
        },
    }
    assert(y.take(h.len() as int) =~= h);
    let host = unescaped(h, '.');
    if host.contains('(') {
        lemma_unescaped_from(h, '.', '(');
    }
    if host.contains('[') {
        lemma_unescaped_from(h, '.', '[');
    }
}

} // verus!
