//! What the daemon tells the shell and the operating system about the proxy:
//! the environment snippet, and the reading of network settings output.

use vstd::prelude::*;

use crate::text::{
    chars_of, dec, first_index, has_char, lemma_first_index, lemma_views_push, owned,
    push_decimal, string_of_range, trim, trimmed, views,
};

verus! {

/// The strings of `items` joined with `sep` between them.
pub open spec fn joined(items: Seq<Seq<char>>, sep: Seq<char>) -> Seq<char>
    decreases items.len(),
{
    if items.len() == 0 {
        Seq::empty()
    } else if items.len() == 1 {
        items[0]
    } else {
        joined(items.drop_last(), sep) + sep + items.last()
    }
}

/// Joins strings with a separator (`[String]::join`).
pub fn join(items: &Vec<String>, sep: &str) -> (s: String)
    ensures
        s@ == joined(views(items@), sep@),
{
    let mut s = String::new();
    let mut i: usize = 0;
    while i < items.len()
        invariant
            i <= items@.len(),
            s@ == joined(views(items@).take(i as int), sep@),
        decreases items.len() - i,
    {
        proof {
            assert(views(items@).take(i as int + 1).drop_last() =~= views(items@).take(i as int));
            assert(views(items@).take(i as int + 1).last() == items@[i as int]@);
        }
        if i > 0 {
            s.append(sep);
        } else {
            assert(views(items@).take(1)[0] == items@[0]@);
        }
        s.append(items[i].as_str());
        i = i + 1;
    }
    proof {
        assert(views(items@).take(i as int) =~= views(items@));
    }
    s
}

/// The hosts that bypass the proxy: the configured ones, joined by commas,
/// or `localhost,127.0.0.1` when none are configured.
pub open spec fn no_proxy_list(bypass: Seq<String>) -> Seq<char> {
    if bypass.len() == 0 {
        "localhost,127.0.0.1"@
    } else {
        joined(views(bypass), ","@)
    }
}

/// The shell snippet that routes a shell's traffic through the proxy.
pub open spec fn env_snippet(port: u16, ca_path: Seq<char>, bypass: Seq<String>) -> Seq<char> {
    "export HTTP_PROXY=http://127.0.0.1:"@ + dec(port as nat) + "\nexport HTTPS_PROXY=http://127.0.0.1:"@
        + dec(port as nat) + "\nexport NODE_EXTRA_CA_CERTS="@ + ca_path + "\nexport NO_PROXY="@
        + no_proxy_list(bypass)
}

/// Shell exports for `HTTP_PROXY`, `HTTPS_PROXY` (the proxy on `port`),
/// `NODE_EXTRA_CA_CERTS` (the CA certificate) and `NO_PROXY`.
pub fn generate_env_snippet(port: u16, ca_path: &str, bypass: &Vec<String>) -> (s: String)
    ensures
        s@ == env_snippet(port, ca_path@, bypass@),
{
    let no_proxy = if bypass.len() == 0 { owned("localhost,127.0.0.1") } else { join(bypass, ",") };
    let mut s = owned("export HTTP_PROXY=http://127.0.0.1:");
    push_decimal(&mut s, port as u64);
    s.append("\nexport HTTPS_PROXY=http://127.0.0.1:");
    push_decimal(&mut s, port as u64);
    s.append("\nexport NODE_EXTRA_CA_CERTS=");
    s.append(ca_path);
    s.append("\nexport NO_PROXY=");
    s.append(no_proxy.as_str());
    s
}

/// The address the proxy listens on.
pub fn listen_addr(port: u16) -> (s: String)
    ensures
        s@ == "127.0.0.1:"@ + dec(port as nat),
{
    let mut s = owned("127.0.0.1:");
    push_decimal(&mut s, port as u64);
    s
}

/// `p` occurs in `s` at position `i`.
pub open spec fn occurs_at(s: Seq<char>, p: Seq<char>, i: int) -> bool {
    0 <= i && i + p.len() <= s.len() && s.subrange(i, i + p.len()) == p
}

/// `p` occurs somewhere in `s` (`str::contains`).
pub open spec fn contains_text(s: Seq<char>, p: Seq<char>) -> bool {
    exists|i: int| #[trigger] occurs_at(s, p, i)
}

/// Whether `p` occurs in `s`.
pub fn has_text(s: &str, p: &str) -> (r: bool)
    ensures
        r == contains_text(s@, p@),
{
    let cs = chars_of(s);
    let ps = chars_of(p);
    let n = cs.len();
    let m = ps.len();
    if m > n {
        proof {
            assert forall|i: int| !#[trigger] occurs_at(s@, p@, i) by {}
        }
        return false;
    }
    let mut i: usize = 0;
    while i <= n - m
        invariant
            cs@ == s@,
            ps@ == p@,
            n == cs@.len(),
            m == ps@.len(),
            m <= n,
            i <= n - m + 1,
            forall|k: int| 0 <= k < i ==> !#[trigger] occurs_at(s@, p@, k),
        decreases n - m + 1 - i,
    {
        let mut j: usize = 0;
        let mut same = true;
        while j < m
            invariant
                cs@ == s@,
                ps@ == p@,
                n == cs@.len(),
                m == ps@.len(),
                i + m <= n,
                j <= m,
                same <==> forall|k: int| 0 <= k < j ==> cs@[i + k] == ps@[k],
            decreases m - j,
        {
            if cs[i + j] != ps[j] {
                same = false;
            }
            j = j + 1;
        }
        if same {
            proof {
                assert(s@.subrange(i as int, i + m) =~= p@);
                assert(occurs_at(s@, p@, i as int));
            }
            return true;
        }
        proof {
            if occurs_at(s@, p@, i as int) {
                assert forall|k: int| 0 <= k < m implies cs@[i + k] == ps@[k] by {
                    assert(s@.subrange(i as int, i + m)[k] == p@[k]);
                }
            }
        }
        i = i + 1;
    }
    proof {
        assert forall|k: int| !#[trigger] occurs_at(s@, p@, k) by {
            if 0 <= k && k + m <= n {
                assert(k < i);
            }
        }
    }
    false
}

/// The desktop whose proxy settings the daemon changes.
#[derive(Debug, Clone, Copy, PartialEq, Eq)]
pub enum Desktop {
    /// GNOME or Unity, configured through `gsettings`.
    Gnome,
    /// KDE, configured through `kwriteconfig`.
    Kde,
    /// Anything else; left alone.
    Other,
}

/// The desktop named by `XDG_CURRENT_DESKTOP`: GNOME or Unity first, then KDE.
pub open spec fn desktop_kind(desktop: Seq<char>) -> Desktop {
    if contains_text(desktop, "GNOME"@) || contains_text(desktop, "Unity"@) {
        Desktop::Gnome
    } else if contains_text(desktop, "KDE"@) {
        Desktop::Kde
    } else {
        Desktop::Other
    }
}

/// Reads the desktop kind off `XDG_CURRENT_DESKTOP`.
pub fn detect_desktop(desktop: &str) -> (d: Desktop)
    ensures
        d == desktop_kind(desktop@),
{
    if has_text(desktop, "GNOME") || has_text(desktop, "Unity") {
        Desktop::Gnome
    } else if has_text(desktop, "KDE") {
        Desktop::Kde
    } else {
        Desktop::Other
    }
}


/// A line without the `\r` that ended it before a `\n`.
pub open spec fn without_cr(l: Seq<char>) -> Seq<char> {
    if l.len() > 0 && l.last() == '\r' {
        l.drop_last()
    } else {
        l
    }
}

/// The lines of `s` as `str::lines` gives them: `s` split at each `\n`, a
/// `\r` just before a `\n` dropped, and no empty line after a final `\n`.
pub open spec fn text_lines(s: Seq<char>) -> Seq<Seq<char>>
    decreases s.len(),
{
    if s.len() == 0 {
        Seq::empty()
    } else {
        match first_index(s, '\n') {
            None => seq![s],
            Some(i) => {
                proof {
                    lemma_first_index(s, '\n');
                }
                seq![without_cr(s.take(i))] + text_lines(s.skip(i + 1))
            },
        }
    }
}

/// The lines of `s` (`str::lines`).
pub fn lines_of(s: &str) -> (v: Vec<String>)
    ensures
        views(v@) == text_lines(s@),
{
    let cs = chars_of(s);
    let mut v: Vec<String> = Vec::new();
    let mut start: usize = 0;
    proof {
        assert(views(v@) =~= Seq::<Seq<char>>::empty());
        assert(s@.skip(0) =~= s@);
        assert(views(v@) + text_lines(s@.skip(0)) =~= text_lines(s@));
    }
    while start < cs.len()
        invariant
            start <= cs@.len(),
            cs@ == s@,
            views(v@) + text_lines(s@.skip(start as int)) == text_lines(s@),
        decreases cs.len() - start,
    {
        let ghost rest = s@.skip(start as int);
        let mut end: usize = start;
        while end < cs.len() && cs[end] != '\n'
            invariant
                start <= end <= cs@.len(),
                forall|j: int| start <= j < end ==> cs@[j] != '\n',
            decreases cs.len() - end,
        {
            end = end + 1;
        }
        proof {
            lemma_first_index(rest, '\n');
            assert forall|j: int| 0 <= j < end - start implies rest[j] != '\n' by {
                assert(rest[j] == cs@[start + j]);
            }
            if end < cs.len() {
                assert(rest[end - start] == '\n');
            }
            match first_index(rest, '\n') {
                Some(k) => {
                    if k < end - start {
                        assert(rest[k] != '\n');
                    }
                    assert(end < cs.len());
                    if k > end - start {
                        assert(rest[end - start] != '\n');
                    }
                    assert(k == end - start);
                },
                None => {
                    if end < cs.len() {
                        assert(rest[end - start] != '\n');
                    }
                    assert(end == cs.len());
                },
            }
        }
        let mut line_end: usize = end;
        if end < cs.len() && end > start && cs[end - 1] == '\r' {
            line_end = end - 1;
        }
        let line = string_of_range(cs.as_slice(), start, line_end);
        let ghost old_v = v@;
        v.push(line);
        proof {
            lemma_views_push(old_v, line);
            if end < cs.len() {
                assert(rest.take(end - start) =~= cs@.subrange(start as int, end as int));
                assert(line@ =~= without_cr(rest.take(end - start)));
                assert(rest.skip(end - start + 1) =~= s@.skip(end + 1));
                assert(text_lines(rest) == seq![line@] + text_lines(s@.skip(end + 1)));
                assert(views(v@) + text_lines(s@.skip(end + 1)) =~= views(old_v) + text_lines(rest));
            } else {
                assert(rest =~= cs@.subrange(start as int, end as int));
                assert(s@.skip(end as int) =~= Seq::<char>::empty());
                assert(views(v@) + text_lines(s@.skip(end as int)) =~= views(old_v) + text_lines(rest));
            }
        }
        if end < cs.len() {
            start = end + 1;
        } else {
            start = end;
        }
    }
    proof {
        assert(s@.skip(start as int) =~= Seq::<char>::empty());
        assert(views(v@) =~= views(v@) + text_lines(s@.skip(start as int)));
    }
    v
}

/// The services named in a listing of network services, read from its
/// lines after the first: each line trimmed, and empty lines and lines
/// that begin with `*` (disabled services) left out.
pub open spec fn listed_services(lines: Seq<Seq<char>>) -> Seq<Seq<char>>
    decreases lines.len(),
{
    if lines.len() == 0 {
        Seq::empty()
    } else {
        let t = trimmed(lines[0]);
        let rest = listed_services(lines.drop_first());
        if t.len() == 0 || t[0] == '*' {
            rest
        } else {
            seq![t] + rest
        }
    }
}

/// The lines of a listing of network services, its heading line left out.
pub open spec fn service_lines(listing: Seq<char>) -> Seq<Seq<char>> {
    let ls = text_lines(listing);
    if ls.len() == 0 {
        ls
    } else {
        ls.drop_first()
    }
}

/// The enabled services of a network services listing whose first line is
/// a heading (as `networksetup -listallnetworkservices` prints it).
pub fn network_services(listing: &str) -> (services: Vec<String>)
    ensures
        views(services@) == listed_services(service_lines(listing@)),
{
    let lines = lines_of(listing);
    let mut services: Vec<String> = Vec::new();
    if lines.len() == 0 {
        return services;
    }
    let ghost ls = views(lines@).drop_first();
    let mut i: usize = 1;
    proof {
        assert(views(services@) =~= Seq::<Seq<char>>::empty());
        assert(ls.skip(0) =~= ls);
        assert(views(services@) + listed_services(ls.skip(0)) =~= listed_services(ls));
    }
    while i < lines.len()
        invariant
            1 <= i <= lines@.len(),
            ls == views(lines@).drop_first(),
            views(services@) + listed_services(ls.skip(i - 1)) == listed_services(ls),
        decreases lines.len() - i,
    {
        let t = trim(lines[i].as_str());
        let tc = chars_of(t.as_str());
        proof {
            assert(ls.skip(i - 1)[0] == lines@[i as int]@);
            assert(ls.skip(i - 1).drop_first() =~= ls.skip(i as int));
        }
        if tc.len() == 0 || tc[0] == '*' {
        } else {
            let ghost old_s = services@;
            services.push(t);
            proof {
                lemma_views_push(old_s, t);
                assert(views(services@) + listed_services(ls.skip(i as int))
                    =~= views(old_s) + listed_services(ls.skip(i - 1)));
            }
        }
        i = i + 1;
    }
    proof {
        assert(ls.skip(i - 1) =~= Seq::<Seq<char>>::empty());
        assert(views(services@) =~= views(services@) + listed_services(ls.skip(i - 1)));
    }
    services
}

/// `p` is a prefix of `s`.
pub open spec fn starts_with(s: Seq<char>, p: Seq<char>) -> bool {
    p.len() <= s.len() && s.take(p.len() as int) == p
}

/// A line of network service information that shows an IPv4 address: it
/// begins with `IP address`, does not say `none`, and holds a `.`.
pub open spec fn ip_line(l: Seq<char>) -> bool {
    starts_with(l, "IP address"@) && !contains_text(l, "none"@) && l.contains('.')
}

/// Whether `p` is a prefix of `s`.
pub fn has_prefix(s: &str, p: &str) -> (r: bool)
    ensures
        r == starts_with(s@, p@),
{
    let cs = chars_of(s);
    let ps = chars_of(p);
    if ps.len() > cs.len() {
        return false;
    }
    let mut j: usize = 0;
    while j < ps.len()
        invariant
            cs@ == s@,
            ps@ == p@,
            ps@.len() <= cs@.len(),
            j <= ps@.len(),
            forall|k: int| 0 <= k < j ==> cs@[k] == ps@[k],
        decreases ps.len() - j,
    {
        if cs[j] != ps[j] {
            proof {
                assert(s@.take(p@.len() as int)[j as int] != p@[j as int]);
            }
            return false;
        }
        j = j + 1;
    }
    assert(s@.take(p@.len() as int) =~= p@);
    true
}

/// Whether network service information shows an IPv4 address on one of
/// its lines (as `networksetup -getinfo` prints it).
pub fn has_ip_address(info: &str) -> (r: bool)
    ensures
        r == exists|k: int| 0 <= k < text_lines(info@).len() && #[trigger] ip_line(text_lines(info@)[k]),
{
    let lines = lines_of(info);
    let mut i: usize = 0;
    while i < lines.len()
        invariant
            i <= lines@.len(),
            views(lines@) == text_lines(info@),
            forall|k: int| 0 <= k < i ==> !#[trigger] ip_line(text_lines(info@)[k]),
        decreases lines.len() - i,
    {
        let line = lines[i].as_str();
        let lc = chars_of(line);
        let found = has_prefix(line, "IP address") && !has_text(line, "none") && has_char(lc.as_slice(), '.');
        assert(text_lines(info@)[i as int] == lines@[i as int]@);
        if found {
            assert(ip_line(text_lines(info@)[i as int]));
            return true;
        }
        i = i + 1;
    }
    false
}

} // verus!
