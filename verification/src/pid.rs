//! The daemon's PID file.

use vstd::prelude::*;

use crate::certs::{join_path, joined_path};
use crate::convert::{all_digits, digits_value, parse_u32, parsed_u32};
use crate::text::{dec, digit_char, lemma_dec_len, push_decimal, trim, trim_end_ws, trim_start_ws, trimmed};

verus! {

/// The PID file's path under a configuration directory.
pub fn pid_path(config_dir: &str) -> (p: String)
    ensures
        p@ == joined_path(config_dir@, "giantd.pid"@),
{
    join_path(config_dir, "giantd.pid")
}

/// The PID a PID file holds: its text without surrounding white space, read
/// as a `u32`; none when that fails.
pub fn parse_pid(content: &str) -> (pid: Option<u32>)
    ensures
        pid == parsed_u32(trimmed(content@)),
{
    let t = trim(content);
    parse_u32(t.as_str())
}


/// The text written to the PID file for `pid`: its decimal digits.
pub fn pid_text(pid: u32) -> (s: String)
    ensures
        s@ == dec(pid as nat),
{
    let mut s = String::new();
    push_decimal(&mut s, pid as u64);
    assert(s@ =~= dec(pid as nat));
    s
}

/// The digit character of `d` stands for `d`.
proof fn lemma_digit_char(d: nat)
    requires
        d < 10,
    ensures
        '0' <= digit_char(d) && digit_char(d) <= '9',
        digit_char(d) as int - '0' as int == d,
{
}

/// The decimal text of `n` is all digits, and its value is `n`.
proof fn lemma_dec_digits(n: nat)
    ensures
        all_digits(dec(n)),
        digits_value(dec(n)) == n,
    decreases n,
{
    if n < 10 {
        lemma_digit_char(n);
        assert(dec(n).drop_last() =~= Seq::<char>::empty());
        assert(dec(n).last() == digit_char(n));
        assert(digits_value(dec(n).drop_last()) == 0);
    } else {
        lemma_dec_digits(n / 10);
        lemma_digit_char(n % 10);
        let d = dec(n);
        assert(d.drop_last() =~= dec(n / 10));
        assert(d.last() == digit_char(n % 10));
        assert(digits_value(d) == digits_value(dec(n / 10)) * 10 + (n % 10));
        assert((n / 10) * 10 + n % 10 == n);
        assert forall|i: int| 0 <= i < d.len() implies '0' <= #[trigger] d[i] && d[i] <= '9' by {
            if i < d.len() - 1 {
                assert(d[i] == dec(n / 10)[i]);
            }
        }
    }
}

/// A PID written to the PID file reads back as the same PID: the text of
/// `pid_text(pid)`, given to `parse_pid`, gives `Some(pid)`.
pub proof fn lemma_pid_roundtrip(pid: u32)
    ensures
        parsed_u32(trimmed(dec(pid as nat))) == Some(pid),
{
    let d = dec(pid as nat);
    lemma_dec_len(pid as nat);
    lemma_dec_digits(pid as nat);
    assert('0' <= d[0] && d[0] <= '9');
    assert('0' <= d.last() && d.last() <= '9');
    assert(trim_start_ws(d) == d);
    assert(trim_end_ws(d) == d);
}

} // verus!
