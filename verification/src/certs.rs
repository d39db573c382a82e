//! Where the proxy's certificate authority lives, and the checks on it.

use vstd::prelude::*;

use crate::errors::GiantError;
use crate::text::owned;

verus! {

/// `dir` joined with the relative path `name` (`Path::join`): a `/` is put
/// between them unless `dir` is empty or already ends with one.
pub open spec fn joined_path(dir: Seq<char>, name: Seq<char>) -> Seq<char> {
    if dir.len() == 0 {
        name
    } else if dir.last() == '/' {
        dir + name
    } else {
        dir + "/"@ + name
    }
}

/// Joins a directory and a relative path (see `joined_path`).
pub fn join_path(dir: &str, name: &str) -> (p: String)
    ensures
        p@ == joined_path(dir@, name@),
{
    let n = dir.unicode_len();
    let mut p = owned(dir);
    if n == 0 {
        let r = owned(name);
        return r;
    }
    if dir.get_char(n - 1) != '/' {
        p.append("/");
    }
    p.append(name);
    p
}

/// The paths of the CA certificate and its private key.
pub struct CertAuthority {
    pub cert_path: String,
    pub key_path: String,
}

/// The CA certificate's path under a configuration directory.
pub open spec fn ca_cert_path(config_dir: Seq<char>) -> Seq<char> {
    joined_path(joined_path(config_dir, "ca"@), "giant-proxy-ca.pem"@)
}

/// The CA key's path under a configuration directory.
pub open spec fn ca_key_path(config_dir: Seq<char>) -> Seq<char> {
    joined_path(joined_path(config_dir, "ca"@), "giant-proxy-ca-key.pem"@)
}

/// The message of the error when the CA is missing.
pub open spec fn ca_missing_message() -> Seq<char> {
    "CA cert or key not found. Run `giant-proxy init` first."@
}

/// The octal digits of `n`, most significant first.
pub open spec fn oct(n: nat) -> Seq<char>
    decreases n,
{
    if n < 8 {
        seq![crate::text::digit_char(n)]
    } else {
        oct(n / 8).push(crate::text::digit_char(n % 8))
    }
}

fn push_octal(s: &mut String, n: u32)
    ensures
        final(s)@ == old(s)@ + oct(n as nat),
    decreases n,
{
    let d: char = if n % 8 == 0 { '0' } else if n % 8 == 1 { '1' } else if n % 8 == 2 { '2' }
        else if n % 8 == 3 { '3' } else if n % 8 == 4 { '4' } else if n % 8 == 5 { '5' }
        else if n % 8 == 6 { '6' } else { '7' };
    if n >= 8 {
        push_octal(s, n / 8);
    }
    crate::text::push_char(s, d);
    proof {
        assert(final(s)@ =~= old(s)@ + oct(n as nat));
    }
}

impl CertAuthority {
    /// The CA's paths under a configuration directory:
    /// `ca/giant-proxy-ca.pem` and `ca/giant-proxy-ca-key.pem`.
    pub fn paths(config_dir: &str) -> (ca: CertAuthority)
        ensures
            ca.cert_path@ == ca_cert_path(config_dir@),
            ca.key_path@ == ca_key_path(config_dir@),
    {
        let ca_dir = join_path(config_dir, "ca");
        CertAuthority {
            cert_path: join_path(ca_dir.as_str(), "giant-proxy-ca.pem"),
            key_path: join_path(ca_dir.as_str(), "giant-proxy-ca-key.pem"),
        }
    }

    /// Loads the CA of a configuration directory, given whether its
    /// certificate and key files exist; fails when either is missing.
    pub fn load(config_dir: &str, cert_exists: bool, key_exists: bool) -> (r: Result<CertAuthority, GiantError>)
        ensures
            r is Ok <==> cert_exists && key_exists,
            r matches Ok(ca) ==> ca.cert_path@ == ca_cert_path(config_dir@)
                && ca.key_path@ == ca_key_path(config_dir@),
            r matches Err(e) ==> e matches GiantError::CertError(m) && m@ == ca_missing_message(),
    {
        let ca = CertAuthority::paths(config_dir);
        if !cert_exists || !key_exists {
            return Err(GiantError::CertError(owned("CA cert or key not found. Run `giant-proxy init` first.")));
        }
        Ok(ca)
    }

    /// Checks the permission bits of the CA key: only the owner may read and
    /// write it (`600`); otherwise the error names the bits found, in octal.
    pub fn check_mode(mode: u32) -> (r: Result<(), GiantError>)
        ensures
            r is Ok <==> mode % 512 == 384,
            r matches Err(e) ==> e matches GiantError::CertError(m)
                && m@ == "CA key has permissions "@ + oct((mode % 512) as nat) + ", expected 600"@,
    {
        let bits = mode & 0o777;
        assert(bits == mode % 512) by (bit_vector)
            requires bits == mode & 0o777;
        if bits != 0o600 {
            let mut m = owned("CA key has permissions ");
            push_octal(&mut m, bits);
            m.append(", expected 600");
            return Err(GiantError::CertError(m));
        }
        Ok(())
    }
}

} // verus!
