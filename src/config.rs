//! Start-up settings: where storage lives, the payment credential, and
//! whether the service runs in development mode.

use vstd::prelude::*;

verus! {

/// The storage location used when none is configured.
pub const DEFAULT_DATABASE_URL: &'static str = "sqlite://./db/shop.db";

/// The scheme that marks a storage location as a file path.
pub const SQLITE_SCHEME: &'static str = "sqlite://";

/// The address the HTTP server binds to.
pub const BIND_HOST: &'static str = "127.0.0.1";

/// The port the HTTP server binds to.
pub const BIND_PORT: u16 = 5526;

/// A condition under which the service must not start.
#[derive(Clone, Copy, Debug, PartialEq, Eq, Structural)]
pub enum StartupError {
    /// No payment provider credential is configured.
    MissingPaymentSecret,
}

/// The storage location: the configured one, else the default.
pub fn database_url(configured: Option<String>) -> (r: String)
    ensures
        r@ == match configured {
            Some(s) => s@,
            None => DEFAULT_DATABASE_URL@,
        },
{
    match configured {
        Some(s) => s,
        None => DEFAULT_DATABASE_URL.to_owned(),
    }
}

/// The payment provider credential; its absence stops start-up.
pub fn payment_secret(configured: Option<String>) -> (r: Result<String, StartupError>)
    ensures
        match configured {
            Some(s) => r == Ok::<String, StartupError>(s),
            None => r == Err::<String, StartupError>(StartupError::MissingPaymentSecret),
        },
{
    match configured {
        Some(s) => Ok(s),
        None => Err(StartupError::MissingPaymentSecret),
    }
}

/// Whether two texts hold the same characters.
pub fn same_text(a: &str, b: &str) -> (r: bool)
    ensures
        r == (a@ == b@),
{
    let n = a.unicode_len();
    if n != b.unicode_len() {
        return false;
    }
    let mut i: usize = 0;
    while i < n
        invariant
            i <= n,
            n == a@.len(),
            n == b@.len(),
            a@.take(i as int) == b@.take(i as int),
        decreases n - i,
    {
        if a.get_char(i) != b.get_char(i) {
            assert(a@[i as int] != b@[i as int]);
            return false;
        }
        assert(a@.take(i + 1) =~= a@.take(i as int).push(a@[i as int]));
        assert(b@.take(i + 1) =~= b@.take(i as int).push(b@[i as int]));
        i = i + 1;
    }
    assert(a@.take(n as int) =~= a@);
    assert(b@.take(n as int) =~= b@);
    true
}

/// The lower-case form of a text, as `str::to_lowercase` gives it.
pub uninterp spec fn lower_of(s: Seq<char>) -> Seq<char>;

/// Relies on `str::to_lowercase`: the result depends on the characters alone.
#[verifier::external_body]
fn lowercase(s: &str) -> (r: String)
    ensures
        r@ == lower_of(s@),
{
    s.to_lowercase()
}

/// Whether a development-mode setting turns the mode on, given the setting
/// and its lower-case form: it is `1`, or its lower-case form is `true`.
pub fn dev_mode_from(raw: &str, lowered: &str) -> (r: bool)
    ensures
        r == (raw@ == "1"@ || lowered@ == "true"@),
{
    same_text(raw, "1") || same_text(lowered, "true")
}

/// Whether the service runs in development mode: the setting is present and
/// is `1` or, in any case, `true`.
pub fn dev_mode(configured: Option<String>) -> (r: bool)
    ensures
        r == match configured {
            Some(v) => v@ == "1"@ || lower_of(v@) == "true"@,
            None => false,
        },
{
    match configured {
        Some(v) => {
            let lowered = lowercase(v.as_str());
            dev_mode_from(v.as_str(), lowered.as_str())
        },
        None => false,
    }
}

/// The file path of a storage location written `sqlite://<path>`.
pub fn sqlite_file_path(url: &str) -> (r: Option<String>)
    ensures
        match r {
            Some(p) => url@.len() >= SQLITE_SCHEME@.len() && url@.take(SQLITE_SCHEME@.len() as int)
                == SQLITE_SCHEME@ && p@ == url@.skip(SQLITE_SCHEME@.len() as int),
            None => !(url@.len() >= SQLITE_SCHEME@.len() && url@.take(SQLITE_SCHEME@.len() as int)
                == SQLITE_SCHEME@),
        },
{
    let n = url.unicode_len();
    let k = SQLITE_SCHEME.unicode_len();
    if n < k {
        return None;
    }
    let head = url.substring_char(0, k);
    if !same_text(head, SQLITE_SCHEME) {
        return None;
    }
    let rest = url.substring_char(k, n);
    assert(rest@ =~= url@.skip(k as int));
    Some(rest.to_owned())
}

} // verus!
