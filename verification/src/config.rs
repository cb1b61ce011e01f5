//! The runtime environment selector: which configuration overlay the
//! application loads.

use vstd::prelude::*;

verus! {

use vstd::string::StringExecFns;

/// The Unicode lowercase mapping of the text. Named for std's
/// `str::to_lowercase`, a function of the text alone.
pub uninterp spec fn lower_of(s: Seq<char>) -> Seq<char>;

/// Relies on std's `str::to_lowercase`: the lowercase equivalent of the
/// string, per the Unicode lowercase mapping.
#[verifier::external_body]
fn to_lowercase_str(s: &str) -> (r: String)
    ensures
        r@ == lower_of(s@),
{
    s.to_lowercase()
}

/// The environment an application runs in.
#[derive(Debug, Clone, Copy, PartialEq, Eq, Structural)]
pub enum Environment {
    Local,
    Production,
}

impl Environment {
    /// The environment's configuration-file stem.
    pub fn as_str(&self) -> (r: &'static str)
        ensures
            *self is Local ==> r@ == "local"@,
            *self is Production ==> r@ == "production"@,
    {
        match self {
            Environment::Local => "local",
            Environment::Production => "production",
        }
    }

    /// Parses an environment name, case-insensitively: anything but "local"
    /// or "production" is rejected, naming the offending lowercased value.
    pub fn try_from(value: String) -> (r: Result<Environment, String>)
        ensures
            match r {
                Ok(Environment::Local) => lower_of(value@) == "local"@,
                Ok(Environment::Production) => lower_of(value@) == "production"@,
                Err(e) => lower_of(value@) != "local"@ && lower_of(value@) != "production"@ && e@
                    == lower_of(value@)
                    + " is not a supported environment. Use 'local' or 'production'."@,
            },
    {
        let low = to_lowercase_str(value.as_str());
        if low == String::from_str("local") {
            Ok(Environment::Local)
        } else if low == String::from_str("production") {
            Ok(Environment::Production)
        } else {
            Err(low.concat(" is not a supported environment. Use 'local' or 'production'."))
        }
    }
}

} // verus!
