//! Validated subscriber identity values: a name that is not blank, not over
//! long and free of dangerous characters, and an email address that passes
//! the mail-address validation of the validator crate.

use vstd::prelude::*;

use unicode_segmentation::UnicodeSegmentation;
use validator::ValidateEmail;

verus! {

use vstd::string::StrSliceExecFns;
use vstd::string::StringExecFns;

/// The number of extended grapheme clusters in the text. Named for
/// unicode_segmentation's segmentation, a function of the text alone.
pub uninterp spec fn grapheme_count(s: Seq<char>) -> nat;

/// Relies on unicode_segmentation's `UnicodeSegmentation::graphemes` with
/// extended grapheme clusters, counted: a pure function of the text.
#[verifier::external_body]
fn count_graphemes(s: &str) -> (r: usize)
    ensures
        r as nat == grapheme_count(s@),
{
    s.graphemes(true).count()
}

/// The text with leading and trailing whitespace removed. Named for std's
/// `str::trim`, a function of the text alone.
pub uninterp spec fn trimmed_of(s: Seq<char>) -> Seq<char>;

/// Relies on std's `str::trim`: returns the string with leading and trailing
/// whitespace removed.
#[verifier::external_body]
fn trim_str(s: &str) -> (r: &str)
    ensures
        r@ == trimmed_of(s@),
{
    s.trim()
}

/// Whether the text is a well-formed email address under validator's rules.
/// Named for validator's `ValidateEmail::validate_email`, a function of the
/// text alone.
pub uninterp spec fn email_ok(s: Seq<char>) -> bool;

/// Relies on validator's `ValidateEmail` impl for `String`: its source
/// rejects an empty string outright; the full rule (user and domain parts,
/// length limits, domain syntax) is named rather than restated.
#[verifier::external_body]
fn validate_email_str(s: &String) -> (r: bool)
    ensures
        r == email_ok(s@),
        s@.len() == 0 ==> !r,
{
    s.validate_email()
}

/// A character a subscriber name may not contain.
pub open spec fn is_forbidden_name_char(c: char) -> bool {
    ||| c == '/'
    ||| c == '('
    ||| c == ')'
    ||| c == '"'
    ||| c == '<'
    ||| c == '>'
    ||| c == '\\'
    ||| c == '{'
    ||| c == '}'
}

/// A valid subscriber name: not whitespace-only, at most 256 graphemes, and
/// free of forbidden characters.
pub open spec fn valid_subscriber_name(s: Seq<char>) -> bool {
    &&& trimmed_of(s).len() != 0
    &&& grapheme_count(s) <= 256
    &&& forall|i: int| 0 <= i < s.len() ==> !is_forbidden_name_char(#[trigger] s[i])
}

/// The message `parse` rejects a name with: the first failed check decides.
pub open spec fn subscriber_name_error(s: Seq<char>) -> Seq<char> {
    if trimmed_of(s).len() == 0 {
        "Failed to parse subscriber name: cannot be empty"@
    } else if grapheme_count(s) > 256 {
        "Failed to parse subscriber name: too long"@
    } else {
        "Failed to parse subscriber name: invalid character"@
    }
}

/// A subscriber's display name, held only once validated.
#[derive(Debug)]
pub struct SubscriberName(pub String);

impl SubscriberName {
    /// Validates a subscriber name: rejects whitespace-only input, more than
    /// 256 graphemes, and the characters `/ ( ) " < > \ { }`.
    pub fn parse(s: String) -> (r: Result<SubscriberName, String>)
        ensures
            match r {
                Ok(n) => valid_subscriber_name(s@) && n.0@ == s@,
                Err(e) => !valid_subscriber_name(s@) && e@ == subscriber_name_error(s@),
            },
    {
        let trimmed = trim_str(s.as_str());
        if trimmed.unicode_len() == 0 {
            return Err(String::from_str("Failed to parse subscriber name: cannot be empty"));
        }
        if count_graphemes(s.as_str()) > 256 {
            return Err(String::from_str("Failed to parse subscriber name: too long"));
        }
        let n = s.as_str().unicode_len();
        let mut i: usize = 0;
        while i < n
            invariant
                n == s@.len(),
                i <= n,
                grapheme_count(s@) <= 256,
                trimmed_of(s@).len() != 0,
                forall|k: int| 0 <= k < i ==> !is_forbidden_name_char(#[trigger] s@[k]),
            decreases n - i,
        {
            let c = s.as_str().get_char(i);
            if c == '/' || c == '(' || c == ')' || c == '"' || c == '<' || c == '>' || c == '\\'
                || c == '{' || c == '}' {
                proof {
                    assert(is_forbidden_name_char(s@[i as int]));
                    assert(!valid_subscriber_name(s@));
                }
                return Err(
                    String::from_str("Failed to parse subscriber name: invalid character"),
                );
            }
            proof {
                assert(!is_forbidden_name_char(s@[i as int]));
            }
            i = i + 1;
        }
        Ok(SubscriberName(s))
    }

    /// The validated name's text.
    pub fn as_str(&self) -> (r: &str)
        ensures
            r@ == self.0@,
    {
        self.0.as_str()
    }
}

/// A subscriber's email address, held only once validated.
#[derive(Debug)]
pub struct SubscriberEmail(pub String);

impl SubscriberEmail {
    /// Validates an email address with validator's mail-address rules.
    pub fn parse(s: String) -> (r: Result<SubscriberEmail, String>)
        ensures
            match r {
                Ok(m) => email_ok(s@) && m.0@ == s@,
                Err(e) => !email_ok(s@) && e@ == "Failed to parse subscriber email: '"@ + s@
                    + "'"@,
            },
    {
        if validate_email_str(&s) {
            Ok(SubscriberEmail(s))
        } else {
            let msg = String::from_str("Failed to parse subscriber email: '").concat(
                s.as_str(),
            ).concat("'");
            Err(msg)
        }
    }

    /// The validated address's text.
    pub fn as_str(&self) -> (r: &str)
        ensures
            r@ == self.0@,
    {
        self.0.as_str()
    }
}

/// A validated subscriber: name and email together.
#[derive(Debug)]
pub struct NewSubscriber {
    pub email: SubscriberEmail,
    pub name: SubscriberName,
}

impl NewSubscriber {
    /// Validates a raw (email, name) pair, the name first: the first failing
    /// field's message is returned.
    pub fn try_from_parts(email: String, name: String) -> (r: Result<NewSubscriber, String>)
        ensures
            match r {
                Ok(n) => valid_subscriber_name(name@) && email_ok(email@) && n.name.0@ == name@
                    && n.email.0@ == email@,
                Err(e) => !(valid_subscriber_name(name@) && email_ok(email@)) && (
                !valid_subscriber_name(name@) ==> e@ == subscriber_name_error(name@)) && (
                valid_subscriber_name(name@) ==> e@ == "Failed to parse subscriber email: '"@
                    + email@ + "'"@),
            },
    {
        let name = match SubscriberName::parse(name) {
            Ok(n) => n,
            Err(e) => {
                return Err(e);
            },
        };
        let email = match SubscriberEmail::parse(email) {
            Ok(m) => m,
            Err(e) => {
                return Err(e);
            },
        };
        Ok(NewSubscriber { email, name })
    }
}

} // verus!
