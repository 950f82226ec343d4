//! The deployment profile and its resolution from the selector variable.

use vstd::prelude::*;
use vstd::string::StringExecFns;

verus! {

broadcast use vstd::string::group_string_axioms;

/// A deployment profile. Its canonical lowercase textual form is used both
/// for parsing the selector variable and for building candidate file names;
/// the mapping between variants and names is a case-sensitive bijection.
#[derive(Clone, Copy, PartialEq, Eq, Structural, Debug)]
pub enum Profile {
    Dev,
    Prod,
}

/// An error from resolving the profile selector: the selector was set to a
/// string that names no profile. Carries the offending value.
#[derive(PartialEq, Eq, Debug)]
pub enum ParseError {
    InvalidProfile(String),
}

impl Profile {
    /// The canonical lowercase textual form of this profile.
    pub open spec fn name_spec(self) -> Seq<char> {
        match self {
            Profile::Dev => "dev"@,
            Profile::Prod => "prod"@,
        }
    }

    /// Returns the canonical lowercase textual form.
    pub fn name(&self) -> (r: String)
        ensures
            r@ == self.name_spec(),
    {
        match self {
            Profile::Dev => "dev".to_string(),
            Profile::Prod => "prod".to_string(),
        }
    }
}

/// Whether `s` is the canonical name of some profile.
pub open spec fn is_profile_name(s: Seq<char>) -> bool {
    s == "dev"@ || s == "prod"@
}

/// The message carried out for an unrecognized selector value `raw`: it names
/// the offending value and the two valid choices.
pub open spec fn invalid_profile_message_spec(raw: Seq<char>) -> Seq<char> {
    "Invalid APP_ENV: "@ + raw + ". Must be 'dev' or 'prod'"@
}

impl ParseError {
    /// Renders the error as a message naming the offending value and the two
    /// valid choices.
    pub fn message(&self) -> (r: String)
        ensures
            (match self {
                ParseError::InvalidProfile(raw) => r@ == invalid_profile_message_spec(raw@),
            }),
    {
        match self {
            ParseError::InvalidProfile(raw) => {
                let mut m: String = "Invalid APP_ENV: ".to_string();
                m.append(raw.as_str());
                m.append(". Must be 'dev' or 'prod'");
                m
            },
        }
    }
}

/// Parses a profile name, case-sensitively: exactly "dev" or "prod" is
/// accepted; anything else fails with `InvalidProfile` carrying the input.
pub fn parse_profile(s: &String) -> (r: Result<Profile, ParseError>)
    ensures
        s@ == "dev"@ ==> r == Ok::<Profile, ParseError>(Profile::Dev),
        s@ == "prod"@ ==> r == Ok::<Profile, ParseError>(Profile::Prod),
        !is_profile_name(s@) ==> r == Err::<Profile, ParseError>(ParseError::InvalidProfile(*s)),
        r is Err <==> !is_profile_name(s@),
{
    proof {
        reveal_strlit("dev");
        reveal_strlit("prod");
        assert("dev"@.len() == 3);
        assert("prod"@.len() == 4);
        assert("dev"@ != "prod"@);
    }
    let dev: String = "dev".to_string();
    let prod: String = "prod".to_string();
    if *s == dev {
        Ok(Profile::Dev)
    } else if *s == prod {
        Ok(Profile::Prod)
    } else {
        Err(ParseError::InvalidProfile(s.clone()))
    }
}

/// Resolves the profile from the selector variable's value, if any: absent
/// means the default profile (`Dev`); present means the value is parsed
/// case-sensitively, any unrecognized value failing with `InvalidProfile`.
pub fn resolve_profile(selector: Option<String>) -> (r: Result<Profile, ParseError>)
    ensures
        (match selector {
            None => r == Ok::<Profile, ParseError>(Profile::Dev),
            Some(s) => {
                &&& s@ == "dev"@ ==> r == Ok::<Profile, ParseError>(Profile::Dev)
                &&& s@ == "prod"@ ==> r == Ok::<Profile, ParseError>(Profile::Prod)
                &&& !is_profile_name(s@) ==> r == Err::<Profile, ParseError>(
                    ParseError::InvalidProfile(s),
                )
                &&& r is Err <==> !is_profile_name(s@)
            },
        }),
{
    match selector {
        None => Ok(Profile::Dev),
        Some(s) => parse_profile(&s),
    }
}

impl core::str::FromStr for Profile {
    type Err = String;

    fn from_str(s: &str) -> Result<Profile, String> {
        let owned: String = s.to_string();
        match parse_profile(&owned) {
            Ok(p) => Ok(p),
            Err(e) => Err(e.message()),
        }
    }
}

} // verus!
