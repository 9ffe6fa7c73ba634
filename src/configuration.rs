//! The deployment environment the application runs in.
use vstd::prelude::*;
use vstd::string::StringExecFns;

verus! {

/// The deployment environment.
#[derive(Debug, PartialEq, Eq, Structural, Clone, Copy)]
pub enum Environment {
    Local,
    Production,
}

/// What `str::to_lowercase` returns for a string.
pub uninterp spec fn lower_of(s: Seq<char>) -> Seq<char>;

/// Relies on `str::to_lowercase`: the lowercase form depends on the
/// characters alone.
#[verifier::external_body]
fn lowercase(s: &str) -> (r: String)
    ensures
        r@ == lower_of(s@),
{
    s.to_lowercase()
}

/// The environment a lowercased name denotes.
pub open spec fn environment_of(folded: Seq<char>) -> Result<Environment, Seq<char>> {
    if folded == "local"@ {
        Ok(Environment::Local)
    } else if folded == "production"@ {
        Ok(Environment::Production)
    } else {
        Err(folded + " is not a supported environment. Use either `local` or `production`."@)
    }
}

pub open spec fn environment_name(e: Environment) -> Seq<char> {
    match e {
        Environment::Local => "local"@,
        Environment::Production => "production"@,
    }
}

impl Environment {
    pub fn as_str(&self) -> (r: &'static str)
        ensures
            r@ == environment_name(*self),
    {
        match self {
            Environment::Local => "local",
            Environment::Production => "production",
        }
    }

    /// Reads an already lowercased environment name.
    pub fn from_folded(folded: String) -> (r: Result<Environment, String>)
        ensures
            match r {
                Ok(e) => environment_of(folded@) == Ok::<Environment, Seq<char>>(e),
                Err(msg) => environment_of(folded@) == Err::<Environment, Seq<char>>(msg@),
            },
    {
        proof {
            reveal_strlit("local");
            reveal_strlit("production");
        }
        let local = String::from_str("local");
        let production = String::from_str("production");
        if folded == local {
            Ok(Environment::Local)
        } else if folded == production {
            Ok(Environment::Production)
        } else {
            Err(folded.concat(" is not a supported environment. Use either `local` or `production`."))
        }
    }

    /// Reads an environment name in any letter case.
    pub fn try_from(s: String) -> (r: Result<Environment, String>)
        ensures
            match r {
                Ok(e) => environment_of(lower_of(s@)) == Ok::<Environment, Seq<char>>(e),
                Err(msg) => environment_of(lower_of(s@)) == Err::<Environment, Seq<char>>(msg@),
            },
    {
        Environment::from_folded(lowercase(s.as_str()))
    }
}

} // verus!
