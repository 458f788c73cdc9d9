use vstd::prelude::*;
use vstd::string::StringExecFns;
use crate::token::str_equal;

verus! {

/// A kind of event that a consumer may ask for.
#[derive(Debug, Clone, Copy, PartialEq, Eq, Structural)]
pub enum Filter {
    Builds,
    Artifacts,
    Messages,
}

pub open spec fn filter_of(s: Seq<char>) -> Option<Filter> {
    if s == "builds"@ {
        Some(Filter::Builds)
    } else if s == "messages"@ {
        Some(Filter::Messages)
    } else if s == "artifacts"@ {
        Some(Filter::Artifacts)
    } else {
        None
    }
}

impl Filter {
    /// Reads a filter name; any other text is refused with a message that names it.
    pub fn parse(s: &str) -> (r: Result<Filter, String>)
        ensures
            match filter_of(s@) {
                Some(f) => r == Ok::<Filter, String>(f),
                None => r is Err && r->Err_0@ == s@ + " does not match any filtereable event"@,
            },
    {
        if str_equal(s, "builds") {
            Ok(Filter::Builds)
        } else if str_equal(s, "messages") {
            Ok(Filter::Messages)
        } else if str_equal(s, "artifacts") {
            Ok(Filter::Artifacts)
        } else {
            let mut m = s.to_owned();
            m.append(" does not match any filtereable event");
            Err(m)
        }
    }
}

impl std::str::FromStr for Filter {
    type Err = String;

    fn from_str(s: &str) -> (r: Result<Filter, String>)
        ensures
            match filter_of(s@) {
                Some(f) => r == Ok::<Filter, String>(f),
                None => r is Err && r->Err_0@ == s@ + " does not match any filtereable event"@,
            },
    {
        Filter::parse(s)
    }
}

} // verus!
