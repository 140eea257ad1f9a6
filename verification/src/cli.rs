//! The command line.
use crate::text;
use vstd::prelude::*;

verus! {

/// The arguments of the program. `home` is the directory that holds its
/// configuration, its database and its sandboxes.
#[derive(Debug)]
pub struct Cli {
    pub home: Option<String>,
}

/// A path with a name behind it.
pub open spec fn under(dir: Seq<char>, name: Seq<char>) -> Seq<char> {
    if dir.len() == 0 {
        name
    } else if dir.last() == '/' {
        dir + name
    } else {
        dir + "/"@ + name
    }
}

pub open spec fn home_of(given: Option<Seq<char>>, user_home: Option<Seq<char>>) -> Seq<char> {
    match given {
        Some(h) => h,
        None => match user_home {
            Some(u) => under(u, ".carson"@),
            None => ".carson"@,
        },
    }
}

/// The home directory: the one that was given, or else `.carson` under the
/// user's, or in the current directory where that is not known.
pub fn carson_home(given: &Option<String>, user_home: &Option<String>) -> (r: String)
    ensures
        r@ == home_of(text::opt_text(*given), text::opt_text(*user_home)),
{
    if let Some(h) = given {
        return h.clone();
    }
    match user_home {
        Some(u) => {
            let v = text::chars_of(u.as_str());
            let n: usize = v.len();
            if n == 0 {
                text::owned(".carson")
            } else if v[n - 1] == '/' {
                u.clone().concat(".carson")
            } else {
                u.clone().concat("/").concat(".carson")
            }
        },
        None => text::owned(".carson"),
    }
}

} // verus!
