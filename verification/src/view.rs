//! Small helpers used when handing rendered documents to page templates.

use vstd::prelude::*;
use vstd::string::StringExecFns;

verus! {

/// Appends the site name to a page title, leaving an absent title absent.
pub fn append_site(title: Option<String>) -> (r: Option<String>)
    ensures
        r is Some <==> title is Some,
        title is Some ==> r->0@ == title->0@ + " - Blaenk Denum"@,
{
    match title {
        Some(t) => Some(t.concat(" - Blaenk Denum")),
        None => None,
    }
}

} // verus!
