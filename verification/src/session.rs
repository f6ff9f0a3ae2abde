//! Session names: the random worktree names and how a session is named.

use vstd::prelude::*;
use crate::text::concat;

verus! {

/// `petname::petname`: a random name of `words` words from the crate's
/// default (medium, English) word lists, joined by `separator`. For two words
/// the source builds an adjective, the separator and a noun; the lists are
/// non-empty and their words are non-empty and hold no `-`, so a name always
/// comes back. Which name is left to chance.
#[verifier::external_body]
fn petname(words: u8, separator: &str) -> (r: Option<String>)
    ensures
        r is None ==> words != 2,
        r matches Some(s) ==> (words == 2 ==> exists|a: Seq<char>, n: Seq<char>|
            a.len() > 0 && n.len() > 0 && !a.contains('-') && !n.contains('-') && s@ == a
                + separator@ + n),
{
    petname::petname(words, separator)
}

/// A random two-word name such as `happy-otter`: two non-empty words
/// without dashes, joined by one dash.
pub fn random_name() -> (r: String)
    ensures
        exists|a: Seq<char>, n: Seq<char>|
            a.len() > 0 && n.len() > 0 && !a.contains('-') && !n.contains('-') && r@ == a + "-"@
                + n,
{
    match petname(2, "-") {
        Some(s) => s,
        None => {
            proof {
                assert(false);
            }
            String::new()
        },
    }
}

/// The session name for worktree `name` of project folder `folder`.
pub fn compose(folder: &str, name: &str) -> (r: String)
    ensures
        r@ == folder@ + "-"@ + name@,
{
    let mut r = concat(folder, "-");
    r.append(name);
    r
}

} // verus!
