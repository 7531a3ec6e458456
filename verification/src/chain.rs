//! Names of chains.

use crate::error::{Error, ErrorView};
use vstd::prelude::*;
use vstd::string::*;

verus! {

/// Whether `name` can name a chain: it begins with `'$'` (a private chain), `'#'` (a
/// public chain) or `'@'` (the chain of a public identity).
pub open spec fn is_chain_name(name: Seq<char>) -> bool {
    name.len() > 0 && (name[0] == '$' || name[0] == '#' || name[0] == '@')
}

/// What is wrong with a name that cannot name a chain, in the words of `freechains`.
pub open spec fn chain_name_complaint() -> Seq<char> {
    "chain name must start with '$', '@' or '#'"@
}

/// The text of the error for a chain that cannot be named so.
pub open spec fn invalid_chain_text() -> Seq<char> {
    "invalid 'fchs' URI format, invalid chain name \""@ + chain_name_complaint() + "\""@
}

/// The text of the error for a chain that the node does not hold.
pub open spec fn unknown_chain_text(chain: Seq<char>) -> Seq<char> {
    "invalid 'fchs' URI, chain \""@ + chain + "\" not on Freechains node"@
}

/// `freechains::ChainId::new`, of which only the verdict is kept: `None` where it
/// accepts the name, and the text of its `InvalidChainNameError` where it does not.
///
/// It accepts a name that begins with one of the three characters that tell the
/// kinds of chain apart, and takes the rest of the name as it is. The error is a
/// unit value with one fixed text.
#[verifier::external_body]
fn chain_name_error(name: &str) -> (complaint: Option<String>)
    ensures
        complaint is None <==> is_chain_name(name@),
        complaint matches Some(text) ==> text@ == chain_name_complaint(),
{
    match freechains::ChainId::new(name) {
        Ok(_) => None,
        Err(e) => Some(e.to_string()),
    }
}

/// Checks that `name` can name a chain.
pub fn check_chain_name(name: &str) -> (r: Result<(), Error>)
    ensures
        is_chain_name(name@) ==> r is Ok,
        !is_chain_name(name@) ==> (r matches Err(e) && e@ == ErrorView::Input(
            invalid_chain_text(),
        )),
{
    match chain_name_error(name) {
        None => Ok(()),
        Some(complaint) => Err(
            Error::InputError(
                String::from_str("invalid 'fchs' URI format, invalid chain name \"").concat(
                    complaint.as_str(),
                ).concat("\""),
            ),
        ),
    }
}

/// Whether `names` holds `name`.
pub fn holds_chain(names: &Vec<String>, name: &String) -> (found: bool)
    ensures
        found == exists|i: int| 0 <= i < names.len() && names[i]@ == name@,
{
    let mut i: usize = 0;
    while i < names.len()
        invariant
            i <= names.len(),
            forall|k: int| 0 <= k < i ==> names[k]@ != name@,
        decreases names.len() - i,
    {
        if names[i] == *name {
            return true;
        }
        i += 1;
    }
    false
}

} // verus!
