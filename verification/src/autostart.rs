//! Starting with the system: the command recorded under the user's
//! `Run` key, and the fallback where there is no such key.
use vstd::prelude::*;
use crate::text::push_str;

verus! {

#[verifier::external_type_specification]
#[verifier::external_body]
pub struct ExIoError(std::io::Error);

/// The command that starts the program at `exe`: the path in double quotes,
/// since a space anywhere in an unquoted path breaks the command.
pub fn run_command(exe: &str) -> (r: String)
    ensures
        r@ == seq!['"'] + exe@ + seq!['"'],
{
    let mut s = String::new();
    proof {
        reveal_strlit("\"");
    }
    push_str(&mut s, "\"");
    push_str(&mut s, exe);
    push_str(&mut s, "\"");
    assert(s@ =~= seq!['"'] + exe@ + seq!['"']);
    s
}

/// Whether the program starts with the system, where that cannot be set up: no.
pub fn is_enabled() -> (r: bool)
    ensures
        !r,
{
    false
}

/// Makes the program start with the system or not, where that cannot be set
/// up: nothing to do, and no error.
pub fn set(enable: bool) -> (r: Result<(), std::io::Error>)
    ensures
        r is Ok,
{
    Ok(())
}

} // verus!
