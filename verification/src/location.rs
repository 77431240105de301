//! Where the fixture lies.
use vstd::prelude::*;

verus! {

/// Where the fixture is looked for first.
pub const FIRST_PATH: &'static str = "ref/fixtures.safetensors";

/// Where the fixture is looked for next.
pub const SECOND_PATH: &'static str = "fixtures.safetensors";

/// The path of the fixture: the one that was asked for, or else the first of the two usual ones
/// that is present, or else the first of them.
pub fn fixture_path(asked: Option<String>, first_present: bool, second_present: bool) -> (r: String)
    ensures
        r@ == match asked {
            Some(path) => path@,
            None => if !first_present && second_present {
                SECOND_PATH@
            } else {
                FIRST_PATH@
            },
        },
        asked is None && (first_present || !second_present) ==> r@ == "ref/fixtures.safetensors"@,
        asked is None && !first_present && second_present ==> r@ == "fixtures.safetensors"@,
{
    match asked {
        Some(path) => path,
        None => if first_present {
            FIRST_PATH.to_owned()
        } else if second_present {
            SECOND_PATH.to_owned()
        } else {
            FIRST_PATH.to_owned()
        },
    }
}

} // verus!
