//! The user id that callers without an explicit user context act as.
use vstd::prelude::*;
use crate::text;

verus! {

/// The environment variable that names the bootstrap user.
pub const BOOTSTRAP_USER_ID_ENV: &'static str = "MICROCLAW_BOOTSTRAP_USER_ID";

/// The user id used while no bootstrap user is configured.
pub const BOOTSTRAP_USER_ID_PLACEHOLDER: &'static str = "__pending__";

/// The bootstrap user id, from the value of `MICROCLAW_BOOTSTRAP_USER_ID`
/// (`None` when it is unset or not Unicode): the value as it is when it holds
/// anything besides white space, else `__pending__`.
pub fn bootstrap_user_id(env_value: Option<String>) -> (res: String)
    ensures
        res@ == match env_value {
            Some(v) => if text::trim(v@).len() > 0 {
                v@
            } else {
                "__pending__"@
            },
            None => "__pending__"@,
        },
{
    match env_value {
        Some(v) => {
            let t = text::trimmed(v.as_str());
            if t.as_str().unicode_len() > 0 {
                v
            } else {
                String::from_str(BOOTSTRAP_USER_ID_PLACEHOLDER)
            }
        },
        None => String::from_str(BOOTSTRAP_USER_ID_PLACEHOLDER),
    }
}

} // verus!
