//! The sync targets stored by the application.

use vstd::prelude::*;
use crate::text::str_is;

verus! {

/// A configured sync target: a local folder and the remote folder it goes
/// to, with its mode (`"upload"` or `"mirror"`).
#[derive(Debug, Clone)]
pub struct Target {
    pub id: i64,
    pub local_path: String,
    pub remote_path: String,
    pub mode: String,
    pub last_push: Option<String>,
    pub created_at: String,
}

impl Target {
    /// Whether the target mirrors: remote files missing locally get deleted.
    pub fn is_mirror(&self) -> (r: bool)
        ensures
            r == (self.mode@ == "mirror"@),
    {
        str_is(self.mode.as_str(), "mirror")
    }
}

/// The mode stored for a target whose mirror switch is on or off.
pub fn mode_for(mirror: bool) -> (r: String)
    ensures
        mirror ==> r@ == "mirror"@,
        !mirror ==> r@ == "upload"@,
{
    if mirror {
        String::from_str("mirror")
    } else {
        String::from_str("upload")
    }
}

} // verus!
