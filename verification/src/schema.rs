//! Schema validation of the root manifest: the `workspace` table and its
//! `members` list are both required, and each absence is its own error.

use vstd::prelude::*;

verus! {

/// The root manifest as far as the audit reads it.
pub struct RootManifest {
    pub workspace: Option<WorkspaceSection>,
}

/// The `workspace` table of the root manifest.
pub struct WorkspaceSection {
    pub members: Option<Vec<String>>,
}

/// A required key that the root manifest does not carry.
#[derive(Debug)]
pub enum SchemaError {
    MissingWorkspace,
    MissingMembers,
}

/// Checks the root manifest's schema and hands back the declared member
/// list exactly as written, or the error naming the missing key.
pub fn check_workspace(root: RootManifest) -> (r: Result<Vec<String>, SchemaError>)
    ensures
        match root.workspace {
            Option::None => r == Result::<Vec<String>, SchemaError>::Err(
                SchemaError::MissingWorkspace,
            ),
            Option::Some(ws) => match ws.members {
                Option::None => r == Result::<Vec<String>, SchemaError>::Err(
                    SchemaError::MissingMembers,
                ),
                Option::Some(ms) => r == Result::<Vec<String>, SchemaError>::Ok(ms),
            },
        },
{
    match root.workspace {
        Option::None => Result::Err(SchemaError::MissingWorkspace),
        Option::Some(ws) => match ws.members {
            Option::None => Result::Err(SchemaError::MissingMembers),
            Option::Some(ms) => Result::Ok(ms),
        },
    }
}

} // verus!
