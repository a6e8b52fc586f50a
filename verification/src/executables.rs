//! Which executables run the node, npm and deno plugins, as the environment
//! variables that override them decide, and what the user is told when one
//! cannot be found.
use vstd::prelude::*;
use crate::text::{copy_str, concat2, concat3};

verus! {

/// The npm command: the `DPRINT_NPM_COMMAND` variable when it is set, else
/// `npm`.
pub fn npm_command_name(command_var: Option<&str>) -> (r: String)
    ensures
        r@ == match command_var {
            Some(c) => c@,
            None => "npm"@,
        },
{
    match command_var {
        Some(c) => copy_str(c),
        None => copy_str("npm"),
    }
}

/// Why the node executable could not be used, with the lookup's error.
pub fn node_required_message(error: &str) -> (r: String)
    ensures
        r@ == "The 'node' executable is required to run this plugin. Please ensure it's installed and available on the path. Alternatively, you may supply a DPRINT_NODE_PATH environment variable.\n\n"@
            + error@,
{
    concat2(
        "The 'node' executable is required to run this plugin. Please ensure it's installed and available on the path. Alternatively, you may supply a DPRINT_NODE_PATH environment variable.\n\n",
        error,
    )
}

/// Why the npm executable (named `command_name`) could not be used, with the
/// lookup's error.
pub fn npm_required_message(command_name: &str, error: &str) -> (r: String)
    ensures
        r@ == "The '"@ + command_name@
            + "' executable is required to run this plugin. Please ensure it's installed and available on the path. Alternatively, you may supply a DPRINT_NPM_PATH or DPRINT_NPM_COMMAND environment variable.\n\n"@
            + error@,
{
    let head = concat3(
        "The '",
        command_name,
        "' executable is required to run this plugin. Please ensure it's installed and available on the path. Alternatively, you may supply a DPRINT_NPM_PATH or DPRINT_NPM_COMMAND environment variable.\n\n",
    );
    concat2(head.as_str(), error)
}

/// The deno executable: the path in `DPRINT_DENO_PATH` when it is set (with
/// whether a file is there), else `deno`, found through the system path. A
/// set variable naming nothing is an error.
pub fn resolve_deno_executable(path_var: Option<(&str, bool)>) -> (r: Result<String, String>)
    ensures
        match path_var {
            Some((p, true)) => r is Ok && r->Ok_0@ == p@,
            Some((p, false)) => r is Err && r->Err_0@ == "DPRINT_DENO_PATH is set to '"@ + p@
                + "', but the file does not exist."@,
            None => r is Ok && r->Ok_0@ == "deno"@,
        },
{
    match path_var {
        Some((p, exists)) => {
            if !exists {
                return Err(concat3("DPRINT_DENO_PATH is set to '", p, "', but the file does not exist."));
            }
            Ok(copy_str(p))
        },
        None => Ok(copy_str("deno")),
    }
}

} // verus!
