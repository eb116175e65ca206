//! What an editor extension needs to know to start the language server.

use crate::chars::{extend_str, from_chars, str_eq, to_chars};
use vstd::prelude::*;

verus! {

/// The name under which the editor knows the language server.
pub open spec fn server_name() -> Seq<char> {
    "amble-lsp"@
}

/// The program that runs the language server.
pub open spec fn server_program() -> Seq<char> {
    "/home/dave/code/zed-amble-ext/bin/amble-lsp"@
}

/// What is said of a language server that is not known.
pub open spec fn unknown_server_message(language_server_id: Seq<char>) -> Seq<char> {
    "Unknown language server: "@ + language_server_id
}

/// The program to run for the language server `language_server_id`, or
/// what is to be said where that is not the language server of this
/// language.
pub fn language_server_command(language_server_id: &str) -> (r: Result<String, String>)
    ensures
        match r {
            Ok(program) => language_server_id@ == server_name() && program@ == server_program(),
            Err(message) => language_server_id@ != server_name() && message@
                == unknown_server_message(language_server_id@),
        },
{
    if !str_eq(language_server_id, "amble-lsp") {
        let mut message: Vec<char> = Vec::new();
        extend_str(&mut message, "Unknown language server: ");
        extend_str(&mut message, language_server_id);
        proof {
            assert(message@ =~= unknown_server_message(language_server_id@));
        }
        return Err(from_chars(&message));
    }
    Ok(from_chars(&to_chars("/home/dave/code/zed-amble-ext/bin/amble-lsp")))
}

} // verus!
