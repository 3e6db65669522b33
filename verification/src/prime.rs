//! The prime agent: its session stores.

use vstd::prelude::*;
use vstd::string::*;
use crate::paths::{data_directories, find_directories, text_if_any, NoHome};
use crate::text::texts;

verus! {

/// The environment variable that names other session stores.
pub const PRIME_AGENT_DIR_ENV: &'static str = "PRIME_AGENT_DIR";

/// The session store under the home directory.
pub const PRIME_DIRECTORY: &'static str = ".prime/agent/sessions";

/// The session stores of prime, where `directories` are the candidates that are directories.
pub fn paths(
    custom: Option<&str>,
    environment: Option<&str>,
    home: Option<&str>,
    directories: &Vec<String>,
) -> (out: Result<Vec<String>, NoHome>)
    ensures
        match out {
            Ok(paths) => data_directories(
                text_if_any(custom),
                text_if_any(environment),
                text_if_any(home),
                PRIME_DIRECTORY@,
                texts(directories@),
            ) == Some(texts(paths@)),
            Err(_) => data_directories(
                text_if_any(custom),
                text_if_any(environment),
                text_if_any(home),
                PRIME_DIRECTORY@,
                texts(directories@),
            ) is None,
        },
{
    find_directories(custom, environment, home, PRIME_DIRECTORY, directories)
}

/// Whether prime has data: whether it has a session store.
pub fn has_data(environment: Option<&str>, home: Option<&str>, directories: &Vec<String>) -> (r:
    bool)
    ensures
        r == (match data_directories(
            None,
            text_if_any(environment),
            text_if_any(home),
            PRIME_DIRECTORY@,
            texts(directories@),
        ) {
            Some(found) => found.len() > 0,
            None => false,
        }),
{
    match paths(None, environment, home, directories) {
        Ok(found) => {
            assert(texts(found@).len() == found@.len());
            found.len() > 0
        },
        Err(_) => false,
    }
}

} // verus!
