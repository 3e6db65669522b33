//! Where fx keeps its data.

use vstd::prelude::*;
use vstd::string::*;
use crate::paths::{data_directories, find_directories, text_if_any, NoHome};
use crate::text::texts;

verus! {

/// The environment variable that names other data directories.
pub const FX_HOME_ENV: &'static str = "FX_HOME";

/// The data directory under the home directory.
pub const FX_DIRECTORY: &'static str = ".fx";

/// The data directories of fx, where `directories` are the candidates that are directories.
pub fn paths(
    custom: Option<&str>,
    environment: Option<&str>,
    home: Option<&str>,
    directories: &Vec<String>,
) -> (out: Result<Vec<String>, NoHome>)
    ensures
        match out {
            Ok(paths) => data_directories(
                text_if_any(custom),
                text_if_any(environment),
                text_if_any(home),
                FX_DIRECTORY@,
                texts(directories@),
            ) == Some(texts(paths@)),
            Err(_) => data_directories(
                text_if_any(custom),
                text_if_any(environment),
                text_if_any(home),
                FX_DIRECTORY@,
                texts(directories@),
            ) is None,
        },
{
    find_directories(custom, environment, home, FX_DIRECTORY, directories)
}

} // verus!
