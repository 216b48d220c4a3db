//! The options of one run.
use vstd::prelude::*;

verus! {

/// How much is logged.
#[derive(Debug, Clone, Copy, PartialEq, Eq, Structural)]
pub enum LogLevel {
    Error,
    Warn,
    Info,
    Debug,
    Trace,
}

/// The layout of the illustration.
#[derive(Debug, Clone, Copy, PartialEq, Eq, Structural)]
pub enum RenameOption {
    KitsuneYukkuri,
}

/// The options of one run.
#[derive(Debug)]
pub struct Args {
    /// The folder that holds the parts of the illustration.
    pub input_folder: String,
    pub rename_option: RenameOption,
    pub log_level: LogLevel,
}

impl Args {
    pub fn new(input_folder: String, rename_option: RenameOption, log_level: LogLevel) -> (r: Args)
        ensures
            r.input_folder == input_folder,
            r.rename_option == rename_option,
            r.log_level == log_level,
    {
        Args { input_folder, rename_option, log_level }
    }
}

} // verus!
