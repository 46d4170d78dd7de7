//! The command line: the root path, and whether the distinct names are to
//! be written out.

use crate::text::same_text;
use vstd::prelude::*;

verus! {

/// What the command line asks for.
pub struct Settings {
    pub root: String,
    pub write_unique: bool,
}

/// Why a command line is refused.
#[derive(Clone, Copy, Debug, PartialEq, Eq, Structural)]
pub enum ArgError {
    /// There is no argument for the root path.
    MissingRoot,
    /// The argument after the root path is neither `true` nor `false`.
    InvalidFlag,
}

/// The truth value that a word stands for, if it is `true` or `false`.
pub open spec fn flag_value(word: Seq<char>) -> Option<bool> {
    if word == "true"@ {
        Some(true)
    } else if word == "false"@ {
        Some(false)
    } else {
        None
    }
}

/// Reads a word as a truth value.
pub fn parse_write_flag(word: &str) -> (res: Option<bool>)
    ensures
        res == flag_value(word@),
{
    if same_text(word, "true") {
        Some(true)
    } else if same_text(word, "false") {
        Some(false)
    } else {
        None
    }
}

/// Reads the command line, the program's own name first.
///
/// The first argument is the root path. The second, where there is one,
/// says whether the names are written; without it they are not. Further
/// arguments are not looked at.
pub fn parse_args(args: &Vec<String>) -> (res: Result<Settings, ArgError>)
    ensures
        match res {
            Ok(settings) => {
                &&& args@.len() >= 2
                &&& settings.root@ == args@[1]@
                &&& if args@.len() == 2 {
                    !settings.write_unique
                } else {
                    flag_value(args@[2]@) == Some(settings.write_unique)
                }
            },
            Err(ArgError::MissingRoot) => args@.len() < 2,
            Err(ArgError::InvalidFlag) => args@.len() > 2 && flag_value(args@[2]@) is None,
        },
{
    if args.len() < 2 {
        return Err(ArgError::MissingRoot);
    }
    let write_unique = if args.len() == 2 {
        false
    } else {
        match parse_write_flag(args[2].as_str()) {
            Some(flag) => flag,
            None => {
                return Err(ArgError::InvalidFlag);
            },
        }
    };
    Ok(Settings { root: args[1].clone(), write_unique })
}

} // verus!
