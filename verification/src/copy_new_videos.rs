//! Naming the copies of new files so that none overwrites another.

use crate::error::Error;
use crate::text::{chars_of, decimal, find_last_dot, last_dot, push_decimal, string_of};
use vstd::prelude::*;
use vstd::string::StringExecFns;

verus! {

/// The name tried at the `trial`-th attempt: the file's own name first, and
/// after that the name with the number of the attempt, in brackets, before
/// its extension.
pub open spec fn destination(file_name: Seq<char>, trial: u64) -> Option<Seq<char>> {
    if trial == 1 {
        Some(file_name)
    } else if last_dot(file_name) < 0 {
        None
    } else {
        let dot = last_dot(file_name);
        Some(
            file_name.take(dot) + seq![' ', '('] + decimal(trial as nat) + seq![')', '.']
                + file_name.skip(dot + 1),
        )
    }
}

/// The name to try at the `trial`-th attempt. Fails where a number is
/// needed and the file name has no extension to put it before.
pub fn destination_name(file_name: &str, trial: u64) -> (r: Result<String, Error>)
    ensures
        match r {
            Ok(name) => destination(file_name@, trial) == Some(name@),
            Err(e) => e == Error::MissingExtension && destination(file_name@, trial).is_none(),
        },
{
    if trial == 1 {
        return Ok(String::from_str(file_name));
    }
    let chars = chars_of(file_name);
    match find_last_dot(&chars) {
        None => Err(Error::MissingExtension),
        Some(dot) => {
            let mut name = string_of(&chars, 0, dot);
            let extension = string_of(&chars, dot + 1, chars.len());
            name.push(' ');
            name.push('(');
            push_decimal(&mut name, trial);
            name.push(')');
            name.push('.');
            name.append(extension.as_str());
            assert(name@ =~= destination(file_name@, trial).unwrap());
            Ok(name)
        },
    }
}

} // verus!
