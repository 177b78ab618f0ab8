//! Which command is meant.

use vstd::prelude::*;

use crate::decimal;
use crate::text;

verus! {

/// The command that the arguments select, and how many of them name it.
#[derive(Clone, Copy, Debug, PartialEq, Eq, Structural)]
pub enum Selected {
    Help,
    Simulate { skip: usize },
    Node { skip: usize },
}

/// The command that the arguments select: the simulator where they begin with an option or there
/// are none.
pub open spec fn spec_select(args: Seq<Seq<char>>) -> Result<Selected, Seq<char>> {
    if args.len() == 0 {
        Ok(Selected::Simulate { skip: 0 })
    } else if args[0] == "-h"@ || args[0] == "--help"@ || args[0] == "help"@ {
        Ok(Selected::Help)
    } else if args[0] == "simulate"@ {
        Ok(Selected::Simulate { skip: 1 })
    } else if args[0] == "node"@ {
        Ok(Selected::Node { skip: 1 })
    } else if args[0].len() > 0 && args[0][0] == '-' {
        Ok(Selected::Simulate { skip: 0 })
    } else {
        Err("unknown command '"@ + args[0] + "'"@)
    }
}

/// Selects the command that the arguments name.
pub fn select_command(args: &[String]) -> (selected: Result<Selected, String>)
    ensures
        match selected {
            Ok(command) => spec_select(text::string_views(args@)) == Ok::<Selected, Seq<char>>(
                command,
            ),
            Err(message) => spec_select(text::string_views(args@)) == Err::<Selected, Seq<char>>(
                message@,
            ),
        },
{
    let ghost views: Seq<Seq<char>> = text::string_views(args@);
    if args.len() == 0 {
        return Ok(Selected::Simulate { skip: 0 });
    }
    assert(views[0] == args@[0]@);
    let first: &str = args[0].as_str();
    if text::same_text(first, "-h") || text::same_text(first, "--help") || text::same_text(
        first,
        "help",
    ) {
        return Ok(Selected::Help);
    }
    if text::same_text(first, "simulate") {
        return Ok(Selected::Simulate { skip: 1 });
    }
    if text::same_text(first, "node") {
        return Ok(Selected::Node { skip: 1 });
    }
    let chars: Vec<char> = text::chars_of(first);
    if chars.len() > 0 && chars[0] == '-' {
        return Ok(Selected::Simulate { skip: 0 });
    }
    Err(text::concat3("unknown command '", first, "'"))
}

/// The complaint about an option without its value.
pub open spec fn missing_value(flag: Seq<char>) -> Seq<char> {
    flag + " requires a value"@
}

/// The complaint about an option with a value that cannot be used.
pub open spec fn invalid_value(flag: Seq<char>) -> Seq<char> {
    flag + " received an invalid value"@
}

/// What reading the number behind an option gives.
pub open spec fn number_after(args: Seq<Seq<char>>, max: nat) -> Result<nat, Seq<char>> {
    if args.len() < 2 {
        Err(missing_value(args[0]))
    } else {
        match decimal::spec_parse_unsigned(args[1], max) {
            Some(value) => Ok(value),
            None => Err(invalid_value(args[0])),
        }
    }
}

/// Reads the number behind the option at `index`.
pub fn parse_next(args: &[String], index: usize, max: u64) -> (result: Result<u64, String>)
    requires
        index < args@.len(),
    ensures
        match result {
            Ok(value) => number_after(text::string_views(args@).skip(index as int), max as nat)
                == Ok::<nat, Seq<char>>(value as nat) && index + 1 < args@.len() && value <= max,
            Err(message) => number_after(text::string_views(args@).skip(index as int), max as nat)
                == Err::<nat, Seq<char>>(message@),
        },
{
    let ghost rest: Seq<Seq<char>> = text::string_views(args@).skip(index as int);
    assert(rest[0] == args@[index as int]@);
    if args.len() - index < 2 {
        let mut message: String = args[index].clone();
        message.append(" requires a value");
        return Err(message);
    }
    assert(rest[1] == args@[index + 1]@);
    let chars: Vec<char> = text::chars_of(args[index + 1].as_str());
    match decimal::parse_unsigned(chars.as_slice(), max) {
        Some(value) => Ok(value),
        None => {
            let mut message: String = args[index].clone();
            message.append(" received an invalid value");
            Err(message)
        },
    }
}

} // verus!
