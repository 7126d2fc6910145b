//! Reading the command line.

use vstd::prelude::*;
use crate::pipeline::Direction;

verus! {

/// Why a command line was turned down.
#[derive(Clone, Copy, PartialEq, Eq, Debug, Structural)]
pub enum UsageError {
    /// There were not exactly three arguments after the program's name.
    ArgumentCount,
    /// The first argument was neither `encrypt` nor `decrypt`.
    UnknownOperation,
}

/// What a command line asks for.
#[derive(Debug, PartialEq, Eq)]
pub struct Invocation {
    pub direction: Direction,
    pub input: String,
    pub output: String,
}

/// The direction that an operation's name stands for, if it stands for one.
pub open spec fn direction_named(word: Seq<char>) -> Option<Direction> {
    if word == "encrypt"@ {
        Some(Direction::Forward)
    } else if word == "decrypt"@ {
        Some(Direction::Inverse)
    } else {
        None
    }
}

/// Reads the name of an operation.
pub fn parse_operation(word: &str) -> (direction: Option<Direction>)
    ensures
        direction == direction_named(word@),
{
    let owned = word.to_owned();
    if owned == "encrypt".to_owned() {
        Some(Direction::Forward)
    } else if owned == "decrypt".to_owned() {
        Some(Direction::Inverse)
    } else {
        None
    }
}

/// Reads a command line: the program's name, the operation, the image to read and
/// the image to write.
pub fn parse_arguments(args: &Vec<String>) -> (parsed: Result<Invocation, UsageError>)
    ensures
        args.len() != 4 ==> parsed == Err::<Invocation, UsageError>(UsageError::ArgumentCount),
        args.len() == 4 && direction_named(args[1]@) is None ==> parsed == Err::<
            Invocation,
            UsageError,
        >(UsageError::UnknownOperation),
        args.len() == 4 && direction_named(args[1]@) is Some ==> parsed is Ok,
        parsed is Ok ==> parsed->Ok_0.direction == direction_named(args[1]@)->Some_0,
        parsed is Ok ==> parsed->Ok_0.input@ == args[2]@,
        parsed is Ok ==> parsed->Ok_0.output@ == args[3]@,
{
    if args.len() != 4 {
        return Err(UsageError::ArgumentCount);
    }
    match parse_operation(args[1].as_str()) {
        Some(direction) => Ok(
            Invocation { direction, input: args[2].clone(), output: args[3].clone() },
        ),
        None => Err(UsageError::UnknownOperation),
    }
}

} // verus!
