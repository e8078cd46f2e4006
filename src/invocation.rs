//! The command line: `<program> <storage-uri> <object-count>`.

use vstd::prelude::*;
use vstd::string::StringExecFns;
use crate::count::{count_result, parse_count, CountError};
use crate::source::{parse_source, source_result, SourceError, SourceRef, SourceRefView};

verus! {

/// A run to perform: copies of `source`, `count` of them asked for.
pub struct Job {
    pub source: SourceRef,
    pub count: usize,
}

/// What the arguments ask for.
pub enum Command {
    /// The arguments are not two: print the usage line and do nothing else.
    Usage,
    /// Make the copies.
    Run(Job),
}

/// Why the arguments name no job.
#[derive(Debug, Clone, Copy, PartialEq, Eq, Structural)]
pub enum InvocationError {
    Source(SourceError),
    Count(CountError),
}

/// What the arguments (the program's name first) ask for, or why they name
/// no job. The URI is read before the count, the count before the bucket.
pub open spec fn invocation_outcome(args: Seq<Seq<char>>) -> Result<Option<(SourceRefView, usize)>, InvocationError> {
    if args.len() != 3 {
        Ok(None)
    } else if source_result(args[1]) == Err::<SourceRefView, SourceError>(SourceError::InvalidUri) {
        Err(InvocationError::Source(SourceError::InvalidUri))
    } else {
        match count_result(args[2]) {
            Err(e) => Err(InvocationError::Count(e)),
            Ok(n) => match source_result(args[1]) {
                Err(e) => Err(InvocationError::Source(e)),
                Ok(src) => Ok(Some((src, n))),
            },
        }
    }
}

pub open spec fn command_view(r: Result<Command, InvocationError>) -> Result<Option<(SourceRefView, usize)>, InvocationError> {
    match r {
        Ok(Command::Usage) => Ok(None),
        Ok(Command::Run(job)) => Ok(Some((job.source@, job.count))),
        Err(e) => Err(e),
    }
}

/// Reads the process arguments, the program's name first.
pub fn plan_invocation(args: &Vec<String>) -> (r: Result<Command, InvocationError>)
    ensures
        command_view(r) == invocation_outcome(args@.map_values(|a: String| a@)),
        args@.len() != 3 <==> r matches Ok(Command::Usage),
{
    let ghost views = args@.map_values(|a: String| a@);
    if args.len() != 3 {
        return Ok(Command::Usage);
    }
    assert(views[1] == args@[1]@ && views[2] == args@[2]@);
    let source = parse_source(args[1].as_str());
    if let Err(SourceError::InvalidUri) = source {
        return Err(InvocationError::Source(SourceError::InvalidUri));
    }
    let count = match parse_count(args[2].as_str()) {
        Err(e) => return Err(InvocationError::Count(e)),
        Ok(n) => n,
    };
    match source {
        Err(e) => Err(InvocationError::Source(e)),
        Ok(source) => Ok(Command::Run(Job { source, count })),
    }
}

/// The usage line: `Usage: <program> <s3_uri> <object_number>`.
pub fn usage_message(program: &str) -> (r: String)
    ensures
        r@ == "Usage: "@ + program@ + " <s3_uri> <object_number>"@,
{
    let mut out = String::from_str("Usage: ");
    out.append(program);
    out.append(" <s3_uri> <object_number>");
    out
}

} // verus!
