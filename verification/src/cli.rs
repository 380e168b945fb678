//! The command line: which document to read and where to write.

use vstd::prelude::*;
use vstd::string::StringExecFns;

verus! {

/// What a run works on.
#[derive(Debug, Clone, PartialEq, Eq)]
pub struct Invocation {
    /// The path of the document to read.
    pub input: String,
    /// The directory that receives the chapter files.
    pub output_dir: String,
}

/// Why a command line cannot be used.
#[derive(Debug, Clone, Copy, PartialEq, Eq, Structural)]
pub enum UsageError {
    /// The path of the document is missing.
    MissingInput,
}

/// The output directory of a command line that names none: the current one.
pub open spec fn default_output_dir() -> Seq<char> {
    seq!['.']
}

/// The output directory that the arguments ask for.
pub open spec fn output_dir_of(args: Seq<String>) -> Seq<char> {
    if args.len() >= 3 {
        args[2]@
    } else {
        default_output_dir()
    }
}

/// Reads the arguments of a command line, the program's name first.
///
/// The first argument after the name is the document's path and must be
/// there. The second, if there is one, is the output directory; without it
/// the current directory is taken. Further arguments are ignored.
pub fn parse_args(args: &Vec<String>) -> (r: Result<Invocation, UsageError>)
    ensures
        match r {
            Ok(invocation) => {
                &&& args.len() >= 2
                &&& invocation.input@ == args[1]@
                &&& invocation.output_dir@ == output_dir_of(args@)
            },
            Err(e) => args.len() < 2 && e == UsageError::MissingInput,
        },
{
    if args.len() < 2 {
        return Err(UsageError::MissingInput);
    }
    let input = args[1].clone();
    let output_dir = if args.len() >= 3 {
        args[2].clone()
    } else {
        proof {
            reveal_strlit(".");
            assert("."@ =~= default_output_dir());
        }
        String::from_str(".")
    };
    Ok(Invocation { input, output_dir })
}

/// The text that tells how to call the program of the given name.
pub open spec fn usage_text(program: Seq<char>) -> Seq<char> {
    "Usage: "@ + program + " <pdf_file> [output_directory]"@
}

/// Says how to call the program of the given name.
pub fn usage(program: &str) -> (text: String)
    ensures
        text@ == usage_text(program@),
{
    let mut text = String::from_str("Usage: ");
    text.append(program);
    text.append(" <pdf_file> [output_directory]");
    text
}

} // verus!
