//! The interpreter's command line: an optional source file to run.
use vstd::prelude::*;
use crate::text::strings_view;

verus! {

/// What the command line asks for.
pub struct Args {
    /// The source file to run; without one the interpreter reads lines
    /// interactively.
    pub input: Option<String>,
}

/// Why the command line was not accepted: the message clap gives (a help
/// or version text, or an error), where it goes, and the exit status.
pub struct ArgsError {
    pub message: String,
    pub to_stderr: bool,
    pub exit_code: i32,
}

pub open spec fn opt_text(o: Option<String>) -> Option<Seq<char>> {
    match o {
        Some(s) => Some(s@),
        None => None,
    }
}

/// How clap reads the command line `argv` (program name first) against
/// the interpreter's definition (one optional positional argument `FILE`,
/// `--help` and `--version`): `Some(input)` when it is accepted with the
/// file `input`, `None` when clap answers with a help, version or error
/// message instead.
pub uninterp spec fn cli_input(argv: Seq<Seq<char>>) -> Option<Option<Seq<char>>>;

/// Calls clap's `Command::try_get_matches_from` on `argv` with the
/// interpreter's command definition and reads the `FILE` argument with
/// `ArgMatches::get_one`; a clap error is handed back as its text (its
/// `Display`), whether it goes to stderr (`Error::use_stderr`) and its exit
/// status (`Error::exit_code`). Claimed: whether it is accepted, and with
/// which file, is `cli_input(argv)`, a function of the arguments alone; the
/// exit status is 2 for a message that goes to stderr and 0 otherwise, as
/// clap documents. The message text, and which kind of message it is, are
/// not stated.
#[verifier::external_body]
fn match_cli(argv: Vec<String>) -> (r: Result<Option<String>, (String, bool, i32)>)
    ensures
        cli_input(strings_view(argv@)) == match r {
            Ok(i) => Some(opt_text(i)),
            Err(_) => None,
        },
        r matches Err(e) ==> e.2 == if e.1 {
            2i32
        } else {
            0i32
        },
{
    let cmd = clap::Command::new("sunwave").version("0.1.0").about(
        "A repl and interpreter for expressions and closures.",
    ).arg(clap::Arg::new("input").value_name("FILE"));
    match cmd.try_get_matches_from(argv) {
        Ok(m) => Ok(m.get_one::<String>("input").cloned()),
        Err(e) => Err((e.to_string(), e.use_stderr(), e.exit_code())),
    }
}

impl Args {
    /// The command line with the source file `input`.
    pub fn new(input: Option<String>) -> (r: Args)
        ensures
            r.input == input,
    {
        Args { input }
    }
}

/// Reads the command line `argv` (program name first).
pub fn parse(argv: Vec<String>) -> (r: Result<Args, ArgsError>)
    ensures
        r is Ok <==> cli_input(strings_view(argv@)) is Some,
        r matches Ok(a) ==> cli_input(strings_view(argv@)) == Some(opt_text(a.input)),
        r matches Err(e) ==> e.exit_code == if e.to_stderr {
            2i32
        } else {
            0i32
        },
{
    match match_cli(argv) {
        Ok(input) => Ok(Args::new(input)),
        Err((message, to_stderr, exit_code)) => Err(ArgsError { message, to_stderr, exit_code }),
    }
}

} // verus!
