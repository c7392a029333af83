use crate::error::ErrorKind;
use crate::rules::strings_view;
use vstd::prelude::*;

verus! {

/// What `clap` makes of the tool's command line: `None` when the arguments do not fit it,
/// otherwise the path, the excluded names and whether the root is left out.
pub uninterp spec fn cli_args_of(args: Seq<Seq<char>>) -> Option<(Seq<char>, Seq<Seq<char>>, bool)>;

pub open spec fn parsed_view(r: Option<(String, Vec<String>, bool)>) -> Option<
    (Seq<char>, Seq<Seq<char>>, bool),
> {
    match r {
        Some(t) => Some((t.0@, strings_view(t.1@), t.2)),
        None => None,
    }
}

/// Relies on clap's `Command::try_get_matches_from` over the tool's command line: a
/// required path, `--excluded-items`/`-e` taking comma-separated names, and the
/// `--no-root`/`-n` flag.
#[verifier::external_body]
fn parse_command_line(args: &Vec<String>) -> (r: Option<(String, Vec<String>, bool)>)
    ensures
        parsed_view(r) == cli_args_of(strings_view(args@)),
{
    let m = clap::Command::new("cuttercookie").about("File system utility tools")
        .arg(clap::Arg::new("path").required(true))
        .arg(clap::Arg::new("excluded_items").long("excluded-items").short('e')
            .value_delimiter(',').action(clap::ArgAction::Append))
        .arg(clap::Arg::new("no_root").long("no-root").short('n').action(clap::ArgAction::SetTrue))
        .try_get_matches_from(args).ok()?;
    let excluded = m.get_many::<String>("excluded_items").map(|v| v.cloned().collect());
    Some((m.get_one::<String>("path")?.clone(), excluded.unwrap_or_default(), m.get_flag("no_root")))
}

/// The tool's arguments.
pub struct Cli {
    /// Directory path to start from.
    pub path: String,
    /// Directory names that will not be included.
    pub excluded_items: Vec<String>,
    /// Leaves out the main project directory.
    pub no_root: bool,
}

impl Cli {
    /// Reads the arguments, the program's name first; a usage error when they do not fit.
    pub fn try_parse_from(args: Vec<String>) -> (r: Result<Cli, ErrorKind>)
        ensures
            r is Ok <==> cli_args_of(strings_view(args@)) is Some,
            r is Err ==> r->Err_0 == ErrorKind::Usage,
            r is Ok ==> cli_args_of(strings_view(args@)) == Some(
                (r->Ok_0.path@, strings_view(r->Ok_0.excluded_items@), r->Ok_0.no_root),
            ),
    {
        match parse_command_line(&args) {
            Some((path, excluded_items, no_root)) => Ok(Cli { path, excluded_items, no_root }),
            None => Err(ErrorKind::Usage),
        }
    }
}

} // verus!
