//! The grammar of the command line, and the parser that follows it.
//!
//! The program name comes first and is skipped. Options come as
//! `--name value`, `--name=value`, or for `-o` also `-ovalue` and
//! `-o=value`; `--` ends the options. `--token` and `--format` stand before
//! the subcommand, the subcommand's own options after it. A number may
//! carry a sign (`-0` reads as zero); an output path may not be empty.

use vstd::prelude::*;

use crate::cli::{
    cli_result_view, key_value, key_value_spec, texts, Cli, CliError, CliErrorKind, CliModel, CommandModel,
    Commands, CompareWith, CompareWithModel, OutputFormat, RunArguments, text_pairs,
};
use crate::external::text_option;
use crate::text::{find_char, lemma_find_char_bounds, parse_u32, scan_char, text_eq, u32_text_value};

verus! {

/// The subcommands.
#[derive(Clone, Copy, PartialEq, Eq, Structural, Debug)]
pub enum Sub {
    NewRun,
    UploadScreenshot,
    UploadScreenshots,
    CompareRun,
    GetComparison,
    DownloadScreenshot,
    DownloadDiff,
}

/// The options and flags.
#[derive(Clone, Copy, PartialEq, Eq, Structural, Debug)]
pub enum Opt {
    Token,
    Format,
    Metadata,
    Name,
    Output,
    WithRun,
    WaitTimeout,
    Filter,
    Same,
    CleanName,
    PrintDetails,
    Wait,
    Help,
    Version,
}

/// The shape of one argument.
pub enum Tok {
    /// `--`
    DoubleDash,
    /// `--name` or `--name=value`
    Long(Seq<char>, Option<Seq<char>>),
    /// `-c` followed by the rest of the argument
    Short(char, Seq<char>),
    /// anything else
    Word,
}

/// The shape of an argument.
pub open spec fn classify(a: Seq<char>) -> Tok {
    if a.len() == 2 && a[0] == '-' && a[1] == '-' {
        Tok::DoubleDash
    } else if a.len() > 2 && a[0] == '-' && a[1] == '-' {
        let body = a.skip(2);
        let k = find_char(body, '=');
        if k < body.len() {
            Tok::Long(body.take(k), Some(body.skip(k + 1)))
        } else {
            Tok::Long(body, None)
        }
    } else if a.len() >= 2 && a[0] == '-' {
        Tok::Short(a[1], a.skip(2))
    } else {
        Tok::Word
    }
}

/// Whether an argument reads as an option rather than as a value.
pub open spec fn looks_like_flag(a: Seq<char>) -> bool {
    a.len() >= 2 && a[0] == '-'
}

/// The option that a long name stands for.
pub open spec fn long_opt(n: Seq<char>) -> Option<Opt> {
    if n == "token"@ {
        Some(Opt::Token)
    } else if n == "format"@ {
        Some(Opt::Format)
    } else if n == "metadata"@ {
        Some(Opt::Metadata)
    } else if n == "name"@ {
        Some(Opt::Name)
    } else if n == "output"@ {
        Some(Opt::Output)
    } else if n == "with-run"@ {
        Some(Opt::WithRun)
    } else if n == "wait-timeout"@ {
        Some(Opt::WaitTimeout)
    } else if n == "filter"@ {
        Some(Opt::Filter)
    } else if n == "same"@ {
        Some(Opt::Same)
    } else if n == "clean-name"@ {
        Some(Opt::CleanName)
    } else if n == "print-details"@ {
        Some(Opt::PrintDetails)
    } else if n == "wait"@ {
        Some(Opt::Wait)
    } else if n == "help"@ {
        Some(Opt::Help)
    } else if n == "version"@ {
        Some(Opt::Version)
    } else {
        None
    }
}

/// The option that a short name stands for.
pub open spec fn short_opt(c: char) -> Option<Opt> {
    if c == 'h' {
        Some(Opt::Help)
    } else if c == 'V' {
        Some(Opt::Version)
    } else if c == 'o' {
        Some(Opt::Output)
    } else {
        None
    }
}

/// Whether the option takes a value.
pub open spec fn takes_value(o: Opt) -> bool {
    match o {
        Opt::CleanName | Opt::PrintDetails | Opt::Wait | Opt::Help | Opt::Version => false,
        _ => true,
    }
}

/// Whether the option may stand at this point: before any subcommand
/// (`None`) or after the given one.
pub open spec fn accepts(sub: Option<Sub>, o: Opt) -> bool {
    match o {
        Opt::Help => true,
        Opt::Token | Opt::Format | Opt::Version => sub is None,
        Opt::Metadata => sub == Some(Sub::NewRun),
        Opt::Name => sub == Some(Sub::UploadScreenshot),
        Opt::CleanName => sub == Some(Sub::UploadScreenshot) || sub == Some(Sub::UploadScreenshots),
        Opt::WithRun => sub == Some(Sub::CompareRun) || sub == Some(Sub::GetComparison) || sub
            == Some(Sub::DownloadScreenshot) || sub == Some(Sub::DownloadDiff),
        Opt::Filter | Opt::Same => sub == Some(Sub::CompareRun),
        Opt::PrintDetails | Opt::Wait | Opt::WaitTimeout => sub == Some(Sub::CompareRun) || sub
            == Some(Sub::GetComparison),
        Opt::Output => sub == Some(Sub::DownloadScreenshot) || sub == Some(Sub::DownloadDiff),
    }
}

/// The subcommand that a word names.
pub open spec fn sub_named(w: Seq<char>) -> Option<Sub> {
    if w == "new-run"@ {
        Some(Sub::NewRun)
    } else if w == "upload-screenshot"@ {
        Some(Sub::UploadScreenshot)
    } else if w == "upload-screenshots"@ {
        Some(Sub::UploadScreenshots)
    } else if w == "compare-run"@ {
        Some(Sub::CompareRun)
    } else if w == "get-comparison"@ {
        Some(Sub::GetComparison)
    } else if w == "download-screenshot"@ {
        Some(Sub::DownloadScreenshot)
    } else if w == "download-diff"@ {
        Some(Sub::DownloadDiff)
    } else {
        None
    }
}

/// Whether the subcommand takes one more positional argument when it
/// already has `count` of them.
pub open spec fn fits_positional(sub: Sub, count: nat) -> bool {
    match sub {
        Sub::NewRun => false,
        Sub::UploadScreenshot | Sub::DownloadScreenshot | Sub::DownloadDiff => count < 2,
        Sub::UploadScreenshots => true,
        Sub::CompareRun | Sub::GetComparison => count < 1,
    }
}

/// What the parser has read so far.
#[verifier::ext_equal]
pub struct ParseModel {
    /// The refusal (or the request for help or the version) that stopped
    /// the parse.
    pub error: Option<(CliErrorKind, Seq<char>)>,
    pub sub: Option<Sub>,
    /// An option waiting for its value, with the argument that named it.
    pub pending: Option<(Opt, Seq<char>)>,
    /// Whether `--` has been read.
    pub only_positionals: bool,
    pub token: Option<Seq<char>>,
    pub format: Option<OutputFormat>,
    pub run_id: Option<u32>,
    /// The positional arguments after the run ID.
    pub extra: Seq<Seq<char>>,
    pub metadata: Option<Seq<char>>,
    pub name: Option<Seq<char>>,
    pub output: Option<Seq<char>>,
    pub with_run: Option<u32>,
    pub wait_timeout: Option<u32>,
    pub filter: Seq<(Seq<char>, Seq<char>)>,
    pub same: Seq<Seq<char>>,
    pub clean_name: bool,
    pub print_details: bool,
    pub wait: bool,
}

/// Nothing read yet.
pub open spec fn initial_model() -> ParseModel {
    ParseModel {
        error: None,
        sub: None,
        pending: None,
        only_positionals: false,
        token: None,
        format: None,
        run_id: None,
        extra: Seq::empty(),
        metadata: None,
        name: None,
        output: None,
        with_run: None,
        wait_timeout: None,
        filter: Seq::empty(),
        same: Seq::empty(),
        clean_name: false,
        print_details: false,
        wait: false,
    }
}

/// Stops the parse with a refusal.
pub open spec fn stop(st: ParseModel, kind: CliErrorKind, detail: Seq<char>) -> ParseModel {
    ParseModel { error: Some((kind, detail)), ..st }
}

/// Reads a flag named by the argument `a`.
pub open spec fn apply_flag(st: ParseModel, o: Opt, a: Seq<char>) -> ParseModel {
    match o {
        Opt::Help => stop(st, CliErrorKind::DisplayHelp, Seq::empty()),
        Opt::Version => stop(st, CliErrorKind::DisplayVersion, Seq::empty()),
        Opt::CleanName => if st.clean_name {
            stop(st, CliErrorKind::RepeatedArgument, a)
        } else {
            ParseModel { clean_name: true, ..st }
        },
        Opt::PrintDetails => if st.print_details {
            stop(st, CliErrorKind::RepeatedArgument, a)
        } else {
            ParseModel { print_details: true, ..st }
        },
        Opt::Wait => if st.wait {
            stop(st, CliErrorKind::RepeatedArgument, a)
        } else {
            ParseModel { wait: true, ..st }
        },
        _ => st,
    }
}

/// Reads the value `x` of the option named by the argument `a`.
pub open spec fn apply_value(st: ParseModel, o: Opt, x: Seq<char>, a: Seq<char>) -> ParseModel {
    match o {
        Opt::Token => if st.token is Some {
            stop(st, CliErrorKind::RepeatedArgument, a)
        } else {
            ParseModel { token: Some(x), ..st }
        },
        Opt::Format => if st.format is Some {
            stop(st, CliErrorKind::RepeatedArgument, a)
        } else if x == "text"@ {
            ParseModel { format: Some(OutputFormat::Text), ..st }
        } else if x == "json"@ {
            ParseModel { format: Some(OutputFormat::Json), ..st }
        } else {
            stop(st, CliErrorKind::InvalidValue, x)
        },
        Opt::Metadata => if st.metadata is Some {
            stop(st, CliErrorKind::RepeatedArgument, a)
        } else {
            ParseModel { metadata: Some(x), ..st }
        },
        Opt::Name => if st.name is Some {
            stop(st, CliErrorKind::RepeatedArgument, a)
        } else {
            ParseModel { name: Some(x), ..st }
        },
        Opt::Output => if st.output is Some {
            stop(st, CliErrorKind::RepeatedArgument, a)
        } else if x.len() == 0 {
            stop(st, CliErrorKind::MissingValue, a)
        } else {
            ParseModel { output: Some(x), ..st }
        },
        Opt::WithRun => if st.with_run is Some {
            stop(st, CliErrorKind::RepeatedArgument, a)
        } else {
            match u32_text_value(x) {
                Some(n) => ParseModel { with_run: Some(n), ..st },
                None => stop(st, CliErrorKind::InvalidValue, x),
            }
        },
        Opt::WaitTimeout => if st.wait_timeout is Some {
            stop(st, CliErrorKind::RepeatedArgument, a)
        } else {
            match u32_text_value(x) {
                Some(n) => ParseModel { wait_timeout: Some(n), ..st },
                None => stop(st, CliErrorKind::InvalidValue, x),
            }
        },
        Opt::Filter => match key_value_spec(x) {
            Ok(p) => ParseModel { filter: st.filter.push(p), ..st },
            Err(m) => stop(st, CliErrorKind::InvalidValue, m),
        },
        Opt::Same => ParseModel { same: st.same.push(x), ..st },
        _ => st,
    }
}

/// The number of positional arguments read after the subcommand.
pub open spec fn positional_count(st: ParseModel) -> nat {
    (if st.run_id is Some {
        1nat
    } else {
        0nat
    }) + st.extra.len()
}

/// Reads a positional argument.
pub open spec fn positional(st: ParseModel, w: Seq<char>) -> ParseModel {
    match st.sub {
        None => stop(st, CliErrorKind::UnknownArgument, w),
        Some(sub) => if !fits_positional(sub, positional_count(st)) {
            stop(st, CliErrorKind::UnknownArgument, w)
        } else if st.run_id is None {
            match u32_text_value(w) {
                Some(n) => ParseModel { run_id: Some(n), ..st },
                None => stop(st, CliErrorKind::InvalidValue, w),
            }
        } else {
            ParseModel { extra: st.extra.push(w), ..st }
        },
    }
}

/// Reads an option, by its long or short name, with the value that the
/// argument itself carries, if any.
pub open spec fn read_option(st: ParseModel, o: Opt, inline: Option<Seq<char>>, a: Seq<char>) -> ParseModel {
    if !accepts(st.sub, o) {
        stop(st, CliErrorKind::UnknownArgument, a)
    } else if takes_value(o) {
        match inline {
            Some(x) => apply_value(st, o, x, a),
            None => ParseModel { pending: Some((o, a)), ..st },
        }
    } else if inline is Some {
        stop(st, CliErrorKind::UnexpectedValue, a)
    } else {
        apply_flag(st, o, a)
    }
}

/// The value that a short option carries in its own argument: the rest of
/// the argument, without a leading `=`.
pub open spec fn short_inline(rest: Seq<char>) -> Option<Seq<char>> {
    if rest.len() == 0 {
        None
    } else if rest[0] == '=' {
        Some(rest.drop_first())
    } else {
        Some(rest)
    }
}

/// Reads one argument.
pub open spec fn step(st: ParseModel, a: Seq<char>) -> ParseModel {
    if st.error is Some {
        st
    } else if st.pending is Some {
        let waiting = st.pending->0;
        let o = waiting.0;
        let t = waiting.1;
        let st2 = ParseModel { pending: None, ..st };
        if looks_like_flag(a) {
            stop(st2, CliErrorKind::MissingValue, t)
        } else {
            apply_value(st2, o, a, t)
        }
    } else if st.only_positionals {
        positional(st, a)
    } else {
        match classify(a) {
            Tok::DoubleDash => ParseModel { only_positionals: true, ..st },
            Tok::Long(n, v) => match long_opt(n) {
                Some(o) => read_option(st, o, v, a),
                None => stop(st, CliErrorKind::UnknownArgument, a),
            },
            Tok::Short(c, rest) => match short_opt(c) {
                Some(o) => if takes_value(o) {
                    read_option(st, o, short_inline(rest), a)
                } else {
                    read_option(st, o, None, a)
                },
                None => stop(st, CliErrorKind::UnknownArgument, a),
            },
            Tok::Word => if st.sub is None {
                match sub_named(a) {
                    Some(s) => ParseModel { sub: Some(s), ..st },
                    None => if a == "help"@ {
                        stop(st, CliErrorKind::DisplayHelp, Seq::empty())
                    } else {
                        stop(st, CliErrorKind::UnknownSubcommand, a)
                    },
                }
            } else {
                positional(st, a)
            },
        }
    }
}

/// Reads the arguments in order.
pub open spec fn read_all(args: Seq<Seq<char>>) -> ParseModel
    decreases args.len(),
{
    if args.len() == 0 {
        initial_model()
    } else {
        step(read_all(args.drop_last()), args.last())
    }
}

/// The command that the arguments read after a subcommand make up, or why
/// they make up none.
pub open spec fn command_of(st: ParseModel, sub: Sub) -> Result<CommandModel, (CliErrorKind, Seq<char>)> {
    let wait_timeout = match st.wait_timeout {
        Some(t) => t,
        None => 300u32,
    };
    match sub {
        Sub::NewRun => Ok(CommandModel::NewRun { metadata: st.metadata }),
        Sub::UploadScreenshot => if st.run_id is None {
            Err((CliErrorKind::MissingArgument, "<RUN_ID>"@))
        } else if st.extra.len() == 0 {
            Err((CliErrorKind::MissingArgument, "<PATH>"@))
        } else {
            Ok(
                CommandModel::UploadScreenshot {
                    run_id: st.run_id->0,
                    path: st.extra[0],
                    name: st.name,
                    clean_name: st.clean_name,
                },
            )
        },
        Sub::UploadScreenshots => if st.run_id is None {
            Err((CliErrorKind::MissingArgument, "<RUN_ID>"@))
        } else if st.extra.len() == 0 {
            Err((CliErrorKind::MissingArgument, "<PATH>"@))
        } else {
            Ok(
                CommandModel::UploadScreenshots {
                    run_id: st.run_id->0,
                    path: st.extra,
                    clean_name: st.clean_name,
                },
            )
        },
        Sub::CompareRun => if st.run_id is None {
            Err((CliErrorKind::MissingArgument, "<RUN_ID>"@))
        } else if st.with_run is Some && (st.filter.len() > 0 || st.same.len() > 0) {
            Err((CliErrorKind::ArgumentConflict, "--with-run"@))
        } else if st.with_run is None && st.filter.len() == 0 && st.same.len() == 0 {
            Err((CliErrorKind::MissingArgument, "--with-run"@))
        } else {
            Ok(
                CommandModel::CompareRun {
                    run_id: st.run_id->0,
                    with: CompareWithModel {
                        with_run: st.with_run,
                        filter: st.filter,
                        same: st.same,
                    },
                    print_details: st.print_details,
                    wait: st.wait,
                    wait_timeout,
                },
            )
        },
        Sub::GetComparison => if st.run_id is None {
            Err((CliErrorKind::MissingArgument, "<RUN_ID>"@))
        } else if st.with_run is None {
            Err((CliErrorKind::MissingArgument, "--with-run"@))
        } else {
            Ok(
                CommandModel::GetComparison {
                    run_id: st.run_id->0,
                    with_run: st.with_run->0,
                    print_details: st.print_details,
                    wait: st.wait,
                    wait_timeout,
                },
            )
        },
        Sub::DownloadScreenshot | Sub::DownloadDiff => if st.run_id is None {
            Err((CliErrorKind::MissingArgument, "<RUN_ID>"@))
        } else if st.with_run is None {
            Err((CliErrorKind::MissingArgument, "--with-run"@))
        } else if st.extra.len() == 0 {
            Err((CliErrorKind::MissingArgument, "<NAME>"@))
        } else if st.output is None {
            Err((CliErrorKind::MissingArgument, "--output"@))
        } else if sub == Sub::DownloadScreenshot {
            Ok(
                CommandModel::DownloadScreenshot {
                    run_id: st.run_id->0,
                    with_run: st.with_run->0,
                    name: st.extra[0],
                    output: st.output->0,
                },
            )
        } else {
            Ok(
                CommandModel::DownloadDiff {
                    run_id: st.run_id->0,
                    with_run: st.with_run->0,
                    name: st.extra[0],
                    output: st.output->0,
                },
            )
        },
    }
}

/// The outcome of reading all the arguments, with the token from the
/// environment used when no `--token` was given.
pub open spec fn finish(st: ParseModel, env_token: Option<Seq<char>>) -> Result<
    CliModel,
    (CliErrorKind, Seq<char>),
> {
    if st.error is Some {
        Err(st.error->0)
    } else if st.pending is Some {
        let waiting = st.pending->0;
        Err((CliErrorKind::MissingValue, waiting.1))
    } else if st.sub is None {
        Err((CliErrorKind::MissingSubcommand, Seq::empty()))
    } else {
        let token = if st.token is Some {
            st.token
        } else {
            env_token
        };
        if token is None {
            Err((CliErrorKind::MissingArgument, "--token"@))
        } else {
            let format = match st.format {
                Some(f) => f,
                None => OutputFormat::Text,
            };
            match command_of(st, st.sub->0) {
                Ok(c) => Ok(CliModel { token: token->0, format, command: c }),
                Err(e) => Err(e),
            }
        }
    }
}

/// What a command line reads as: the arguments after the program name, then
/// the token from the environment where no `--token` was given.
pub open spec fn parse_spec(args: Seq<Seq<char>>, env_token: Option<Seq<char>>) -> Result<
    CliModel,
    (CliErrorKind, Seq<char>),
> {
    let rest = if args.len() > 0 {
        args.drop_first()
    } else {
        args
    };
    finish(read_all(rest), env_token)
}


/// An argument's shape, with its parts as texts.
enum ArgShape {
    DoubleDash,
    Long(String, Option<String>),
    Short(char, String),
    Word,
}

impl View for ArgShape {
    type V = Tok;

    closed spec fn view(&self) -> Tok {
        match self {
            ArgShape::DoubleDash => Tok::DoubleDash,
            ArgShape::Long(n, v) => Tok::Long(n@, text_option(*v)),
            ArgShape::Short(c, r) => Tok::Short(*c, r@),
            ArgShape::Word => Tok::Word,
        }
    }
}

/// The shape of an argument.
fn shape_of(a: &str) -> (r: ArgShape)
    ensures
        r@ == classify(a@),
{
    let n = a.unicode_len();
    if n == 2 && a.get_char(0) == '-' && a.get_char(1) == '-' {
        ArgShape::DoubleDash
    } else if n > 2 && a.get_char(0) == '-' && a.get_char(1) == '-' {
        let body = a.substring_char(2, n);
        proof {
            assert(body@ =~= a@.skip(2));
        }
        let (k, _count) = scan_char(body, '=');
        let bn = body.unicode_len();
        proof {
            lemma_find_char_bounds(body@, '=');
        }
        if k < bn {
            let name: String = body.substring_char(0, k).to_owned();
            let value: String = body.substring_char(k + 1, bn).to_owned();
            proof {
                assert(name@ =~= body@.take(k as int));
                assert(value@ =~= body@.skip(k + 1));
            }
            ArgShape::Long(name, Some(value))
        } else {
            let name: String = body.to_owned();
            ArgShape::Long(name, None)
        }
    } else if n >= 2 && a.get_char(0) == '-' {
        let rest: String = a.substring_char(2, n).to_owned();
        proof {
            assert(rest@ =~= a@.skip(2));
        }
        ArgShape::Short(a.get_char(1), rest)
    } else {
        ArgShape::Word
    }
}

/// Whether an argument reads as an option rather than as a value.
fn is_flag_like(a: &str) -> (r: bool)
    ensures
        r == looks_like_flag(a@),
{
    let n = a.unicode_len();
    n >= 2 && a.get_char(0) == '-'
}

/// The option that a long name stands for.
fn lookup_long(n: &str) -> (r: Option<Opt>)
    ensures
        r == long_opt(n@),
{
    if text_eq(n, "token") {
        Some(Opt::Token)
    } else if text_eq(n, "format") {
        Some(Opt::Format)
    } else if text_eq(n, "metadata") {
        Some(Opt::Metadata)
    } else if text_eq(n, "name") {
        Some(Opt::Name)
    } else if text_eq(n, "output") {
        Some(Opt::Output)
    } else if text_eq(n, "with-run") {
        Some(Opt::WithRun)
    } else if text_eq(n, "wait-timeout") {
        Some(Opt::WaitTimeout)
    } else if text_eq(n, "filter") {
        Some(Opt::Filter)
    } else if text_eq(n, "same") {
        Some(Opt::Same)
    } else if text_eq(n, "clean-name") {
        Some(Opt::CleanName)
    } else if text_eq(n, "print-details") {
        Some(Opt::PrintDetails)
    } else if text_eq(n, "wait") {
        Some(Opt::Wait)
    } else if text_eq(n, "help") {
        Some(Opt::Help)
    } else if text_eq(n, "version") {
        Some(Opt::Version)
    } else {
        None
    }
}

/// The option that a short name stands for.
fn lookup_short(c: char) -> (r: Option<Opt>)
    ensures
        r == short_opt(c),
{
    if c == 'h' {
        Some(Opt::Help)
    } else if c == 'V' {
        Some(Opt::Version)
    } else if c == 'o' {
        Some(Opt::Output)
    } else {
        None
    }
}

/// Whether the option takes a value.
fn option_takes_value(o: Opt) -> (r: bool)
    ensures
        r == takes_value(o),
{
    match o {
        Opt::CleanName | Opt::PrintDetails | Opt::Wait | Opt::Help | Opt::Version => false,
        _ => true,
    }
}

/// Whether the option may stand after `sub` (or before any subcommand).
fn option_accepted(sub: Option<Sub>, o: Opt) -> (r: bool)
    ensures
        r == accepts(sub, o),
{
    match o {
        Opt::Help => true,
        Opt::Token | Opt::Format | Opt::Version => sub.is_none(),
        Opt::Metadata => sub == Some(Sub::NewRun),
        Opt::Name => sub == Some(Sub::UploadScreenshot),
        Opt::CleanName => sub == Some(Sub::UploadScreenshot) || sub == Some(Sub::UploadScreenshots),
        Opt::WithRun => sub == Some(Sub::CompareRun) || sub == Some(Sub::GetComparison) || sub
            == Some(Sub::DownloadScreenshot) || sub == Some(Sub::DownloadDiff),
        Opt::Filter | Opt::Same => sub == Some(Sub::CompareRun),
        Opt::PrintDetails | Opt::Wait | Opt::WaitTimeout => sub == Some(Sub::CompareRun) || sub
            == Some(Sub::GetComparison),
        Opt::Output => sub == Some(Sub::DownloadScreenshot) || sub == Some(Sub::DownloadDiff),
    }
}

/// The subcommand that a word names.
fn lookup_sub(w: &str) -> (r: Option<Sub>)
    ensures
        r == sub_named(w@),
{
    if text_eq(w, "new-run") {
        Some(Sub::NewRun)
    } else if text_eq(w, "upload-screenshot") {
        Some(Sub::UploadScreenshot)
    } else if text_eq(w, "upload-screenshots") {
        Some(Sub::UploadScreenshots)
    } else if text_eq(w, "compare-run") {
        Some(Sub::CompareRun)
    } else if text_eq(w, "get-comparison") {
        Some(Sub::GetComparison)
    } else if text_eq(w, "download-screenshot") {
        Some(Sub::DownloadScreenshot)
    } else if text_eq(w, "download-diff") {
        Some(Sub::DownloadDiff)
    } else {
        None
    }
}

/// Whether the subcommand takes one more positional argument.
fn room_for_positional(sub: Sub, count: usize) -> (r: bool)
    ensures
        r == fits_positional(sub, count as nat),
{
    match sub {
        Sub::NewRun => false,
        Sub::UploadScreenshot | Sub::DownloadScreenshot | Sub::DownloadDiff => count < 2,
        Sub::UploadScreenshots => true,
        Sub::CompareRun | Sub::GetComparison => count < 1,
    }
}

/// The value that a short option carries in its own argument.
fn short_value(rest: &str) -> (r: Option<String>)
    ensures
        text_option(r) == short_inline(rest@),
{
    let n = rest.unicode_len();
    if n == 0 {
        None
    } else if rest.get_char(0) == '=' {
        let v: String = rest.substring_char(1, n).to_owned();
        proof {
            assert(v@ =~= rest@.drop_first());
        }
        Some(v)
    } else {
        Some(rest.to_owned())
    }
}

/// The parser's state.
struct ParseState {
    error: Option<(CliErrorKind, String)>,
    sub: Option<Sub>,
    pending: Option<(Opt, String)>,
    only_positionals: bool,
    token: Option<String>,
    format: Option<OutputFormat>,
    run_id: Option<u32>,
    extra: Vec<String>,
    metadata: Option<String>,
    name: Option<String>,
    output: Option<String>,
    with_run: Option<u32>,
    wait_timeout: Option<u32>,
    filter: Vec<(String, String)>,
    same: Vec<String>,
    clean_name: bool,
    print_details: bool,
    wait: bool,
}

impl View for ParseState {
    type V = ParseModel;

    closed spec fn view(&self) -> ParseModel {
        ParseModel {
            error: match self.error {
                Some(e) => Some((e.0, e.1@)),
                None => None,
            },
            sub: self.sub,
            pending: match self.pending {
                Some(p) => Some((p.0, p.1@)),
                None => None,
            },
            only_positionals: self.only_positionals,
            token: text_option(self.token),
            format: self.format,
            run_id: self.run_id,
            extra: texts(self.extra@),
            metadata: text_option(self.metadata),
            name: text_option(self.name),
            output: text_option(self.output),
            with_run: self.with_run,
            wait_timeout: self.wait_timeout,
            filter: text_pairs(self.filter@),
            same: texts(self.same@),
            clean_name: self.clean_name,
            print_details: self.print_details,
            wait: self.wait,
        }
    }
}

impl ParseState {
    fn new() -> (r: ParseState)
        ensures
            r@ == initial_model(),
    {
        let r = ParseState {
            error: None,
            sub: None,
            pending: None,
            only_positionals: false,
            token: None,
            format: None,
            run_id: None,
            extra: Vec::new(),
            metadata: None,
            name: None,
            output: None,
            with_run: None,
            wait_timeout: None,
            filter: Vec::new(),
            same: Vec::new(),
            clean_name: false,
            print_details: false,
            wait: false,
        };
        proof {
            assert(r@ =~= initial_model());
        }
        r
    }

    fn stop(self, kind: CliErrorKind, detail: String) -> (r: ParseState)
        ensures
            r@ == stop(self@, kind, detail@),
    {
        ParseState { error: Some((kind, detail)), ..self }
    }

    fn apply_flag(self, o: Opt, a: &String) -> (r: ParseState)
        ensures
            r@ == apply_flag(self@, o, a@),
    {
        match o {
            Opt::Help => self.stop(CliErrorKind::DisplayHelp, String::new()),
            Opt::Version => self.stop(CliErrorKind::DisplayVersion, String::new()),
            Opt::CleanName => if self.clean_name {
                self.stop(CliErrorKind::RepeatedArgument, a.clone())
            } else {
                ParseState { clean_name: true, ..self }
            },
            Opt::PrintDetails => if self.print_details {
                self.stop(CliErrorKind::RepeatedArgument, a.clone())
            } else {
                ParseState { print_details: true, ..self }
            },
            Opt::Wait => if self.wait {
                self.stop(CliErrorKind::RepeatedArgument, a.clone())
            } else {
                ParseState { wait: true, ..self }
            },
            _ => self,
        }
    }

    fn apply_value(self, o: Opt, x: String, a: &String) -> (r: ParseState)
        ensures
            r@ == apply_value(self@, o, x@, a@),
    {
        match o {
            Opt::Token => if self.token.is_some() {
                self.stop(CliErrorKind::RepeatedArgument, a.clone())
            } else {
                ParseState { token: Some(x), ..self }
            },
            Opt::Format => if self.format.is_some() {
                self.stop(CliErrorKind::RepeatedArgument, a.clone())
            } else if text_eq(x.as_str(), "text") {
                ParseState { format: Some(OutputFormat::Text), ..self }
            } else if text_eq(x.as_str(), "json") {
                ParseState { format: Some(OutputFormat::Json), ..self }
            } else {
                self.stop(CliErrorKind::InvalidValue, x)
            },
            Opt::Metadata => if self.metadata.is_some() {
                self.stop(CliErrorKind::RepeatedArgument, a.clone())
            } else {
                ParseState { metadata: Some(x), ..self }
            },
            Opt::Name => if self.name.is_some() {
                self.stop(CliErrorKind::RepeatedArgument, a.clone())
            } else {
                ParseState { name: Some(x), ..self }
            },
            Opt::Output => if self.output.is_some() {
                self.stop(CliErrorKind::RepeatedArgument, a.clone())
            } else if x.as_str().unicode_len() == 0 {
                self.stop(CliErrorKind::MissingValue, a.clone())
            } else {
                ParseState { output: Some(x), ..self }
            },
            Opt::WithRun => if self.with_run.is_some() {
                self.stop(CliErrorKind::RepeatedArgument, a.clone())
            } else {
                match parse_u32(x.as_str()) {
                    Some(n) => ParseState { with_run: Some(n), ..self },
                    None => self.stop(CliErrorKind::InvalidValue, x),
                }
            },
            Opt::WaitTimeout => if self.wait_timeout.is_some() {
                self.stop(CliErrorKind::RepeatedArgument, a.clone())
            } else {
                match parse_u32(x.as_str()) {
                    Some(n) => ParseState { wait_timeout: Some(n), ..self },
                    None => self.stop(CliErrorKind::InvalidValue, x),
                }
            },
            Opt::Filter => match key_value(x.as_str()) {
                Ok(p) => {
                    let mut st = self;
                    let ghost before = st@;
                    st.filter.push(p);
                    proof {
                        assert(text_pairs(st.filter@) =~= before.filter.push((p.0@, p.1@)));
                    }
                    st
                },
                Err(m) => self.stop(CliErrorKind::InvalidValue, m),
            },
            Opt::Same => {
                let mut st = self;
                let ghost before = st@;
                let ghost xv = x@;
                st.same.push(x);
                proof {
                    assert(texts(st.same@) =~= before.same.push(xv));
                }
                st
            },
            _ => self,
        }
    }

    fn positional(self, w: String) -> (r: ParseState)
        ensures
            r@ == positional(self@, w@),
    {
        match self.sub {
            None => self.stop(CliErrorKind::UnknownArgument, w),
            Some(sub) => {
                let count: usize = if self.run_id.is_some() {
                    1
                } else {
                    0
                };
                // the subcommands with a bound take at most two positional
                // arguments, so a saturated count answers the same
                let room = if self.extra.len() == usize::MAX {
                    room_for_positional(sub, usize::MAX)
                } else {
                    room_for_positional(sub, count + self.extra.len())
                };
                proof {
                    assert(texts(self.extra@).len() == self.extra@.len());
                }
                if !room {
                    self.stop(CliErrorKind::UnknownArgument, w)
                } else if self.run_id.is_none() {
                    match parse_u32(w.as_str()) {
                        Some(n) => ParseState { run_id: Some(n), ..self },
                        None => self.stop(CliErrorKind::InvalidValue, w),
                    }
                } else {
                    let mut st = self;
                    let ghost before = st@;
                    let ghost wv = w@;
                    st.extra.push(w);
                    proof {
                        assert(texts(st.extra@) =~= before.extra.push(wv));
                    }
                    st
                }
            },
        }
    }

    fn read_option(self, o: Opt, inline: Option<String>, a: &String) -> (r: ParseState)
        ensures
            r@ == read_option(self@, o, text_option(inline), a@),
    {
        if !option_accepted(self.sub, o) {
            self.stop(CliErrorKind::UnknownArgument, a.clone())
        } else if option_takes_value(o) {
            match inline {
                Some(x) => self.apply_value(o, x, a),
                None => ParseState { pending: Some((o, a.clone())), ..self },
            }
        } else if inline.is_some() {
            self.stop(CliErrorKind::UnexpectedValue, a.clone())
        } else {
            self.apply_flag(o, a)
        }
    }

    fn step(self, a: &String) -> (r: ParseState)
        ensures
            r@ == step(self@, a@),
    {
        if self.error.is_some() {
            return self;
        }
        if self.pending.is_some() {
            let mut st = self;
            let pending = st.pending.take();
            match pending {
                Some((o, t)) => {
                    if is_flag_like(a.as_str()) {
                        st.stop(CliErrorKind::MissingValue, t)
                    } else {
                        st.apply_value(o, a.clone(), &t)
                    }
                },
                None => st,
            }
        } else if self.only_positionals {
            self.positional(a.clone())
        } else {
            match shape_of(a.as_str()) {
                ArgShape::DoubleDash => ParseState { only_positionals: true, ..self },
                ArgShape::Long(n, v) => match lookup_long(n.as_str()) {
                    Some(o) => self.read_option(o, v, a),
                    None => self.stop(CliErrorKind::UnknownArgument, a.clone()),
                },
                ArgShape::Short(c, rest) => match lookup_short(c) {
                    Some(o) => if option_takes_value(o) {
                        let inline = short_value(rest.as_str());
                        self.read_option(o, inline, a)
                    } else {
                        self.read_option(o, None, a)
                    },
                    None => self.stop(CliErrorKind::UnknownArgument, a.clone()),
                },
                ArgShape::Word => if self.sub.is_none() {
                    match lookup_sub(a.as_str()) {
                        Some(s) => ParseState { sub: Some(s), ..self },
                        None => if text_eq(a.as_str(), "help") {
                            self.stop(CliErrorKind::DisplayHelp, String::new())
                        } else {
                            self.stop(CliErrorKind::UnknownSubcommand, a.clone())
                        },
                    }
                } else {
                    self.positional(a.clone())
                },
            }
        }
    }
}


/// A refusal with a fixed detail text.
fn refusal(kind: CliErrorKind, detail: &str) -> (r: CliError)
    ensures
        r@ == (kind, detail@),
{
    CliError { kind, detail: detail.to_owned() }
}

/// The view of a command outcome.
pub open spec fn command_result_view(r: Result<Commands, CliError>) -> Result<
    CommandModel,
    (CliErrorKind, Seq<char>),
> {
    match r {
        Ok(c) => Ok(c@),
        Err(e) => Err(e@),
    }
}

/// The outcome of a parse whose arguments have all been read.
fn finish_parse(st: ParseState, env_token: Option<String>) -> (r: Result<Cli, CliError>)
    ensures
        cli_result_view(r) == finish(st@, text_option(env_token)),
{
    let ghost m = st@;
    let ParseState {
        error,
        sub,
        pending,
        only_positionals: _,
        token,
        format,
        run_id,
        extra,
        metadata,
        name,
        output,
        with_run,
        wait_timeout,
        filter,
        same,
        clean_name,
        print_details,
        wait,
    } = st;
    if let Some((kind, detail)) = error {
        return Err(CliError { kind, detail });
    }
    if let Some((_o, t)) = pending {
        return Err(CliError { kind: CliErrorKind::MissingValue, detail: t });
    }
    let sub = match sub {
        Some(s) => s,
        None => {
            return Err(CliError { kind: CliErrorKind::MissingSubcommand, detail: String::new() });
        },
    };
    let token = match token {
        Some(t) => t,
        None => match env_token {
            Some(t) => t,
            None => {
                return Err(refusal(CliErrorKind::MissingArgument, "--token"));
            },
        },
    };
    let format = match format {
        Some(f) => f,
        None => OutputFormat::Text,
    };
    let wait_timeout = match wait_timeout {
        Some(t) => t,
        None => 300,
    };
    let run_id = match run_id {
        Some(n) => n,
        None => {
            if sub == Sub::NewRun {
                let cli = Cli { token, format, command: Commands::NewRun { metadata } };
                proof {
                    assert(cli@ =~= finish(m, text_option(env_token))->Ok_0);
                }
                return Ok(cli);
            }
            return Err(refusal(CliErrorKind::MissingArgument, "<RUN_ID>"));
        },
    };
    let command = match sub {
        Sub::NewRun => Commands::NewRun { metadata },
        Sub::UploadScreenshot => {
            if extra.len() == 0 {
                return Err(refusal(CliErrorKind::MissingArgument, "<PATH>"));
            }
            let mut extra = extra;
            let path = extra.swap_remove(0);
            Commands::UploadScreenshot { run_id, path, name, clean_name }
        },
        Sub::UploadScreenshots => {
            if extra.len() == 0 {
                return Err(refusal(CliErrorKind::MissingArgument, "<PATH>"));
            }
            Commands::UploadScreenshots { run_id, path: extra, clean_name }
        },
        Sub::CompareRun => {
            if with_run.is_some() && (filter.len() > 0 || same.len() > 0) {
                return Err(refusal(CliErrorKind::ArgumentConflict, "--with-run"));
            }
            if with_run.is_none() && filter.len() == 0 && same.len() == 0 {
                return Err(refusal(CliErrorKind::MissingArgument, "--with-run"));
            }
            Commands::CompareRun {
                run_id,
                with: CompareWith { with_run, filter, same },
                run_arguments: RunArguments { print_details, wait, wait_timeout },
            }
        },
        Sub::GetComparison => {
            let with_run = match with_run {
                Some(w) => w,
                None => {
                    return Err(refusal(CliErrorKind::MissingArgument, "--with-run"));
                },
            };
            Commands::GetComparison {
                run_id,
                with_run,
                run_arguments: RunArguments { print_details, wait, wait_timeout },
            }
        },
        Sub::DownloadScreenshot | Sub::DownloadDiff => {
            let with_run = match with_run {
                Some(w) => w,
                None => {
                    return Err(refusal(CliErrorKind::MissingArgument, "--with-run"));
                },
            };
            if extra.len() == 0 {
                return Err(refusal(CliErrorKind::MissingArgument, "<NAME>"));
            }
            let output = match output {
                Some(o) => o,
                None => {
                    return Err(refusal(CliErrorKind::MissingArgument, "--output"));
                },
            };
            let mut extra = extra;
            let name = extra.swap_remove(0);
            if sub == Sub::DownloadScreenshot {
                Commands::DownloadScreenshot { run_id, with_run, name, output }
            } else {
                Commands::DownloadDiff { run_id, with_run, name, output }
            }
        },
    };
    let cli = Cli { token, format, command };
    proof {
        assert(cli@ =~= finish(m, text_option(env_token))->Ok_0);
    }
    Ok(cli)
}

impl Cli {
    /// Parses a command line: the program name, then the arguments. The
    /// token comes from `--token`, or else from `env_token` (the value of
    /// `PIXEL_EAGLE_TOKEN`). A request for help or for the version comes back
    /// as an error of that kind, as every refusal does.
    pub fn try_parse_from(args: &Vec<String>, env_token: Option<String>) -> (r: Result<
        Cli,
        CliError,
    >)
        ensures
            cli_result_view(r) == parse_spec(texts(args@), text_option(env_token)),
    {
        let ghost all = texts(args@);
        let ghost rest = if all.len() > 0 {
            all.drop_first()
        } else {
            all
        };
        let start: usize = if args.len() > 0 {
            1
        } else {
            0
        };
        proof {
            assert(rest =~= all.subrange(start as int, all.len() as int));
            assert(rest.take(0) =~= Seq::<Seq<char>>::empty());
        }
        let mut st = ParseState::new();
        let mut i: usize = start;
        while i < args.len()
            invariant
                start <= i <= args@.len(),
                all == texts(args@),
                rest == all.subrange(start as int, all.len() as int),
                st@ == read_all(rest.take(i - start)),
            decreases args@.len() - i,
        {
            st = st.step(&args[i]);
            proof {
                assert(rest.take(i + 1 - start).drop_last() =~= rest.take(i - start));
                assert(rest.take(i + 1 - start).last() == args@[i as int]@);
            }
            i = i + 1;
        }
        proof {
            assert(rest.take(i - start) =~= rest);
        }
        finish_parse(st, env_token)
    }
}

} // verus!
