//! The command line: its grammar, the values that it reads and the
//! metadata filter that `compare-run` sends.

use vstd::prelude::*;

use crate::external::{debug_quote, debug_text};
use crate::string_map::{pairs_map, StringMap};
use crate::text::{count_char, find_char, lemma_count_char_absent, lemma_find_char_bounds, scan_char};

verus! {

/// The views of a list of text pairs.
pub open spec fn text_pairs(v: Seq<(String, String)>) -> Seq<(Seq<char>, Seq<char>)> {
    v.map_values(|e: (String, String)| (e.0@, e.1@))
}

/// The views of a list of texts.
pub open spec fn texts(v: Seq<String>) -> Seq<Seq<char>> {
    v.map_values(|e: String| e@)
}

/// What a `key:value` argument reads as: the text before and after its one
/// `:`, or the message that refuses it when it holds no `:` or more than one.
pub open spec fn key_value_spec(s: Seq<char>) -> Result<(Seq<char>, Seq<char>), Seq<char>> {
    if count_char(s, ':') == 1 {
        let k = find_char(s, ':');
        Ok((s.take(k), s.skip(k + 1)))
    } else {
        Err("Invalid key:value pair: '"@ + debug_text(s) + "'"@)
    }
}

/// The view of what `key_value` returns.
pub open spec fn key_value_view(r: Result<(String, String), String>) -> Result<
    (Seq<char>, Seq<char>),
    Seq<char>,
> {
    match r {
        Ok(p) => Ok((p.0@, p.1@)),
        Err(m) => Err(m@),
    }
}

/// Reads a `key:value` pair.
pub fn key_value(s: &str) -> (r: Result<(String, String), String>)
    ensures
        key_value_view(r) == key_value_spec(s@),
{
    let (k, count) = scan_char(s, ':');
    if count == 1 {
        proof {
            lemma_find_char_bounds(s@, ':');
            if k == s@.len() {
                lemma_count_char_absent(s@, ':');
            }
        }
        let n = s.unicode_len();
        let key: String = s.substring_char(0, k).to_owned();
        let value: String = s.substring_char(k + 1, n).to_owned();
        proof {
            assert(s@.subrange(0, k as int) =~= s@.take(k as int));
            assert(s@.subrange(k + 1, n as int) =~= s@.skip(k + 1));
        }
        Ok((key, value))
    } else {
        let mut m = String::new();
        m.append("Invalid key:value pair: '");
        let quoted = debug_quote(s);
        m.append(quoted.as_str());
        m.append("'");
        proof {
            assert(m@ =~= "Invalid key:value pair: '"@ + debug_text(s@) + "'"@);
        }
        Err(m)
    }
}

/// The run that `compare-run` compares with: a run given by its ID, or the
/// runs that match metadata.
#[derive(Debug)]
pub struct CompareWith {
    /// ID of the run to compare with.
    pub with_run: Option<u32>,
    /// Metadata `key:value` pairs that the other run must carry.
    pub filter: Vec<(String, String)>,
    /// Metadata keys whose value the other run must share with this run.
    pub same: Vec<String>,
}

/// The metadata that selects the run to compare with: each filter pair, then
/// each `same` key with the value `<equal>`, later entries replacing earlier
/// ones.
pub open spec fn compare_metadata(filter: Seq<(Seq<char>, Seq<char>)>, same: Seq<Seq<char>>) -> Map<
    Seq<char>,
    Seq<char>,
> {
    pairs_map(filter + same.map_values(|k: Seq<char>| (k, "<equal>"@)))
}

impl CompareWith {
    /// The metadata that selects the run to compare with.
    pub fn as_hashmap(&self) -> (r: StringMap)
        ensures
            r@ == compare_metadata(text_pairs(self.filter@), texts(self.same@)),
    {
        let ghost fp = text_pairs(self.filter@);
        let ghost sp = texts(self.same@).map_values(|k: Seq<char>| (k, "<equal>"@));
        let ghost all = fp + sp;
        let mut map = StringMap::new();
        let mut i: usize = 0;
        while i < self.filter.len()
            invariant
                i <= self.filter@.len(),
                fp == text_pairs(self.filter@),
                all == fp + sp,
                map@ == pairs_map(all.take(i as int)),
            decreases self.filter@.len() - i,
        {
            let key = self.filter[i].0.clone();
            let value = self.filter[i].1.clone();
            map.insert(key, value);
            proof {
                assert(all.take(i + 1).drop_last() =~= all.take(i as int));
                assert(all.take(i + 1).last() == fp[i as int]);
            }
            i = i + 1;
        }
        let mut j: usize = 0;
        while j < self.same.len()
            invariant
                j <= self.same@.len(),
                fp.len() == self.filter@.len(),
                sp == texts(self.same@).map_values(|k: Seq<char>| (k, "<equal>"@)),
                all == fp + sp,
                map@ == pairs_map(all.take(fp.len() + j as int)),
            decreases self.same@.len() - j,
        {
            let key = self.same[j].clone();
            let value: String = "<equal>".to_owned();
            map.insert(key, value);
            proof {
                let n: int = fp.len() + j;
                assert(all.take(n + 1).drop_last() =~= all.take(n));
                assert(all.take(n + 1).last() == sp[j as int]);
            }
            j = j + 1;
        }
        proof {
            assert(all.take((fp.len() + self.same@.len()) as int) =~= all);
        }
        map
    }
}


/// How results are printed.
#[derive(Clone, Copy, PartialEq, Eq, Structural, Debug)]
pub enum OutputFormat {
    Text,
    Json,
}

/// The options shared by `compare-run` and `get-comparison`.
#[derive(Debug)]
pub struct RunArguments {
    /// Print details of the comparison.
    pub print_details: bool,
    /// Wait for the comparison to finish before returning.
    pub wait: bool,
    /// Timeout when waiting, in seconds.
    pub wait_timeout: u32,
}

/// The subcommands of the command line, with their arguments.
#[derive(Debug)]
pub enum Commands {
    /// Create a new run.
    NewRun { metadata: Option<String> },
    /// Upload a screenshot to a run.
    UploadScreenshot { run_id: u32, path: String, name: Option<String>, clean_name: bool },
    /// Upload screenshots to a run.
    UploadScreenshots { run_id: u32, path: Vec<String>, clean_name: bool },
    /// Trigger a run comparison with another.
    CompareRun { run_id: u32, with: CompareWith, run_arguments: RunArguments },
    /// Get a run comparison with another.
    GetComparison { run_id: u32, with_run: u32, run_arguments: RunArguments },
    /// Download a screenshot from a comparison.
    DownloadScreenshot { run_id: u32, with_run: u32, name: String, output: String },
    /// Download the diff image between two screenshots.
    DownloadDiff { run_id: u32, with_run: u32, name: String, output: String },
}

/// A parsed command line.
#[derive(Debug)]
pub struct Cli {
    /// The project's token.
    pub token: String,
    /// Output format.
    pub format: OutputFormat,
    /// What to do.
    pub command: Commands,
}

/// Why a command line was not accepted, or that it asked for help or the
/// version instead.
#[derive(Clone, Copy, PartialEq, Eq, Structural, Debug)]
pub enum CliErrorKind {
    UnknownArgument,
    UnknownSubcommand,
    MissingValue,
    UnexpectedValue,
    RepeatedArgument,
    InvalidValue,
    MissingSubcommand,
    MissingArgument,
    ArgumentConflict,
    DisplayHelp,
    DisplayVersion,
}

/// A refused command line: the kind of refusal and the argument it is about.
#[derive(Debug)]
pub struct CliError {
    pub kind: CliErrorKind,
    pub detail: String,
}

/// The model of the `compare-run` comparison target.
#[verifier::ext_equal]
pub struct CompareWithModel {
    pub with_run: Option<u32>,
    pub filter: Seq<(Seq<char>, Seq<char>)>,
    pub same: Seq<Seq<char>>,
}

/// The model of a subcommand with its arguments.
#[verifier::ext_equal]
pub enum CommandModel {
    NewRun { metadata: Option<Seq<char>> },
    UploadScreenshot {
        run_id: u32,
        path: Seq<char>,
        name: Option<Seq<char>>,
        clean_name: bool,
    },
    UploadScreenshots { run_id: u32, path: Seq<Seq<char>>, clean_name: bool },
    CompareRun {
        run_id: u32,
        with: CompareWithModel,
        print_details: bool,
        wait: bool,
        wait_timeout: u32,
    },
    GetComparison {
        run_id: u32,
        with_run: u32,
        print_details: bool,
        wait: bool,
        wait_timeout: u32,
    },
    DownloadScreenshot { run_id: u32, with_run: u32, name: Seq<char>, output: Seq<char> },
    DownloadDiff { run_id: u32, with_run: u32, name: Seq<char>, output: Seq<char> },
}

/// The model of a parsed command line.
#[verifier::ext_equal]
pub struct CliModel {
    pub token: Seq<char>,
    pub format: OutputFormat,
    pub command: CommandModel,
}

impl View for CompareWith {
    type V = CompareWithModel;

    open spec fn view(&self) -> CompareWithModel {
        CompareWithModel {
            with_run: self.with_run,
            filter: text_pairs(self.filter@),
            same: texts(self.same@),
        }
    }
}

impl View for Commands {
    type V = CommandModel;

    open spec fn view(&self) -> CommandModel {
        match self {
            Commands::NewRun { metadata } => CommandModel::NewRun {
                metadata: crate::external::text_option(*metadata),
            },
            Commands::UploadScreenshot { run_id, path, name, clean_name } =>
                CommandModel::UploadScreenshot {
                run_id: *run_id,
                path: path@,
                name: crate::external::text_option(*name),
                clean_name: *clean_name,
            },
            Commands::UploadScreenshots { run_id, path, clean_name } =>
                CommandModel::UploadScreenshots {
                run_id: *run_id,
                path: texts(path@),
                clean_name: *clean_name,
            },
            Commands::CompareRun { run_id, with, run_arguments } => CommandModel::CompareRun {
                run_id: *run_id,
                with: with@,
                print_details: run_arguments.print_details,
                wait: run_arguments.wait,
                wait_timeout: run_arguments.wait_timeout,
            },
            Commands::GetComparison { run_id, with_run, run_arguments } =>
                CommandModel::GetComparison {
                run_id: *run_id,
                with_run: *with_run,
                print_details: run_arguments.print_details,
                wait: run_arguments.wait,
                wait_timeout: run_arguments.wait_timeout,
            },
            Commands::DownloadScreenshot { run_id, with_run, name, output } =>
                CommandModel::DownloadScreenshot {
                run_id: *run_id,
                with_run: *with_run,
                name: name@,
                output: output@,
            },
            Commands::DownloadDiff { run_id, with_run, name, output } =>
                CommandModel::DownloadDiff {
                run_id: *run_id,
                with_run: *with_run,
                name: name@,
                output: output@,
            },
        }
    }
}

impl View for Cli {
    type V = CliModel;

    open spec fn view(&self) -> CliModel {
        CliModel { token: self.token@, format: self.format, command: self.command@ }
    }
}

impl View for CliError {
    type V = (CliErrorKind, Seq<char>);

    open spec fn view(&self) -> (CliErrorKind, Seq<char>) {
        (self.kind, self.detail@)
    }
}

/// The view of a parse outcome.
pub open spec fn cli_result_view(r: Result<Cli, CliError>) -> Result<
    CliModel,
    (CliErrorKind, Seq<char>),
> {
    match r {
        Ok(c) => Ok(c@),
        Err(e) => Err(e@),
    }
}

} // verus!
