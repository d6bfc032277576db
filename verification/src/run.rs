//! One comparison from two JSON texts to the three output files: what is read, compared,
//! projected and printed. Reading the input files and writing the output files is left to the
//! caller.
use crate::config::Config;
use crate::config::ConfigView;
use crate::delta::compare;
use crate::delta::compare_values;
use crate::delta::Delta;
use crate::delta::DeltaView;
use crate::filters::delta_to_first;
use crate::filters::delta_to_first_set;
use crate::filters::delta_to_second;
use crate::filters::delta_to_second_set;
use crate::filters::equal;
use crate::filters::equal_set;
use crate::json::error_message;
use crate::json::from_slice;
use crate::json::json_of;
use crate::json::null_value;
use crate::json::parsed;
use crate::json::printed;
use crate::json::to_string_pretty;
use crate::project::follows;
use crate::project::project;
use crate::project::rendered;
use crate::project::Policy;
use vstd::prelude::*;
use vstd::string::StringExecFns;

verus! {

/// Why a comparison came to nothing, as a mathematical value.
pub enum FailureModel {
    Parse(Seq<char>),
    Print(Seq<char>),
}

impl FailureModel {
    /// The message of the failure.
    pub open spec fn message(self) -> Seq<char> {
        match self {
            FailureModel::Parse(message) => message,
            FailureModel::Print(message) => message,
        }
    }
}

/// Why a comparison came to nothing.
#[derive(Debug)]
pub enum Failure {
    /// An input is no JSON text. The message says where and why.
    Parse(String),
    /// A projection could not be printed. The message says why.
    Print(String),
}

impl View for Failure {
    type V = FailureModel;

    open spec fn view(&self) -> FailureModel {
        match self {
            Failure::Parse(message) => FailureModel::Parse(message@),
            Failure::Print(message) => FailureModel::Print(message@),
        }
    }
}

impl Failure {
    /// The message of the failure.
    pub fn message(&self) -> (message: &String)
        ensures
            message@ == self@.message(),
    {
        match self {
            Failure::Parse(message) => message,
            Failure::Print(message) => message,
        }
    }
}

/// A file to write, as a mathematical value.
pub struct OutputView {
    pub path: Seq<char>,
    pub text: Seq<char>,
}

/// A file to write: its name and its content.
#[derive(Debug)]
pub struct Output {
    pub path: String,
    pub text: String,
}

impl View for Output {
    type V = OutputView;

    open spec fn view(&self) -> OutputView {
        OutputView { path: self.path@, text: self.text@ }
    }
}

/// The text of a projection, or the failure to print it. An absent projection is printed as
/// null.
pub open spec fn print_plan(delta: DeltaView, policy: Policy) -> Result<Seq<char>, FailureModel> {
    match printed(rendered(project(delta, policy))) {
        Ok(text) => Ok(text),
        Err(message) => Err(FailureModel::Print(message)),
    }
}

/// The three files of a delta: what is equal, what differs as seen from the first document, and
/// what differs as seen from the second, under the names that begin with `prefix`. Where a
/// projection cannot be printed, the failure of the first such.
pub open spec fn report_plan(prefix: Seq<char>, delta: DeltaView) -> Result<Seq<OutputView>, FailureModel> {
    match print_plan(delta, equal_set()) {
        Err(failure) => Err(failure),
        Ok(equal) => match print_plan(delta, delta_to_second_set()) {
            Err(failure) => Err(failure),
            Ok(to_second) => match print_plan(delta, delta_to_first_set()) {
                Err(failure) => Err(failure),
                Ok(to_first) => Ok(
                    seq![
                        OutputView { path: prefix + "_eq.json"@, text: equal },
                        OutputView { path: prefix + "_diff_ab.json"@, text: to_second },
                        OutputView { path: prefix + "_diff_ba.json"@, text: to_first },
                    ],
                ),
            },
        },
    }
}

/// The outcome of one comparison: the three files of the delta of the two documents that the
/// texts hold, or the failure to read the first text, else the second, else to print.
pub open spec fn run_plan(config: ConfigView, first: Seq<u8>, second: Seq<u8>) -> Result<
    Seq<OutputView>,
    FailureModel,
> {
    match parsed(first) {
        Err(message) => Err(FailureModel::Parse(message)),
        Ok(first_document) => match parsed(second) {
            Err(message) => Err(FailureModel::Parse(message)),
            Ok(second_document) => report_plan(config.output, compare(first_document, second_document)),
        },
    }
}

/// The files of an outcome, as mathematical values; none for a failure.
pub open spec fn files_of(outcome: Result<Vec<Output>, Failure>) -> Seq<OutputView> {
    match outcome {
        Ok(outputs) => Seq::new(outputs@.len(), |i: int| outputs@[i]@),
        Err(_) => Seq::empty(),
    }
}

/// Whether an outcome is as planned: the same files in the same order, or the same failure.
pub open spec fn as_planned(
    outcome: Result<Vec<Output>, Failure>,
    plan: Result<Seq<OutputView>, FailureModel>,
) -> bool {
    match plan {
        Ok(files) => outcome is Ok && files_of(outcome) == files,
        Err(failure) => outcome matches Err(found) && found@ == failure,
    }
}

/// Whether two outcomes agree: the same files in the same order, or the same failure.
pub open spec fn same_outcome(once: Result<Vec<Output>, Failure>, again: Result<Vec<Output>, Failure>) -> bool {
    match (once, again) {
        (Ok(_), Ok(_)) => files_of(once) == files_of(again),
        (Err(first), Err(second)) => first@ == second@,
        _ => false,
    }
}

/// Parse a JSON text.
pub fn parse_json(text: &[u8]) -> (outcome: Result<serde_json::Value, Failure>)
    ensures
        parsed(text@) matches Ok(document) ==> (outcome matches Ok(value) && json_of(value) == document),
        parsed(text@) matches Err(message) ==> (outcome matches Err(failure) && failure@ == FailureModel::Parse(
            message,
        )),
{
    match from_slice(text) {
        Ok(value) => Ok(value),
        Err(error) => Err(Failure::Parse(error_message(&error))),
    }
}

/// Whether the outcome of printing is as planned: the same text, or the same failure.
pub open spec fn printed_as(outcome: Result<String, Failure>, plan: Result<Seq<char>, FailureModel>) -> bool {
    match plan {
        Ok(text) => outcome matches Ok(written) && written@ == text,
        Err(failure) => outcome matches Err(found) && found@ == failure,
    }
}

impl<'a> Delta<'a> {
    /// Writes the given delta as indented JSON text according to the given filter logic: the
    /// text of its projection, or of null where the projection is absent.
    pub fn write_delta<F>(&self, filter: &F) -> (outcome: Result<String, Failure>) where
        F: Fn(&Delta<'a>) -> Option<serde_json::Value>,

        requires
            self.wf(),
            forall|delta: &Delta<'a>| call_requires(*filter, (delta,)),
        ensures
            forall|policy: Policy| #[trigger]
                follows(*filter, policy) ==> printed_as(outcome, print_plan(self@, policy)),
    {
        let value = match self.to_value(filter) {
            Some(document) => document,
            None => null_value(),
        };
        match to_string_pretty(&value) {
            Ok(json) => Ok(json),
            Err(error) => Err(Failure::Print(error_message(&error))),
        }
    }

    /// Filter for only the nodes that are equal in both JSON documents, and writes the result
    /// as JSON text.
    pub fn write_equal_set(&self) -> (outcome: Result<String, Failure>)
        requires
            self.wf(),
        ensures
            printed_as(outcome, print_plan(self@, equal_set())),
    {
        assert(follows(equal, equal_set()));
        self.write_delta(&equal)
    }

    /// Filter for only the nodes that are different between the two JSON documents or missing
    /// in the second JSON document, and writes the result as JSON text.
    pub fn write_delta_to_second_set(&self) -> (outcome: Result<String, Failure>)
        requires
            self.wf(),
        ensures
            printed_as(outcome, print_plan(self@, delta_to_second_set())),
    {
        assert(follows(delta_to_second, delta_to_second_set()));
        self.write_delta(&delta_to_second)
    }

    /// Filter for only the nodes that are different between the two JSON documents or missing
    /// in the first JSON document, and writes the result as JSON text.
    pub fn write_delta_to_first_set(&self) -> (outcome: Result<String, Failure>)
        requires
            self.wf(),
        ensures
            printed_as(outcome, print_plan(self@, delta_to_first_set())),
    {
        assert(follows(delta_to_first, delta_to_first_set()));
        self.write_delta(&delta_to_first)
    }
}

/// Compare two JSON documents: the three files that show their delta.
pub fn report(config: &Config, val1: &serde_json::Value, val2: &serde_json::Value) -> (outcome: Result<
    Vec<Output>,
    Failure,
>)
    ensures
        as_planned(outcome, report_plan(config@.output, compare(json_of(*val1), json_of(*val2)))),
{
    // compute the delta between the 2 JSON documents
    let delta = compare_values(val1, val2);
    // write differences
    let equal = delta.write_equal_set()?;
    let to_second = delta.write_delta_to_second_set()?;
    let to_first = delta.write_delta_to_first_set()?;
    let outputs = vec![
        Output { path: config.output().clone().concat("_eq.json"), text: equal },
        Output { path: config.output().clone().concat("_diff_ab.json"), text: to_second },
        Output { path: config.output().clone().concat("_diff_ba.json"), text: to_first },
    ];
    assert(files_of(Ok(outputs)) =~= report_plan(
        config@.output,
        compare(json_of(*val1), json_of(*val2)),
    )->Ok_0);
    Ok(outputs)
}

/// Compare two JSON files, given by their contents: the three files to write.
pub fn run(config: Config, first: &[u8], second: &[u8]) -> (outcome: Result<Vec<Output>, Failure>)
    ensures
        as_planned(outcome, run_plan(config@, first@, second@)),
{
    let val1 = parse_json(first)?;
    let val2 = parse_json(second)?;
    report(&config, &val1, &val2)
}

} // verus!
