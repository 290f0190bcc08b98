//! The decisions of the launcher around the operating system's services.
//!
//! The program that embeds the library reads the raw command line, asks
//! `next_step` what to do, performs it, and turns what came of it into an
//! exit code with `check_os_error` and `final_exit_code`. Exactly one child
//! process is created per invocation: the elevated copy of the launcher in
//! the requesting phase, the target in the elevated phase, none otherwise.
//! Attaching to the requester's console is best effort: where it fails the
//! elevated phase still runs the target.
use vstd::prelude::*;
use vstd::slice::slice_to_vec;
use crate::codec::decode_spec;
use crate::error::{ErrorKind, EXIT_LAUNCH_FAILED, EXIT_USAGE};
use crate::request::{
    append_units,
    lemma_parameters_no_nul,
    lemma_request_round_trip,
    request_spec,
    ElevationRequest,
    RequestView,
};
use crate::scan::lemma_first_match_is;
use crate::tokenizer::{lemma_strip_unquoted, tokenize, tokenize_spec, OptsView, QUOTE, SPACE};

verus! {

/// What an invocation has to do.
#[derive(Debug)]
pub enum Step {
    /// Print the usage text and exit with code 1; no process is created.
    ShowUsage,
    /// Report the error and exit with its code; no process is created.
    Reject(ErrorKind),
    /// Requesting phase: ask for an elevated copy of the launcher that runs
    /// this command, wait for it and exit with its code.
    Elevate(Vec<u16>),
    /// Elevated phase: attach to the requester's console, create the target
    /// process, wait for it and exit with its code.
    Work(ElevationRequest),
}

/// The mathematical content of a `Step`.
pub enum StepView {
    ShowUsage,
    Reject(ErrorKind),
    Elevate(Seq<u16>),
    Work(RequestView),
}

impl View for Step {
    type V = StepView;

    open spec fn view(&self) -> StepView {
        match *self {
            Step::ShowUsage => StepView::ShowUsage,
            Step::Reject(e) => StepView::Reject(e),
            Step::Elevate(command) => StepView::Elevate(command@),
            Step::Work(request) => StepView::Work(request@),
        }
    }
}

/// What the raw command line `raw` asks for. A line that the tokenizer
/// refuses is rejected with its error. A request for help, or a line without
/// a command, shows the usage text. A command without an attach identifier
/// is to be elevated as it stands. A command with one is the encoded request
/// of the elevated phase, and is rejected where it does not decode.
pub open spec fn step_spec(raw: Seq<u16>) -> StepView {
    step_of(tokenize_spec(raw).0, tokenize_spec(raw).1)
}

/// The step that follows from what the tokenizer made of the line.
pub open spec fn step_of(opts: OptsView, read: Result<(), ErrorKind>) -> StepView {
    match read {
        Err(e) => StepView::Reject(e),
        Ok(_) => if opts.help || opts.command.len() == 0 {
            StepView::ShowUsage
        } else if opts.attach_id is None {
            StepView::Elevate(opts.command)
        } else {
            match request_spec(opts.attach_id, opts.command) {
                Ok(request) => StepView::Work(request),
                Err(e) => StepView::Reject(e),
            }
        },
    }
}

/// The attach identifier tells the phases apart, and the command is handed
/// on as it was read: a step of the elevated phase has an identifier, which
/// is the requester's, and decodes the command; a step of the requesting
/// phase has none and carries the command unchanged. Neither phase starts
/// where help was asked for, the command is empty or the line was refused.
pub proof fn lemma_phase_by_attach_id(opts: OptsView, read: Result<(), ErrorKind>)
    ensures
        match step_of(opts, read) {
            StepView::Work(request) => read is Ok && !opts.help && opts.command.len() > 0
                && opts.attach_id == Some(request.requester_pid) && decode_spec(opts.command)
                == Some(request.argv()),
            StepView::Elevate(command) => read is Ok && !opts.help && command.len() > 0
                && opts.attach_id is None && command == opts.command,
            StepView::ShowUsage => read is Ok && (opts.help || opts.command.len() == 0),
            StepView::Reject(e) => read == Err::<(), ErrorKind>(e) || (read is Ok
                && opts.attach_id is Some && e == ErrorKind::UsageError),
        },
{
    if let StepView::Work(request) = step_of(opts, read) {
        let argv = decode_spec(opts.command).unwrap();
        assert(request.argv() =~= argv);
    }
}

/// What the requesting phase sends, the elevated phase receives: a command
/// line made of an unquoted program path, a space and the parameter string
/// of any request makes the elevated phase work on that same request.
pub proof fn lemma_worker_receives_request(path: Seq<u16>, r: RequestView)
    requires
        path.len() > 0,
        path[0] != QUOTE,
        forall|j: int| 0 <= j < path.len() ==> #[trigger] path[j] > SPACE,
    ensures
        step_spec(path.push(SPACE) + r.parameters()) == StepView::Work(r),
{
    let params = r.parameters();
    let raw = path.push(SPACE) + params;
    lemma_parameters_no_nul(r);
    assert forall|j: int| 0 <= j < raw.len() implies !(#[trigger] raw[j] == 0) by {
        if j < path.len() {
            assert(raw[j] == path[j]);
        } else if j == path.len() {
            assert(raw[j] == SPACE);
        } else {
            assert(raw[j] == params[j - path.len() - 1]);
        }
    }
    lemma_first_match_is(raw, |c: u16| c == 0, 0, raw.len() as int);
    assert(raw.take(raw.len() as int) =~= raw);
    lemma_strip_unquoted(path, SPACE, params);
    lemma_request_round_trip(r);
}

/// The exit code that a step fixes before any process is created: 1 for the
/// usage text, the error's code for a rejection, none for the two phases.
pub open spec fn early_exit_spec(step: StepView) -> Option<u32> {
    match step {
        StepView::ShowUsage => Some(EXIT_USAGE),
        StepView::Reject(e) => Some(e.exit_code_spec()),
        StepView::Elevate(_) => None,
        StepView::Work(_) => None,
    }
}

/// Decides from the raw command line what this invocation has to do.
pub fn next_step(raw: &[u16]) -> (step: Step)
    ensures
        step@ == step_spec(raw@),
{
    match tokenize(raw) {
        Err(e) => Step::Reject(e),
        Ok(opts) => {
            if opts.help || opts.command.len() == 0 {
                Step::ShowUsage
            } else if opts.attach_id.is_none() {
                Step::Elevate(slice_to_vec(opts.command))
            } else {
                match ElevationRequest::from_opts(&opts) {
                    Ok(request) => Step::Work(request),
                    Err(e) => Step::Reject(e),
                }
            }
        },
    }
}

impl Step {
    /// The exit code that this step fixes without creating a process.
    pub fn early_exit(&self) -> (code: Option<u32>)
        ensures
            code == early_exit_spec(self@),
    {
        match self {
            Step::ShowUsage => Some(EXIT_USAGE),
            Step::Reject(e) => Some(e.exit_code()),
            Step::Elevate(_) => None,
            Step::Work(_) => None,
        }
    }
}

/// Turns the answer of an operating system call into a result: `kind` where
/// the call did not succeed.
pub fn check_os_error(success: bool, kind: ErrorKind) -> (r: Result<(), ErrorKind>)
    ensures
        r == (if success {
            Ok::<(), ErrorKind>(())
        } else {
            Err::<(), ErrorKind>(kind)
        }),
{
    if success {
        Ok(())
    } else {
        Err(kind)
    }
}

/// The exit code of a phase once its child is known: the child's own code
/// where it ran, the code of the error where it could not be launched.
pub open spec fn final_exit_code_spec(outcome: Result<u32, ErrorKind>) -> u32 {
    match outcome {
        Ok(code) => code,
        Err(e) => e.exit_code_spec(),
    }
}

/// The exit code of a phase once its child is known.
pub fn final_exit_code(outcome: Result<u32, ErrorKind>) -> (code: u32)
    ensures
        code == final_exit_code_spec(outcome),
        outcome is Ok ==> code == outcome->Ok_0,
        outcome == Err::<u32, ErrorKind>(ErrorKind::ElevationFailure) ==> code
            == EXIT_LAUNCH_FAILED,
        outcome == Err::<u32, ErrorKind>(ErrorKind::ProcessCreationFailure) ==> code
            == EXIT_LAUNCH_FAILED,
{
    match outcome {
        Ok(code) => code,
        Err(e) => e.exit_code(),
    }
}

/// The units of `s` followed by the NUL that the operating system's calls
/// expect at the end of a string.
pub fn wstr(s: &[u16]) -> (out: Vec<u16>)
    ensures
        out@ == s@.push(0u16),
{
    let mut out: Vec<u16> = Vec::new();
    append_units(&mut out, s);
    out.push(0);
    assert(out@ =~= s@.push(0u16));
    out
}

} // verus!
