//! The tagging pipeline as a state machine.
//!
//! One instruction is carried from `Parsed` to `Finalized`, or to `Failed`.
//! The library decides; the caller acts. `start` reads the instruction and
//! names the first action. The caller performs each action, reports what
//! came of it as an event, and `advance` names the next state and action,
//! until the action is `Stop`.

use crate::command::{
    parse_instruction, parse_spec, segments, InstructionError, InstructionErrorView,
    TaggingRequest,
};
use crate::paths::{
    file_name, file_name_of, final_path, final_path_for, image_path, image_path_for,
    lemma_final_path_of_temp, temp_path, temp_path_for,
};
use crate::tagging::{tagging_arguments, tagging_command, TagAttempt};
use crate::text::{strip, strip_text, text_of, texts, CharClass};
use crate::words::{
    are_command_arguments, command_arguments, extract_output_path, is_declared_output,
};
use vstd::prelude::*;
use vstd::string::*;

verus! {

/// The files of one request. The paths of the cover image and of the tagged
/// file follow from the path of the output file.
#[derive(Debug)]
pub struct PipelineArtifact {
    /// Where the extractor writes the audio, and where the tagged file is
    /// in the end.
    pub output_path: String,
    /// Where the cover image is stored.
    pub image_path: String,
    /// Where the tagging tool writes the tagged file.
    pub temp_tagged_path: String,
}

impl PipelineArtifact {
    /// Whether the paths are those that belong to `output`, with `home` as
    /// the home directory.
    pub open spec fn belongs_to(self, output: Seq<char>, home: Option<Seq<char>>) -> bool {
        &&& self.output_path@ == output
        &&& image_path(output, home) == Some(self.image_path@)
        &&& self.temp_tagged_path@ == temp_path(output)
    }

    /// The files of the request whose output file is `output`; `None` where
    /// the cover image belongs below the home directory and none is known.
    pub fn for_output(output: String, home: Option<&str>) -> (r: Option<PipelineArtifact>)
        ensures
            match r {
                Some(artifact) => artifact.belongs_to(output@, text_of(home)),
                None => image_path(output@, text_of(home)) is None,
            },
    {
        match image_path_for(output.as_str(), home) {
            None => None,
            Some(image) => {
                let temp = temp_path_for(output.as_str());
                Some(
                    PipelineArtifact {
                        output_path: output,
                        image_path: image,
                        temp_tagged_path: temp,
                    },
                )
            },
        }
    }
}

/// Why a request was given up.
#[derive(Debug)]
pub enum PipelineError {
    /// The instruction was not accepted.
    Rejected(InstructionError),
    /// The extractor's arguments hold a quote that is not closed.
    ArgumentParse,
    /// The extractor ended with this exit code, which is not zero.
    ExtractorExit(i32),
    /// The extractor could not be run; the text says why.
    ExtractorStart(String),
    /// The extractor's arguments name no output file.
    OutputPathMissing,
    /// The cover image belongs below the home directory, which is not known.
    HomeMissing,
    /// The cover image could not be downloaded; the text says why.
    BannerDownload(String),
    /// The output path has no file name to take the title from.
    InvalidFileName,
    /// Every attempt to tag failed; the text holds what the attempts
    /// reported, in their order.
    Tagging(String),
    /// The tagged file could not be moved into place; the text says why.
    Finalize(String),
    /// The event does not answer the action that was asked for.
    Protocol,
}

/// How far a request has come.
#[derive(Debug)]
pub enum PipelineState {
    /// The instruction is read; the extractor is to run.
    Parsed { request: TaggingRequest, home: Option<String> },
    /// The extractor has run; its output file is to be located.
    Extracted { request: TaggingRequest, home: Option<String> },
    /// The output file is known; the cover image is to be downloaded.
    OutputLocated { artifact: PipelineArtifact },
    /// The cover image is stored; the tagging tool is to run in the way of
    /// `attempt`. `diagnostics` holds what earlier attempts reported.
    BannerFetched {
        artifact: PipelineArtifact,
        title: String,
        attempt: TagAttempt,
        diagnostics: String,
    },
    /// The tagged file is written; it is to be moved into place.
    Tagged { artifact: PipelineArtifact },
    /// The tagged file stands in the place of the output file.
    Finalized { artifact: PipelineArtifact },
    /// The request was given up.
    Failed(PipelineError),
}

/// What the caller reports.
#[derive(Debug)]
pub enum PipelineEvent {
    /// The extractor ran and ended with this exit code.
    ExtractorExited { code: i32 },
    /// The extractor could not be run.
    ExtractorFailed { reason: String },
    /// Nothing was to be done outside.
    Proceeded,
    /// The cover image is stored.
    BannerSaved,
    /// The cover image could not be downloaded or stored.
    BannerFailed { reason: String },
    /// The tagging tool ran; `diagnostics` is what it wrote to its error
    /// stream.
    TaggerExited { success: bool, diagnostics: String },
    /// The tagging tool could not be run.
    TaggerFailed { reason: String },
    /// The output file is gone and the tagged file has its name.
    Moved,
    /// The tagged file could not be moved.
    MoveFailed { reason: String },
}

/// What the caller is asked to do.
#[derive(Debug)]
pub enum PipelineAction {
    /// Run the extractor with these arguments and show what it prints.
    RunExtractor { arguments: Vec<String> },
    /// Nothing outside; report `Proceeded`.
    Proceed,
    /// Download `url` and store it at `path`.
    DownloadBanner { url: String, path: String },
    /// Run the tagging tool with these arguments and keep what it writes to
    /// its error stream.
    RunTagger { arguments: Vec<String> },
    /// Delete `replaced` if it exists, then give `temp` the name `target`.
    Finalize { replaced: String, temp: String, target: String },
    /// Nothing is left to do.
    Stop,
}

/// The text of a string that may be missing.
pub open spec fn home_text(home: Option<String>) -> Option<Seq<char>> {
    match home {
        Some(h) => Some(h@),
        None => None,
    }
}

/// Whether `next` and `action` give the request up for the reason `error`,
/// a reason that holds no text.
pub open spec fn gives_up(
    error: PipelineError,
    next: PipelineState,
    action: PipelineAction,
) -> bool {
    next == PipelineState::Failed(error) && action is Stop
}

/// Whether `state` and `action` are how the request of the line `raw`
/// begins.
pub open spec fn is_start(
    raw: Seq<char>,
    home: Option<Seq<char>>,
    state: PipelineState,
    action: PipelineAction,
) -> bool {
    match parse_spec(raw) {
        Err(e) => {
            &&& state matches PipelineState::Failed(PipelineError::Rejected(reason))
            &&& reason@ == e
            &&& action is Stop
        },
        Ok(request) => match action {
            PipelineAction::RunExtractor { arguments } => {
                &&& state matches PipelineState::Parsed { request: kept, home: known }
                &&& kept@ == request
                &&& home_text(known) == home
                &&& are_command_arguments(request.extractor_args, home, Some(texts(arguments@)))
            },
            PipelineAction::Stop => {
                &&& state == PipelineState::Failed(PipelineError::ArgumentParse)
                &&& are_command_arguments(request.extractor_args, home, None)
            },
            _ => false,
        },
    }
}

/// Whether `next` and `action` are what follows when the output file of
/// `request` is located.
pub open spec fn is_located(
    request: TaggingRequest,
    home: Option<Seq<char>>,
    next: PipelineState,
    action: PipelineAction,
) -> bool {
    match next {
        PipelineState::OutputLocated { artifact } => {
            &&& is_declared_output(request.extractor_args@, home, Some(artifact.output_path@))
            &&& artifact.belongs_to(artifact.output_path@, home)
            &&& action matches PipelineAction::DownloadBanner { url, path }
            &&& url@ == strip(request.image_url@, CharClass::Quote)
            &&& path@ == artifact.image_path@
        },
        PipelineState::Failed(PipelineError::OutputPathMissing) => {
            &&& is_declared_output(request.extractor_args@, home, None)
            &&& action is Stop
        },
        PipelineState::Failed(PipelineError::HomeMissing) => {
            &&& exists|output: Seq<char>|
                #![trigger is_declared_output(request.extractor_args@, home, Some(output))]
                is_declared_output(request.extractor_args@, home, Some(output)) && image_path(
                    output,
                    home,
                ) is None
            &&& action is Stop
        },
        _ => false,
    }
}

/// Whether `next` and `action` are the tagging attempt `attempt` on the
/// files of `artifact`, after earlier attempts have reported `diagnostics`.
pub open spec fn is_attempt(
    artifact: PipelineArtifact,
    title: Seq<char>,
    attempt: TagAttempt,
    diagnostics: Seq<char>,
    next: PipelineState,
    action: PipelineAction,
) -> bool {
    &&& next matches PipelineState::BannerFetched {
        artifact: kept,
        title: t,
        attempt: a,
        diagnostics: d,
    }
    &&& kept == artifact
    &&& t@ == title
    &&& a == attempt
    &&& d@ == diagnostics
    &&& action matches PipelineAction::RunTagger { arguments }
    &&& texts(arguments@) == tagging_arguments(
        attempt,
        artifact.output_path@,
        artifact.temp_tagged_path@,
        title,
        artifact.image_path@,
    )
}

/// Whether `next` and `action` are what follows a tagging attempt that
/// succeeded.
pub open spec fn is_tagged(
    artifact: PipelineArtifact,
    next: PipelineState,
    action: PipelineAction,
) -> bool {
    match final_path(artifact.temp_tagged_path@) {
        Some(moved) => {
            &&& next == (PipelineState::Tagged { artifact })
            &&& action matches PipelineAction::Finalize { replaced, temp, target }
            &&& replaced@ == artifact.output_path@
            &&& temp@ == artifact.temp_tagged_path@
            &&& target@ == moved
        },
        None => gives_up(PipelineError::InvalidFileName, next, action),
    }
}

/// Whether `next` and `action` are what follows `state` when the caller
/// reports `event`.
pub open spec fn is_step(
    state: PipelineState,
    event: PipelineEvent,
    next: PipelineState,
    action: PipelineAction,
) -> bool {
    match state {
        PipelineState::Parsed { request, home } => match event {
            PipelineEvent::ExtractorExited { code } => if code == 0 {
                next == (PipelineState::Extracted { request, home }) && action is Proceed
            } else {
                gives_up(PipelineError::ExtractorExit(code), next, action)
            },
            PipelineEvent::ExtractorFailed { reason } => {
                &&& next matches PipelineState::Failed(PipelineError::ExtractorStart(text))
                &&& text@ == reason@
                &&& action is Stop
            },
            _ => gives_up(PipelineError::Protocol, next, action),
        },
        PipelineState::Extracted { request, home } => match event {
            PipelineEvent::Proceeded => is_located(request, home_text(home), next, action),
            _ => gives_up(PipelineError::Protocol, next, action),
        },
        PipelineState::OutputLocated { artifact } => match event {
            PipelineEvent::BannerSaved => if file_name(artifact.output_path@).len() == 0 {
                gives_up(PipelineError::InvalidFileName, next, action)
            } else {
                is_attempt(
                    artifact,
                    file_name(artifact.output_path@),
                    TagAttempt::StreamCopy,
                    Seq::<char>::empty(),
                    next,
                    action,
                )
            },
            PipelineEvent::BannerFailed { reason } => {
                &&& next matches PipelineState::Failed(PipelineError::BannerDownload(text))
                &&& text@ == reason@
                &&& action is Stop
            },
            _ => gives_up(PipelineError::Protocol, next, action),
        },
        PipelineState::BannerFetched { artifact, title, attempt, diagnostics } => match event {
            PipelineEvent::TaggerExited { success, diagnostics: report } => if success {
                is_tagged(artifact, next, action)
            } else {
                match attempt.next() {
                    Some(following) => is_attempt(
                        artifact,
                        title@,
                        following,
                        diagnostics@ + report@,
                        next,
                        action,
                    ),
                    None => {
                        &&& next matches PipelineState::Failed(PipelineError::Tagging(text))
                        &&& text@ == diagnostics@ + report@
                        &&& action is Stop
                    },
                }
            },
            PipelineEvent::TaggerFailed { reason } => {
                &&& next matches PipelineState::Failed(PipelineError::Tagging(text))
                &&& text@ == diagnostics@ + reason@
                &&& action is Stop
            },
            _ => gives_up(PipelineError::Protocol, next, action),
        },
        PipelineState::Tagged { artifact } => match event {
            PipelineEvent::Moved => next == (PipelineState::Finalized { artifact })
                && action is Stop,
            PipelineEvent::MoveFailed { reason } => {
                &&& next matches PipelineState::Failed(PipelineError::Finalize(text))
                &&& text@ == reason@
                &&& action is Stop
            },
            _ => gives_up(PipelineError::Protocol, next, action),
        },
        PipelineState::Finalized { artifact } => next == state && action is Stop,
        PipelineState::Failed(e) => next == state && action is Stop,
    }
}

/// Reads an instruction and names the first action.
///
/// An instruction that is not accepted, or whose extractor arguments cannot
/// be cut into words, fails at once with nothing to do. Else the extractor
/// is to run with those arguments. `home` is the home directory, which a
/// leading `~` in a word stands for.
pub fn start(raw: &str, home: Option<&str>) -> (r: (PipelineState, PipelineAction))
    ensures
        is_start(raw@, text_of(home), r.0, r.1),
        segments(raw@).len() != 2 ==> r.1 is Stop && r.0 is Failed,
{
    match parse_instruction(raw) {
        Err(e) => (PipelineState::Failed(PipelineError::Rejected(e)), PipelineAction::Stop),
        Ok(request) => match command_arguments(request.extractor_args.as_str(), home) {
            Ok(arguments) => {
                let known = match home {
                    Some(h) => Some(String::from_str(h)),
                    None => None,
                };
                (
                    PipelineState::Parsed { request, home: known },
                    PipelineAction::RunExtractor { arguments },
                )
            },
            Err(_) => (
                PipelineState::Failed(PipelineError::ArgumentParse),
                PipelineAction::Stop,
            ),
        },
    }
}

/// The tagging attempt `attempt`, as a state and an action.
fn attempt_step(
    artifact: PipelineArtifact,
    title: String,
    attempt: TagAttempt,
    diagnostics: String,
) -> (r: (PipelineState, PipelineAction))
    ensures
        is_attempt(artifact, title@, attempt, diagnostics@, r.0, r.1),
{
    let arguments = tagging_command(
        attempt,
        artifact.output_path.as_str(),
        artifact.temp_tagged_path.as_str(),
        title.as_str(),
        artifact.image_path.as_str(),
    );
    (
        PipelineState::BannerFetched { artifact, title, attempt, diagnostics },
        PipelineAction::RunTagger { arguments },
    )
}

/// `left` followed by `right`.
fn concat(left: String, right: &str) -> (r: String)
    ensures
        r@ == left@ + right@,
{
    let mut out = left;
    out.append(right);
    out
}

/// What follows when the output file of `request` is located.
fn locate(request: TaggingRequest, home: Option<String>) -> (r: (PipelineState, PipelineAction))
    ensures
        is_located(request, home_text(home), r.0, r.1),
{
    let known: Option<&str> = match &home {
        Some(h) => Some(h.as_str()),
        None => None,
    };
    match extract_output_path(request.extractor_args.as_str(), known) {
        None => (PipelineState::Failed(PipelineError::OutputPathMissing), PipelineAction::Stop),
        Some(output) => {
            let ghost declared = output@;
            match PipelineArtifact::for_output(output, known) {
                None => {
                    assert(is_declared_output(
                        request.extractor_args@,
                        home_text(home),
                        Some(declared),
                    ));
                    (PipelineState::Failed(PipelineError::HomeMissing), PipelineAction::Stop)
                },
                Some(artifact) => {
                    let url = strip_text(request.image_url.as_str(), CharClass::Quote);
                    let path = artifact.image_path.clone();
                    (
                        PipelineState::OutputLocated { artifact },
                        PipelineAction::DownloadBanner { url, path },
                    )
                },
            }
        },
    }
}

/// Names what follows `state` when the caller reports `event`.
///
/// `Finalized` and `Failed` are left by no event. An event that does not
/// answer the action of `state` ends the request with `Protocol`.
pub fn advance(state: PipelineState, event: PipelineEvent) -> (r: (PipelineState, PipelineAction))
    ensures
        is_step(state, event, r.0, r.1),
{
    match state {
        PipelineState::Parsed { request, home } => match event {
            PipelineEvent::ExtractorExited { code } => {
                if code == 0 {
                    (PipelineState::Extracted { request, home }, PipelineAction::Proceed)
                } else {
                    (
                        PipelineState::Failed(PipelineError::ExtractorExit(code)),
                        PipelineAction::Stop,
                    )
                }
            },
            PipelineEvent::ExtractorFailed { reason } => (
                PipelineState::Failed(PipelineError::ExtractorStart(reason)),
                PipelineAction::Stop,
            ),
            _ => (PipelineState::Failed(PipelineError::Protocol), PipelineAction::Stop),
        },
        PipelineState::Extracted { request, home } => match event {
            PipelineEvent::Proceeded => locate(request, home),
            _ => (PipelineState::Failed(PipelineError::Protocol), PipelineAction::Stop),
        },
        PipelineState::OutputLocated { artifact } => match event {
            PipelineEvent::BannerSaved => match file_name_of(artifact.output_path.as_str()) {
                None => (
                    PipelineState::Failed(PipelineError::InvalidFileName),
                    PipelineAction::Stop,
                ),
                Some(title) => attempt_step(artifact, title, TagAttempt::first(), String::new()),
            },
            PipelineEvent::BannerFailed { reason } => (
                PipelineState::Failed(PipelineError::BannerDownload(reason)),
                PipelineAction::Stop,
            ),
            _ => (PipelineState::Failed(PipelineError::Protocol), PipelineAction::Stop),
        },
        PipelineState::BannerFetched { artifact, title, attempt, diagnostics } => match event {
            PipelineEvent::TaggerExited { success, diagnostics: report } => {
                if success {
                    match final_path_for(artifact.temp_tagged_path.as_str()) {
                        None => (
                            PipelineState::Failed(PipelineError::InvalidFileName),
                            PipelineAction::Stop,
                        ),
                        Some(target) => {
                            let replaced = artifact.output_path.clone();
                            let temp = artifact.temp_tagged_path.clone();
                            (
                                PipelineState::Tagged { artifact },
                                PipelineAction::Finalize { replaced, temp, target },
                            )
                        },
                    }
                } else {
                    let all = concat(diagnostics, report.as_str());
                    match attempt.following() {
                        Some(following) => attempt_step(artifact, title, following, all),
                        None => (
                            PipelineState::Failed(PipelineError::Tagging(all)),
                            PipelineAction::Stop,
                        ),
                    }
                }
            },
            PipelineEvent::TaggerFailed { reason } => {
                let all = concat(diagnostics, reason.as_str());
                (PipelineState::Failed(PipelineError::Tagging(all)), PipelineAction::Stop)
            },
            _ => (PipelineState::Failed(PipelineError::Protocol), PipelineAction::Stop),
        },
        PipelineState::Tagged { artifact } => match event {
            PipelineEvent::Moved => (PipelineState::Finalized { artifact }, PipelineAction::Stop),
            PipelineEvent::MoveFailed { reason } => (
                PipelineState::Failed(PipelineError::Finalize(reason)),
                PipelineAction::Stop,
            ),
            _ => (PipelineState::Failed(PipelineError::Protocol), PipelineAction::Stop),
        },
        PipelineState::Finalized { artifact } => (
            PipelineState::Finalized { artifact },
            PipelineAction::Stop,
        ),
        PipelineState::Failed(e) => (PipelineState::Failed(e), PipelineAction::Stop),
    }
}

/// How many actions a request in `state` may still ask for, at most.
pub open spec fn steps_left(state: PipelineState) -> nat {
    match state {
        PipelineState::Parsed { .. } => 6,
        PipelineState::Extracted { .. } => 5,
        PipelineState::OutputLocated { .. } => 4,
        PipelineState::BannerFetched { attempt, .. } => match attempt {
            TagAttempt::StreamCopy => 3,
            TagAttempt::Reencode => 2,
        },
        PipelineState::Tagged { .. } => 1,
        PipelineState::Finalized { .. } => 0,
        PipelineState::Failed(_) => 0,
    }
}

/// Every step brings a request nearer to its end: as long as something is
/// asked for, the number of actions that may still follow goes down. So no
/// request goes on for ever, and none goes back to an earlier stage.
pub proof fn lemma_steps_make_progress(
    state: PipelineState,
    event: PipelineEvent,
    next: PipelineState,
    action: PipelineAction,
)
    requires
        is_step(state, event, next, action),
    ensures
        !(action is Stop) ==> steps_left(next) < steps_left(state),
        action is Stop <==> (next is Failed || next is Finalized),
{
}

/// An instruction that does not hold exactly two segments starts nothing:
/// the request has failed before any action is asked for.
pub proof fn lemma_rejected_starts_nothing(
    raw: Seq<char>,
    home: Option<Seq<char>>,
    state: PipelineState,
    action: PipelineAction,
)
    requires
        segments(raw).len() != 2,
        is_start(raw, home, state, action),
    ensures
        action is Stop,
        state matches PipelineState::Failed(PipelineError::Rejected(reason)) && reason@
            == InstructionErrorView::SegmentCount,
{
}

/// A request that has ended stays as it is, and nothing more is asked for:
/// a failure is not tried again.
pub proof fn lemma_ended_is_final(
    state: PipelineState,
    event: PipelineEvent,
    next: PipelineState,
    action: PipelineAction,
)
    requires
        state is Failed || state is Finalized,
        is_step(state, event, next, action),
    ensures
        next == state,
        action is Stop,
{
}

/// When the attempt to copy the streams fails, the attempt to encode anew
/// is asked for, once; when that fails too, the request has failed, nothing
/// more is asked for, and the failure holds what both attempts reported, the
/// first before the second.
pub proof fn lemma_tagging_falls_back_once(
    state: PipelineState,
    first_report: String,
    second_report: String,
    second: PipelineState,
    second_action: PipelineAction,
    last: PipelineState,
    last_action: PipelineAction,
)
    requires
        state matches PipelineState::BannerFetched { attempt, .. } && attempt
            == TagAttempt::StreamCopy,
        is_step(
            state,
            PipelineEvent::TaggerExited { success: false, diagnostics: first_report },
            second,
            second_action,
        ),
        is_step(
            second,
            PipelineEvent::TaggerExited { success: false, diagnostics: second_report },
            last,
            last_action,
        ),
    ensures
        second_action matches PipelineAction::RunTagger { arguments } && texts(arguments@)
            == tagging_arguments(
            TagAttempt::Reencode,
            state->BannerFetched_artifact.output_path@,
            state->BannerFetched_artifact.temp_tagged_path@,
            state->BannerFetched_title@,
            state->BannerFetched_artifact.image_path@,
        ),
        last_action is Stop,
        last matches PipelineState::Failed(PipelineError::Tagging(text)) && text@
            == state->BannerFetched_diagnostics@ + first_report@ + second_report@,
{
}

/// The tagged file of a request takes the place of its output file: for
/// every request whose files belong to its output path, a tagging attempt
/// that succeeds asks to delete the output file and to move the tagged file
/// to the output path.
pub proof fn lemma_tagged_file_replaces_output(
    state: PipelineState,
    report: String,
    home: Option<Seq<char>>,
    next: PipelineState,
    action: PipelineAction,
)
    requires
        state matches PipelineState::BannerFetched { artifact, .. } && artifact.belongs_to(
            artifact.output_path@,
            home,
        ),
        is_step(
            state,
            PipelineEvent::TaggerExited { success: true, diagnostics: report },
            next,
            action,
        ),
    ensures
        next is Tagged,
        action matches PipelineAction::Finalize { replaced, temp, target } && target@ == replaced@
            && replaced@ == state->BannerFetched_artifact.output_path@ && temp@ == temp_path(
            replaced@,
        ),
{
    lemma_final_path_of_temp(state->BannerFetched_artifact.output_path@);
}

} // verus!
