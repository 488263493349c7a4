//! Getting a tool that is not there yet.
//!
//! A tool is fetched in steps: see whether the download is there; if not, ask for
//! the release listing, pick the file to download, download it, and unpack
//! it where it is an archive. The library decides; the caller acts and
//! reports, as in the tagging pipeline.

use crate::release::{download_address, resolve_download, Release, ResolveError};
use vstd::prelude::*;
use vstd::string::*;

verus! {

/// How a downloaded archive is unpacked.
#[derive(Debug)]
pub struct Unpack {
    /// The directory to unpack into.
    pub into: String,
    /// The entries to unpack: those whose path begins with this text.
    pub prefix: String,
}

/// What is to be fetched.
///
/// The download is stored at `destination`, and a file at `destination`
/// shows that nothing is to be done: what one fetch stores, the next finds.
#[derive(Debug)]
pub struct FetchJob {
    /// The name of the file that is wanted of a release.
    pub wanted: String,
    /// The address of the release listing.
    pub api_url: String,
    /// The token to ask the listing with, if there is one.
    pub token: Option<String>,
    /// Where the download is stored, and where it is looked for first.
    pub destination: String,
    /// How the download is unpacked, where it is an archive.
    pub unpack: Option<Unpack>,
}

/// How a fetch ended well.
#[derive(Clone, Copy, Debug, PartialEq, Eq, Structural)]
pub enum FetchOutcome {
    /// The download was there already.
    Present,
    /// The release offers no file of the wanted name; nothing was fetched.
    NotOffered,
    /// The file was downloaded, and unpacked where that was asked for.
    Fetched,
}

/// Why a fetch was given up.
#[derive(Debug)]
pub enum FetchError {
    /// The release listing could not be had; the text says why.
    Api(String),
    /// The listing holds no release that is not a draft.
    NoRelease,
    /// The chosen file has no address to download it from.
    NoDownloadAddress,
    /// The download failed; the text says why.
    Download(String),
    /// The archive could not be unpacked; the text says why.
    Archive(String),
    /// The event does not answer the action that was asked for.
    Protocol,
}

/// How far a fetch has come.
#[derive(Debug)]
pub enum FetchState {
    /// The download is being looked for.
    Probing,
    /// The release listing is being asked for.
    Listing,
    /// The file is being downloaded.
    Downloading,
    /// The archive is being unpacked.
    Unpacking,
    /// The fetch ended well.
    Done(FetchOutcome),
    /// The fetch was given up.
    Failed(FetchError),
}

/// What the caller reports.
#[derive(Debug)]
pub enum FetchEvent {
    /// Whether a file exists at the path that was looked at.
    Probed { exists: bool },
    /// The release listing, in the order in which it came.
    Listed { releases: Vec<Release> },
    /// The listing could not be had or read.
    ListingFailed { reason: String },
    /// The download is stored.
    Downloaded,
    /// The download failed or could not be stored.
    DownloadFailed { reason: String },
    /// The archive is unpacked.
    Unpacked,
    /// The archive could not be unpacked.
    UnpackFailed { reason: String },
}

/// What the caller is asked to do.
#[derive(Debug)]
pub enum FetchAction {
    /// See whether a file exists at `path`.
    Probe { path: String },
    /// Ask `api_url` for the release listing, with `authorization` as the
    /// value of the header of that name where it is given.
    List { api_url: String, authorization: Option<String> },
    /// Download `url` and store it at `destination`.
    Download { url: String, destination: String },
    /// Unpack from `archive` into `destination` the entries whose path begins
    /// with `prefix`.
    Unpack { archive: String, destination: String, prefix: String },
    /// Nothing is left to do.
    Stop,
}

impl FetchAction {
    /// Whether the action reaches out to the network.
    pub open spec fn uses_network(self) -> bool {
        self is List || self is Download
    }
}

/// The value of the authorization header for `token`.
pub open spec fn authorization_for(token: Option<String>) -> Option<Seq<char>> {
    match token {
        Some(t) => Some("token "@ + t@),
        None => None,
    }
}

/// Whether `next` and `action` are what follows when the listing holds
/// `releases`.
pub open spec fn is_listed(
    job: FetchJob,
    releases: Seq<Release>,
    next: FetchState,
    action: FetchAction,
) -> bool {
    match download_address(releases, job.wanted@) {
        Ok(Some(address)) => {
            &&& next is Downloading
            &&& action matches FetchAction::Download { url, destination }
            &&& url@ == address
            &&& destination@ == job.destination@
        },
        Ok(None) => next == FetchState::Done(FetchOutcome::NotOffered) && action is Stop,
        Err(ResolveError::NoRelease) => next == FetchState::Failed(FetchError::NoRelease)
            && action is Stop,
        Err(ResolveError::NoDownloadAddress) => next == FetchState::Failed(
            FetchError::NoDownloadAddress,
        ) && action is Stop,
    }
}

/// Whether `next` and `action` are what follows `state` when the caller
/// reports `event`.
pub open spec fn is_fetch_step(
    job: FetchJob,
    state: FetchState,
    event: FetchEvent,
    next: FetchState,
    action: FetchAction,
) -> bool {
    match state {
        FetchState::Probing => match event {
            FetchEvent::Probed { exists } => if exists {
                next == FetchState::Done(FetchOutcome::Present) && action is Stop
            } else {
                &&& next is Listing
                &&& action matches FetchAction::List { api_url, authorization }
                &&& api_url@ == job.api_url@
                &&& match authorization {
                    Some(value) => authorization_for(job.token) == Some(value@),
                    None => authorization_for(job.token) is None,
                }
            },
            _ => next == FetchState::Failed(FetchError::Protocol) && action is Stop,
        },
        FetchState::Listing => match event {
            FetchEvent::Listed { releases } => is_listed(job, releases@, next, action),
            FetchEvent::ListingFailed { reason } => {
                &&& next matches FetchState::Failed(FetchError::Api(text))
                &&& text@ == reason@
                &&& action is Stop
            },
            _ => next == FetchState::Failed(FetchError::Protocol) && action is Stop,
        },
        FetchState::Downloading => match event {
            FetchEvent::Downloaded => match job.unpack {
                Some(how) => {
                    &&& next is Unpacking
                    &&& action matches FetchAction::Unpack { archive, destination, prefix }
                    &&& archive@ == job.destination@
                    &&& destination@ == how.into@
                    &&& prefix@ == how.prefix@
                },
                None => next == FetchState::Done(FetchOutcome::Fetched) && action is Stop,
            },
            FetchEvent::DownloadFailed { reason } => {
                &&& next matches FetchState::Failed(FetchError::Download(text))
                &&& text@ == reason@
                &&& action is Stop
            },
            _ => next == FetchState::Failed(FetchError::Protocol) && action is Stop,
        },
        FetchState::Unpacking => match event {
            FetchEvent::Unpacked => next == FetchState::Done(FetchOutcome::Fetched)
                && action is Stop,
            FetchEvent::UnpackFailed { reason } => {
                &&& next matches FetchState::Failed(FetchError::Archive(text))
                &&& text@ == reason@
                &&& action is Stop
            },
            _ => next == FetchState::Failed(FetchError::Protocol) && action is Stop,
        },
        FetchState::Done(outcome) => next == state && action is Stop,
        FetchState::Failed(e) => next == state && action is Stop,
    }
}

/// Whether `actions` are what is asked for, one after the other, when a
/// fetch in `state` is told `events`.
pub open spec fn is_fetch_run(
    job: FetchJob,
    state: FetchState,
    events: Seq<FetchEvent>,
    actions: Seq<FetchAction>,
) -> bool
    decreases events.len(),
{
    if events.len() == 0 {
        actions.len() == 0
    } else {
        &&& actions.len() == events.len()
        &&& exists|next: FetchState| #[trigger]
            is_fetch_step(job, state, events[0], next, actions[0]) && is_fetch_run(
                job,
                next,
                events.drop_first(),
                actions.drop_first(),
            )
    }
}

/// Whether `state` and `action` are how a fetch begins: the download is
/// looked for where it would be stored.
pub open spec fn is_fetch_begin(job: FetchJob, state: FetchState, action: FetchAction) -> bool {
    &&& state is Probing
    &&& action matches FetchAction::Probe { path }
    &&& path@ == job.destination@
}

/// Begins a fetch: the download is to be looked for.
pub fn begin_fetch(job: &FetchJob) -> (r: (FetchState, FetchAction))
    ensures
        is_fetch_begin(*job, r.0, r.1),
{
    (FetchState::Probing, FetchAction::Probe { path: job.destination.clone() })
}

/// Names what follows `state` when the caller reports `event`.
///
/// A download that is there ends the fetch at once. `Done` and `Failed` are left
/// by no event. An event that does not answer the action of `state` ends the
/// fetch with `Protocol`.
pub fn advance_fetch(job: &FetchJob, state: FetchState, event: FetchEvent) -> (r: (
    FetchState,
    FetchAction,
))
    ensures
        is_fetch_step(*job, state, event, r.0, r.1),
{
    match state {
        FetchState::Probing => match event {
            FetchEvent::Probed { exists } => {
                if exists {
                    (FetchState::Done(FetchOutcome::Present), FetchAction::Stop)
                } else {
                    let authorization = match &job.token {
                        Some(t) => {
                            let mut value = String::from_str("token ");
                            value.append(t.as_str());
                            Some(value)
                        },
                        None => None,
                    };
                    (
                        FetchState::Listing,
                        FetchAction::List { api_url: job.api_url.clone(), authorization },
                    )
                }
            },
            _ => (FetchState::Failed(FetchError::Protocol), FetchAction::Stop),
        },
        FetchState::Listing => match event {
            FetchEvent::Listed { releases } => {
                match resolve_download(&releases, job.wanted.as_str()) {
                    Ok(Some(url)) => (
                        FetchState::Downloading,
                        FetchAction::Download { url, destination: job.destination.clone() },
                    ),
                    Ok(None) => (FetchState::Done(FetchOutcome::NotOffered), FetchAction::Stop),
                    Err(ResolveError::NoRelease) => (
                        FetchState::Failed(FetchError::NoRelease),
                        FetchAction::Stop,
                    ),
                    Err(ResolveError::NoDownloadAddress) => (
                        FetchState::Failed(FetchError::NoDownloadAddress),
                        FetchAction::Stop,
                    ),
                }
            },
            FetchEvent::ListingFailed { reason } => (
                FetchState::Failed(FetchError::Api(reason)),
                FetchAction::Stop,
            ),
            _ => (FetchState::Failed(FetchError::Protocol), FetchAction::Stop),
        },
        FetchState::Downloading => match event {
            FetchEvent::Downloaded => match &job.unpack {
                Some(how) => (
                    FetchState::Unpacking,
                    FetchAction::Unpack {
                        archive: job.destination.clone(),
                        destination: how.into.clone(),
                        prefix: how.prefix.clone(),
                    },
                ),
                None => (FetchState::Done(FetchOutcome::Fetched), FetchAction::Stop),
            },
            FetchEvent::DownloadFailed { reason } => (
                FetchState::Failed(FetchError::Download(reason)),
                FetchAction::Stop,
            ),
            _ => (FetchState::Failed(FetchError::Protocol), FetchAction::Stop),
        },
        FetchState::Unpacking => match event {
            FetchEvent::Unpacked => (FetchState::Done(FetchOutcome::Fetched), FetchAction::Stop),
            FetchEvent::UnpackFailed { reason } => (
                FetchState::Failed(FetchError::Archive(reason)),
                FetchAction::Stop,
            ),
            _ => (FetchState::Failed(FetchError::Protocol), FetchAction::Stop),
        },
        FetchState::Done(outcome) => (FetchState::Done(outcome), FetchAction::Stop),
        FetchState::Failed(e) => (FetchState::Failed(e), FetchAction::Stop),
    }
}

/// How many actions a fetch in `state` may still ask for, at most.
pub open spec fn fetch_steps_left(state: FetchState) -> nat {
    match state {
        FetchState::Probing => 4,
        FetchState::Listing => 3,
        FetchState::Downloading => 2,
        FetchState::Unpacking => 1,
        FetchState::Done(_) => 0,
        FetchState::Failed(_) => 0,
    }
}

/// Every step brings a fetch nearer to its end: as long as something is
/// asked for, the number of actions that may still follow goes down, and
/// nothing is asked for exactly when the fetch has ended.
pub proof fn lemma_fetch_steps_make_progress(
    job: FetchJob,
    state: FetchState,
    event: FetchEvent,
    next: FetchState,
    action: FetchAction,
)
    requires
        is_fetch_step(job, state, event, next, action),
    ensures
        !(action is Stop) ==> fetch_steps_left(next) < fetch_steps_left(state),
        action is Stop <==> (next is Done || next is Failed),
{
}

/// A fetch that has ended asks for nothing more, whatever it is told.
pub proof fn lemma_ended_fetch_is_idle(
    job: FetchJob,
    state: FetchState,
    events: Seq<FetchEvent>,
    actions: Seq<FetchAction>,
)
    requires
        state is Done || state is Failed,
        is_fetch_run(job, state, events, actions),
    ensures
        forall|i: int| 0 <= i < actions.len() ==> #[trigger] actions[i] is Stop,
    decreases events.len(),
{
    if events.len() > 0 {
        let next = choose|next: FetchState| #[trigger]
            is_fetch_step(job, state, events[0], next, actions[0]) && is_fetch_run(
                job,
                next,
                events.drop_first(),
                actions.drop_first(),
            );
        lemma_ended_fetch_is_idle(job, next, events.drop_first(), actions.drop_first());
        assert forall|i: int| 0 <= i < actions.len() implies #[trigger] actions[i] is Stop by {
            if i > 0 {
                assert(actions[i] == actions.drop_first()[i - 1]);
            }
        }
    }
}

/// Fetching a tool that is there reaches out to nothing: once the caller
/// has reported that the download is there, the fetch has ended well,
/// and no action that follows, whatever is reported, uses the network.
pub proof fn lemma_present_target_needs_no_network(
    job: FetchJob,
    events: Seq<FetchEvent>,
    actions: Seq<FetchAction>,
)
    requires
        events.len() > 0,
        events[0] == (FetchEvent::Probed { exists: true }),
        is_fetch_run(job, FetchState::Probing, events, actions),
    ensures
        forall|i: int| 0 <= i < actions.len() ==> !(#[trigger] actions[i]).uses_network(),
        forall|i: int| 0 <= i < actions.len() ==> #[trigger] actions[i] is Stop,
{
    let next = choose|next: FetchState| #[trigger]
        is_fetch_step(job, FetchState::Probing, events[0], next, actions[0]) && is_fetch_run(
            job,
            next,
            events.drop_first(),
            actions.drop_first(),
        );
    lemma_ended_fetch_is_idle(job, next, events.drop_first(), actions.drop_first());
    assert forall|i: int| 0 <= i < actions.len() implies #[trigger] actions[i] is Stop by {
        if i > 0 {
            assert(actions[i] == actions.drop_first()[i - 1]);
        }
    }
}

/// What a fetch stores, the next fetch finds: the path that a fetch looks
/// at first is the path that it stores the download at, and the path of the
/// archive that it unpacks.
pub proof fn lemma_fetch_finds_what_it_stored(
    job: FetchJob,
    begun: FetchState,
    first: FetchAction,
    state: FetchState,
    event: FetchEvent,
    next: FetchState,
    action: FetchAction,
)
    requires
        is_fetch_begin(job, begun, first),
        is_fetch_step(job, state, event, next, action),
    ensures
        first matches FetchAction::Probe { path } && path@ == job.destination@,
        action matches FetchAction::Download { destination, .. } ==> destination@
            == first->Probe_path@,
        action matches FetchAction::Unpack { archive, .. } ==> archive@ == first->Probe_path@,
{
}

} // verus!
