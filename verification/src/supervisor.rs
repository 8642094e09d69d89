//! The socket-activation state machine.
//!
//! A probe reads two facts from the machine — whether the socket file is
//! present, and where the helper executable resolves — and decides: report
//! readiness, ask the caller to spawn the helper fully detached, or fail. The
//! caller performs the spawn and the unlink of a stale socket file, and hands
//! each outcome back; the decisions themselves are pure and proved here.

use vstd::prelude::*;

use crate::args::split_ws;
use crate::args::split_ws_spec;
use crate::config::PinentryConfig;
use crate::error::Error;

verus! {

/// The opaque identifier of a spawned, detached helper process. Ownership of
/// the process is relinquished to the operating system: the handle serves
/// observability only, never control.
#[derive(Clone, Copy, Debug, PartialEq, Eq, Structural)]
pub struct ProcessHandle {
    pub pid: u64,
}

/// What the last probe concluded. Not persisted: recomputed on every probe.
#[derive(Clone, Copy, Debug, PartialEq, Eq, Structural)]
pub enum SupervisorState {
    /// Nothing probed yet, or a launch is pending its spawn outcome.
    Uninitialized,
    /// The socket file is present; the helper is assumed to be listening.
    Ready,
    /// The helper was spawned just now and should be binding the socket.
    Started(ProcessHandle),
    /// The last probe or connect failed for the recorded reason.
    Failed(Error),
}

/// The outcome of one successful probe-and-launch round: the server behind
/// the socket was already there, or was started just now.
#[derive(Clone, Copy, Debug, PartialEq, Eq)]
pub enum SocketServerState<T> {
    Started(T),
    Ready,
}

/// What to launch: the resolved executable and its argument vector.
pub struct LaunchSpec {
    pub executable: String,
    pub args: Vec<String>,
}

/// What the caller must do after a probe.
pub enum ProbeAction {
    /// The socket file is present: connect when desired.
    ReportReady,
    /// The socket file is absent: spawn the helper fully detached and hand
    /// the outcome to `report_spawn`.
    Launch(LaunchSpec),
    /// The executable did not resolve: this launch attempt is over.
    Abort,
}

/// What the caller must do after a failed connect.
pub enum CleanupAction {
    /// Remove the stale socket file, hand the outcome to `report_unlink`,
    /// and probe again.
    UnlinkSocket,
    /// Surface the recorded failure: the retry budget is spent, or the
    /// failure is not the stale-socket kind.
    Surface,
}

/// How many stale-socket recoveries one supervisor attempts before giving up.
pub const STALE_RETRY_LIMIT: u64 = 3;

/// The state one probe computes from what it observes: the socket file's
/// presence, and whether the executable resolved. The prior state plays no
/// part: a probe recomputes the state each time.
pub open spec fn probe_step(
    prior: SupervisorState,
    socket_exists: bool,
    resolved: bool,
) -> SupervisorState {
    if socket_exists {
        SupervisorState::Ready
    } else if resolved {
        SupervisorState::Uninitialized
    } else {
        SupervisorState::Failed(Error::ExecutableNotFound)
    }
}

/// Probe idempotence: probing twice with no intervening launch and no
/// filesystem change — the same observation — lands in the same state as
/// probing once.
pub proof fn lemma_probe_idempotent(
    prior: SupervisorState,
    socket_exists: bool,
    resolved: bool,
)
    ensures
        probe_step(probe_step(prior, socket_exists, resolved), socket_exists, resolved)
            == probe_step(prior, socket_exists, resolved),
{
}

/// Relies on `std::path::Path::exists`: whether a filesystem entity stands at
/// the path right now. The answer depends on the machine's disk and may
/// differ between two calls; existence is advisory, a stale file may remain
/// with nothing listening behind it.
#[verifier::external_body]
fn socket_file_exists(path: &String) -> bool {
    std::path::Path::new(path.as_str()).exists()
}

/// Relies on `which::which`: resolves a program name against the search path
/// to the path of an existing executable file. The answer depends on the
/// machine's disk and environment; a resolved path that is not clean text is
/// treated as unresolved.
#[verifier::external_body]
fn resolve_executable(name: &String) -> Option<String> {
    match which::which(name.as_str()) {
        Ok(path) => path.into_os_string().into_string().ok(),
        Err(_) => None,
    }
}

/// The supervisor of one pinentry helper behind one configured socket path.
pub struct PinentryBox {
    pub config: PinentryConfig,
    /// What the last probe or report concluded.
    pub state: SupervisorState,
    /// The remaining budget of stale-socket recoveries.
    pub stale_retries_left: u64,
}

impl PinentryBox {
    /// A supervisor for the given configuration; nothing is probed yet.
    pub fn new(config: PinentryConfig) -> (r: Self)
        ensures
            r.config == config,
            r.state is Uninitialized,
            r.stale_retries_left == STALE_RETRY_LIMIT,
    {
        PinentryBox {
            config,
            state: SupervisorState::Uninitialized,
            stale_retries_left: STALE_RETRY_LIMIT,
        }
    }

    /// Probes the socket path and decides.
    ///
    /// The two observations are read through trusted calls whose answers
    /// depend on the machine, so the clauses state what holds for whichever
    /// way each observation went: a present socket file reports readiness; an
    /// absent one asks for a launch of the resolved executable with the
    /// configured arguments, or fails when nothing resolves.
    pub fn probe(&mut self) -> (action: ProbeAction)
        ensures
            final(self).config == old(self).config,
            final(self).stale_retries_left == old(self).stale_retries_left,
            final(self).state == probe_step(
                old(self).state,
                action is ReportReady,
                !(action is Abort),
            ),
            match action {
                ProbeAction::ReportReady => final(self).state is Ready,
                ProbeAction::Launch(launch) => final(self).state is Uninitialized
                    && launch.args.deep_view() == split_ws_spec(old(self).config.program_args@),
                ProbeAction::Abort => final(self).state == SupervisorState::Failed(
                    Error::ExecutableNotFound,
                ),
            },
    {
        if socket_file_exists(&self.config.socket_path) {
            self.state = SupervisorState::Ready;
            ProbeAction::ReportReady
        } else {
            match resolve_executable(&self.config.program_path) {
                Some(executable) => {
                    self.state = SupervisorState::Uninitialized;
                    let args = split_ws(self.config.program_args.as_str());
                    ProbeAction::Launch(LaunchSpec { executable, args })
                },
                None => {
                    self.state = SupervisorState::Failed(Error::ExecutableNotFound);
                    ProbeAction::Abort
                },
            }
        }
    }

    /// Records the outcome the caller got from spawning the helper detached:
    /// the identifier of the new process, or that the spawn call itself
    /// failed — fatal to this launch attempt, with no retry here.
    pub fn report_spawn(&mut self, pid: Option<u64>) -> (r: Result<
        SocketServerState<ProcessHandle>,
        Error,
    >)
        ensures
            final(self).config == old(self).config,
            final(self).stale_retries_left == old(self).stale_retries_left,
            match pid {
                Some(p) => (r matches Ok(SocketServerState::Started(h)) && h == ProcessHandle {
                    pid: p,
                }) && final(self).state == SupervisorState::Started(ProcessHandle { pid: p }),
                None => r == Err::<SocketServerState<ProcessHandle>, Error>(Error::SpawnFailed)
                    && final(self).state == SupervisorState::Failed(Error::SpawnFailed),
            },
    {
        match pid {
            Some(p) => {
                let handle = ProcessHandle { pid: p };
                self.state = SupervisorState::Started(handle);
                Ok(SocketServerState::Started(handle))
            },
            None => {
                self.state = SupervisorState::Failed(Error::SpawnFailed);
                Err(Error::SpawnFailed)
            },
        }
    }

    /// Reacts to a failed connect after readiness was reported.
    ///
    /// A refused connection on an existing socket file marks a stale socket:
    /// within the bounded retry budget the caller must unlink the file and
    /// probe again. Any other failure — and a refusal once the budget is
    /// spent — is surfaced and recorded, so a permanently unusable path can
    /// never loop.
    pub fn on_connect_failed(&mut self, failure: Error) -> (action: CleanupAction)
        ensures
            final(self).config == old(self).config,
            failure == Error::ConnectionRefused && old(self).stale_retries_left > 0
                ==> action is UnlinkSocket && final(self).state is Uninitialized
                && final(self).stale_retries_left == old(self).stale_retries_left - 1,
            failure == Error::ConnectionRefused && old(self).stale_retries_left == 0
                ==> action is Surface && final(self).state == SupervisorState::Failed(
                Error::ConnectionRefused,
            ) && final(self).stale_retries_left == 0,
            failure != Error::ConnectionRefused ==> action is Surface && final(self).state
                == SupervisorState::Failed(failure)
                && final(self).stale_retries_left == old(self).stale_retries_left,
    {
        if failure == Error::ConnectionRefused {
            if self.stale_retries_left > 0 {
                self.stale_retries_left = self.stale_retries_left - 1;
                self.state = SupervisorState::Uninitialized;
                CleanupAction::UnlinkSocket
            } else {
                self.state = SupervisorState::Failed(Error::ConnectionRefused);
                CleanupAction::Surface
            }
        } else {
            self.state = SupervisorState::Failed(failure);
            CleanupAction::Surface
        }
    }

    /// Records the outcome of unlinking the stale socket file: on success the
    /// supervisor is back at the start, ready to probe again; a failed unlink
    /// is recorded as such, never passed over.
    pub fn report_unlink(&mut self, removed: bool)
        ensures
            final(self).config == old(self).config,
            final(self).stale_retries_left == old(self).stale_retries_left,
            removed ==> final(self).state is Uninitialized,
            !removed ==> final(self).state == SupervisorState::Failed(Error::SocketUnlinkFailed),
    {
        if removed {
            self.state = SupervisorState::Uninitialized;
        } else {
            self.state = SupervisorState::Failed(Error::SocketUnlinkFailed);
        }
    }
}

} // verus!
