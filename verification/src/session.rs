//! The course of one download as a state machine: the shell performs each
//! action the session asks for and reports back what came of it.
use vstd::prelude::*;
use crate::circuit::{probe_range_header, range_header_spec};
use crate::events::TorStatusEvent;
use crate::probe::{is_onion_target, needs_range_probe, settle_content_length, settled_length_spec, state_file_path};
use crate::state::{DownloadState, chunk_size_spec, resume_or_start};
use crate::tor::{
    FIRST_SOCKS_PORT,
    daemon_data_dir,
    daemon_socks_port,
    daemons_for,
    probe_proxy_url,
    circuit_proxy_url,
    circuit_proxy_url_spec,
    daemon_count_spec,
    socks_port_arg,
};

verus! {

/// Where a download stands.
#[derive(Clone, Copy, Debug, PartialEq, Eq, Structural)]
pub enum Phase {
    /// Starting Tor daemon number `next`.
    SpawningDaemons { next: usize },
    /// Waiting for the Tor consensus.
    AwaitingConsensus,
    /// Asking the server for the length with a HEAD request.
    ProbingHead,
    /// The HEAD answer was no help: asking for the first byte.
    ProbingRange { head: Option<u64> },
    /// Writing the state file before any byte is fetched.
    SavingState,
    /// The circuits fetch the chunks that are not complete.
    Downloading,
    /// Every circuit is done; waiting for the disk writer to apply the last
    /// messages.
    DrainingWriter,
    /// Hashing the output file.
    Hashing,
    /// Finished.
    Finished,
    /// Stopped because a Tor daemon could not be started.
    Failed,
}

/// What the shell is asked to do next.
pub enum Action {
    /// Start a Tor daemon with these options.
    SpawnDaemon { port: usize, socks_port_arg: String, data_dir: String },
    /// Wait for the Tor consensus.
    AwaitConsensus,
    /// Send a HEAD request, through the proxy when one is given.
    ProbeHead { proxy: Option<String> },
    /// Ask for the bytes `range` names, through the proxy when one is given,
    /// and read the `Content-Range` header.
    ProbeRange { proxy: Option<String>, range: String },
    /// Write the state file.
    SaveState,
    /// Run the circuits of the incomplete chunks and wait for them all.
    RunCircuits,
    /// Close the writer's channel and wait until it has applied every message.
    AwaitWriter,
    /// Hash the output file.
    HashOutput,
    /// Nothing is left to do.
    Stop,
}

/// What came of the last action.
pub enum Outcome {
    DaemonStarted,
    DaemonFailed { error: String },
    ConsensusReached,
    HeadAnswered { content_length: Option<u64> },
    RangeAnswered { content_range: Option<String> },
    StateSaved,
    CircuitsDone,
    WriterDrained,
    Hashed,
}

/// One download from the request to the hash.
pub struct DownloadSession {
    pub url: String,
    pub output_target: String,
    pub state_file: String,
    pub num_circuits: usize,
    pub is_onion: bool,
    pub num_daemons: usize,
    pub resuming: bool,
    pub state: DownloadState,
    pub phase: Phase,
}

/// The phase after the Tor daemons are up (or not needed).
pub open spec fn after_tor(resuming: bool) -> Phase {
    if resuming {
        Phase::SavingState
    } else {
        Phase::ProbingHead
    }
}

/// How far along the course a phase is; failure ends it.
pub open spec fn phase_rank(p: Phase) -> int {
    match p {
        Phase::SpawningDaemons { .. } => 0,
        Phase::AwaitingConsensus => 1,
        Phase::ProbingHead => 2,
        Phase::ProbingRange { .. } => 3,
        Phase::SavingState => 4,
        Phase::Downloading => 5,
        Phase::DrainingWriter => 6,
        Phase::Hashing => 7,
        Phase::Finished => 8,
        Phase::Failed => 9,
    }
}

impl DownloadSession {
    /// The phase is one the session can be in.
    pub open spec fn well_formed(self) -> bool {
        &&& self.is_onion ==> self.num_daemons == daemon_count_spec(self.num_circuits as nat)
        &&& !self.is_onion ==> self.num_daemons == 0
        &&& self.num_daemons <= usize::MAX - FIRST_SOCKS_PORT
        &&& match self.phase {
            Phase::SpawningDaemons { next } => self.is_onion && next < self.num_daemons,
            Phase::AwaitingConsensus => self.is_onion,
            Phase::ProbingHead => !self.resuming,
            Phase::ProbingRange { head } => !self.resuming,
            _ => true,
        }
    }

    /// Opens a session for `url` into `output_target` over `num_circuits`
    /// circuits, given whether a state file exists and what could be read
    /// from it. It returns the Tor status to report first.
    pub fn open(
        url: String,
        output_target: String,
        num_circuits: usize,
        force_tor: bool,
        state_file_exists: bool,
        saved: Option<DownloadState>,
    ) -> (r: (Self, TorStatusEvent))
        requires
            daemon_count_spec(num_circuits as nat) <= usize::MAX - FIRST_SOCKS_PORT,
        ensures
            r.0.well_formed(),
            r.0.url == url,
            r.0.output_target == output_target,
            r.0.num_circuits == num_circuits,
            r.0.is_onion == (crate::text::contains_seq(url@, crate::probe::onion_marker())
                || force_tor),
            r.0.state_file@ == output_target@ + ".loki_state"@,
            state_file_exists && saved is Some && saved->0.num_circuits == num_circuits ==> r.0.state
                == saved->0 && r.0.resuming,
            state_file_exists && !(saved is Some && saved->0.num_circuits == num_circuits)
                ==> r.0.state.is_blank() && !r.0.resuming,
            !state_file_exists ==> r.0.state.is_fresh(num_circuits) && !r.0.resuming,
            r.0.is_onion ==> r.0.phase == (Phase::SpawningDaemons { next: 0 }) && r.1.state@
                == "starting"@ && r.1.message@ == "Bootstrapping "@ + crate::text::decimal(
                r.0.num_daemons as nat,
            ) + " Tor daemon(s)..."@ && r.1.daemon_count == r.0.num_daemons,
            !r.0.is_onion ==> r.0.phase == after_tor(r.0.resuming) && r.1.state@ == "clearnet"@
                && r.1.message@ == "Clearnet target detected. Tor bootstrap skipped."@
                && r.1.daemon_count == 0,
    {
        let is_onion = is_onion_target(url.as_str(), force_tor);
        let state_file = state_file_path(output_target.as_str());
        let (state, resuming) = resume_or_start(state_file_exists, saved, num_circuits);
        let num_daemons = daemons_for(is_onion, num_circuits);
        let (phase, event) = if is_onion {
            (Phase::SpawningDaemons { next: 0 }, TorStatusEvent::starting(num_daemons))
        } else {
            (
                if resuming {
                    Phase::SavingState
                } else {
                    Phase::ProbingHead
                },
                TorStatusEvent::clearnet(),
            )
        };
        let s = DownloadSession {
            url,
            output_target,
            state_file,
            num_circuits,
            is_onion,
            num_daemons,
            resuming,
            state,
            phase,
        };
        (s, event)
    }

    /// The length probes of an onion target go through the first daemon;
    /// those of a clear-net target go direct.
    pub open spec fn probe_proxy_ok(self, proxy: Option<String>) -> bool {
        &&& self.is_onion ==> (proxy matches Some(p) && p@ == "socks5h://127.0.0.1:"@
            + crate::text::decimal(FIRST_SOCKS_PORT as nat))
        &&& !self.is_onion ==> proxy is None
    }

    fn probe_proxy(&self) -> (p: Option<String>)
        ensures
            self.probe_proxy_ok(p),
    {
        if self.is_onion {
            Some(probe_proxy_url())
        } else {
            None
        }
    }

    /// The proxy through which circuit `circuit` sends its requests: on an
    /// onion download its own credentials on the daemon it is dealt to, on
    /// the clear net none.
    pub fn circuit_proxy(&self, circuit: usize) -> (p: Option<String>)
        requires
            self.well_formed(),
        ensures
            self.is_onion ==> (p matches Some(u) && u@ == circuit_proxy_url_spec(
                circuit as nat,
                (FIRST_SOCKS_PORT + circuit % self.num_daemons) as nat,
            )),
            !self.is_onion ==> p is None,
    {
        if self.is_onion {
            Some(circuit_proxy_url(circuit, self.num_daemons))
        } else {
            None
        }
    }

    /// Whether the circuits' requests carry a `Range` header: only once the
    /// length is known.
    pub fn ranged_requests(&self) -> (b: bool)
        ensures
            b == (self.state.content_length > 0),
    {
        self.state.content_length > 0
    }

    /// The action the current phase calls for.
    pub fn next_action(&self) -> (a: Action)
        requires
            self.well_formed(),
        ensures
            match self.phase {
                Phase::SpawningDaemons { next } => a matches Action::SpawnDaemon {
                    port,
                    socks_port_arg,
                    data_dir,
                } && port == FIRST_SOCKS_PORT + next && socks_port_arg@ == crate::text::decimal(
                    port as nat,
                ) + " IsolateSOCKSAuth"@ && data_dir@ == "/tmp/loki_tor_"@ + crate::text::decimal(
                    port as nat,
                ),
                Phase::AwaitingConsensus => a is AwaitConsensus,
                Phase::ProbingHead => a matches Action::ProbeHead { proxy } && self.probe_proxy_ok(
                    proxy,
                ),
                Phase::ProbingRange { .. } => a matches Action::ProbeRange { proxy, range }
                    && self.probe_proxy_ok(proxy) && range@ == range_header_spec(0, 0),
                Phase::SavingState => a is SaveState,
                Phase::Downloading => a is RunCircuits,
                Phase::DrainingWriter => a is AwaitWriter,
                Phase::Hashing => a is HashOutput,
                Phase::Finished => a is Stop,
                Phase::Failed => a is Stop,
            },
    {
        match self.phase {
            Phase::SpawningDaemons { next } => {
                let port = daemon_socks_port(next);
                let arg = socks_port_arg(port);
                let dir = daemon_data_dir(port);
                Action::SpawnDaemon { port, socks_port_arg: arg, data_dir: dir }
            },
            Phase::AwaitingConsensus => Action::AwaitConsensus,
            Phase::ProbingHead => Action::ProbeHead { proxy: self.probe_proxy() },
            Phase::ProbingRange { .. } => Action::ProbeRange {
                proxy: self.probe_proxy(),
                range: probe_range_header(),
            },
            Phase::SavingState => Action::SaveState,
            Phase::Downloading => Action::RunCircuits,
            Phase::DrainingWriter => Action::AwaitWriter,
            Phase::Hashing => Action::HashOutput,
            Phase::Finished => Action::Stop,
            Phase::Failed => Action::Stop,
        }
    }

    /// The length the session settles on when `outcome` ends the probing
    /// (zero in any other phase).
    pub open spec fn settled_length(self, outcome: Outcome) -> u64 {
        match (self.phase, outcome) {
            (Phase::ProbingHead, Outcome::HeadAnswered { content_length }) => settled_length_spec(
                content_length,
                None,
                self.is_onion,
                self.url@,
            ),
            (Phase::ProbingRange { head }, Outcome::RangeAnswered { content_range }) => {
                settled_length_spec(
                    head,
                    match content_range {
                        Some(v) => Some(v@),
                        None => None,
                    },
                    self.is_onion,
                    self.url@,
                )
            },
            _ => 0,
        }
    }

    /// `outcome` settles the length (the probing is over).
    pub open spec fn settles_length(self, outcome: Outcome) -> bool {
        match (self.phase, outcome) {
            (Phase::ProbingHead, Outcome::HeadAnswered { content_length }) => !(match content_length {
                Some(n) => n == 0,
                None => true,
            }),
            (Phase::ProbingRange { .. }, Outcome::RangeAnswered { .. }) => true,
            _ => false,
        }
    }

    /// The phase that `outcome` leads to; an outcome that does not belong to
    /// the phase changes nothing.
    pub open spec fn next_phase(self, outcome: Outcome) -> Phase {
        match (self.phase, outcome) {
            (Phase::SpawningDaemons { next }, Outcome::DaemonStarted) => if next + 1
                < self.num_daemons {
                Phase::SpawningDaemons { next: (next + 1) as usize }
            } else {
                Phase::AwaitingConsensus
            },
            (Phase::SpawningDaemons { .. }, Outcome::DaemonFailed { .. }) => Phase::Failed,
            (Phase::AwaitingConsensus, Outcome::ConsensusReached) => after_tor(self.resuming),
            (Phase::ProbingHead, Outcome::HeadAnswered { content_length }) => if match content_length {
                Some(n) => n == 0,
                None => true,
            } {
                Phase::ProbingRange { head: content_length }
            } else {
                Phase::SavingState
            },
            (Phase::ProbingRange { .. }, Outcome::RangeAnswered { .. }) => Phase::SavingState,
            (Phase::SavingState, Outcome::StateSaved) => Phase::Downloading,
            (Phase::Downloading, Outcome::CircuitsDone) => Phase::DrainingWriter,
            (Phase::DrainingWriter, Outcome::WriterDrained) => Phase::Hashing,
            (Phase::Hashing, Outcome::Hashed) => Phase::Finished,
            _ => self.phase,
        }
    }

    /// Takes in what came of the last action. It returns the Tor status to
    /// report, if any: the consensus wait once every daemon runs, the failure
    /// of a daemon, readiness after the consensus, and the shutdown once the
    /// circuits are done. When the probing ends, the length and the share of
    /// each circuit are recorded in the state.
    pub fn on_outcome(&mut self, outcome: Outcome) -> (ev: Option<TorStatusEvent>)
        requires
            old(self).well_formed(),
            old(self).settles_length(outcome) && old(self).settled_length(outcome) > 0
                ==> old(self).num_circuits > 0,
        ensures
            final(self).well_formed(),
            final(self).phase == old(self).next_phase(outcome),
            phase_rank(final(self).phase) >= phase_rank(old(self).phase),
            final(self).url == old(self).url,
            final(self).output_target == old(self).output_target,
            final(self).state_file == old(self).state_file,
            final(self).num_circuits == old(self).num_circuits,
            final(self).is_onion == old(self).is_onion,
            final(self).num_daemons == old(self).num_daemons,
            final(self).resuming == old(self).resuming,
            old(self).settles_length(outcome) ==> {
                &&& final(self).state.content_length == old(self).settled_length(outcome)
                &&& final(self).state.chunk_size == chunk_size_spec(
                    old(self).settled_length(outcome),
                    old(self).num_circuits,
                )
                &&& final(self).state.completed_chunks@ == old(self).state.completed_chunks@
                &&& final(self).state.num_circuits == old(self).state.num_circuits
            },
            !old(self).settles_length(outcome) ==> final(self).state == old(self).state,
            match (old(self).phase, outcome) {
                (Phase::SpawningDaemons { next }, Outcome::DaemonStarted) => if next + 1
                    < old(self).num_daemons {
                    ev is None
                } else {
                    ev matches Some(e) && e.state@ == "consensus"@ && e.message@
                        == "Waiting for Tor consensus bootstrap..."@ && e.daemon_count
                        == old(self).num_daemons
                },
                (Phase::SpawningDaemons { next }, Outcome::DaemonFailed { error }) => ev matches Some(
                    e,
                ) && e.state@ == "failed"@ && e.message@ == "Failed to start tor daemon on port "@
                    + crate::text::decimal((FIRST_SOCKS_PORT + next) as nat) + ": "@ + error@
                    && e.daemon_count == next,
                (Phase::AwaitingConsensus, Outcome::ConsensusReached) => ev matches Some(e)
                    && e.state@ == "ready"@ && e.message@ == "Tor circuits ready."@
                    && e.daemon_count == old(self).num_daemons,
                (Phase::Downloading, Outcome::CircuitsDone) => ev matches Some(e) && e.state@
                    == "stopped"@ && e.message@ == "Tor daemons shutting down."@ && e.daemon_count
                    == old(self).num_daemons,
                _ => ev is None,
            },
    {
        let ghost old_phase = self.phase;
        match (self.phase, outcome) {
            (Phase::SpawningDaemons { next }, Outcome::DaemonStarted) => {
                if next + 1 < self.num_daemons {
                    self.phase = Phase::SpawningDaemons { next: next + 1 };
                    None
                } else {
                    self.phase = Phase::AwaitingConsensus;
                    Some(TorStatusEvent::consensus(self.num_daemons))
                }
            },
            (Phase::SpawningDaemons { next }, Outcome::DaemonFailed { error }) => {
                self.phase = Phase::Failed;
                Some(TorStatusEvent::failed(FIRST_SOCKS_PORT + next, error.as_str(), next))
            },
            (Phase::AwaitingConsensus, Outcome::ConsensusReached) => {
                self.phase = if self.resuming {
                    Phase::SavingState
                } else {
                    Phase::ProbingHead
                };
                Some(TorStatusEvent::ready(self.num_daemons))
            },
            (Phase::ProbingHead, Outcome::HeadAnswered { content_length }) => {
                if needs_range_probe(content_length) {
                    self.phase = Phase::ProbingRange { head: content_length };
                } else {
                    let n = settle_content_length(content_length, None, self.is_onion, self.url.as_str());
                    self.state.record_content_length(n, self.num_circuits);
                    self.phase = Phase::SavingState;
                }
                None
            },
            (Phase::ProbingRange { head }, Outcome::RangeAnswered { content_range }) => {
                let n = match &content_range {
                    Some(v) => settle_content_length(head, Some(v.as_str()), self.is_onion, self.url.as_str()),
                    None => settle_content_length(head, None, self.is_onion, self.url.as_str()),
                };
                self.state.record_content_length(n, self.num_circuits);
                self.phase = Phase::SavingState;
                None
            },
            (Phase::SavingState, Outcome::StateSaved) => {
                self.phase = Phase::Downloading;
                None
            },
            (Phase::Downloading, Outcome::CircuitsDone) => {
                self.phase = Phase::DrainingWriter;
                Some(TorStatusEvent::stopped(self.num_daemons))
            },
            (Phase::DrainingWriter, Outcome::WriterDrained) => {
                self.phase = Phase::Hashing;
                None
            },
            (Phase::Hashing, Outcome::Hashed) => {
                self.phase = Phase::Finished;
                None
            },
            _ => None,
        }
    }
}

/// The session keeps its order: the circuits run only once the state file is
/// written, the writer is drained only once every circuit is done, the output
/// is hashed only once the writer has applied every message, and nothing
/// follows a finished or failed session.
pub proof fn lemma_session_order(s: DownloadSession, outcome: Outcome)
    ensures
        s.next_phase(outcome) == Phase::Downloading && s.phase != Phase::Downloading ==> s.phase
            == Phase::SavingState && outcome is StateSaved,
        s.next_phase(outcome) == Phase::DrainingWriter && s.phase != Phase::DrainingWriter
            ==> s.phase == Phase::Downloading && outcome is CircuitsDone,
        s.next_phase(outcome) == Phase::Hashing && s.phase != Phase::Hashing ==> s.phase
            == Phase::DrainingWriter && outcome is WriterDrained,
        s.next_phase(outcome) == Phase::SavingState && s.phase != Phase::SavingState ==> (
        s.phase is ProbingHead || s.phase is ProbingRange || s.phase is AwaitingConsensus),
        s.phase == Phase::Finished ==> s.next_phase(outcome) == Phase::Finished,
        s.phase == Phase::Failed ==> s.next_phase(outcome) == Phase::Failed,
{
}

/// A resumed download never probes the server again: the length and the
/// completed chunks it saved are kept whatever the shell reports.
pub proof fn lemma_resumed_session_keeps_state(s: DownloadSession, outcome: Outcome)
    requires
        s.well_formed(),
        s.resuming,
    ensures
        !s.settles_length(outcome),
        !(s.next_phase(outcome) is ProbingHead),
        !(s.next_phase(outcome) is ProbingRange),
{
}

/// A Tor daemon that cannot be started ends the download, whichever daemon it
/// was and however many were to run: the session fails and asks for nothing
/// more.
pub proof fn lemma_daemon_failure_ends_session(s: DownloadSession, error: String)
    requires
        s.phase is SpawningDaemons,
    ensures
        s.next_phase(Outcome::DaemonFailed { error }) == Phase::Failed,
        !s.settles_length(Outcome::DaemonFailed { error }),
{
}

/// A HEAD answer without a positive length always leads to the range probe,
/// carrying that answer, with the state untouched, whatever the URL and
/// whether the target goes through Tor.
pub proof fn lemma_silent_head_probes_range(s: DownloadSession, content_length: Option<u64>)
    requires
        s.phase == Phase::ProbingHead,
        content_length is None || content_length == Some(0u64),
    ensures
        s.next_phase(Outcome::HeadAnswered { content_length }) == (Phase::ProbingRange {
            head: content_length,
        }),
        !s.settles_length(Outcome::HeadAnswered { content_length }),
{
}

/// A HEAD answer with a positive length `n` settles the length at `n` and goes
/// on to saving the state.
pub proof fn lemma_head_length_settles(s: DownloadSession, n: u64)
    requires
        s.phase == Phase::ProbingHead,
        n > 0,
    ensures
        s.next_phase(Outcome::HeadAnswered { content_length: Some(n) }) == Phase::SavingState,
        s.settles_length(Outcome::HeadAnswered { content_length: Some(n) }),
        s.settled_length(Outcome::HeadAnswered { content_length: Some(n) }) == n,
{
}

} // verus!
