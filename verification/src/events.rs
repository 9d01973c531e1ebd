//! What the downloader reports to the user interface, and what it is asked to do.
use vstd::prelude::*;
use vstd::string::StringExecFns;
use crate::digest::{ContentDigest, hex_lower, sha256_digest};
use crate::text::{decimal, push_decimal};

verus! {

broadcast use vstd::string::group_string_axioms;

/// The arguments of a download request from the interface.
pub struct DownloadArgs {
    pub url: String,
    pub path: String,
    pub connections: usize,
    pub force_tor: bool,
}

/// A change in the state of the Tor daemons.
pub struct TorStatusEvent {
    pub state: String,
    pub message: String,
    pub daemon_count: usize,
}

/// A finished download and the SHA-256 of what was written.
pub struct DownloadCompleteEvent {
    pub url: String,
    pub path: String,
    pub hash: String,
}

impl TorStatusEvent {
    /// The daemons are being started.
    pub fn starting(num_daemons: usize) -> (e: Self)
        ensures
            e.state@ == "starting"@,
            e.message@ == "Bootstrapping "@ + decimal(num_daemons as nat) + " Tor daemon(s)..."@,
            e.daemon_count == num_daemons,
    {
        let mut message = String::from_str("Bootstrapping ");
        push_decimal(&mut message, num_daemons as u64);
        message.append(" Tor daemon(s)...");
        TorStatusEvent { state: String::from_str("starting"), message, daemon_count: num_daemons }
    }

    /// The daemon on `port` could not be started, after `started` others were.
    pub fn failed(port: usize, error: &str, started: usize) -> (e: Self)
        ensures
            e.state@ == "failed"@,
            e.message@ == "Failed to start tor daemon on port "@ + decimal(port as nat) + ": "@
                + error@,
            e.daemon_count == started,
    {
        let mut message = String::from_str("Failed to start tor daemon on port ");
        push_decimal(&mut message, port as u64);
        message.append(": ");
        message.append(error);
        TorStatusEvent { state: String::from_str("failed"), message, daemon_count: started }
    }

    /// The daemons run and wait for the consensus.
    pub fn consensus(num_daemons: usize) -> (e: Self)
        ensures
            e.state@ == "consensus"@,
            e.message@ == "Waiting for Tor consensus bootstrap..."@,
            e.daemon_count == num_daemons,
    {
        TorStatusEvent {
            state: String::from_str("consensus"),
            message: String::from_str("Waiting for Tor consensus bootstrap..."),
            daemon_count: num_daemons,
        }
    }

    /// The circuits are ready.
    pub fn ready(num_daemons: usize) -> (e: Self)
        ensures
            e.state@ == "ready"@,
            e.message@ == "Tor circuits ready."@,
            e.daemon_count == num_daemons,
    {
        TorStatusEvent {
            state: String::from_str("ready"),
            message: String::from_str("Tor circuits ready."),
            daemon_count: num_daemons,
        }
    }

    /// The target is on the clear net: no daemon is started.
    pub fn clearnet() -> (e: Self)
        ensures
            e.state@ == "clearnet"@,
            e.message@ == "Clearnet target detected. Tor bootstrap skipped."@,
            e.daemon_count == 0,
    {
        TorStatusEvent {
            state: String::from_str("clearnet"),
            message: String::from_str("Clearnet target detected. Tor bootstrap skipped."),
            daemon_count: 0,
        }
    }

    /// The download is over and the daemons are stopped.
    pub fn stopped(num_daemons: usize) -> (e: Self)
        ensures
            e.state@ == "stopped"@,
            e.message@ == "Tor daemons shutting down."@,
            e.daemon_count == num_daemons,
    {
        TorStatusEvent {
            state: String::from_str("stopped"),
            message: String::from_str("Tor daemons shutting down."),
            daemon_count: num_daemons,
        }
    }
}

impl DownloadCompleteEvent {
    /// The event for a download of `url` into `path` whose content went
    /// through `digest`: its hash is the lowercase hex SHA-256 of that content.
    pub fn from_digest(url: String, path: String, digest: ContentDigest) -> (e: Self)
        ensures
            e.url == url,
            e.path == path,
            e.hash@ == hex_lower(sha256_digest(digest.absorbed())),
    {
        let hash = digest.finish_hex();
        DownloadCompleteEvent { url, path, hash }
    }
}

} // verus!
