use loki_ariaforge::digest::ContentDigest;
use loki_ariaforge::events::{DownloadArgs, DownloadCompleteEvent, TorStatusEvent};

#[test]
fn tor_status_events() {
    let e = TorStatusEvent::starting(3);
    assert_eq!((e.state.as_str(), e.message.as_str(), e.daemon_count), ("starting", "Bootstrapping 3 Tor daemon(s)...", 3));
    let e = TorStatusEvent::failed(9052, "No such file or directory (os error 2)", 1);
    assert_eq!(e.state, "failed");
    assert_eq!(e.message, "Failed to start tor daemon on port 9052: No such file or directory (os error 2)");
    assert_eq!(e.daemon_count, 1);
    let e = TorStatusEvent::consensus(2);
    assert_eq!((e.state.as_str(), e.message.as_str(), e.daemon_count), ("consensus", "Waiting for Tor consensus bootstrap...", 2));
    let e = TorStatusEvent::ready(2);
    assert_eq!((e.state.as_str(), e.message.as_str(), e.daemon_count), ("ready", "Tor circuits ready.", 2));
    let e = TorStatusEvent::clearnet();
    assert_eq!((e.state.as_str(), e.message.as_str(), e.daemon_count), ("clearnet", "Clearnet target detected. Tor bootstrap skipped.", 0));
    let e = TorStatusEvent::stopped(5);
    assert_eq!((e.state.as_str(), e.message.as_str(), e.daemon_count), ("stopped", "Tor daemons shutting down.", 5));
}

#[test]
fn sha256_of_known_inputs() {
    let d = ContentDigest::new();
    assert_eq!(d.finish_hex(), "e3b0c44298fc1c149afbf4c8996fb92427ae41e4649b934ca495991b7852b855");
    let mut d = ContentDigest::new();
    d.absorb(b"abc");
    assert_eq!(d.finish_hex(), "ba7816bf8f01cfea414140de5dae2223b00361a396177a9cb410ff61f20015ad");
}

#[test]
fn sha256_in_pieces_equals_whole() {
    let mut whole = ContentDigest::new();
    whole.absorb(b"hello world, this is a download");
    let mut pieces = ContentDigest::new();
    pieces.absorb(b"hello ");
    pieces.absorb(b"");
    pieces.absorb(b"world, this is a download");
    assert_eq!(whole.finish_hex(), pieces.finish_hex());
}

#[test]
fn complete_event_carries_hash() {
    let mut d = ContentDigest::new();
    d.absorb(b"abc");
    let e = DownloadCompleteEvent::from_digest("http://x/a".to_string(), "/tmp/a".to_string(), d);
    assert_eq!(e.url, "http://x/a");
    assert_eq!(e.path, "/tmp/a");
    assert_eq!(e.hash, "ba7816bf8f01cfea414140de5dae2223b00361a396177a9cb410ff61f20015ad");
    assert_eq!(e.hash.len(), 64);
}

#[test]
fn download_args_hold_the_request() {
    let a = DownloadArgs { url: "http://x".to_string(), path: "/p".to_string(), connections: 150, force_tor: false };
    assert_eq!(a.connections, 150);
    assert!(!a.force_tor);
}
