use recfs::cache::Cache;
use recfs::cache::FetchEvent;
use recfs::cache::FetchPhase;
use recfs::cache::InitAction;
use recfs::cache::NONCE_LEN;
use recfs::fid::Fid;

#[test]
fn a_new_store_lies_under_recfs_in_the_temp_directory() {
    let cache = Cache::new("/tmp");
    let path = cache.basepath().clone();
    assert!(path.starts_with("/tmp/recfs/"));
    let nonce = &path["/tmp/recfs/".len()..];
    assert_eq!(nonce.len(), NONCE_LEN);
    assert_eq!(nonce.len(), 10);
    assert!(nonce.chars().all(|c| c.is_ascii_alphanumeric()));
}

#[test]
fn two_new_stores_differ() {
    let a = Cache::new("/tmp");
    let b = Cache::new("/tmp");
    assert_ne!(a.basepath(), b.basepath());
}

#[test]
fn a_store_with_a_given_nonce() {
    let cache = Cache::with_nonce("/var/tmp", "abcDEF0123");
    assert_eq!(cache.basepath(), "/var/tmp/recfs/abcDEF0123");
}

#[test]
fn bodies_lie_under_their_identifier() {
    let cache = Cache::with_nonce("/tmp", "aaaaaaaaaa");
    let fid = Fid::Remote(0xdeadbeef_dead_beef_dead_beefdeadbeef);
    assert_eq!(cache.final_path(fid), "/tmp/recfs/aaaaaaaaaa/deadbeef-dead-beef-dead-beefdeadbeef");
    assert_eq!(
        cache.download_path(fid),
        "/tmp/recfs/aaaaaaaaaa/deadbeef-dead-beef-dead-beefdeadbeef.download"
    );
    assert_eq!(cache.final_path(Fid::LocalWrite(7)), "/tmp/recfs/aaaaaaaaaa/write-7");
    assert_eq!(cache.download_path(Fid::Root), "/tmp/recfs/aaaaaaaaaa/0.download");
}

#[test]
fn the_final_path_alone_says_whether_a_body_is_there() {
    let cache = Cache::with_nonce("/tmp", "aaaaaaaaaa");
    assert_eq!(cache.contains(Fid::Remote(1), false), None);
    assert_eq!(
        cache.contains(Fid::Remote(1), true),
        Some("/tmp/recfs/aaaaaaaaaa/00000000-0000-0000-0000-000000000001".to_string())
    );
}

#[test]
fn a_missing_scratch_directory_is_created() {
    assert_eq!(Cache::init_path(false), InitAction::Create);
    assert_eq!(Cache::init_path(true), InitAction::Ask);
}

#[test]
fn a_scratch_directory_is_wiped_only_on_y() {
    assert_eq!(Cache::init_answer("y"), InitAction::Wipe);
    assert_eq!(Cache::init_answer("y\n"), InitAction::Wipe);
    assert_eq!(Cache::init_answer("  y \r\n"), InitAction::Wipe);
    assert_eq!(Cache::init_answer("Y"), InitAction::Reuse);
    assert_eq!(Cache::init_answer("yes"), InitAction::Reuse);
    assert_eq!(Cache::init_answer("n"), InitAction::Reuse);
    assert_eq!(Cache::init_answer(""), InitAction::Reuse);
    assert_eq!(Cache::init_answer("\n"), InitAction::Reuse);
}

#[test]
fn a_fetch_locks_probes_downloads_and_publishes() {
    let cache = Cache::with_nonce("/tmp", "aaaaaaaaaa");
    let mut f = cache.fetch(Fid::Remote(2), "https://example.org/body".to_string());
    assert_eq!(f.phase(), FetchPhase::Lock);
    assert_eq!(f.url(), "https://example.org/body");
    assert_eq!(f.download_path(), "/tmp/recfs/aaaaaaaaaa/00000000-0000-0000-0000-000000000002.download");
    assert_eq!(f.final_path(), "/tmp/recfs/aaaaaaaaaa/00000000-0000-0000-0000-000000000002");
    f.advance(FetchEvent::Locked);
    assert_eq!(f.phase(), FetchPhase::Probe);
    f.advance(FetchEvent::Probed(false));
    assert_eq!(f.phase(), FetchPhase::Download);
    f.advance(FetchEvent::Downloaded);
    assert_eq!(f.phase(), FetchPhase::Publish);
    f.advance(FetchEvent::Published);
    assert_eq!(f.phase(), FetchPhase::Done);
    assert_eq!(f.url(), "https://example.org/body");
    assert_eq!(f.final_path(), "/tmp/recfs/aaaaaaaaaa/00000000-0000-0000-0000-000000000002");
}

#[test]
fn a_fetch_that_finds_the_body_downloads_nothing() {
    let cache = Cache::with_nonce("/tmp", "aaaaaaaaaa");
    let mut f = cache.fetch(Fid::Remote(2), "u".to_string());
    f.advance(FetchEvent::Locked);
    f.advance(FetchEvent::Probed(true));
    assert_eq!(f.phase(), FetchPhase::Done);
}

#[test]
fn a_fetch_fails_on_an_error_and_on_an_event_out_of_turn() {
    let cache = Cache::with_nonce("/tmp", "aaaaaaaaaa");
    let steps = [
        FetchEvent::Locked,
        FetchEvent::Probed(false),
        FetchEvent::Downloaded,
        FetchEvent::Published,
    ];
    for n in 0..4 {
        let mut f = cache.fetch(Fid::Remote(2), "u".to_string());
        for e in &steps[..n] {
            f.advance(*e);
        }
        f.advance(FetchEvent::Error);
        assert_eq!(f.phase(), FetchPhase::Failed);
        f.advance(FetchEvent::Locked);
        assert_eq!(f.phase(), FetchPhase::Failed);
    }
    let mut f = cache.fetch(Fid::Remote(2), "u".to_string());
    f.advance(FetchEvent::Downloaded);
    assert_eq!(f.phase(), FetchPhase::Failed);
    let mut f = cache.fetch(Fid::Remote(2), "u".to_string());
    f.advance(FetchEvent::Locked);
    f.advance(FetchEvent::Published);
    assert_eq!(f.phase(), FetchPhase::Failed);
    let mut f = cache.fetch(Fid::Remote(2), "u".to_string());
    f.advance(FetchEvent::Locked);
    f.advance(FetchEvent::Probed(true));
    f.advance(FetchEvent::Downloaded);
    assert_eq!(f.phase(), FetchPhase::Failed);
}

/// Runs one fetch against a store in which the final path is `present`, with
/// no error. Returns whether the body was streamed.
fn fetch_in_turn(cache: &Cache, fid: Fid, present: &mut bool) -> bool {
    let mut f = cache.fetch(fid, "https://example.org/body".to_string());
    let mut streamed = false;
    loop {
        let event = match f.phase() {
            FetchPhase::Lock => FetchEvent::Locked,
            FetchPhase::Probe => FetchEvent::Probed(*present),
            FetchPhase::Download => {
                streamed = true;
                FetchEvent::Downloaded
            }
            FetchPhase::Publish => {
                *present = true;
                FetchEvent::Published
            }
            FetchPhase::Done => return streamed,
            FetchPhase::Failed => panic!("no step failed"),
        };
        f.advance(event);
    }
}

#[test]
fn sixteen_fetches_in_turn_stream_the_body_once() {
    let cache = Cache::with_nonce("/tmp", "aaaaaaaaaa");
    let mut present = false;
    let mut streamed = 0;
    for _ in 0..16 {
        if fetch_in_turn(&cache, Fid::Remote(7), &mut present) {
            streamed += 1;
        }
    }
    assert_eq!(streamed, 1);
    assert!(present);
}
