use recfs::client::list::RecListItem;
use recfs::client::FileKind;
use recfs::errno::Errno;
use recfs::fid::Fid;
use recfs::fidmap::FidMap;
use recfs::resolve::has_separator;
use recfs::resolve::is_directory;
use recfs::resolve::path_components;
use recfs::resolve::Step;
use recfs::resolve::path_components_bytes;

const X: Fid = Fid::Remote(0x11);
const Y: Fid = Fid::Remote(0x22);
const Z: Fid = Fid::Remote(0x33);

fn listed_as(name: &str, fid: Fid, kind: FileKind) -> RecListItem {
    RecListItem { bytes: 0, name: name.to_string(), hash: None, fid, ftype: kind, time_updated: 0 }
}

/// A remote store in which the root holds the directory `x`, and `x` holds
/// the file `y` and the directory `z`, which is empty.
fn remote_list(fid: Fid) -> Option<Vec<RecListItem>> {
    if fid == Fid::Root {
        Some(vec![listed_as("x", X, FileKind::Directory)])
    } else if fid == X {
        Some(vec![listed_as("y", Y, FileKind::RegularFile), listed_as("z", Z, FileKind::Directory)])
    } else if fid == Z {
        Some(vec![])
    } else {
        None
    }
}

/// Resolves `path`, asking the remote store whenever a listing is needed.
/// Returns the result and the directories that were asked for, in order.
fn resolve_all(map: &mut FidMap, path: &str, fast: bool) -> (Result<(Fid, Option<Fid>), Errno>, Vec<Fid>) {
    let mut asked = Vec::new();
    let mut step = map.resolve(path_components(path), fast);
    loop {
        match step {
            Step::Done(fid, parent) => return (Ok((fid, parent)), asked),
            Step::Failed(e) => return (Err(e), asked),
            Step::NeedListing(pending) => {
                let dir = pending.dir();
                asked.push(dir);
                step = map.resume(pending, remote_list(dir), fast);
            }
        }
    }
}

#[test]
fn a_path_is_cut_into_its_names() {
    assert_eq!(path_components("/x/y"), vec!["x", "y"]);
    assert_eq!(path_components("/"), Vec::<String>::new());
    assert_eq!(path_components(""), Vec::<String>::new());
    assert_eq!(path_components("//x///y/"), vec!["x", "y"]);
    assert_eq!(path_components("/x/./y/."), vec!["x", "y"]);
    assert_eq!(path_components("/x/../y"), vec!["x", "..", "y"]);
    assert_eq!(path_components("/.x/y."), vec![".x", "y."]);
    assert_eq!(path_components("/?Backup/a b"), vec!["?Backup", "a b"]);
}

#[test]
fn a_second_resolution_asks_the_remote_store_nothing() {
    let mut map = FidMap::new();
    let (first, asked) = resolve_all(&mut map, "/x/y", true);
    assert_eq!(first, Ok((Y, Some(X))));
    assert_eq!(asked, vec![Fid::Root, X]);
    assert_eq!(asked.len(), 2);
    let (second, asked) = resolve_all(&mut map, "/x/y", true);
    assert_eq!(second, Ok((Y, Some(X))));
    assert_eq!(asked.len(), 0);
}

#[test]
fn the_empty_path_is_the_root() {
    let mut map = FidMap::new();
    let (r, asked) = resolve_all(&mut map, "/", true);
    assert_eq!(r, Ok((Fid::Root, None)));
    assert_eq!(asked, vec![Fid::Root]);
    assert!(map.get_listing(&Fid::Root).is_some());
    assert_eq!(map.get_parent_fid(&Fid::Root), Some(None));
    assert_eq!(map.get_parent_fid(&X), Some(Some(Fid::Root)));
    let (r, asked) = resolve_all(&mut map, "", true);
    assert_eq!(r, Ok((Fid::Root, None)));
    assert_eq!(asked.len(), 0);
}

#[test]
fn a_directory_arrived_at_is_listed() {
    let mut map = FidMap::new();
    let (r, asked) = resolve_all(&mut map, "/x/z", true);
    assert_eq!(r, Ok((Z, Some(X))));
    assert_eq!(asked, vec![Fid::Root, X, Z]);
    assert!(map.get_listing(&Z).unwrap().children.is_some());
    assert_eq!(map.get_parent_fid(&Z), Some(Some(X)));
    assert_eq!(map.get_parent_fid(&Y), Some(Some(X)));
}

#[test]
fn a_file_arrived_at_is_recorded_as_no_directory() {
    let mut map = FidMap::new();
    let (r, _) = resolve_all(&mut map, "/x/y", true);
    assert_eq!(r, Ok((Y, Some(X))));
    assert!(map.get_listing(&Y).unwrap().children.is_none());
    assert_eq!(map.get_parent_fid(&Y), Some(Some(X)));
}

#[test]
fn a_name_that_is_not_listed_leads_nowhere() {
    let mut map = FidMap::new();
    let (r, asked) = resolve_all(&mut map, "/nope", true);
    assert_eq!(r, Err(Errno::NoEntry));
    assert_eq!(asked, vec![Fid::Root]);
    let (r, asked) = resolve_all(&mut map, "/x/nope", true);
    assert_eq!(r, Err(Errno::NoEntry));
    assert_eq!(asked, vec![X]);
    let (r, asked) = resolve_all(&mut map, "/x/nope", true);
    assert_eq!(r, Err(Errno::NoEntry));
    assert_eq!(asked, vec![X]);
}

#[test]
fn a_listing_that_cannot_be_fetched_leads_nowhere() {
    let mut map = FidMap::new();
    let step = map.resolve(path_components("/x"), true);
    let pending = match step {
        Step::NeedListing(p) => p,
        _ => panic!("the root is not cached"),
    };
    assert_eq!(pending.dir(), Fid::Root);
    match map.resume(pending, None, true) {
        Step::Failed(e) => assert_eq!(e, Errno::NoEntry),
        _ => panic!("a failed listing must fail the resolution"),
    }
    assert!(map.get_listing(&Fid::Root).is_none());
}

#[test]
fn a_path_through_a_file_is_refused() {
    let mut map = FidMap::new();
    let (r, asked) = resolve_all(&mut map, "/x/y/more", true);
    assert_eq!(r, Err(Errno::NotDirectory));
    assert_eq!(asked, vec![Fid::Root, X]);
}

#[test]
fn a_name_with_a_separator_is_refused() {
    let mut map = FidMap::new();
    let names = vec!["x".to_string(), "a/b".to_string()];
    let mut step = map.resolve(names, true);
    loop {
        match step {
            Step::NeedListing(pending) => {
                let dir = pending.dir();
                step = map.resume(pending, remote_list(dir), true);
            }
            Step::Failed(e) => {
                assert_eq!(e, Errno::Invalid);
                break;
            }
            Step::Done(_, _) => panic!("a name with a separator was accepted"),
        }
    }
    assert!(has_separator(&['a', '/', 'b']));
    assert!(!has_separator(&['a', 'b']));
    assert!(!has_separator(&[]));
}

#[test]
fn without_the_fast_path_every_name_is_asked_for() {
    let mut map = FidMap::new();
    let (r, asked) = resolve_all(&mut map, "/x/y", false);
    assert_eq!(r, Ok((Y, Some(X))));
    assert_eq!(asked, vec![Fid::Root, X]);
    let (r, asked) = resolve_all(&mut map, "/x/y", false);
    assert_eq!(r, Ok((Y, Some(X))));
    assert_eq!(asked, vec![Fid::Root, X]);
    let (r, asked) = resolve_all(&mut map, "/x/y", true);
    assert_eq!(r, Ok((Y, Some(X))));
    assert_eq!(asked.len(), 0);
}

#[test]
fn of_two_entries_with_one_name_the_first_is_taken() {
    let mut map = FidMap::new();
    let step = map.resolve(path_components("/twin"), true);
    let pending = match step {
        Step::NeedListing(p) => p,
        _ => panic!("the root is not cached"),
    };
    let listing = vec![
        listed_as("other", Fid::Remote(1), FileKind::RegularFile),
        listed_as("twin", Fid::Remote(2), FileKind::RegularFile),
        listed_as("twin", Fid::Remote(3), FileKind::RegularFile),
    ];
    match map.resume(pending, Some(listing), true) {
        Step::Done(fid, parent) => {
            assert_eq!(fid, Fid::Remote(2));
            assert_eq!(parent, Some(Fid::Root));
        }
        _ => panic!("the name is listed"),
    }
    let (r, asked) = resolve_all(&mut map, "/twin", true);
    assert_eq!(r, Ok((Fid::Remote(2), Some(Fid::Root))));
    assert_eq!(asked.len(), 0);
}

#[test]
fn directories_are_told_from_files() {
    assert!(is_directory(&FileKind::Directory));
    assert!(!is_directory(&FileKind::RegularFile));
}

#[test]
fn a_path_of_bytes_is_cut_into_its_names() {
    assert_eq!(path_components_bytes(b"/x/y"), vec!["x", "y"]);
    assert_eq!(path_components_bytes(b"/"), Vec::<String>::new());
    assert_eq!(path_components_bytes(b""), Vec::<String>::new());
    assert_eq!(path_components_bytes(b"//x/./y/"), vec!["x", "y"]);
    assert_eq!(path_components_bytes("/é/日本".as_bytes()), vec!["é", "日本"]);
    assert_eq!(path_components_bytes(b"/x/\xff\xfe/y"), vec!["x", "/", "y"]);
    assert_eq!(path_components_bytes(b"/\xc3"), vec!["/"]);
    for path in ["/x/y", "//a b/./c/", "/?Backup/é", "", "/."] {
        assert_eq!(path_components_bytes(path.as_bytes()), path_components(path));
    }
}

#[test]
fn a_name_that_is_no_text_is_refused_where_the_walk_meets_it() {
    let mut map = FidMap::new();
    let mut step = map.resolve(path_components_bytes(b"/x/\xff"), true);
    let mut asked = Vec::new();
    let result = loop {
        match step {
            Step::NeedListing(pending) => {
                let dir = pending.dir();
                asked.push(dir);
                step = map.resume(pending, remote_list(dir), true);
            }
            Step::Failed(e) => break Err(e),
            Step::Done(fid, parent) => break Ok((fid, parent)),
        }
    };
    assert_eq!(result, Err(Errno::Invalid));
    assert_eq!(asked, vec![Fid::Root]);
    let mut step = map.resolve(path_components_bytes(b"/nope/\xff"), true);
    let result = loop {
        match step {
            Step::NeedListing(pending) => {
                let dir = pending.dir();
                step = map.resume(pending, remote_list(dir), true);
            }
            Step::Failed(e) => break Err(e),
            Step::Done(fid, parent) => break Ok((fid, parent)),
        }
    };
    assert_eq!(result, Err(Errno::NoEntry));
}
