use recfs::cache::Cache;
use recfs::client::list::RecListItem;
use recfs::client::stat::RecUserInfo;
use recfs::client::FileKind;
use recfs::errno::Errno;
use recfs::fid::Fid;
use recfs::fs::FileAttr;
use recfs::fs::ReadEvent;
use recfs::fs::ReadStep;
use recfs::fs::RecFs;
use recfs::fs::Statfs;
use recfs::fs::ATTR_TTL;
use recfs::fs::BLOCK_SIZE;
use recfs::resolve::Step;

const DIR: Fid = Fid::Remote(0x11);
const FILE: Fid = Fid::Remote(0x22);

fn root_listing() -> Vec<RecListItem> {
    vec![
        RecListItem {
            bytes: 0,
            name: "docs".to_string(),
            hash: None,
            fid: DIR,
            ftype: FileKind::Directory,
            time_updated: 1000,
        },
        RecListItem {
            bytes: 1537,
            name: "notes.txt".to_string(),
            hash: Some("h".to_string()),
            fid: FILE,
            ftype: FileKind::RegularFile,
            time_updated: 2000,
        },
    ]
}

/// A filesystem whose root is listed with the directory `docs` and the file
/// `notes.txt`.
fn mounted() -> RecFs {
    let mut fs = RecFs::new(Cache::with_nonce("/tmp", "aaaaaaaaaa"), true);
    match fs.req_fid("/") {
        Step::NeedListing(p) => match fs.req_fid_resume(p, Some(root_listing())) {
            Step::Done(fid, parent) => assert_eq!((fid, parent), (Fid::Root, None)),
            _ => panic!("the root was listed"),
        },
        _ => panic!("the root is not cached"),
    }
    fs
}

fn user(total: u64, used: u64) -> RecUserInfo {
    RecUserInfo {
        user_type: 0,
        user_group_id: 0,
        user_number: String::new(),
        gid: String::new(),
        username: String::new(),
        name: String::new(),
        email: String::new(),
        mobile: String::new(),
        profile: String::new(),
        gender: 0,
        avatar: String::new(),
        total_space: total,
        used_space: used,
        user_file_count: 0,
        user_share_count: 0,
        user_group_count: 0,
        is_backup_file: false,
    }
}

#[test]
fn attributes_of_a_file() {
    let fs = mounted();
    let (ttl, attr) = fs.getattr(FILE, Some(Fid::Root)).unwrap();
    assert_eq!(ttl, 1);
    assert_eq!(ttl, ATTR_TTL);
    assert_eq!(
        attr,
        FileAttr {
            size: 1537,
            blocks: 3,
            atime: 2000,
            mtime: 2000,
            ctime: 0,
            crtime: 0,
            kind: FileKind::RegularFile,
            perm: 0o600,
            nlink: 0,
            uid: 0,
            gid: 0,
            rdev: 0,
            flags: 0,
        }
    );
    assert_eq!(BLOCK_SIZE, 512);
}

#[test]
fn attributes_of_the_root_and_of_a_directory() {
    let fs = mounted();
    let (_, root) = fs.getattr(Fid::Root, None).unwrap();
    assert_eq!(root.kind, FileKind::Directory);
    assert_eq!(root.size, 0);
    assert_eq!(root.mtime, 0);
    let (_, dir) = fs.getattr(DIR, Some(Fid::Root)).unwrap();
    assert_eq!(dir.kind, FileKind::Directory);
    assert_eq!(dir.mtime, 1000);
    assert_eq!(dir.perm, 0o600);
}

#[test]
fn attributes_of_what_is_not_listed() {
    let fs = mounted();
    assert_eq!(fs.getattr(Fid::Remote(9), Some(Fid::Root)), Err(Errno::NoEntry));
    assert_eq!(fs.getattr(FILE, Some(DIR)), Err(Errno::NoEntry));
    let mut fs = mounted();
    match fs.req_fid("/notes.txt") {
        Step::Done(fid, parent) => assert_eq!((fid, parent), (FILE, Some(Fid::Root))),
        _ => panic!("the file is listed"),
    }
    assert_eq!(fs.getattr(Fid::Remote(9), Some(FILE)), Err(Errno::NotDirectory));
}

#[test]
fn an_entry_converts_to_its_attributes() {
    let item = root_listing().remove(1);
    let attr: FileAttr = item.clone().into();
    assert_eq!(attr, FileAttr::of(&item));
    assert_eq!(attr.size, 1537);
    assert_eq!(attr.blocks, 3);
}

#[test]
fn opendir_binds_a_directory() {
    let mut fs = mounted();
    assert_eq!(fs.opendir(DIR, Some(Fid::Root)), Ok((4, 0)));
    assert_eq!(fs.opendir(Fid::Root, None), Ok((5, 0)));
    assert_eq!(fs.opendir(DIR, Some(Fid::Root)), Ok((4, 0)));
    assert_eq!(fs.get_fid(4), Ok(DIR));
    assert_eq!(fs.get_fid_with_parent(4), Ok((DIR, Some(Fid::Root))));
    assert_eq!(fs.get_fid_with_parent(5), Ok((Fid::Root, None)));
    assert_eq!(fs.handle_count(), 2);
}

#[test]
fn opendir_refuses_a_file() {
    let mut fs = mounted();
    assert_eq!(fs.opendir(FILE, Some(Fid::Root)), Err(Errno::NotDirectory));
    assert_eq!(fs.opendir(Fid::Remote(9), Some(Fid::Root)), Err(Errno::NoEntry));
    assert_eq!(fs.handle_count(), 0);
}

#[test]
fn open_binds_a_file_for_reading() {
    let mut fs = mounted();
    assert_eq!(fs.open(FILE, Some(Fid::Root), 0), Ok((4, 0)));
    assert_eq!(fs.open(FILE, Some(Fid::Root), 0x8000), Ok((4, 0x8000)));
    assert_eq!(fs.get_fid(4), Ok(FILE));
    assert_eq!(fs.get_fid_with_parent(4), Ok((FILE, Some(Fid::Root))));
}

#[test]
fn open_refuses_directories_and_writing() {
    let mut fs = mounted();
    assert_eq!(fs.open(DIR, Some(Fid::Root), 0), Err(Errno::IsDirectory));
    assert_eq!(fs.open(DIR, Some(Fid::Root), 1), Err(Errno::IsDirectory));
    assert_eq!(fs.open(Fid::Root, None, 0), Err(Errno::IsDirectory));
    assert_eq!(fs.open(FILE, Some(Fid::Root), 1), Err(Errno::NotImplemented));
    assert_eq!(fs.open(FILE, Some(Fid::Root), 2), Err(Errno::NotImplemented));
    assert_eq!(fs.open(FILE, Some(Fid::Root), 0x8002), Err(Errno::NotImplemented));
    assert_eq!(fs.open(Fid::Remote(9), Some(Fid::Root), 0), Err(Errno::NoEntry));
    assert_eq!(fs.handle_count(), 0);
}

#[test]
fn readdir_shows_the_cached_listing() {
    let mut fs = mounted();
    let (fh, _) = fs.opendir(Fid::Root, None).unwrap();
    let entries = fs.readdir(fh).unwrap();
    let shown: Vec<(&str, FileKind)> = entries.iter().map(|e| (e.name.as_str(), e.kind)).collect();
    assert_eq!(shown, vec![("docs", FileKind::Directory), ("notes.txt", FileKind::RegularFile)]);
}

#[test]
fn readdir_refuses_what_is_no_listed_directory() {
    let mut fs = mounted();
    assert_eq!(fs.readdir(4).err(), Some(Errno::BadHandle));
    match fs.req_fid("/notes.txt") {
        Step::Done(_, _) => {}
        _ => panic!("the file is listed"),
    }
    let (fh, _) = fs.open(FILE, Some(Fid::Root), 0).unwrap();
    assert_eq!(fs.readdir(fh).err(), Some(Errno::NotDirectory));
    let (dh, _) = fs.opendir(DIR, Some(Fid::Root)).unwrap();
    assert_eq!(fs.readdir(dh).err(), Some(Errno::NotDirectory));
}

#[test]
fn release_frees_the_handle() {
    let mut fs = mounted();
    let (fh, _) = fs.open(FILE, Some(Fid::Root), 0).unwrap();
    fs.release(fh);
    assert_eq!(fs.get_fid(fh), Err(Errno::BadHandle));
    assert_eq!(fs.get_fid_with_parent(fh), Err(Errno::BadHandle));
    assert_eq!(fs.opendir(DIR, Some(Fid::Root)), Ok((fh, 0)));
}

#[test]
fn statfs_counts_in_blocks() {
    let info = user(10_000_000, 2_500_000);
    assert_eq!(
        RecFs::statfs(Some(&info)),
        Ok(Statfs {
            blocks: 19531,
            bfree: 14648,
            bavail: 14648,
            files: 0,
            ffree: 0,
            bsize: 512,
            namelen: 255,
            frsize: 512,
        })
    );
    let full = RecFs::statfs(Some(&user(1024, 4096))).unwrap();
    assert_eq!((full.blocks, full.bfree, full.bavail), (2, 0, 0));
    assert_eq!(RecFs::statfs(None), Err(Errno::NoEntry));
}

#[test]
fn a_read_of_a_cached_body_reads_it() {
    let mut fs = mounted();
    let (fh, _) = fs.open(FILE, Some(Fid::Root), 0).unwrap();
    let step = fs.read(fh, 7);
    match &step {
        ReadStep::Probe { fid, offset, fetched } => {
            assert_eq!((*fid, *offset, *fetched), (FILE, 7, false));
        }
        _ => panic!("a read begins by looking into the store"),
    }
    match step.next(ReadEvent::Probed(Some("/tmp/body".to_string()))) {
        ReadStep::ReadBody { path, offset } => {
            assert_eq!(path, "/tmp/body");
            assert_eq!(offset, 7);
        }
        _ => panic!("a body in the store is read"),
    }
}

#[test]
fn a_read_of_a_missing_body_fetches_it_once() {
    let mut fs = mounted();
    let (fh, _) = fs.open(FILE, Some(Fid::Root), 0).unwrap();
    let step = fs.read(fh, 0).next(ReadEvent::Probed(None));
    match &step {
        ReadStep::AskUrl { fid, offset } => assert_eq!((*fid, *offset), (FILE, 0)),
        _ => panic!("a missing body needs its address"),
    }
    let step = step.next(ReadEvent::Url(Some("https://example.org/b".to_string())));
    match &step {
        ReadStep::Fetch { fid, offset, url } => {
            assert_eq!((*fid, *offset), (FILE, 0));
            assert_eq!(url, "https://example.org/b");
        }
        _ => panic!("a body with an address is fetched"),
    }
    let step = step.next(ReadEvent::Fetched(true));
    match &step {
        ReadStep::Probe { fid, offset, fetched } => assert_eq!((*fid, *offset, *fetched), (FILE, 0, true)),
        _ => panic!("a fetched body is looked for"),
    }
    match step.next(ReadEvent::Probed(Some("/p".to_string()))) {
        ReadStep::ReadBody { path, offset } => assert_eq!((path.as_str(), offset), ("/p", 0)),
        _ => panic!("a fetched body is read"),
    }
}

#[test]
fn a_read_fails_with_eio_where_the_outside_fails() {
    let mut fs = mounted();
    let (fh, _) = fs.open(FILE, Some(Fid::Root), 0).unwrap();
    let fails = |step: ReadStep| match step {
        ReadStep::Fail(e) => e == Errno::Io,
        _ => false,
    };
    assert!(fails(fs.read(fh, 0).next(ReadEvent::Probed(None)).next(ReadEvent::Url(None))));
    assert!(fails(
        fs.read(fh, 0)
            .next(ReadEvent::Probed(None))
            .next(ReadEvent::Url(Some("u".to_string())))
            .next(ReadEvent::Fetched(false))
    ));
    assert!(fails(
        fs.read(fh, 0)
            .next(ReadEvent::Probed(None))
            .next(ReadEvent::Url(Some("u".to_string())))
            .next(ReadEvent::Fetched(true))
            .next(ReadEvent::Probed(None))
    ));
    assert!(fails(fs.read(fh, 0).next(ReadEvent::Fetched(true))));
    assert!(fails(fs.read(fh, 0).next(ReadEvent::Url(Some("u".to_string())))));
    assert!(fails(ReadStep::Fail(Errno::BadHandle).next(ReadEvent::Probed(None))));
}

#[test]
fn a_read_of_an_unbound_handle_fails_with_ebadf() {
    let fs = mounted();
    match fs.read(4, 0) {
        ReadStep::Fail(e) => assert_eq!(e, Errno::BadHandle),
        _ => panic!("no handle is bound"),
    }
}

#[test]
fn mkdir_answers_the_new_directory() {
    let mut fs = mounted();
    let mut listing = root_listing();
    listing.push(RecListItem {
        bytes: 0,
        name: "new".to_string(),
        hash: None,
        fid: Fid::Remote(0x33),
        ftype: FileKind::Directory,
        time_updated: 3000,
    });
    let (ttl, attr) = fs.mkdir(Fid::Root, "new", Some(listing)).unwrap();
    assert_eq!(ttl, 0);
    assert_eq!(attr.kind, FileKind::Directory);
    assert_eq!(attr.mtime, 3000);
    assert_eq!(fs.getattr(Fid::Remote(0x33), Some(Fid::Root)).map(|r| r.1), Ok(attr));
    assert_eq!(fs.fid_map().get_parent_fid(&Fid::Remote(0x33)), Some(Some(Fid::Root)));
}

#[test]
fn mkdir_fails_where_the_directory_is_not_listed() {
    let mut fs = mounted();
    assert_eq!(fs.mkdir(Fid::Root, "new", Some(root_listing())), Err(Errno::NoEntry));
    assert_eq!(fs.mkdir(Fid::Root, "new", None), Err(Errno::NoEntry));
}

#[test]
fn a_listing_asked_for_again_is_cached() {
    let mut fs = mounted();
    let list = fs.req_update_listing(DIR, Some(vec![])).unwrap();
    assert_eq!(list.children.unwrap().len(), 0);
    assert_eq!(fs.get_listing(DIR).unwrap().children.unwrap().len(), 0);
    assert_eq!(fs.req_update_listing(FILE, None).err(), Some(Errno::NoEntry));
    assert_eq!(fs.get_listing(FILE).err(), Some(Errno::NoEntry));
    assert_eq!(fs.get_item(FILE, Some(Fid::Root)).unwrap().name, "notes.txt");
    assert_eq!(fs.disk_cache().basepath(), "/tmp/recfs/aaaaaaaaaa");
}

#[test]
fn a_path_of_bytes_is_resolved() {
    let mut fs = mounted();
    match fs.req_fid_bytes(b"/notes.txt") {
        Step::Done(fid, parent) => assert_eq!((fid, parent), (FILE, Some(Fid::Root))),
        _ => panic!("the file is listed"),
    }
    match fs.req_fid_bytes(b"/\xff") {
        Step::Failed(e) => assert_eq!(e, Errno::Invalid),
        _ => panic!("the name is no text"),
    }
}

#[test]
fn the_name_of_a_new_directory_must_be_text_without_separator() {
    assert_eq!(RecFs::mkdir_name(b"new"), Ok("new".to_string()));
    assert_eq!(RecFs::mkdir_name("année".as_bytes()), Ok("année".to_string()));
    assert_eq!(RecFs::mkdir_name(b""), Ok(String::new()));
    assert_eq!(RecFs::mkdir_name(b"a/b"), Err(Errno::Invalid));
    assert_eq!(RecFs::mkdir_name(b"\xff"), Err(Errno::Invalid));
}

#[test]
fn an_entry_is_found_after_its_parent_was_listed_anew() {
    let mut fs = mounted();
    assert_eq!(fs.req_item(FILE, None, None).unwrap().fid, Fid::Root);
    assert_eq!(fs.req_item(FILE, Some(DIR), None).err(), Some(Errno::NoEntry));
    assert_eq!(fs.get_listing(DIR).err(), Some(Errno::NoEntry));
    let item = fs.req_item(FILE, Some(DIR), Some(root_listing())).unwrap();
    assert_eq!(item.name, "notes.txt");
    assert_eq!(fs.get_listing(DIR).unwrap().children.unwrap().len(), 2);
    assert_eq!(fs.req_item(Fid::Remote(9), Some(DIR), Some(root_listing())).err(), Some(Errno::NoEntry));
}
