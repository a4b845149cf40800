use recfs::client::check_status;
use recfs::client::filename;
use recfs::client::filetype;
use recfs::client::kind_word;
use recfs::client::list::disk_type;
use recfs::client::list::find_fid;
use recfs::client::list::find_named;
use recfs::client::list::finish_list;
use recfs::client::list::length_of;
use recfs::client::list::list_path;
use recfs::client::list::to_utc_seconds;
use recfs::client::list::BytesField;
use recfs::client::list::RecListData;
use recfs::client::list::RecListEntity;
use recfs::client::list::RecListItem;
use recfs::client::retry_after_refresh;
use recfs::client::strip_bom;
use recfs::client::ClientError;
use recfs::client::FileKind;
use recfs::fid::Fid;
use recfs::fid::FidError;

fn listed(name: &str, ext: &str, number: &str, kind: &str, bytes: BytesField) -> RecListData {
    RecListData {
        bytes,
        file_ext: ext.to_string(),
        file_type: String::new(),
        hash: String::new(),
        last_update_date: "2023-03-05 12:34:56".to_string(),
        name: name.to_string(),
        number: number.to_string(),
        parent_number: "0".to_string(),
        ftype: kind.to_string(),
    }
}

fn letters(s: &str) -> Vec<char> {
    s.chars().collect()
}

#[test]
fn filename_joins_name_and_extension() {
    assert_eq!(filename("report".to_string(), "pdf".to_string()), "report.pdf");
    assert_eq!(filename("report".to_string(), String::new()), "report");
    assert_eq!(filename(String::new(), "txt".to_string()), ".txt");
    assert_eq!(filename("a.b".to_string(), "c".to_string()), "a.b.c");
}

#[test]
fn filetype_knows_folders_and_files() {
    assert_eq!(filetype("folder"), Ok(FileKind::Directory));
    assert_eq!(filetype("file"), Ok(FileKind::RegularFile));
    assert_eq!(filetype("Folder"), Err(ClientError::UnknownFileType));
    assert_eq!(filetype("files"), Err(ClientError::UnknownFileType));
    assert_eq!(filetype(""), Err(ClientError::UnknownFileType));
    assert_eq!(kind_word(FileKind::Directory), "folder");
    assert_eq!(kind_word(FileKind::RegularFile), "file");
}

#[test]
fn only_status_200_is_accepted() {
    assert_eq!(check_status(200), Ok(()));
    assert_eq!(check_status(401), Err(ClientError::Status(401)));
    assert_eq!(check_status(0), Err(ClientError::Status(0)));
    assert_eq!(check_status(-1), Err(ClientError::Status(-1)));
}

#[test]
fn a_call_is_made_again_once_after_401() {
    assert!(retry_after_refresh(401, 0));
    assert!(!retry_after_refresh(401, 1));
    assert!(!retry_after_refresh(200, 0));
    assert!(!retry_after_refresh(500, 0));
}

#[test]
fn strip_bom_takes_leading_marks_off() {
    assert_eq!(strip_bom("\u{feff}{\"a\":1}"), "{\"a\":1}");
    assert_eq!(strip_bom("\u{feff}\u{feff}x\u{feff}"), "x\u{feff}");
    assert_eq!(strip_bom("plain"), "plain");
    assert_eq!(strip_bom(""), "");
    assert_eq!(strip_bom("\u{feff}"), "");
}

#[test]
fn remote_time_is_eight_hours_behind_utc() {
    assert_eq!(to_utc_seconds(Some(0)), Ok(28800));
    assert_eq!(to_utc_seconds(Some(3403228459)), Ok(3403257259));
    assert_eq!(to_utc_seconds(Some(-28800)), Ok(0));
    assert_eq!(to_utc_seconds(Some(-28801)), Err(ClientError::BadTime));
    assert_eq!(to_utc_seconds(Some(i64::MAX)), Err(ClientError::BadTime));
    assert_eq!(to_utc_seconds(Some(i64::MAX - 28800)), Ok((i64::MAX) as u64));
    assert_eq!(to_utc_seconds(Some(i64::MIN)), Err(ClientError::BadTime));
    assert_eq!(to_utc_seconds(None), Err(ClientError::BadTime));
}

#[test]
fn a_size_is_a_number_or_nothing() {
    assert_eq!(length_of(&BytesField::Text("-".to_string())), Ok(0));
    assert_eq!(length_of(&BytesField::Number(0)), Ok(0));
    assert_eq!(length_of(&BytesField::Number(1048576)), Ok(1048576));
    assert_eq!(length_of(&BytesField::Other), Err(ClientError::BadBytes));
}

#[test]
fn a_listed_object_becomes_an_entry() {
    let mut data = listed(
        "report",
        "pdf",
        "deadbeef-dead-beef-dead-beefdeadbeef",
        "file",
        BytesField::Number(1025),
    );
    data.hash = "abc123".to_string();
    let item = RecListItem::from_data(data, Some(1678019696)).unwrap();
    assert_eq!(item.bytes, 1025);
    assert_eq!(item.name, "report.pdf");
    assert_eq!(item.hash, Some("abc123".to_string()));
    assert_eq!(item.fid, Fid::Remote(0xdeadbeef_dead_beef_dead_beefdeadbeef));
    assert_eq!(item.ftype, FileKind::RegularFile);
    assert_eq!(item.time_updated, 1678048496);
}

#[test]
fn an_entry_without_size_hash_and_extension() {
    let data = listed("docs", "", "0", "folder", BytesField::Text("".to_string()));
    let item = RecListItem::from_data(data, Some(0)).unwrap();
    assert_eq!(item.bytes, 0);
    assert_eq!(item.name, "docs");
    assert_eq!(item.hash, None);
    assert_eq!(item.fid, Fid::Root);
    assert_eq!(item.ftype, FileKind::Directory);
    assert_eq!(item.time_updated, 28800);
}

#[test]
fn the_first_fault_of_a_listed_object_counts() {
    let bad_all = listed("x", "", "nope", "link", BytesField::Other);
    assert_eq!(RecListItem::from_data(bad_all, None).err(), Some(ClientError::BadTime));
    let bad_rest = listed("x", "", "nope", "link", BytesField::Other);
    assert_eq!(RecListItem::from_data(bad_rest, Some(0)).err(), Some(ClientError::BadBytes));
    let bad_fid = listed("x", "", "nope", "link", BytesField::Number(1));
    assert_eq!(
        RecListItem::from_data(bad_fid, Some(0)).err(),
        Some(ClientError::BadFid(FidError::Unrecognized))
    );
    let bad_number = listed("x", "", "write-x", "link", BytesField::Number(1));
    assert_eq!(
        RecListItem::from_data(bad_number, Some(0)).err(),
        Some(ClientError::BadFid(FidError::BadNumber))
    );
    let bad_kind = listed("x", "", "R_0", "link", BytesField::Number(1));
    assert_eq!(RecListItem::from_data(bad_kind, Some(0)).err(), Some(ClientError::UnknownFileType));
}

#[test]
fn the_time_of_a_listed_object_is_read() {
    let mut data = listed("a", "", "B_0", "folder", BytesField::Number(0));
    data.last_update_date = "2077-11-04 05:14:19".to_string();
    assert_eq!(RecListItem::try_from(data).unwrap().time_updated, 3403257259);
    let mut epoch = listed("a", "", "B_0", "folder", BytesField::Number(0));
    epoch.last_update_date = "1969-12-31 16:00:00".to_string();
    assert_eq!(RecListItem::try_from(epoch).unwrap().time_updated, 0);
    let mut leap = listed("a", "", "B_0", "folder", BytesField::Number(0));
    leap.last_update_date = "2000-02-29 23:59:59".to_string();
    assert_eq!(RecListItem::try_from(leap).unwrap().time_updated, 951897599);
}

#[test]
fn a_time_that_cannot_be_read_is_refused() {
    for bad in ["", "yesterday", "2023-02-30 00:00:00", "2023-03-05", "2023-03-05 25:00:00", "1969-12-31 15:59:59"] {
        let mut data = listed("a", "", "B_0", "folder", BytesField::Number(0));
        data.last_update_date = bad.to_string();
        assert_eq!(RecListItem::try_from(data).err(), Some(ClientError::BadTime));
    }
}

#[test]
fn the_listing_of_the_root_ends_with_backup_and_recycle() {
    let entity = RecListEntity {
        datas: vec![listed("x", "", "deadbeef-dead-beef-dead-beefdeadbeef", "folder", BytesField::Number(0))],
    };
    let items = finish_list(&Fid::Root, 200, entity).unwrap();
    assert_eq!(items.len(), 3);
    assert_eq!(items[0].name, "x");
    assert_eq!(items[1].name, "?Backup");
    assert_eq!(items[1].fid, Fid::BackupRoot);
    assert_eq!(items[1].ftype, FileKind::Directory);
    assert_eq!(items[1].bytes, 0);
    assert_eq!(items[1].hash, None);
    assert_eq!(items[1].time_updated, 0);
    assert_eq!(items[2].name, "?Recycle");
    assert_eq!(items[2].fid, Fid::RecycleRoot);
    assert_eq!(items[2].ftype, FileKind::Directory);
    let empty = finish_list(&Fid::Root, 200, RecListEntity { datas: vec![] }).unwrap();
    assert_eq!(empty.len(), 2);
    assert_eq!(empty[0].name, "?Backup");
    assert_eq!(empty[1].name, "?Recycle");
}

#[test]
fn other_listings_are_as_the_remote_store_sent_them() {
    for fid in [Fid::BackupRoot, Fid::RecycleRoot, Fid::Remote(5), Fid::LocalWrite(1)] {
        let entity = RecListEntity {
            datas: vec![
                listed("b", "txt", "00000000-0000-0000-0000-000000000002", "file", BytesField::Number(2)),
                listed("a", "", "00000000-0000-0000-0000-000000000001", "folder", BytesField::Text(String::new())),
            ],
        };
        let items = finish_list(&fid, 200, entity).unwrap();
        assert_eq!(items.len(), 2);
        assert_eq!(items[0].name, "b.txt");
        assert_eq!(items[0].fid, Fid::Remote(2));
        assert_eq!(items[1].name, "a");
        assert_eq!(items[1].fid, Fid::Remote(1));
    }
}

#[test]
fn a_listing_with_a_bad_status_or_object_is_refused() {
    let entity = RecListEntity { datas: vec![] };
    assert_eq!(finish_list(&Fid::Root, 401, entity).err(), Some(ClientError::Status(401)));
    let entity = RecListEntity {
        datas: vec![
            listed("a", "", "0", "folder", BytesField::Number(0)),
            listed("b", "", "0", "what", BytesField::Number(0)),
            listed("c", "", "?", "folder", BytesField::Number(0)),
        ],
    };
    assert_eq!(finish_list(&Fid::Root, 200, entity).err(), Some(ClientError::UnknownFileType));
}

#[test]
fn listings_are_asked_for_by_path_and_disk_type() {
    assert_eq!(list_path(&Fid::Root), "folder/content/0");
    assert_eq!(list_path(&Fid::BackupRoot), "folder/content/0");
    assert_eq!(list_path(&Fid::RecycleRoot), "folder/content/R_0");
    assert_eq!(
        list_path(&Fid::Remote(0xdeadbeef_dead_beef_dead_beefdeadbeef)),
        "folder/content/deadbeef-dead-beef-dead-beefdeadbeef"
    );
    assert_eq!(list_path(&Fid::LocalWrite(3)), "folder/content/write-3");
    assert_eq!(disk_type(&Fid::Root), "cloud");
    assert_eq!(disk_type(&Fid::BackupRoot), "backup");
    assert_eq!(disk_type(&Fid::RecycleRoot), "recycle");
    assert_eq!(disk_type(&Fid::Remote(1)), "cloud");
    assert_eq!(disk_type(&Fid::LocalWrite(1)), "cloud");
}

#[test]
fn the_root_entry_is_an_empty_directory() {
    let root = RecListItem::root();
    assert_eq!(root.bytes, 0);
    assert_eq!(root.name, "");
    assert_eq!(root.hash, None);
    assert_eq!(root.fid, Fid::Root);
    assert_eq!(root.ftype, FileKind::Directory);
    assert_eq!(root.time_updated, 0);
}

#[test]
fn entries_are_found_by_name_and_by_identifier() {
    let entity = RecListEntity {
        datas: vec![
            listed("a", "", "00000000-0000-0000-0000-000000000001", "folder", BytesField::Number(0)),
            listed("b", "", "00000000-0000-0000-0000-000000000002", "file", BytesField::Number(0)),
            listed("a", "", "00000000-0000-0000-0000-000000000003", "file", BytesField::Number(0)),
            listed("c", "", "00000000-0000-0000-0000-000000000002", "file", BytesField::Number(0)),
        ],
    };
    let items = finish_list(&Fid::Remote(9), 200, entity).unwrap();
    assert_eq!(find_named(&items, &letters("a")), Some(0));
    assert_eq!(find_named(&items, &letters("b")), Some(1));
    assert_eq!(find_named(&items, &letters("c")), Some(3));
    assert_eq!(find_named(&items, &letters("d")), None);
    assert_eq!(find_named(&items, &letters("")), None);
    assert_eq!(find_fid(&items, &Fid::Remote(2)), Some(1));
    assert_eq!(find_fid(&items, &Fid::Remote(3)), Some(2));
    assert_eq!(find_fid(&items, &Fid::Root), None);
    let copy = items[1].clone();
    assert_eq!(copy.name, "b");
    assert_eq!(copy.fid, Fid::Remote(2));
}
