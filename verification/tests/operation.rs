use recfs::client::kind_word;
use recfs::client::operation::operation_target;
use recfs::client::operation::Operation;
use recfs::client::FileKind;

#[test]
fn each_operation_has_its_word() {
    assert_eq!(String::from(Operation::Recycle), "recycle");
    assert_eq!(String::from(Operation::Delete), "delete");
    assert_eq!(String::from(Operation::Restore), "restore");
    assert_eq!(String::from(Operation::Move), "move");
    assert_eq!(String::from(Operation::Copy), "copy");
    assert_eq!(Operation::Move.to_string(), "move");
    let word: String = Operation::Copy.into();
    assert_eq!(word, "copy");
}

#[test]
fn the_backup_root_is_aimed_at_as_the_root() {
    assert_eq!(operation_target(None), "");
    assert_eq!(operation_target(Some("B_0".to_string())), "0");
    assert_eq!(operation_target(Some("R_0".to_string())), "R_0");
    assert_eq!(operation_target(Some("0".to_string())), "0");
    assert_eq!(operation_target(Some("B_00".to_string())), "B_00");
    assert_eq!(
        operation_target(Some("deadbeef-dead-beef-dead-beefdeadbeef".to_string())),
        "deadbeef-dead-beef-dead-beefdeadbeef"
    );
}

#[test]
fn an_operation_names_the_kind_of_its_object() {
    assert_eq!(kind_word(FileKind::Directory), "folder");
    assert_eq!(kind_word(FileKind::RegularFile), "file");
}
