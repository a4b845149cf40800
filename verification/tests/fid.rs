use recfs::fid::Fid;
use recfs::fid::FidError;

#[test]
fn parses_the_root() {
    assert_eq!(Fid::parse("0"), Ok(Fid::Root));
    assert_eq!(Fid::root(), Fid::Root);
}

#[test]
fn parses_the_backup_root() {
    assert_eq!(Fid::parse("B_0"), Ok(Fid::BackupRoot));
}

#[test]
fn parses_the_recycle_root() {
    assert_eq!(Fid::parse("R_0"), Ok(Fid::RecycleRoot));
}

#[test]
fn parses_a_local_write() {
    assert_eq!(Fid::parse("write-7"), Ok(Fid::LocalWrite(7)));
    assert_eq!(Fid::parse("write-007"), Ok(Fid::LocalWrite(7)));
    assert_eq!(Fid::parse("write-+7"), Ok(Fid::LocalWrite(7)));
    assert_eq!(Fid::parse("write-0"), Ok(Fid::LocalWrite(0)));
}

#[test]
fn parses_a_remote_identifier() {
    let expected = Fid::Remote(0xdeadbeef_dead_beef_dead_beefdeadbeef);
    assert_eq!(Fid::parse("deadbeef-dead-beef-dead-beefdeadbeef"), Ok(expected));
    assert_eq!(Fid::parse("DEADBEEF-DEAD-BEEF-DEAD-BEEFDEADBEEF"), Ok(expected));
    assert_eq!(Fid::parse("deadbeefdeadbeefdeadbeefdeadbeef"), Ok(expected));
    assert_eq!(Fid::parse("{deadbeef-dead-beef-dead-beefdeadbeef}"), Ok(expected));
    assert_eq!(Fid::parse("urn:uuid:deadbeef-dead-beef-dead-beefdeadbeef"), Ok(expected));
}

#[test]
fn refuses_other_texts() {
    assert_eq!(Fid::parse("hello"), Err(FidError::Unrecognized));
    assert_eq!(Fid::parse(""), Err(FidError::Unrecognized));
    assert_eq!(Fid::parse("00"), Err(FidError::Unrecognized));
    assert_eq!(Fid::parse("b_0"), Err(FidError::Unrecognized));
    assert_eq!(Fid::parse("deadbeef-dead-beef-dead-beefdeadbee"), Err(FidError::Unrecognized));
    assert_eq!(Fid::parse("deadbeef_dead-beef-dead-beefdeadbeef"), Err(FidError::Unrecognized));
}

#[test]
fn refuses_a_bad_write_number() {
    assert_eq!(Fid::parse("write-"), Err(FidError::BadNumber));
    assert_eq!(Fid::parse("write--1"), Err(FidError::BadNumber));
    assert_eq!(Fid::parse("write-7x"), Err(FidError::BadNumber));
    assert_eq!(Fid::parse("write-+"), Err(FidError::BadNumber));
    assert_eq!(
        Fid::parse("write-340282366920938463463374607431768211456"),
        Err(FidError::BadNumber)
    );
}

#[test]
fn writes_each_form() {
    assert_eq!(Fid::Root.to_string(), "0");
    assert_eq!(Fid::BackupRoot.to_string(), "B_0");
    assert_eq!(Fid::RecycleRoot.to_string(), "R_0");
    assert_eq!(Fid::LocalWrite(7).to_string(), "write-7");
    assert_eq!(Fid::LocalWrite(0).to_string(), "write-0");
    assert_eq!(Fid::LocalWrite(1234567890).to_string(), "write-1234567890");
    assert_eq!(
        Fid::Remote(0xdeadbeef_dead_beef_dead_beefdeadbeef).to_string(),
        "deadbeef-dead-beef-dead-beefdeadbeef"
    );
    assert_eq!(Fid::Remote(1).to_string(), "00000000-0000-0000-0000-000000000001");
}

#[test]
fn text_reads_back() {
    let all = vec![
        Fid::Root,
        Fid::BackupRoot,
        Fid::RecycleRoot,
        Fid::Remote(0),
        Fid::Remote(u128::MAX),
        Fid::Remote(0x0123456789abcdef_fedcba9876543210),
        Fid::LocalWrite(0),
        Fid::LocalWrite(usize::MAX),
    ];
    for fid in all {
        assert_eq!(Fid::parse(&fid.to_string()), Ok(fid));
        assert_eq!(fid.to_string().parse::<Fid>(), Ok(fid));
    }
}

#[test]
fn only_local_writes_are_created() {
    assert!(Fid::LocalWrite(3).is_created());
    assert!(!Fid::Root.is_created());
    assert!(!Fid::BackupRoot.is_created());
    assert!(!Fid::RecycleRoot.is_created());
    assert!(!Fid::Remote(9).is_created());
}
