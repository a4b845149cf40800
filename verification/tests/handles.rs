use recfs::fid::Fid;
use recfs::handles::HandleTable;
use recfs::handles::FIRST_HANDLE;

#[test]
fn handles_are_given_out_from_four_and_gaps_are_filled() {
    let a = Fid::Remote(0xa);
    let b = Fid::Remote(0xb);
    let c = Fid::Remote(0xc);
    let d = Fid::Remote(0xd);
    let mut t = HandleTable::new();
    assert_eq!(t.bind(&a), 4);
    assert_eq!(t.bind(&b), 5);
    assert_eq!(t.bind(&c), 6);
    assert!(t.release(5));
    assert_eq!(t.bind(&d), 5);
    assert_eq!(t.lookup(4), Some(a));
    assert_eq!(t.lookup(5), Some(d));
    assert_eq!(t.lookup(6), Some(c));
}

#[test]
fn a_new_table_is_empty() {
    let t = HandleTable::new();
    assert_eq!(t.len(), 0);
    assert_eq!(t.next_fh(), FIRST_HANDLE);
    assert_eq!(t.lookup(4), None);
    assert_eq!(t.find(&Fid::Root), None);
}

#[test]
fn a_bound_identifier_keeps_its_handle() {
    let mut t = HandleTable::new();
    let h = t.bind(&Fid::Root);
    assert_eq!(t.bind(&Fid::BackupRoot), h + 1);
    assert_eq!(t.bind(&Fid::Root), h);
    assert_eq!(t.len(), 2);
    assert_eq!(t.find(&Fid::Root), Some(h));
    assert_eq!(t.find(&Fid::BackupRoot), Some(h + 1));
}

#[test]
fn every_kind_of_identifier_can_be_bound() {
    let all = [
        Fid::Root,
        Fid::BackupRoot,
        Fid::RecycleRoot,
        Fid::Remote(0),
        Fid::Remote(u128::MAX),
        Fid::LocalWrite(0),
        Fid::LocalWrite(usize::MAX),
    ];
    let mut t = HandleTable::new();
    for (i, fid) in all.iter().enumerate() {
        assert_eq!(t.bind(fid), 4 + i as u64);
    }
    for (i, fid) in all.iter().enumerate() {
        assert_eq!(t.lookup(4 + i as u64), Some(*fid));
        assert_eq!(t.find(fid), Some(4 + i as u64));
    }
}

#[test]
fn release_unbinds_only_what_is_bound() {
    let mut t = HandleTable::new();
    assert!(!t.release(4));
    let h = t.bind(&Fid::Remote(1));
    assert!(t.release(h));
    assert!(!t.release(h));
    assert_eq!(t.lookup(h), None);
    assert_eq!(t.find(&Fid::Remote(1)), None);
    assert_eq!(t.len(), 0);
}

#[test]
fn the_smallest_gap_is_filled_first() {
    let mut t = HandleTable::new();
    for i in 0..10u128 {
        assert_eq!(t.bind(&Fid::Remote(i)), 4 + i as u64);
    }
    assert!(t.release(11));
    assert!(t.release(6));
    assert!(t.release(8));
    assert_eq!(t.next_fh(), 6);
    assert_eq!(t.bind(&Fid::Remote(100)), 6);
    assert_eq!(t.bind(&Fid::Remote(101)), 8);
    assert_eq!(t.bind(&Fid::Remote(102)), 11);
    assert_eq!(t.bind(&Fid::Remote(103)), 14);
    assert!(t.release(4));
    assert_eq!(t.next_fh(), 4);
}
