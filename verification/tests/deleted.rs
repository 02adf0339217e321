use imap::types::Deleted;

#[test]
fn seq() {
    let seqs = Deleted::from_expunged(vec![3, 6, 9, 12], None);
    let mut i = seqs.into_iter().into_iter();
    assert_eq!(Some(3), i.next());
    assert_eq!(Some(6), i.next());
    assert_eq!(Some(9), i.next());
    assert_eq!(Some(12), i.next());
    assert_eq!(None, i.next());

    let seqs = Deleted::from_expunged(vec![], None);
    let mut i = seqs.into_iter().into_iter();
    assert_eq!(None, i.next());
}

#[test]
fn seq_set() {
    let uids = Deleted::from_vanished(vec![1..=1, 3..=5, 8..=9, 12..=12], None);
    let mut i = uids.into_iter().into_iter();
    assert_eq!(Some(1), i.next());
    assert_eq!(Some(3), i.next());
    assert_eq!(Some(4), i.next());
    assert_eq!(Some(5), i.next());
    assert_eq!(Some(8), i.next());
    assert_eq!(Some(9), i.next());
    assert_eq!(Some(12), i.next());
    assert_eq!(None, i.next());

    let uids = Deleted::from_vanished(vec![], None);
    assert_eq!(None, uids.into_iter().into_iter().next());
}

#[test]
fn seqs() {
    let seqs: Deleted = Deleted::from_expunged(vec![3, 6, 9, 12], None);
    let mut count: u32 = 0;
    for seq in seqs.seqs() {
        count += 3;
        assert_eq!(seq, count);
    }
    assert_eq!(count, 12);
}

#[test]
fn uids() {
    let uids: Deleted = Deleted::from_vanished(vec![1..=6], None);
    let mut count: u32 = 0;
    for uid in uids.uids() {
        count += 1;
        assert_eq!(uid, count);
    }
    assert_eq!(count, 6);
}

#[test]
fn generic_iteration() {
    let seqs: Deleted = Deleted::from_expunged(vec![3, 6, 9, 12], None);
    let mut count: u32 = 0;
    for seq in seqs.into_iter() {
        count += 3;
        assert_eq!(seq, count);
    }
    assert_eq!(count, 12);

    let uids: Deleted = Deleted::from_vanished(vec![1..=6], None);
    let mut count: u32 = 0;
    for uid in uids.into_iter() {
        count += 1;
        assert_eq!(uid, count);
    }
    assert_eq!(count, 6);
}

#[test]
fn deleted_emptiness() {
    assert!(Deleted::from_expunged(vec![], None).is_empty());
    assert!(!Deleted::from_expunged(vec![1], Some(7)).is_empty());
    assert!(Deleted::from_vanished(vec![], None).is_empty());
    assert!(!Deleted::from_vanished(vec![2..=2], None).is_empty());
    assert!(Deleted::from_vanished(vec![1..=6], None).seqs().is_empty());
    assert!(Deleted::from_expunged(vec![1], None).uids().is_empty());
}
