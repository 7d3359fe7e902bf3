use individuality::reality::{arrays_equal, next_ring_index, ContextualAlias};
use individuality::runtime::{ensure_root, ensure_signed, Origin, ValidTransaction, Weight};
use individuality::table::{bytes_equal, Table, TableKey};
use individuality::weights::{PeopleWeightInfo, ResourcesWeightInfo};

#[test]
fn table_reads_back_what_was_written() {
    let mut t: Table<u32, u64> = Table::new();
    assert_eq!(t.len(), 0);
    t.insert(1, 10);
    t.insert(2, 20);
    t.insert(1, 11);
    assert_eq!(t.len(), 2);
    assert_eq!(t.get(&1), Some(&11));
    assert_eq!(t.get(&2), Some(&20));
    assert_eq!(t.get(&3), None);
    assert!(t.contains_key(&2));
    assert_eq!(t.remove(&2), Some(20));
    assert_eq!(t.remove(&2), None);
    assert!(!t.contains_key(&2));
    assert_eq!(t.len(), 1);
    t.clear();
    assert_eq!(t.len(), 0);
    assert_eq!(t.get(&1), None);
}

#[test]
fn table_removes_up_to_a_limit() {
    let mut t: Table<Vec<u8>, ()> = Table::new();
    for i in 0u8..5 {
        t.insert(vec![i], ());
    }
    assert_eq!(t.remove_up_to(3), 3);
    assert_eq!(t.len(), 2);
    assert_eq!(t.remove_up_to(3), 2);
    assert_eq!(t.len(), 0);
    assert_eq!(t.remove_up_to(3), 0);
}

#[test]
fn keys_compare_by_their_bytes() {
    let a = ContextualAlias { alias: [1u8; 32], context: [2u8; 32] };
    let b = ContextualAlias { alias: [1u8; 32], context: [3u8; 32] };
    assert!(a.same_key(&a.copy_key()));
    assert!(!a.same_key(&b));
    assert!(bytes_equal(&[1, 2, 3], &[1, 2, 3]));
    assert!(!bytes_equal(&[1, 2, 3], &[1, 2]));
    assert!(!bytes_equal(&[1, 2, 3], &[1, 2, 4]));
    assert!(arrays_equal(&[5u8; 32], &[5u8; 32]));
    assert!(!arrays_equal(&[5u8; 32], &[6u8; 32]));
}

#[test]
fn ring_indices_saturate() {
    assert_eq!(next_ring_index(0), 1);
    assert_eq!(next_ring_index(41), 42);
    assert_eq!(next_ring_index(u32::MAX), u32::MAX);
}

#[test]
fn weights_and_origins() {
    let w = Weight { ref_time: u64::MAX - 1, proof_size: 3 };
    assert_eq!(w.saturating_add(Weight { ref_time: 5, proof_size: 4 }), Weight { ref_time: u64::MAX, proof_size: 7 });
    assert_eq!(Weight::zero(), Weight { ref_time: 0, proof_size: 0 });
    assert_eq!(
        Weight { ref_time: 3, proof_size: 9 }.min(Weight { ref_time: 5, proof_size: 4 }),
        Weight { ref_time: 3, proof_size: 4 }
    );
    assert_eq!(ensure_signed(Origin::Signed([4u8; 32])), Ok([4u8; 32]));
    assert_eq!(ensure_signed(Origin::Root), Err(()));
    assert_eq!(ensure_root(Origin::Root), Ok(()));
    assert_eq!(ensure_root(Origin::Unsigned), Err(()));
    let v = ValidTransaction::default_validity();
    assert_eq!(v.priority, 0);
    assert!(v.required_tags.is_empty() && v.provided_tags.is_empty());
    assert_eq!(v.longevity, u64::MAX);
    assert!(v.propagate);
    assert_eq!(<() as PeopleWeightInfo>::as_personal_alias(), Weight { ref_time: 0, proof_size: 0 });
    assert_eq!(<() as ResourcesWeightInfo>::register_person(), Weight { ref_time: 0, proof_size: 0 });
}
