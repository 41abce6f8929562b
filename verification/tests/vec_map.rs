use diffpatch::vec_map::VecMap;

#[test]
fn new_table_is_empty() {
    let m: VecMap<bool> = VecMap::new();
    assert_eq!(m.len(), 0);
    assert!(m.is_empty());
    let m: VecMap<u32> = VecMap::with_capacity(16);
    assert_eq!(m.len(), 0);
    assert!(m.is_empty());
}

#[test]
fn unwritten_slots_read_as_default() {
    let m: VecMap<bool> = VecMap::new();
    assert_eq!(m.get(0), false);
    assert_eq!(m.get(1000), false);
    let m: VecMap<u32> = VecMap::new();
    assert_eq!(m.get(7), 0);
}

#[test]
fn get_mut_grows_up_to_the_slot() {
    let mut m: VecMap<u32> = VecMap::new();
    *m.get_mut(2) = 5;
    assert_eq!(m.len(), 3);
    assert_eq!(*m.get_existing(0), 0);
    assert_eq!(*m.get_existing(1), 0);
    assert_eq!(*m.get_existing(2), 5);
    *m.get_mut(1) = 9;
    assert_eq!(m.len(), 3);
    assert_eq!(*m.get_existing(1), 9);
    assert_eq!(*m.get_existing(2), 5);
}

#[test]
fn ensure_space_never_shrinks() {
    let mut m: VecMap<u32> = VecMap::new();
    m.ensure_space_for(4);
    assert_eq!(m.len(), 5);
    m.ensure_space_for(1);
    assert_eq!(m.len(), 5);
    assert!(!m.is_empty());
}

#[test]
fn set_all_sets_every_slot_below_the_bound() {
    let mut m: VecMap<bool> = VecMap::new();
    m.set_all(..3, true);
    assert_eq!(m.len(), 3);
    assert!(m.get(0) && m.get(1) && m.get(2));
    assert!(!m.get(3));
}

#[test]
fn set_all_keeps_what_lies_beyond() {
    let mut m: VecMap<u32> = VecMap::new();
    *m.get_mut(4) = 7;
    m.set_all(..2, 1);
    assert_eq!(m.len(), 5);
    assert_eq!(m.get(0), 1);
    assert_eq!(m.get(1), 1);
    assert_eq!(m.get(2), 0);
    assert_eq!(m.get(4), 7);
}

#[test]
fn set_all_below_zero_does_nothing() {
    let mut m: VecMap<bool> = VecMap::new();
    m.set_all(..0, true);
    assert_eq!(m.len(), 0);
}

#[test]
fn inner_mut_hands_out_the_slots() {
    let mut m: VecMap<u32> = VecMap::new();
    m.inner_mut().push(3);
    m.inner_mut().push(4);
    assert_eq!(m.len(), 2);
    assert_eq!(*m.get_existing(1), 4);
}

#[test]
fn flags_are_written_one_by_one_and_together() {
    let mut m: VecMap<bool> = VecMap::new();
    m.set_flag(2, true);
    assert_eq!(m.len(), 3);
    assert!(!m.get(0) && !m.get(1) && m.get(2));
    m.set_flags(2, true);
    assert!(m.get(0) && m.get(1) && m.get(2));
    m.set_flags(5, false);
    assert_eq!(m.len(), 5);
    assert!(!m.get(0) && !m.get(2) && !m.get(4));
}

#[test]
fn a_table_is_walked_slot_by_slot() {
    let mut m: VecMap<u32> = VecMap::default();
    assert!(m.is_empty());
    *m.get_mut(2) = 5;
    let by_ref: Vec<u32> = (&m).into_iter().copied().collect();
    assert_eq!(by_ref, vec![0, 0, 5]);
    let by_value: Vec<u32> = m.into_iter().collect();
    assert_eq!(by_value, vec![0, 0, 5]);
}

#[test]
fn a_table_prints_its_slots() {
    let mut m: VecMap<bool> = VecMap::new();
    m.set_flag(1, true);
    assert_eq!(format!("{:?}", m), "VecMap([false, true])");
}
