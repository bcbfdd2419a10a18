use odb_poly_decomp::cell::{CellOpt, ValueError};

#[test]
fn initialize_fills_an_empty_slot_only() {
    let mut c: CellOpt<u32> = CellOpt::default();
    assert!(!c.is_occupied());
    assert!(c.initialize(7).is_ok());
    assert_eq!(c.get(), Some(7));
    let err = c.initialize(9).unwrap_err();
    assert_eq!(err.to_insert, 9);
    assert_eq!(err.err, ValueError::Occupied);
    assert_eq!(c.get(), Some(7));
}

#[test]
fn take_empties_and_reports_an_empty_slot() {
    let mut c = CellOpt::new(4u8);
    assert_eq!(c.take(), Ok(4));
    assert!(!c.is_occupied());
    assert_eq!(c.take(), Err(ValueError::Empty));
}

#[test]
fn maps_keep_or_replace_the_value() {
    let mut c = CellOpt::new(10i64);
    assert_eq!(c.restoring_map(|v| v * 3), Some(30));
    assert_eq!(c.get(), Some(10));
    c.replacing_map(|v| v + 1);
    assert_eq!(c.get(), Some(11));
    assert_eq!(c.force_take(), 11);
    c.replacing_map(|v| v + 1);
    assert_eq!(c.get(), None);
    assert_eq!(c.restoring_map(|v| v * 3), None);
    c.replace(Some(5));
    assert_eq!(c.get(), Some(5));
    c.replace(None);
    assert!(!c.is_occupied());
}
