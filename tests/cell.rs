use mantahal::cell::{OnceCell, StaticCell};

#[test]
fn once_cell_holds_value() {
    let mut c: OnceCell<u32> = OnceCell::new();
    assert!(!c.is_initialized());
    c.init(7);
    assert!(c.is_initialized());
    assert_eq!(*c.get(), 7);
}

#[test]
fn static_cell_holds_value() {
    let mut c: StaticCell<String> = StaticCell::new();
    c.init("boot".to_string());
    assert_eq!(c.get(), "boot");
}
