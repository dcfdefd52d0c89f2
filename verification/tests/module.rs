use rusty_junctions::module::{decimal_text, Module};

#[test]
fn test_named_modules() {
    assert_eq!("unary", Module::from_usize(1).name());
    assert_eq!("binary", Module::from_usize(2).name());
    assert_eq!("ternary", Module::from_usize(3).name());
}

#[test]
fn test_numbered_modules() {
    assert_eq!("n4ary", Module::from_usize(4).name());
    assert_eq!("n10ary", Module::from_usize(10).name());
    assert_eq!("n1729ary", Module::from_usize(1729).name());
    assert_eq!(format!("n{}ary", usize::MAX), Module::from_usize(usize::MAX).name());
}

#[test]
fn test_decimal_text() {
    assert_eq!("0", decimal_text(0));
    assert_eq!("9", decimal_text(9));
    assert_eq!("10", decimal_text(10));
    assert_eq!("1000", decimal_text(1000));
    assert_eq!("9081726354", decimal_text(9081726354));
}

#[test]
fn test_module_number_and_next() {
    let module = Module::from_usize(2);

    assert_eq!(2, module.number());
    assert_eq!(Some(Module::from_usize(3)), module.next());
    assert_eq!(Some(Module::from_usize(1)), Module::from_usize(0).next());
}

#[test]
fn test_type_parameters() {
    let mut parameters = Module::from_usize(3).type_parameters();

    assert_eq!(Some("A".to_string()), parameters.next());
    assert_eq!(Some("AA".to_string()), parameters.next());
    assert_eq!(Some("AAA".to_string()), parameters.next());
    assert_eq!(None, parameters.next());
    assert_eq!(None, parameters.next());
}

#[test]
fn test_type_parameters_of_empty_module() {
    let mut parameters = Module::from_usize(0).type_parameters();

    assert_eq!(None, parameters.next());
}
