use orbit_lib::{add, hello_world};

#[test]
fn greets_from_webassembly() {
    assert_eq!(hello_world(), "Hello from WebAssembly! 🚀");
}

#[test]
fn adds_two_numbers() {
    assert_eq!(add(2, 3), 5);
    assert_eq!(add(-7, 4), -3);
    assert_eq!(add(i32::MAX, 0), i32::MAX);
}
