use pencil_box::hello_world;

#[test]
fn hello() {
    let result = hello_world();
    assert_eq!(result, "Hello, World!".to_string());
}
