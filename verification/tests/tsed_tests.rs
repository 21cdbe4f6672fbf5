use similarity_core::TSEDOptions;
use similarity_core::calculate_tsed_from_code;

#[test]
fn test_identical_code() {
    let code = "function add(a: number, b: number) { return a + b; }";
    let mut options = TSEDOptions::default();
    options.size_penalty = false; // Disable for small test functions

    let similarity = calculate_tsed_from_code(code, code, "test1.ts", "test2.ts", &options).unwrap();
    assert_eq!(similarity, 1000000);
}

#[test]
fn test_renamed_function() {
    let code1 = "function add(a: number, b: number) { return a + b; }";
    let code2 = "function sum(x: number, y: number) { return x + y; }";
    let mut options = TSEDOptions::default();
    options.size_penalty = false; // Disable for small test functions

    let similarity =
        calculate_tsed_from_code(code1, code2, "test1.ts", "test2.ts", &options).unwrap();
    // Should have high similarity due to low rename cost
    assert!(similarity > 800000);
}

#[test]
fn test_different_structure() {
    let code1 = "function test() { return 1; }";
    let code2 = "class Test { method() { return 1; } }";
    let options = TSEDOptions::default();

    let similarity =
        calculate_tsed_from_code(code1, code2, "test1.ts", "test2.ts", &options).unwrap();
    // Should have lower similarity due to structural differences
    assert!(similarity < 700000);
}

#[test]
fn test_unsupported_extension_is_rejected() {
    let code = "function add(a, b) { return a + b; }";
    let options = TSEDOptions::default();
    let r = calculate_tsed_from_code(code, code, "notes.txt", "notes.txt", &options);
    assert!(r.is_err());
}

#[test]
fn test_python_extension_dispatch() {
    let code = "def add(a, b):\n    return a + b\n";
    let mut options = TSEDOptions::default();
    options.size_penalty = false;
    let similarity = calculate_tsed_from_code(code, code, "a.py", "b.py", &options).unwrap();
    assert_eq!(similarity, 1000000);
}

#[test]
fn test_similarity_in_range() {
    let code1 = "def f(a):\n    return a * 2\n";
    let code2 = "class C:\n    def g(self):\n        return 1\n";
    let options = TSEDOptions::default();
    let similarity = calculate_tsed_from_code(code1, code2, "a.py", "b.py", &options).unwrap();
    assert!(similarity <= 1000000);
}

#[test]
fn test_default_options() {
    let options = TSEDOptions::default();
    assert_eq!(options.apted_options.rename_cost, 300);
    assert_eq!(options.apted_options.delete_cost, 1000);
    assert_eq!(options.apted_options.insert_cost, 1000);
    assert_eq!(options.min_lines, 5);
    assert!(options.size_penalty);
}
