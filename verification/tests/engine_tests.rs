use similarity_core::APTEDOptions;
use similarity_core::PythonParser;
use similarity_core::TSEDOptions;
use similarity_core::calculate_tsed;
use similarity_core::compute_edit_distance;
use similarity_core::isqrt;

fn default_costs() -> APTEDOptions {
    APTEDOptions { rename_cost: 300, delete_cost: 1000, insert_cost: 1000 }
}

#[test]
fn test_self_distance_is_zero() {
    let mut parser = PythonParser::new().unwrap();
    let tree = parser.parse("def f(a):\n    return a + 1\n", "a.py").unwrap();
    let d = compute_edit_distance(&tree, &tree, &default_costs());
    assert_eq!(d, 0);
}

#[test]
fn test_distance_symmetry() {
    // Symmetric whenever insert and delete cost the same.
    let mut parser = PythonParser::new().unwrap();
    let t1 = parser.parse("def f(a):\n    return a + 1\n", "a.py").unwrap();
    let t2 = parser.parse("class C:\n    def g(self):\n        return 2\n", "b.py").unwrap();
    let costs = default_costs();
    let d12 = compute_edit_distance(&t1, &t2, &costs);
    let d21 = compute_edit_distance(&t2, &t1, &costs);
    assert_eq!(d12, d21);
}

#[test]
fn test_relabel_cost_bound() {
    // Renaming identifiers without structural change costs at most one
    // rename per node of the tree.
    let mut parser = PythonParser::new().unwrap();
    let t1 = parser.parse("def f(a, b):\n    return a + b\n", "a.py").unwrap();
    let t2 = parser.parse("def g(x, y):\n    return x + y\n", "b.py").unwrap();
    let costs = default_costs();
    let d = compute_edit_distance(&t1, &t2, &costs);
    assert!(d > 0);
    // 5 renamed identifier positions (name and two uses of each
    // parameter leave 5 differing leaves), 300 per rename.
    assert_eq!(d, 5 * 300);
}

#[test]
fn test_single_delete_costs_one_unit() {
    let mut parser = PythonParser::new().unwrap();
    let t1 = parser.parse("x = 1\ny = 2\n", "a.py").unwrap();
    let t2 = parser.parse("x = 1\n", "b.py").unwrap();
    let costs = default_costs();
    let d = compute_edit_distance(&t1, &t2, &costs);
    // The second statement subtree (assignment, name, =, literal) must
    // be deleted whole: 5 nodes at cost 1.0 each.
    assert_eq!(d, 5000);
}

#[test]
fn test_tsed_identical_is_one_without_penalty() {
    let mut parser = PythonParser::new().unwrap();
    let tree = parser.parse("def f(a):\n    return a\n", "a.py").unwrap();
    let options = TSEDOptions {
        apted_options: default_costs(),
        min_lines: 0,
        size_penalty: false,
    };
    assert_eq!(calculate_tsed(&tree, &tree, &options), 1000000);
}

#[test]
fn test_tsed_identical_is_one_for_large_trees_with_penalty() {
    let mut parser = PythonParser::new().unwrap();
    let source = "def f(a, b, c):\n    total = a + b\n    total = total * c\n    if total > 0:\n        return total\n    return -total\n";
    let tree = parser.parse(source, "a.py").unwrap();
    assert!(tree.get_subtree_size() >= 20);
    let options = TSEDOptions {
        apted_options: default_costs(),
        min_lines: 0,
        size_penalty: true,
    };
    assert_eq!(calculate_tsed(&tree, &tree, &options), 1000000);
}

#[test]
fn test_tsed_short_identical_is_penalized() {
    let mut parser = PythonParser::new().unwrap();
    let tree = parser.parse("x = 1\n", "a.py").unwrap();
    assert!(tree.get_subtree_size() < 20);
    let options = TSEDOptions {
        apted_options: default_costs(),
        min_lines: 0,
        size_penalty: true,
    };
    let s = calculate_tsed(&tree, &tree, &options);
    assert!(s < 1000000);
}

#[test]
fn test_tsed_stays_in_range() {
    let mut parser = PythonParser::new().unwrap();
    let t1 = parser.parse("x = 1\n", "a.py").unwrap();
    let t2 = parser
        .parse("class C:\n    def g(self, a, b, c, d):\n        return a + b + c + d\n", "b.py")
        .unwrap();
    let options = TSEDOptions::default();
    let s = calculate_tsed(&t1, &t2, &options);
    assert!(s <= 1000000);
}

#[test]
fn test_isqrt_exact_values() {
    assert_eq!(isqrt(0), 0);
    assert_eq!(isqrt(1), 1);
    assert_eq!(isqrt(3), 1);
    assert_eq!(isqrt(4), 2);
    assert_eq!(isqrt(15), 3);
    assert_eq!(isqrt(16), 4);
    assert_eq!(isqrt(999999), 999);
    assert_eq!(isqrt(1000000000000), 1000000);
    assert_eq!(isqrt(u64::MAX), 4294967295);
}
