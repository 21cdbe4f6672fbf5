use similarity_core::APTEDOptions;
use similarity_core::TSEDOptions;
use similarity_core::find_similar_functions_across_files;
use similarity_core::find_similar_functions_in_file;

fn options(min_lines: u32, size_penalty: bool) -> TSEDOptions {
    TSEDOptions {
        apted_options: APTEDOptions { rename_cost: 300, delete_cost: 1000, insert_cost: 1000 },
        min_lines,
        size_penalty,
    }
}

#[test]
fn test_intra_file_duplicates() {
    let source = r#"
def process_items(items):
    result = []
    for item in items:
        if item > 0:
            result.append(item * 2)
    return result

def handle_items(data):
    output = []
    for d in data:
        if d > 0:
            output.append(d * 2)
    return output
"#;
    let results =
        find_similar_functions_in_file("dup.py", source, &options(3, true), false, 800000).unwrap();
    assert_eq!(results.len(), 1);
    assert_eq!(results[0].name1, "process_items");
    assert_eq!(results[0].name2, "handle_items");
    assert!(results[0].similarity >= 800000);
}

#[test]
fn test_no_duplicates_above_threshold() {
    let source = r#"
def calculate_sum(numbers):
    total = 0
    for n in numbers:
        total += n
    return total

def format_message(name, age):
    return "Hello " + name + " " + str(age)
"#;
    let results =
        find_similar_functions_in_file("uniq.py", source, &options(3, true), false, 850000)
            .unwrap();
    assert_eq!(results.len(), 0);
}

#[test]
fn test_min_lines_filtering() {
    let source = r#"
def f1(): return 1

def f2(): return 1

def longer_func1():
    x = 1
    y = 2
    z = 3
    return x + y + z

def longer_func2():
    a = 1
    b = 2
    c = 3
    return a + b + c
"#;
    let results =
        find_similar_functions_in_file("min_lines.py", source, &options(4, true), false, 800000)
            .unwrap();
    assert_eq!(results.len(), 1);
    assert_eq!(results[0].name1, "longer_func1");
    assert_eq!(results[0].name2, "longer_func2");
    for r in &results {
        assert!(r.end_line1 - r.start_line1 + 1 >= 4);
        assert!(r.end_line2 - r.start_line2 + 1 >= 4);
        assert_ne!(r.name1, "f1");
        assert_ne!(r.name2, "f1");
    }
}

#[test]
fn test_skip_test_filtering() {
    let source = r#"
def test_calculate_sum():
    data = [1, 2, 3]
    total = sum(data)
    assert total == 6

def test_calculate_product():
    data = [1, 2, 3]
    total = sum(data)
    assert total == 6

def calculate_sum(data):
    total = 0
    for d in data:
        total += d
    return total

def calculate_product(data):
    total = 0
    for d in data:
        total += d
    return total
"#;
    let results =
        find_similar_functions_in_file("skip.py", source, &options(3, true), true, 800000).unwrap();
    assert!(!results.is_empty());
    for r in &results {
        assert!(!r.name1.starts_with("test_"));
        assert!(!r.name2.starts_with("test_"));
    }
    // Without the flag, the test pair is reported too.
    let all =
        find_similar_functions_in_file("skip.py", source, &options(3, true), false, 800000)
            .unwrap();
    assert!(all.len() > results.len());
}

#[test]
fn test_results_sorted_descending() {
    let source = r#"
def alpha(a):
    x = a + 1
    y = x * 2
    return y

def beta(b):
    x = b + 1
    y = x * 2
    return y

def gamma(c):
    x = c + 1
    y = x * 3
    return y
"#;
    let results =
        find_similar_functions_in_file("sorted.py", source, &options(3, false), false, 100000)
            .unwrap();
    assert!(results.len() >= 3);
    for k in 0..results.len() - 1 {
        assert!(results[k].similarity >= results[k + 1].similarity);
        if results[k].similarity == results[k + 1].similarity {
            assert!(
                (results[k].file1.as_str(), results[k].start_line1)
                    <= (results[k + 1].file1.as_str(), results[k + 1].start_line1)
            );
        }
    }
}

#[test]
fn test_cross_file_identical_functions() {
    let code = "def add(a, b):\n    s = a + b\n    return s\n";
    let files = vec![
        ("one.py".to_string(), code.to_string()),
        ("two.py".to_string(), code.to_string()),
    ];
    let (results, skipped) =
        find_similar_functions_across_files(&files, &options(2, false), false, 990000);
    assert!(skipped.is_empty());
    assert_eq!(results.len(), 1);
    assert_eq!(results[0].similarity, 1000000);
    assert_eq!(results[0].name1, "add");
    assert_eq!(results[0].name2, "add");
}

#[test]
fn test_cross_file_skips_unsupported() {
    let files = vec![
        ("one.py".to_string(), "def f(a):\n    return a\n".to_string()),
        ("two.txt".to_string(), "not source".to_string()),
    ];
    let (results, skipped) =
        find_similar_functions_across_files(&files, &options(1, false), false, 990000);
    assert_eq!(skipped, vec!["two.txt".to_string()]);
    assert!(results.is_empty());
}

#[test]
fn test_unsupported_file_is_error() {
    let r = find_similar_functions_in_file(
        "notes.txt",
        "def f():\n    return 1\n",
        &options(1, false),
        false,
        800000,
    );
    assert!(r.is_err());
}
