use similarity_core::Language;
use similarity_core::PythonParser;
use similarity_core::TypeDefKind;

#[test]
fn test_python_functions() {
    let mut parser = PythonParser::new().unwrap();
    let source = r#"
def hello(name):
    return f"Hello, {name}!"

def add(a, b=0):
    return a + b

class Calculator:
    def __init__(self):
        self.result = 0

    def add(self, x):
        self.result += x
        return self.result
"#;

    let functions = parser.extract_functions(source, "test.py").unwrap();
    assert_eq!(functions.len(), 4);
    assert_eq!(functions[0].name, "hello");
    assert_eq!(functions[1].name, "add");
    assert!(!functions[1].is_method);
    assert_eq!(functions[2].name, "__init__");
    assert!(functions[2].is_method);
    assert_eq!(functions[2].class_name, Some("Calculator".to_string()));
    assert_eq!(functions[3].name, "add");
    assert!(functions[3].is_method);
}

#[test]
fn test_python_classes() {
    let mut parser = PythonParser::new().unwrap();
    let source = r#"
class User:
    def __init__(self, name):
        self.name = name

class Admin(User):
    def __init__(self, name, level):
        super().__init__(name)
        self.level = level
"#;

    let types = parser.extract_types(source, "test.py").unwrap();
    assert_eq!(types.len(), 2);
    assert_eq!(types[0].name, "User");
    assert_eq!(types[0].kind, TypeDefKind::Class);
    assert_eq!(types[1].name, "Admin");
}

#[test]
fn test_python_function_spans_and_params() {
    let mut parser = PythonParser::new().unwrap();
    let source = "def add(a, b=0):\n    return a + b\n";
    let functions = parser.extract_functions(source, "test.py").unwrap();
    assert_eq!(functions.len(), 1);
    assert_eq!(functions[0].start_line, 1);
    assert_eq!(functions[0].end_line, 2);
    assert_eq!(functions[0].body_start_line, 2);
    assert_eq!(functions[0].parameters, vec!["a".to_string(), "b".to_string()]);
    assert!(!functions[0].is_test);
}

#[test]
fn test_python_test_prefix_flag() {
    let mut parser = PythonParser::new().unwrap();
    let source = "def test_add():\n    assert add(1, 2) == 3\n";
    let functions = parser.extract_functions(source, "test.py").unwrap();
    assert_eq!(functions.len(), 1);
    assert!(functions[0].is_test);
}

#[test]
fn test_nested_class_method_reported_once() {
    let mut parser = PythonParser::new().unwrap();
    let source = r#"
class Outer:
    class Inner:
        def m(self):
            return 1
"#;
    let functions = parser.extract_functions(source, "test.py").unwrap();
    // The inner class's method appears exactly once, under the inner
    // class's name.
    assert_eq!(functions.len(), 1);
    assert_eq!(functions[0].name, "m");
    assert!(functions[0].is_method);
    assert_eq!(functions[0].class_name, Some("Inner".to_string()));
}

#[test]
fn test_record_span_invariant() {
    let mut parser = PythonParser::new().unwrap();
    let source = "def f(a):\n    return a\n\nclass C:\n    def g(self):\n        return 2\n";
    let functions = parser.extract_functions(source, "test.py").unwrap();
    assert!(!functions.is_empty());
    for f in &functions {
        assert!(1 <= f.start_line && f.start_line <= f.end_line);
        assert_eq!(f.body_start_line == 0, f.body_end_line == 0);
        if f.body_start_line != 0 {
            assert!(f.start_line <= f.body_start_line);
            assert!(f.body_start_line <= f.body_end_line);
            assert!(f.body_end_line <= f.end_line);
        }
    }
}

#[test]
fn test_python_parse_tree_labels() {
    let mut parser = PythonParser::new().unwrap();
    let tree = parser.parse("x = 1\n", "test.py").unwrap();
    // A module node with an assignment under it: certainly more than one
    // node, and the cached size is the real node count.
    assert!(tree.get_subtree_size() > 1);
    assert_eq!(tree.label, "module");
    assert_eq!(tree.id, 0);
}

#[test]
fn test_language_tag() {
    let parser = PythonParser::new().unwrap();
    assert_eq!(parser.language(), Language::Python);
}
