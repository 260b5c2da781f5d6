use minilang::fl::preprocessor::Preprocessor;

#[test]
fn recognises_definition_lines() {
    assert!(Preprocessor::is_macro_def("@macro PI -> 3"));
    assert!(Preprocessor::is_macro_def("   @macro"));
    assert!(!Preprocessor::is_macro_def("x = 1"));
    assert!(!Preprocessor::is_macro_def("@macros PI -> 3"));
    assert!(!Preprocessor::is_macro_def(""));
}

#[test]
fn expands_defined_names_on_every_line() {
    let mut p = Preprocessor::default();
    p.define("@macro PI -> 3");
    p.define("@macro SUM ->  a   +  b ");
    let mut source = "x = PI\ny = SUM * PI\r\nz".to_string();
    p.preprocess(&mut source);
    assert_eq!(source, "x = 3\ny = a + b * 3\nz\n");
}

#[test]
fn defining_again_replaces() {
    let mut p = Preprocessor::default();
    p.define("@macro N -> 1");
    p.define("@macro N -> 2");
    let mut source = "N".to_string();
    p.preprocess(&mut source);
    assert_eq!(source, "2\n");
}

#[test]
fn without_macros_only_line_ends_change() {
    let p = Preprocessor::default();
    let mut source = "a\r\nb\n\nc".to_string();
    p.preprocess(&mut source);
    assert_eq!(source, "a\nb\n\nc\n");
    let mut empty = String::new();
    p.preprocess(&mut empty);
    assert_eq!(empty, "");
}

#[test]
fn empty_expansion() {
    let mut p = Preprocessor::default();
    p.define("@macro GONE ->");
    let mut source = "aGONEb".to_string();
    p.preprocess(&mut source);
    assert_eq!(source, "ab\n");
}

#[test]
fn preprocessing_twice_without_macros_changes_nothing_more() {
    let p = Preprocessor::default();
    let mut source = "a = 1\r\nb = 2\n\nprint(a)".to_string();
    p.preprocess(&mut source);
    let once = source.clone();
    p.preprocess(&mut source);
    assert_eq!(source, once);
    assert_eq!(once, "a = 1\nb = 2\n\nprint(a)\n");
    let copy = p.clone();
    let mut again = once.clone();
    copy.preprocess(&mut again);
    assert_eq!(again, once);
}
