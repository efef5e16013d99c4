use datex_cli::lsp::expression_finder::ExpressionFinder;
use datex_cli::lsp::type_hint_collector::TypeHintCollector;
use datex_cli::lsp::variable_declaration_finder::{Span, VariableDeclarationFinder};
use datex_cli::lsp::{
    describe_variable, starts_with, CompilerErrorTree, LanguageServerBackend, Position, Range,
    VariableInfo,
};

type Backend = LanguageServerBackend<&'static str>;

fn pos(line: u32, character: u32) -> Position {
    Position { line, character }
}

#[test]
fn line_char_to_byte_index_basic() {
    assert_eq!(Backend::line_char_to_byte_index("ab\ncd", 0, 0), Some(0));
    assert_eq!(Backend::line_char_to_byte_index("ab\ncd", 0, 2), Some(2));
    assert_eq!(Backend::line_char_to_byte_index("ab\ncd", 1, 1), Some(4));
    assert_eq!(Backend::line_char_to_byte_index("ab\ncd", 1, 2), Some(5));
}

#[test]
fn line_char_to_byte_index_out_of_bounds() {
    // no third line
    assert_eq!(Backend::line_char_to_byte_index("ab\ncd", 2, 0), None);
    // beyond the end of the line
    assert_eq!(Backend::line_char_to_byte_index("ab\ncd", 0, 3), None);
    // the empty line after a final newline exists
    assert_eq!(Backend::line_char_to_byte_index("ab\n", 1, 0), Some(3));
    assert_eq!(Backend::line_char_to_byte_index("", 0, 0), Some(0));
    assert_eq!(Backend::line_char_to_byte_index("", 1, 0), None);
}

#[test]
fn line_char_to_byte_index_multibyte_and_crlf() {
    // 'é' takes two bytes
    assert_eq!(Backend::line_char_to_byte_index("\u{e9}x\ny", 0, 1), Some(2));
    assert_eq!(Backend::line_char_to_byte_index("\u{e9}x\ny", 1, 1), Some(5));
    // every byte of an earlier line counts, the '\r' of a "\r\n" ending too
    assert_eq!(Backend::line_char_to_byte_index("a\r\nb", 1, 0), Some(3));
    assert_eq!(Backend::line_char_to_byte_index("a\r\nb", 0, 2), Some(2));
}

#[test]
fn byte_offset_to_position_basic() {
    let b = Backend::new();
    assert_eq!(b.byte_offset_to_position(0, "ab\ncd"), Some(pos(0, 0)));
    assert_eq!(b.byte_offset_to_position(2, "ab\ncd"), Some(pos(0, 2)));
    assert_eq!(b.byte_offset_to_position(4, "ab\ncd"), Some(pos(1, 1)));
    assert_eq!(b.byte_offset_to_position(5, "ab\ncd"), Some(pos(1, 2)));
    assert_eq!(b.byte_offset_to_position(6, "ab\ncd"), None);
    // the end of a text that ends with a newline starts the empty last line
    assert_eq!(b.byte_offset_to_position(3, "ab\n"), Some(pos(1, 0)));
    assert_eq!(b.byte_offset_to_position(4, "ab\n"), None);
    // characters are counted, not bytes
    assert_eq!(b.byte_offset_to_position(2, "\u{e9}a"), Some(pos(0, 1)));
    assert_eq!(b.byte_offset_to_position(3, "\u{e9}a"), Some(pos(0, 2)));
    // inside a two-byte character: the next character boundary
    assert_eq!(b.byte_offset_to_position(1, "\u{e9}x"), Some(pos(0, 1)));
    // the character counts UTF-16 code units: two for a character outside
    // the Basic Multilingual Plane
    assert_eq!(b.byte_offset_to_position(5, "a\u{1F600}b"), Some(pos(0, 3)));
    assert_eq!(b.byte_offset_to_position(7, "a\r\n\u{1F600}"), Some(pos(1, 2)));
    assert_eq!(b.byte_offset_to_position(3, "\u{1F600}"), Some(pos(0, 2)));
    // a "\r\n" ending belongs to its line
    assert_eq!(b.byte_offset_to_position(2, "a\r\nb"), Some(pos(0, 2)));
    assert_eq!(b.byte_offset_to_position(3, "a\r\nb"), Some(pos(1, 0)));
}

#[test]
fn offset_round_trip_on_any_text() {
    let b = Backend::new();
    for text in ["let x = 1;\r\nx = 2;\n\n\u{e9}\u{3b1}b\n", "", "\n", "a\r\n\u{4e2d}", "\u{4e2d}\nx"] {
        for (off, _) in text.char_indices().chain(std::iter::once((text.len(), ' '))) {
            let p = b.byte_offset_to_position(off, text).unwrap();
            assert_eq!(
                Backend::line_char_to_byte_index(text, p.line as usize, p.character as usize),
                Some(off)
            );
        }
    }
}

#[test]
fn range_round_trip() {
    let b = Backend::new();
    let text = "\u{e9}t\u{e9}\r\nsecond";
    let r = b.convert_byte_range_to_document_range(2, 9, text);
    assert_eq!(r, Range { start: pos(0, 1), end: pos(1, 2) });
    assert_eq!(Backend::line_char_to_byte_index(text, 0, 1), Some(2));
    assert_eq!(Backend::line_char_to_byte_index(text, 1, 2), Some(9));
}

#[test]
fn position_round_trip() {
    let b = Backend::new();
    let text = "let x = 1;\r\nx = \u{e9}2;\n\nfoo";
    for line in 0..4usize {
        for ch in 0..12usize {
            if let Some(o) = Backend::line_char_to_byte_index(text, line, ch) {
                assert_eq!(b.byte_offset_to_position(o, text), Some(pos(line as u32, ch as u32)));
            }
        }
    }
}

#[test]
fn convert_range_and_offsets() {
    let b = Backend::new();
    assert_eq!(
        b.convert_byte_range_to_document_range(1, 4, "ab\ncd"),
        Range { start: pos(0, 1), end: pos(1, 1) }
    );
    assert_eq!(
        b.convert_byte_range_to_document_range(1, 9, "ab\ncd"),
        Range { start: pos(0, 1), end: pos(0, 0) }
    );
    assert_eq!(b.position_to_byte_offset("ab\ncd", 1, 1), 4);
    assert_eq!(b.position_to_byte_offset("ab\ncd", 5, 1), 0);
}

#[test]
fn previous_text_at_position() {
    let b = Backend::new();
    assert_eq!(b.get_previous_text_at_position("let foo_bar1 = x", 0, 12), "foo_bar1");
    assert_eq!(b.get_previous_text_at_position("a.b", 0, 3), "b");
    assert_eq!(b.get_previous_text_at_position("val x", 0, 4), "");
    // letters outside ASCII are word characters too
    assert_eq!(b.get_previous_text_at_position("\u{3b1}\u{3b2} \u{3b3}\u{3b4}", 0, 5), "\u{3b3}\u{3b4}");
    // a position out of bounds reads the text before byte 0
    assert_eq!(b.get_previous_text_at_position("abc", 3, 0), "");
}

#[test]
fn collect_and_clear_compiler_errors() {
    let mut b = Backend::new();
    let content = "ab\ncd";
    let tree = CompilerErrorTree::Multiple(vec![
        CompilerErrorTree::Spanned("first", 1, 4),
        CompilerErrorTree::Multiple(vec![]),
        CompilerErrorTree::Other("second"),
    ]);
    b.collect_compiler_errors(tree, "/a.dx", content);
    let errs = b.compiler_errors("/a.dx").unwrap();
    assert_eq!(errs.len(), 2);
    assert_eq!(errs[0].error, "first");
    assert_eq!(errs[0].range, Range { start: pos(0, 1), end: pos(1, 1) });
    assert_eq!(errs[1].error, "second");
    // the whole file
    assert_eq!(errs[1].range, Range { start: pos(0, 0), end: pos(1, 2) });
    assert!(b.compiler_errors("/b.dx").is_none());
    b.clear_compiler_errors("/a.dx");
    assert!(b.compiler_errors("/a.dx").is_none());
}

#[test]
fn empty_group_records_nothing() {
    let mut b = Backend::new();
    b.collect_compiler_errors(CompilerErrorTree::Multiple(vec![]), "/a.dx", "x");
    assert!(b.compiler_errors("/a.dx").is_none());
}

#[test]
fn update_file_contents_replaces_errors() {
    let mut b = Backend::new();
    b.update_file_contents("/a.dx", "x", Err(CompilerErrorTree::Other("e1")));
    b.update_file_contents("/a.dx", "x", Err(CompilerErrorTree::Other("e2")));
    let errs = b.compiler_errors("/a.dx").unwrap();
    assert_eq!(errs.len(), 1);
    assert_eq!(errs[0].error, "e2");
    b.update_file_contents("/b.dx", "y", Err(CompilerErrorTree::Spanned("e3", 0, 1)));
    b.update_file_contents("/a.dx", "x", Ok(()));
    assert!(b.compiler_errors("/a.dx").is_none());
    assert_eq!(b.compiler_errors("/b.dx").unwrap().len(), 1);
}

fn var(name: &str, shape: &str, ty: Option<&str>) -> VariableInfo {
    VariableInfo {
        name: name.to_string(),
        shape: shape.to_string(),
        var_type: ty.map(|t| t.to_string()),
    }
}

#[test]
fn variables_by_prefix_and_id() {
    let b = Backend::new();
    let files = vec![
        vec![var("foo", "val", Some("integer")), var("bar", "ref", None)],
        vec![var("food", "const", Some("text"))],
    ];
    let found = b.find_variable_starting_with(&files, "fo");
    let names: Vec<&str> = found.iter().map(|v| v.name.as_str()).collect();
    assert_eq!(names, vec!["foo", "food"]);
    assert_eq!(b.find_variable_starting_with(&files, "").len(), 3);
    assert_eq!(b.find_variable_starting_with(&files, "x").len(), 0);
    assert_eq!(b.get_variable_by_id(&files, 1).unwrap().name, "bar");
    assert_eq!(b.get_variable_by_id(&files, 0).unwrap().name, "foo");
    assert!(b.get_variable_by_id(&files, 2).is_none());
    let files2 = vec![vec![], vec![var("z", "val", None)]];
    assert_eq!(b.get_variable_by_id(&files2, 0).unwrap().name, "z");
}

#[test]
fn describe_and_prefix() {
    assert_eq!(describe_variable("val", "x", "integer"), "val x: integer");
    assert!(starts_with("hello", "he"));
    assert!(starts_with("hello", ""));
    assert!(!starts_with("he", "hello"));
    assert!(!starts_with("hello", "hx"));
}

#[test]
fn expression_finder_keeps_smallest() {
    let mut f: ExpressionFinder<&str> = ExpressionFinder::new(5);
    assert!(f.found_expr.is_none());
    assert!(f.match_span(0, 10, "outer"));
    assert!(!f.match_span(6, 8, "elsewhere"));
    assert!(f.match_span(4, 6, "inner"));
    assert!(f.match_span(3, 5, "same size"));
    assert!(f.match_span(0, 20, "larger"));
    let found = f.found_expr.unwrap();
    assert_eq!(found.expr, "inner");
    assert_eq!((found.start, found.end), (4, 6));
}

#[test]
fn variable_declaration_finder_finds_declaration() {
    let mut f = VariableDeclarationFinder::new(3);
    assert!(f.variable_declaration_position.is_none());
    assert!(f.visit_variable_declaration(Some(1), Span { start: 0, end: 5 }));
    assert!(f.visit_variable_declaration(None, Span { start: 6, end: 9 }));
    assert!(!f.visit_variable_declaration(Some(3), Span { start: 10, end: 20 }));
    assert_eq!(f.variable_declaration_position, Some(Span { start: 10, end: 20 }));
    assert_eq!(f.var_id, 3);
}

#[test]
fn type_hint_collector_collects_unannotated() {
    let mut c = TypeHintCollector::new();
    c.visit_variable_declaration(false, 8, Some(0));
    c.visit_variable_declaration(true, 20, Some(1));
    c.visit_variable_declaration(false, 30, Some(2));
    assert_eq!(c.type_hints, vec![(5, 0), (27, 2)]);
}

#[test]
fn completion_and_hover() {
    let b = Backend::new();
    let files = vec![
        vec![var("foo", "val", Some("integer")), var("bar", "ref", None)],
        vec![var("food", "const", Some("text"))],
    ];
    let items = b.completion_items(&files, "fo");
    assert_eq!(items.len(), 2);
    assert_eq!(items[0].label, "foo");
    assert_eq!(items[0].detail, "val foo: integer");
    assert_eq!(items[1].label, "food");
    assert_eq!(items[1].detail, "const food: text");
    assert_eq!(b.hover_text(&files, 0, "foo"), "val foo: integer");
    assert_eq!(b.hover_text(&files, 0, "renamed"), "val renamed: integer");
}
