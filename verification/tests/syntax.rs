use edit_core::document::Document;
use edit_core::render::TokenStyle;
use edit_core::syntax::Language;
use ropey::Rope;
use tree_sitter::{Parser, Query};

fn rust() -> Language {
    let language = tree_sitter_rust::language();
    let highlights = Query::new(&language, tree_sitter_rust::HIGHLIGHTS_QUERY).unwrap();
    let mut parser = Parser::new();
    parser.set_language(&language).unwrap();
    Language::new(highlights, parser)
}

fn doc(text: &str) -> Document {
    Document::new(Rope::from_str(text))
}

#[test]
fn parse_builds_a_tree_of_the_text() {
    let mut language = rust();
    let mut doc = doc("fn main() {}\n");
    assert!(doc.tree().is_none());
    assert!(doc.parse(language.parser()));
    let tree = doc.tree().unwrap();
    assert_eq!(tree.root_node().kind(), "source_file");
    assert_eq!(tree.root_node().end_byte(), 13);
    assert_eq!(tree.root_node().to_sexp(), "(source_file (function_item name: (identifier) parameters: (parameters) body: (block)))");
    assert_eq!(doc.rope().to_string(), "fn main() {}\n");
    assert_eq!(doc.cursor_byte(), 0);
}

#[test]
fn parse_without_language_keeps_the_document_as_it_is() {
    let mut parser = Parser::new();
    let mut doc = doc("fn main() {}");
    assert!(!doc.parse(&mut parser));
    assert!(doc.tree().is_none());
    let mut language = rust();
    assert!(doc.parse(language.parser()));
    assert!(!doc.parse(&mut parser));
    assert!(doc.tree().is_some());
}

#[test]
fn parse_reads_a_text_of_many_pieces() {
    let mut language = rust();
    let source: String = (0..500).map(|i| format!("fn f{i}() {{ let s = \"é€\"; }}\n")).collect();
    let mut doc = doc(&source);
    assert!(doc.parse(language.parser()));
    let root = doc.tree().unwrap().root_node();
    assert_eq!(root.end_byte(), source.len());
    assert_eq!(root.named_child_count(), 500);
    assert!(!root.has_error());
}

#[test]
fn edits_keep_the_tree_in_step_with_the_text() {
    let mut language = rust();
    let mut doc = doc("fn main() {}\n");
    doc.parse(language.parser());
    doc.move_to(0, 3);
    for ch in ['n', 'e', 'w', '_'] {
        doc.insert(ch);
    }
    assert_eq!(doc.tree().unwrap().root_node().end_byte(), 17);
    assert!(doc.parse(language.parser()));
    let mut fresh = Document::new(Rope::from_str("fn new_main() {}\n"));
    fresh.parse(language.parser());
    assert_eq!(
        doc.tree().unwrap().root_node().to_sexp(),
        fresh.tree().unwrap().root_node().to_sexp()
    );
    let name = doc.tree().unwrap().root_node().child(0).unwrap().child_by_field_name("name").unwrap();
    assert_eq!((name.start_byte(), name.end_byte()), (3, 11));
    doc.remove_before();
    assert_eq!(doc.rope().to_string(), "fn newmain() {}\n");
    assert_eq!(doc.tree().unwrap().root_node().end_byte(), 16);
    doc.parse(language.parser());
    let name = doc.tree().unwrap().root_node().child(0).unwrap().child_by_field_name("name").unwrap();
    assert_eq!((name.start_byte(), name.end_byte()), (3, 10));
}

#[test]
fn remove_tells_the_tree_of_the_span_between_the_selection_ends() {
    let mut language = rust();
    let mut doc = doc("fn a() {}\nfn b() {}");
    doc.parse(language.parser());
    assert_eq!(doc.tree().unwrap().root_node().end_byte(), 19);
    doc.move_to(1, 0);
    doc.enter_select();
    doc.move_to(1, 9);
    let edit = doc.remove().unwrap();
    assert_eq!((edit.start_byte, edit.old_end_byte, edit.new_end_byte), (10, 19, 10));
    assert_eq!(doc.rope().to_string(), "fn a() {}\n");
    assert_eq!(doc.tree().unwrap().root_node().end_byte(), 10);
    doc.enter_normal();
    doc.move_to(0, 3);
    let edit = doc.remove().unwrap();
    assert_eq!((edit.start_byte, edit.old_end_byte, edit.new_end_byte), (3, 3, 3));
    assert_eq!(doc.rope().to_string(), "fn () {}\n");
    assert_eq!(doc.tree().unwrap().root_node().end_byte(), 10);
}

#[test]
fn edits_without_a_tree_still_describe_the_change() {
    let mut doc = doc("ab");
    let edit = doc.insert('c');
    assert_eq!(edit.new_end_byte, 1);
    assert!(doc.tree().is_none());
}

#[test]
fn render_highlights_what_the_query_captures() {
    let mut language = rust();
    let mut doc = doc("fn main() {\n    42\n}");
    let frame = doc.render(&mut language, 10, 40);
    assert!(doc.tree().is_some());
    assert_eq!(doc.last_view_extent(), Some((10, 40)));
    assert_eq!(frame.rows.len(), 3);
    let first: Vec<Option<&str>> = frame.rows[0].cells.iter().map(|cell| cell.token).collect();
    assert!(frame.rows[0].cells[0].selected);
    assert!(!frame.rows[0].cells[1].selected);
    assert_eq!(first[0], Some("keyword"));
    assert_eq!(first[1], Some("keyword"));
    assert_eq!(first[2], None);
    assert_eq!(first[3], Some("function"));
    assert_eq!(first[6], Some("function"));
    let second: Vec<Option<&str>> = frame.rows[1].cells.iter().map(|cell| cell.token).collect();
    assert_eq!(second[0], None);
    assert_eq!(second[4], Some("constant.builtin"));
    assert_eq!(second[5], Some("constant.builtin"));
    assert_eq!(frame.cursor, Some((0, 0)));
    assert_eq!(frame.mode_label, "NOR");
}

#[test]
fn render_agrees_with_compose_on_plain_text() {
    let mut language = rust();
    let mut doc = doc("ab\ncd");
    doc.move_to(1, 1);
    let rendered = doc.render(&mut language, 2, 10);
    let text: Vec<String> =
        rendered.rows.iter().map(|row| row.cells.iter().map(|cell| cell.ch).collect()).collect();
    assert_eq!(text, vec!["ab ", "cd"]);
    assert_eq!(rendered.cursor, Some((1, 1)));
    assert_eq!((rendered.column, rendered.line), (1, 1));
    let spans: [TokenStyle; 0] = [];
    let composed = doc.compose(&spans, 2, 10);
    assert_eq!(composed.cursor, rendered.cursor);
    assert_eq!(composed.rows.len(), rendered.rows.len());
}

#[test]
fn render_turns_away_captures_inside_a_capture() {
    let mut language = rust();
    let source = "#[derive(Debug)]\nstruct S;\nconst A: &str = \"a\\nb\";";
    let mut doc = doc(source);
    let frame = doc.render(&mut language, 5, 40);
    let first: Vec<Option<&str>> = frame.rows[0].cells.iter().map(|cell| cell.token).collect();
    assert_eq!(first, vec![Some("attribute"); 16].into_iter().chain([None]).collect::<Vec<_>>());
    let second: Vec<Option<&str>> = frame.rows[1].cells.iter().map(|cell| cell.token).collect();
    assert_eq!(second[0], Some("keyword"));
    assert_eq!(second[5], Some("keyword"));
    assert_eq!(second[6], None);
    assert_eq!(second[7], Some("type"));
    assert_eq!(second[8], Some("punctuation.delimiter"));
    let third: Vec<Option<&str>> = frame.rows[2].cells.iter().map(|cell| cell.token).collect();
    let string_from = "const A: &str = ".len();
    for cell in &third[string_from..string_from + 6] {
        assert_eq!(*cell, Some("string"));
    }
    assert_eq!(third[string_from + 6], Some("punctuation.delimiter"));
}

#[test]
fn render_styles_tokens_that_touch() {
    let mut language = rust();
    let mut doc = doc("fn main(){}");
    let frame = doc.render(&mut language, 1, 40);
    let tokens: Vec<Option<&str>> = frame.rows[0].cells.iter().map(|cell| cell.token).collect();
    let f = Some("function");
    let b = Some("punctuation.bracket");
    assert_eq!(
        tokens,
        vec![Some("keyword"), Some("keyword"), None, f, f, f, f, b, b, b, b]
    );
}
