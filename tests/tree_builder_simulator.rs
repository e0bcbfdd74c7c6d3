use lol_html::tag_name_hash::{get_tag_name_hash, TagNameHash};
use lol_html::token::{LexUnit, TextParsingMode, Token};
use lol_html::tree_builder_simulator::{text_mode_after_start_tag, Namespace, TreeBuilderSimulator};

fn start(name: &str, self_closing: bool) -> LexUnit {
    LexUnit::new(Vec::new(), Some(Token::new_start_tag(name.as_bytes().to_vec(), Vec::new(), self_closing)), TextParsingMode::Data)
}

fn end(name: &str) -> LexUnit {
    LexUnit::new(Vec::new(), Some(Token::new_end_tag(name.as_bytes().to_vec())), TextParsingMode::Data)
}

#[test]
fn starts_in_html() {
    let s = TreeBuilderSimulator::new();
    assert_eq!(s.current_namespace(), Namespace::Html);
    assert!(!s.is_in_foreign_content());
}

#[test]
fn svg_and_math_open_foreign_content() {
    let mut s = TreeBuilderSimulator::new();
    s.observe(&start("svg", false));
    assert_eq!(s.current_namespace(), Namespace::Svg);
    s.observe(&start("g", false));
    s.observe(&start("math", false));
    assert_eq!(s.current_namespace(), Namespace::MathMl);
    s.observe(&end("math"));
    s.observe(&end("g"));
    assert_eq!(s.current_namespace(), Namespace::Svg);
    s.observe(&end("svg"));
    assert!(!s.is_in_foreign_content());
}

#[test]
fn self_closing_opens_nothing() {
    let mut s = TreeBuilderSimulator::new();
    s.observe(&start("svg", true));
    assert_eq!(s.current_namespace(), Namespace::Html);
    s.observe(&start("svg", false));
    s.observe(&start("path", true));
    s.observe(&end("svg"));
    assert_eq!(s.current_namespace(), Namespace::Html);
}

#[test]
fn unmatched_end_tag_is_ignored() {
    let mut s = TreeBuilderSimulator::new();
    s.observe(&start("svg", false));
    s.observe(&start("g", false));
    s.observe(&end("svg"));
    assert_eq!(s.current_namespace(), Namespace::Svg);
    s.observe(&end("div"));
    assert_eq!(s.current_namespace(), Namespace::Svg);
}

#[test]
fn html_elements_are_not_tracked() {
    let mut s = TreeBuilderSimulator::new();
    s.observe(&start("div", false));
    s.observe(&start("svg", false));
    s.observe(&end("div"));
    assert_eq!(s.current_namespace(), Namespace::Svg);
}

#[test]
fn text_modes_after_start_tags() {
    let html = Namespace::Html;
    assert_eq!(text_mode_after_start_tag(Some(TagNameHash::Script.value()), html), TextParsingMode::ScriptData);
    for n in ["style", "xmp", "iframe", "noembed", "noframes"].iter() {
        assert_eq!(text_mode_after_start_tag(get_tag_name_hash(n), html), TextParsingMode::RawText);
    }
    assert_eq!(text_mode_after_start_tag(get_tag_name_hash("textarea"), html), TextParsingMode::RcData);
    assert_eq!(text_mode_after_start_tag(get_tag_name_hash("title"), html), TextParsingMode::RcData);
    assert_eq!(text_mode_after_start_tag(get_tag_name_hash("plaintext"), html), TextParsingMode::PlainText);
    assert_eq!(text_mode_after_start_tag(get_tag_name_hash("div"), html), TextParsingMode::Data);
    assert_eq!(text_mode_after_start_tag(None, html), TextParsingMode::Data);
    assert_eq!(text_mode_after_start_tag(get_tag_name_hash("title"), Namespace::Svg), TextParsingMode::Data);
    assert_eq!(text_mode_after_start_tag(get_tag_name_hash("script"), Namespace::MathMl), TextParsingMode::Data);
}
