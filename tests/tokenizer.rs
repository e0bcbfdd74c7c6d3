use lol_html::tag_name_hash::{get_tag_name_hash, TagNameHash};
use lol_html::token::{LexUnit, TextParsingMode, Token};
use lol_html::tokenizer::{Tokenizer, TokenizerError};
use lol_html::tree_builder_simulator::Namespace;

fn run_chunks(chunks: &[&[u8]], mode: TextParsingMode, last: Option<u64>) -> Vec<LexUnit> {
    let mut t = Tokenizer::new(1024);
    t.set_state(mode);
    t.set_last_start_tag_hash(last);
    let mut out = Vec::new();
    for c in chunks {
        t.write(c, &mut out).unwrap();
    }
    t.end(&mut out);
    out
}

fn run(input: &str) -> Vec<LexUnit> {
    run_chunks(&[input.as_bytes()], TextParsingMode::Data, None)
}

fn text(b: &[u8]) -> String {
    String::from_utf8(b.to_vec()).unwrap()
}

fn describe(t: &Token) -> String {
    match t {
        Token::Character(c) => format!("Character({})", text(c.text())),
        Token::Comment(c) => format!("Comment({})", text(c.text())),
        Token::StartTag(s) => {
            let attrs: Vec<String> = s
                .attributes()
                .iter()
                .map(|a| format!("{}={}", text(a.name()), text(a.value())))
                .collect();
            format!("StartTag({}, [{}], {})", text(s.name()), attrs.join(" "), s.self_closing())
        }
        Token::EndTag(e) => format!("EndTag({})", text(e.name())),
        Token::Doctype(d) => format!(
            "Doctype({:?}, {:?}, {:?}, {})",
            d.name().map(|b| text(b)),
            d.public_id().map(|b| text(b)),
            d.system_id().map(|b| text(b)),
            d.force_quirks()
        ),
        Token::Eof => "Eof".to_string(),
    }
}

fn tokens(units: &[LexUnit]) -> Vec<String> {
    units.iter().filter_map(|u| u.token().map(describe)).collect()
}

fn raw(units: &[LexUnit]) -> Vec<u8> {
    units.iter().flat_map(|u| u.raw().clone()).collect()
}

#[test]
fn heading_scenario() {
    assert_eq!(
        tokens(&run("<h1>hi</h1>")),
        vec!["StartTag(h1, [], false)", "Character(hi)", "EndTag(h1)", "Eof"]
    );
}

#[test]
fn title_outside_svg_is_rcdata() {
    let units = run("<title>a<b>x</title>");
    assert_eq!(
        tokens(&units),
        vec!["StartTag(title, [], false)", "Character(a<b>x)", "EndTag(title)", "Eof"]
    );
    assert_eq!(units[1].parsing_mode(), TextParsingMode::RcData);
}

#[test]
fn title_inside_svg_stays_data() {
    let units = run("<svg><title>x</title></svg>");
    assert_eq!(
        tokens(&units),
        vec![
            "StartTag(svg, [], false)",
            "StartTag(title, [], false)",
            "Character(x)",
            "EndTag(title)",
            "EndTag(svg)",
            "Eof"
        ]
    );
    assert_eq!(units[2].parsing_mode(), TextParsingMode::Data);
    let tagged = tokens(&run("<svg><title><b>x</b></title></svg>"));
    assert_eq!(tagged[2], "StartTag(b, [], false)");
}

#[test]
fn doctype_scenario() {
    assert_eq!(
        tokens(&run("<!DOCTYPE html>")),
        vec!["Doctype(Some(\"html\"), None, None, false)", "Eof"]
    );
}

#[test]
fn doctype_with_identifiers() {
    assert_eq!(
        tokens(&run("<!doctype HTML PUBLIC \"-//W3C//DTD\" 'x.dtd'>")),
        vec!["Doctype(Some(\"html\"), Some(\"-//W3C//DTD\"), Some(\"x.dtd\"), false)", "Eof"]
    );
    assert_eq!(
        tokens(&run("<!DOCTYPE>")),
        vec!["Doctype(None, None, None, true)", "Eof"]
    );
    assert_eq!(
        tokens(&run("<!DOCTYPE html")),
        vec!["Doctype(Some(\"html\"), None, None, true)", "Eof"]
    );
}

#[test]
fn script_scenario() {
    let last = Some(TagNameHash::Script.value());
    let units = run_chunks(&[b"a<b>c</script>"], TextParsingMode::ScriptData, last);
    assert_eq!(tokens(&units), vec!["Character(a<b>c)", "EndTag(script)", "Eof"]);
}

#[test]
fn script_opened_by_start_tag() {
    assert_eq!(
        tokens(&run("<script>a<b>c</script>d")),
        vec!["StartTag(script, [], false)", "Character(a<b>c)", "EndTag(script)", "Character(d)", "Eof"]
    );
}

#[test]
fn unmatched_end_tag_in_raw_text_is_text() {
    let last = get_tag_name_hash("style");
    let units = run_chunks(&[b"x</b>y</style>"], TextParsingMode::RawText, last);
    assert_eq!(tokens(&units), vec!["Character(x</b>y)", "EndTag(style)", "Eof"]);
}

#[test]
fn split_tag_name_scenario() {
    let split = run_chunks(&[b"<di", b"v>"], TextParsingMode::Data, None);
    let whole = run("<div>");
    assert_eq!(tokens(&split), tokens(&whole));
    assert_eq!(tokens(&whole), vec!["StartTag(div, [], false)", "Eof"]);
}

#[test]
fn every_split_gives_the_same_tokens() {
    let input = b"<!DOCTYPE html><p class=\"a b\" id=x>t&amp;<!-- c --></p><script>1<2</script><svg><path/></svg>";
    let whole = tokens(&run_chunks(&[input], TextParsingMode::Data, None));
    for i in 0..=input.len() {
        let split = run_chunks(&[&input[..i], &input[i..]], TextParsingMode::Data, None);
        assert_eq!(tokens(&split), whole, "split at {}", i);
    }
    let bytes: Vec<&[u8]> = input.chunks(1).collect();
    assert_eq!(tokens(&run_chunks(&bytes, TextParsingMode::Data, None)), whole);
}

#[test]
fn raw_spans_reproduce_input() {
    let inputs: [&[u8]; 5] = [
        b"<h1>hi</h1>",
        b"<a href='x'>y</a><!--z",
        b"<p",
        b"</>< x <?pi?></ y>",
        b"<![CDATA[x]]>",
    ];
    for input in inputs.iter() {
        for i in 0..=input.len() {
            let units = run_chunks(&[&input[..i], &input[i..]], TextParsingMode::Data, None);
            assert_eq!(raw(&units), input.to_vec());
        }
    }
}

#[test]
fn replaying_a_raw_span_gives_the_same_token() {
    let units = run("<!DOCTYPE html><p a=1 b>x<!--c--></p>");
    for u in units.iter() {
        if let Some(tok) = u.token() {
            if matches!(tok, Token::Eof) {
                continue;
            }
            let again = run_chunks(&[u.raw()], u.parsing_mode(), None);
            assert_eq!(tokens(&again), vec![describe(tok), "Eof".to_string()]);
        }
    }
}

#[test]
fn attributes_and_self_closing() {
    assert_eq!(
        tokens(&run("<img src=\"a.png\" alt='x y' hidden data-x=1 A=2 />")),
        vec!["StartTag(img, [src=a.png alt=x y hidden= data-x=1 a=2], true)", "Eof"]
    );
    assert_eq!(
        tokens(&run("<br a=2/>")),
        vec!["StartTag(br, [a=2/], false)", "Eof"]
    );
    assert_eq!(
        tokens(&run("<a x=1 x=2>")),
        vec!["StartTag(a, [x=1 x=2], false)", "Eof"]
    );
}

#[test]
fn comments_and_bogus_comments() {
    assert_eq!(tokens(&run("<!-- hi -->")), vec!["Comment( hi )", "Eof"]);
    assert_eq!(tokens(&run("<!x>")), vec!["Comment(x)", "Eof"]);
    assert_eq!(tokens(&run("<?x?>")), vec!["Comment(?x?)", "Eof"]);
    assert_eq!(tokens(&run("</1>")), vec!["Comment(1)", "Eof"]);
    assert_eq!(tokens(&run("<!--open")), vec!["Comment(open)", "Eof"]);
}

#[test]
fn stray_less_than_is_text() {
    assert_eq!(
        tokens(&run("a < b")),
        vec!["Character(a )", "Character(<)", "Character( b)", "Eof"]
    );
    assert_eq!(tokens(&run("<")), vec!["Character(<)", "Eof"]);
}

#[test]
fn unfinished_tag_at_end_has_no_token() {
    let units = run("x<div class=");
    assert_eq!(tokens(&units), vec!["Character(x)", "Eof"]);
    assert_eq!(raw(&units), b"x<div class=".to_vec());
}

#[test]
fn plaintext_takes_everything() {
    assert_eq!(
        tokens(&run("<plaintext></plaintext><b>")),
        vec!["StartTag(plaintext, [], false)", "Character(</plaintext><b>)", "Eof"]
    );
}

#[test]
fn cdata_section_returns_to_data() {
    let units = run_chunks(&[b"a<b]]><i>"], TextParsingMode::CDataSection, None);
    assert_eq!(tokens(&units), vec!["Character(a<b)", "StartTag(i, [], false)", "Eof"]);
}

#[test]
fn exactly_one_eof_at_the_end() {
    let units = run("<p>x</p>");
    let eofs = units.iter().filter(|u| matches!(u.token(), Some(Token::Eof))).count();
    assert_eq!(eofs, 1);
    assert!(matches!(units.last().unwrap().token(), Some(Token::Eof)));
    assert!(units.last().unwrap().raw().is_empty());
}

#[test]
fn capacity_holds_a_token_of_that_size() {
    let mut t = Tokenizer::new(8);
    let mut out = Vec::new();
    assert_eq!(t.write(b"<abcdef", &mut out), Ok(()));
    assert_eq!(t.write(b">", &mut out), Ok(()));
    assert_eq!(tokens(&out), vec!["StartTag(abcdef, [], false)"]);
}

#[test]
fn capacity_exceeded_by_one_byte() {
    let mut t = Tokenizer::new(8);
    let mut out = Vec::new();
    assert_eq!(t.write(b"<abcdef", &mut out), Ok(()));
    assert_eq!(t.write(b"gh", &mut out), Err(TokenizerError::CapacityExceeded));
    assert!(out.is_empty());
}

#[test]
fn capacity_is_per_unit_not_per_document() {
    let mut t = Tokenizer::new(4);
    let mut out = Vec::new();
    for _ in 0..100 {
        assert_eq!(t.write(b"<b>", &mut out), Ok(()));
    }
    assert_eq!(out.len(), 100);
    assert_eq!(t.capacity(), 4);
}

#[test]
fn mode_follows_start_tags() {
    let mut t = Tokenizer::new(64);
    let mut out = Vec::new();
    t.write(b"<textarea>", &mut out).unwrap();
    assert_eq!(t.mode(), TextParsingMode::RcData);
    t.write(b"<p></textarea>", &mut out).unwrap();
    assert_eq!(t.mode(), TextParsingMode::Data);
    assert_eq!(tokens(&out), vec!["StartTag(textarea, [], false)", "Character(<p>)", "EndTag(textarea)"]);
}

#[test]
fn tokenizer_feeds_its_simulator() {
    let mut t = Tokenizer::new(64);
    let mut out = Vec::new();
    t.write(b"<math><mi>x", &mut out).unwrap();
    assert_eq!(t.simulator().current_namespace(), Namespace::MathMl);
    t.write(b"</mi></math><p>", &mut out).unwrap();
    assert_eq!(t.simulator().current_namespace(), Namespace::Html);
}

#[test]
fn units_carry_the_mode_they_were_read_in() {
    let units = run("<style>p{}</style>x");
    let modes: Vec<TextParsingMode> = units.iter().map(|u| u.parsing_mode()).collect();
    assert_eq!(
        modes,
        vec![
            TextParsingMode::Data,
            TextParsingMode::RawText,
            TextParsingMode::RawText,
            TextParsingMode::Data,
            TextParsingMode::Data
        ]
    );
}

#[test]
fn capacity_failure_is_final() {
    let mut t = Tokenizer::new(4);
    let mut out = Vec::new();
    assert_eq!(t.write(b"<abcdef", &mut out), Err(TokenizerError::CapacityExceeded));
    assert_eq!(t.write(b">", &mut out), Err(TokenizerError::CapacityExceeded));
    assert!(out.is_empty());
}

#[test]
fn write_emits_every_complete_unit() {
    let mut t = Tokenizer::new(2048);
    let mut out = Vec::new();
    t.write(b"<h1>hi</h1>", &mut out).unwrap();
    assert_eq!(tokens(&out), vec!["StartTag(h1, [], false)", "Character(hi)", "EndTag(h1)"]);
}

#[test]
fn element_without_code_does_not_hide_svg_end() {
    assert_eq!(
        tokens(&run("<svg><linearGradient></linearGradient></svg><title>a<b></title>")),
        vec![
            "StartTag(svg, [], false)",
            "StartTag(lineargradient, [], false)",
            "EndTag(lineargradient)",
            "EndTag(svg)",
            "StartTag(title, [], false)",
            "Character(a<b>)",
            "EndTag(title)",
            "Eof"
        ]
    );
}
