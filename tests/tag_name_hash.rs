use lol_html::tag_name_hash::{get_tag_name_hash, update_tag_name_hash, TagNameHash};

#[test]
fn known_constants_match_the_encoder() {
    let known = [
        (TagNameHash::Svg, "svg"),
        (TagNameHash::Math, "math"),
        (TagNameHash::H1, "h1"),
        (TagNameHash::Script, "script"),
        (TagNameHash::Style, "style"),
        (TagNameHash::Title, "title"),
        (TagNameHash::Textarea, "textarea"),
        (TagNameHash::Xmp, "xmp"),
        (TagNameHash::Iframe, "iframe"),
        (TagNameHash::Noembed, "noembed"),
        (TagNameHash::Noframes, "noframes"),
        (TagNameHash::Plaintext, "plaintext"),
    ];
    for (hash, name) in known.iter() {
        assert_eq!(get_tag_name_hash(name), Some(hash.value()));
    }
}

#[test]
fn well_known_constant_values() {
    assert_eq!(TagNameHash::Svg.value(), 25452);
    assert_eq!(TagNameHash::Math.value(), 596781);
    assert_eq!(TagNameHash::H1.value(), 416);
}

#[test]
fn single_symbols() {
    assert_eq!(update_tag_name_hash(Some(0), b'a'), Some(6));
    assert_eq!(update_tag_name_hash(Some(0), b'z'), Some(31));
    assert_eq!(update_tag_name_hash(Some(0), b'1'), Some(0));
    assert_eq!(update_tag_name_hash(Some(0), b'6'), Some(5));
    assert_eq!(update_tag_name_hash(Some(1), b'b'), Some(32 + 7));
}

#[test]
fn invalid_stays_invalid() {
    assert_eq!(update_tag_name_hash(None, b'a'), None);
    assert_eq!(update_tag_name_hash(Some(6), b'-'), None);
    assert_eq!(update_tag_name_hash(Some(6), b'7'), None);
    assert_eq!(get_tag_name_hash("font-face"), None);
    assert_eq!(get_tag_name_hash("h7"), None);
}

#[test]
fn case_is_folded() {
    assert_eq!(get_tag_name_hash("SVG"), get_tag_name_hash("svg"));
    assert_eq!(get_tag_name_hash("ScRiPt"), Some(TagNameHash::Script.value()));
}

#[test]
fn empty_name_is_zero() {
    assert_eq!(get_tag_name_hash(""), Some(0));
}

#[test]
fn distinct_names_get_distinct_codes() {
    let names = ["a", "aa", "aaa", "b", "h1", "h11", "h6", "div", "dir", "span", "zzzzzzzzzzzz"];
    for (i, a) in names.iter().enumerate() {
        for (j, b) in names.iter().enumerate() {
            let ha = get_tag_name_hash(a);
            assert!(ha.is_some());
            if i != j {
                assert_ne!(ha, get_tag_name_hash(b));
            }
        }
    }
}

#[test]
fn leading_digit_collides() {
    assert_eq!(get_tag_name_hash("1a"), get_tag_name_hash("a"));
}

#[test]
fn twelve_symbols_fit_and_thirteen_may_not() {
    assert!(get_tag_name_hash("zzzzzzzzzzzz").is_some());
    assert_eq!(get_tag_name_hash("zzzzzzzzzzzzz"), None);
    assert_eq!(get_tag_name_hash("zzzzzzzzzzzzzz"), None);
}

#[test]
fn non_ascii_is_unencodable() {
    assert_eq!(get_tag_name_hash("dív"), None);
}

#[test]
fn names_starting_with_other_digits_are_distinct() {
    assert!(get_tag_name_hash("2a").is_some());
    assert_ne!(get_tag_name_hash("2a"), get_tag_name_hash("a"));
    assert_ne!(get_tag_name_hash("2"), get_tag_name_hash(""));
    assert_eq!(get_tag_name_hash("1"), get_tag_name_hash(""));
}

#[test]
fn thirteen_symbols_fit_when_the_first_is_small() {
    assert!(get_tag_name_hash("jzzzzzzzzzzzz").is_some());
    assert!(get_tag_name_hash("6zzzzzzzzzzzz").is_some());
    assert_eq!(get_tag_name_hash("kzzzzzzzzzzzz"), None);
}
