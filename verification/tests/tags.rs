use tags_server::tags::Tag;
use tags_server::tags::TagError;

fn components_of(t: &Tag) -> Vec<String> {
    t.components().clone()
}

#[test]
fn test() {
    let t = "a.hjeiwao..b,.c".parse::<Tag>().unwrap();
    assert_eq!(t.render(), "a.hjeiwao.b,.c");
}

#[test]
fn parse_simple_components_and_render() {
    let t = Tag::parse("a.b.c").unwrap();
    assert_eq!(components_of(&t), vec!["a", "b", "c"]);
    assert_eq!(t.render(), "a.b.c");
}

#[test]
fn parse_trims_whitespace_per_component() {
    let t = Tag::parse("  a . b  ").unwrap();
    assert_eq!(components_of(&t), vec!["a", "b"]);
}

#[test]
fn parse_collapses_empty_interior_pieces() {
    let t = Tag::parse("a..b").unwrap();
    assert_eq!(components_of(&t), vec!["a", "b"]);
    assert_eq!(t.render(), "a.b");
}

#[test]
fn parse_empty_input_is_empty_tag() {
    assert!(matches!(Tag::parse(""), Err(TagError::EmptyTag)));
}

#[test]
fn parse_only_separators_is_empty_tag() {
    assert!(matches!(Tag::parse("...."), Err(TagError::EmptyTag)));
    assert!(matches!(Tag::parse(" . . "), Err(TagError::EmptyTag)));
}

#[test]
fn parse_drops_piece_that_trims_to_nothing() {
    let t = Tag::parse("a. .b").unwrap();
    assert_eq!(components_of(&t), vec!["a", "b"]);
}

#[test]
fn parse_rejects_interior_space() {
    match Tag::parse("a.b c") {
        Err(TagError::InvalidComponent { component, offending }) => {
            assert_eq!(component, "b c");
            assert_eq!(offending, ' ');
        }
        other => panic!("expected InvalidComponent, got {:?}", other),
    }
}

#[test]
fn parse_rejects_control_character() {
    match Tag::parse("a.b\u{7}") {
        Err(TagError::InvalidComponent { component, offending }) => {
            assert_eq!(component, "b\u{7}");
            assert_eq!(offending, '\u{7}');
        }
        other => panic!("expected InvalidComponent, got {:?}", other),
    }
}

#[test]
fn parse_rejects_non_ascii() {
    match Tag::parse("caf\u{e9}") {
        Err(TagError::InvalidComponent { component, offending }) => {
            assert_eq!(component, "caf\u{e9}");
            assert_eq!(offending, '\u{e9}');
        }
        other => panic!("expected InvalidComponent, got {:?}", other),
    }
}

#[test]
fn parse_names_first_bad_piece_only() {
    match Tag::parse("ok.a b.c d") {
        Err(TagError::InvalidComponent { component, .. }) => {
            assert_eq!(component, "a b");
        }
        other => panic!("expected InvalidComponent, got {:?}", other),
    }
}

#[test]
fn parse_trims_unicode_whitespace() {
    let t = Tag::parse("\u{a0}a\u{a0}.\u{2003}b").unwrap();
    assert_eq!(components_of(&t), vec!["a", "b"]);
}

#[test]
fn parse_single_component() {
    let t = Tag::parse("x").unwrap();
    assert_eq!(components_of(&t), vec!["x"]);
    assert_eq!(t.render(), "x");
}

#[test]
fn roundtrip_parse_of_render() {
    for text in ["a.b.c", "  a . b  ", "a..b", "x", "a,b.c-d._e"] {
        let t = Tag::parse(text).unwrap();
        let again = Tag::parse(&t.render()).unwrap();
        assert_eq!(components_of(&again), components_of(&t));
    }
}

#[test]
fn separator_is_a_dot() {
    assert_eq!(Tag::SEP, ".");
}
