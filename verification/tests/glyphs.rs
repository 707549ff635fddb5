use renderer::render::msdf::glyphs::GlyphLookup;
use renderer::render::msdf::sprite_renderer::SpriteHandle;

fn names(entries: &[(&str, usize)]) -> Vec<(String, usize)> {
    entries.iter().map(|(n, i)| (String::from(*n), *i)).collect()
}

#[test]
fn ascii_glyphs_are_found_by_their_character() {
    let lookup = GlyphLookup::build(3, 99, &names(&[("a", 0), ("b", 1), ("Z", 2)]));
    assert_eq!(lookup.get('a'), Some(SpriteHandle::new(3, 0)));
    assert_eq!(lookup.get('Z'), Some(SpriteHandle::new(3, 2)));
    assert_eq!(lookup.get('c'), Some(SpriteHandle::new(3, 99)));
    assert_eq!(lookup.get(' '), Some(SpriteHandle::new(3, 99)));
}

#[test]
fn other_glyphs_are_found_by_their_first_character() {
    let lookup = GlyphLookup::build(1, 99, &names(&[("é", 4), ("λx", 5), ("a", 6)]));
    assert_eq!(lookup.get('é'), Some(SpriteHandle::new(1, 4)));
    assert_eq!(lookup.get('λ'), Some(SpriteHandle::new(1, 5)));
    assert_eq!(lookup.get('ü'), None);
}

#[test]
fn an_ascii_glyph_needs_a_name_of_one_character() {
    let lookup = GlyphLookup::build(0, 99, &names(&[("ab", 7)]));
    assert_eq!(lookup.get('a'), Some(SpriteHandle::new(0, 99)));
}

#[test]
fn the_last_glyph_of_a_name_wins() {
    let lookup = GlyphLookup::build(0, 99, &names(&[("a", 1), ("é", 2), ("a", 3), ("éé", 4)]));
    assert_eq!(lookup.get('a'), Some(SpriteHandle::new(0, 3)));
    assert_eq!(lookup.get('é'), Some(SpriteHandle::new(0, 4)));
}

#[test]
fn a_font_without_glyphs_draws_blanks_for_ascii_only() {
    let lookup = GlyphLookup::build(2, 0, &[]);
    assert_eq!(lookup.get('x'), Some(SpriteHandle::new(2, 0)));
    assert_eq!(lookup.get('\u{7f}'), Some(SpriteHandle::new(2, 0)));
    assert_eq!(lookup.get('\u{80}'), None);
}
