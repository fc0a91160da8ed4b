use live_server_lsp::text::{
    apply_edit, apply_edits_in_order, char_index_of_position, get_byte_index_from_position,
    index_of_first_char_in_line, Position, TextEdit, TextRange,
};

fn pos(line: u32, character: u32) -> Position {
    Position { line, character }
}

fn ranged(a: Position, b: Position, text: &str) -> TextEdit {
    TextEdit { range: Some(TextRange { start: a, end: b }), text: text.to_string() }
}

#[test]
fn position_on_second_line_maps_to_its_byte() {
    assert_eq!(get_byte_index_from_position("ab\ncd", pos(1, 1)), 4);
}

#[test]
fn position_at_document_end_is_not_clamped() {
    assert_eq!(get_byte_index_from_position("ab\ncd", pos(0, 5)), 5);
}

#[test]
fn position_past_document_end_clamps_to_last_scalar() {
    assert_eq!(get_byte_index_from_position("ab\ncd", pos(0, 6)), 4);
    assert_eq!(get_byte_index_from_position("ab\ncd", pos(1, 9)), 4);
}

#[test]
fn position_on_missing_line_clamps() {
    assert_eq!(get_byte_index_from_position("ab\ncd", pos(7, 0)), 5);
    assert_eq!(get_byte_index_from_position("ab\ncd", pos(7, 1)), 4);
}

#[test]
fn position_in_empty_text_is_zero() {
    assert_eq!(get_byte_index_from_position("", pos(0, 0)), 0);
    assert_eq!(get_byte_index_from_position("", pos(0, 3)), 0);
}

#[test]
fn characters_count_scalars_not_bytes() {
    // 'é' takes two bytes, '€' three.
    assert_eq!(get_byte_index_from_position("héllo", pos(0, 2)), 3);
    assert_eq!(get_byte_index_from_position("a\n€x", pos(1, 1)), 5);
    assert_eq!(char_index_of_position("a\n€x", &pos(1, 1)), 3);
}

#[test]
fn line_starts() {
    assert_eq!(index_of_first_char_in_line("ab\ncd", 0), Some(0));
    assert_eq!(index_of_first_char_in_line("ab\ncd", 1), Some(3));
    assert_eq!(index_of_first_char_in_line("ab\ncd", 2), None);
    assert_eq!(index_of_first_char_in_line("ab\n", 1), Some(3));
    assert_eq!(index_of_first_char_in_line("é\né\n", 2), Some(6));
    assert_eq!(index_of_first_char_in_line("", 0), Some(0));
    assert_eq!(index_of_first_char_in_line("", 1), None);
}

#[test]
fn range_edit_replaces_whole_line() {
    let s = "hello".to_string();
    let r = apply_edit(&s, &ranged(pos(0, 0), pos(0, 5), "bye"));
    assert_eq!(r, "bye");
}

#[test]
fn range_edit_in_middle() {
    let s = "ab\ncd".to_string();
    let r = apply_edit(&s, &ranged(pos(0, 1), pos(1, 1), "XY"));
    assert_eq!(r, "aXYd");
}

#[test]
fn reversed_range_inserts_at_start() {
    let s = "abc".to_string();
    let r = apply_edit(&s, &ranged(pos(0, 2), pos(0, 1), "Z"));
    assert_eq!(r, "abZc");
}

#[test]
fn full_replacement_edit() {
    let s = "old".to_string();
    let r = apply_edit(&s, &TextEdit { range: None, text: "new".to_string() });
    assert_eq!(r, "new");
}

#[test]
fn edits_apply_in_order() {
    let s = "hello".to_string();
    let edits = vec![
        ranged(pos(0, 0), pos(0, 1), "J"),
        ranged(pos(0, 5), pos(0, 5), "!"),
        ranged(pos(0, 9), pos(0, 9), "\nok"),
    ];
    // The last insertion point lies past the end and clamps to the last scalar.
    assert_eq!(apply_edits_in_order(&s, &edits), "Jello\nok!");
}

#[test]
fn replaying_after_full_replacement_gives_same_text() {
    let replacement = TextEdit { range: None, text: "line one\nline two".to_string() };
    let edits = vec![
        ranged(pos(1, 5), pos(1, 8), "2"),
        ranged(pos(0, 0), pos(0, 4), "LINE"),
        ranged(pos(1, 0), pos(1, 0), ">"),
    ];
    let mut first = vec![replacement.clone()];
    first.extend(edits.iter().cloned());
    let a = apply_edits_in_order(&"anything".to_string(), &first);
    let b = apply_edits_in_order(&"something else".to_string(), &first);
    let c = apply_edits_in_order(&replacement.text, &edits);
    assert_eq!(a, "LINE one\n>line 2");
    assert_eq!(a, b);
    assert_eq!(a, c);
}
