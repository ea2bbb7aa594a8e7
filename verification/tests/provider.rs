use blabla::cli::init::{MARKER_END, MARKER_START, STARTER_CONTRACT, integrate};
use blabla::provider::format::{decode, encode};
use blabla::provider::model::Widget;
use blabla::provider::store::{FILE_NAME, Store};

fn widget(id: i64, text: &str) -> Widget {
    Widget { id, text: text.to_owned() }
}

#[test]
fn widgets_encode_as_a_json_array() {
    let text = encode(&[widget(1, "a"), widget(-2, "b\"c")]);
    assert_eq!(text, "[{\"id\":1,\"text\":\"a\"},{\"id\":-2,\"text\":\"b\\\"c\"}]");
    assert_eq!(encode(&[]), "[]");
}

#[test]
fn decoding_reads_back_what_encoding_wrote_for_plain_texts() {
    let widgets = vec![widget(7, "first"), widget(-8, "second one")];
    let back = decode(&encode(&widgets));
    assert_eq!(back.len(), 2);
    assert_eq!((back[0].id, back[0].text.as_str()), (7, "first"));
    assert_eq!((back[1].id, back[1].text.as_str()), (-8, "second one"));
}

#[test]
fn decoding_passes_over_rows_without_an_id_or_a_text() {
    assert!(decode("[]").is_empty());
    assert!(decode("nothing here").is_empty());
    let some = decode("[{\"id\": 3 ,\"text\":\"x\"},{\"id\":\"no\",\"text\":\"y\"},{\"text\":\"z\"}]");
    assert_eq!(some.len(), 1);
    assert_eq!((some[0].id, some[0].text.as_str()), (3, "x"));
    let big = decode("[{\"id\":9223372036854775808,\"text\":\"x\"},{\"id\":-9223372036854775808,\"text\":\"y\"}]");
    assert_eq!(big.len(), 1);
    assert_eq!(big[0].id, i64::MIN);
}

#[test]
fn the_store_starts_empty_and_names_its_file() {
    let store = Store { path: FILE_NAME.to_owned() };
    assert!(store.load().is_empty());
    assert_eq!(Widget::file_name(), "widget.json");
}

fn block(body: &str) -> String {
    format!("{MARKER_START}\n{body}{MARKER_END}\n")
}

#[test]
fn the_agents_block_is_appended_with_a_separating_blank_line() {
    let b = block("use blabla\n");
    assert_eq!(integrate("", &b, "AGENTS.md").unwrap(), (b.clone(), "append"));
    assert_eq!(integrate("intro\n", &b, "AGENTS.md").unwrap(), (format!("intro\n\n{b}"), "append"));
    assert_eq!(integrate("intro", &b, "AGENTS.md").unwrap(), (format!("intro\n\n{b}"), "append"));
    assert_eq!(integrate("intro\n\n", &b, "AGENTS.md").unwrap(), (format!("intro\n\n{b}"), "append"));
}

#[test]
fn the_agents_block_is_replaced_between_its_markers_or_left_alone() {
    let old = format!("head\n{}tail\n", block("old words\n"));
    let new = block("new words\n");
    let (text, action) = integrate(&old, &new, "AGENTS.md").unwrap();
    assert_eq!(action, "update");
    assert_eq!(text, format!("head\n{}tail\n", block("new words\n")));
    let (same, action) = integrate(&text, &new, "AGENTS.md").unwrap();
    assert_eq!(action, "unchanged");
    assert_eq!(same, text);
}

#[test]
fn unmatched_or_reversed_markers_are_refused() {
    let b = block("x\n");
    let reversed = format!("{MARKER_END}\n{MARKER_START}\n");
    assert_eq!(
        integrate(&reversed, &b, "AGENTS.md").unwrap_err(),
        "AGENTS.md has its BlaBla end marker before the start marker; repair it by hand"
    );
    let doubled = format!("{MARKER_START}\n{MARKER_START}\n{MARKER_END}\n");
    assert_eq!(
        integrate(&doubled, &b, "AGENTS.md").unwrap_err(),
        "AGENTS.md has an unmatched BlaBla marker (<!-- blabla:start --> x2, <!-- blabla:end --> x1); repair it by hand"
    );
    assert!(STARTER_CONTRACT.starts_with("type Item"));
}
