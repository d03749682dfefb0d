use bots_core::worker::recipients::{clean_recipients, load_recipients, RecipientsFault};

fn list(items: &[&str]) -> Vec<String> {
    items.iter().map(|s| s.to_string()).collect()
}

fn fault_or_list(content: &str) -> Result<Vec<String>, RecipientsFault> {
    load_recipients(content).map_err(|e| e.fault)
}

#[test]
fn both_forms_of_the_document_are_read() {
    assert_eq!(
        fault_or_list(r#"["addr1", " addr2\n", "", "  "]"#),
        Ok(list(&["addr1", "addr2"]))
    );
    assert_eq!(
        fault_or_list(r#"{ "recipients": ["a"], "other": 1 }"#),
        Ok(list(&["a"]))
    );
    assert_eq!(fault_or_list(r#"["éx", "x", "x"]"#), Ok(list(&["éx", "x", "x"])));
}

#[test]
fn faulty_documents_are_told_apart() {
    assert_eq!(fault_or_list("not json"), Err(RecipientsFault::NotJson));
    assert_eq!(fault_or_list(r#"["a"] x"#), Err(RecipientsFault::NotJson));
    assert_eq!(fault_or_list(r#"{"recipients": 5}"#), Err(RecipientsFault::NoList));
    assert_eq!(fault_or_list(r#"{"other": []}"#), Err(RecipientsFault::NoList));
    assert_eq!(fault_or_list(r#""a""#), Err(RecipientsFault::NoList));
    assert_eq!(fault_or_list("null"), Err(RecipientsFault::NoList));
    assert_eq!(fault_or_list(r#"["a", 5]"#), Err(RecipientsFault::NotText));
    assert_eq!(fault_or_list(r#"["", null]"#), Err(RecipientsFault::NotText));
    assert_eq!(fault_or_list("[]"), Err(RecipientsFault::Empty));
    assert_eq!(fault_or_list(r#"[" ", "\t"]"#), Err(RecipientsFault::Empty));
}

#[test]
fn entries_are_trimmed_and_blank_ones_dropped() {
    assert_eq!(
        clean_recipients(&[
            Some(" a ".to_string()),
            Some("\u{3000}".to_string()),
            Some("b c".to_string())
        ]),
        Ok(list(&["a", "b c"]))
    );
    assert_eq!(
        clean_recipients(&[Some("a".to_string()), None]),
        Err(RecipientsFault::NotText)
    );
    assert_eq!(clean_recipients(&[]), Err(RecipientsFault::Empty));
}

#[test]
fn the_cause_is_what_the_reader_said() {
    for text in ["not json", "", "[1,", "[\"a\"] x"] {
        let said = serde_json::from_str::<serde_json::Value>(text).unwrap_err();
        assert_eq!(load_recipients(text).unwrap_err().cause, said.to_string());
    }
    assert_eq!(load_recipients("[]").unwrap_err().cause, "");
}
