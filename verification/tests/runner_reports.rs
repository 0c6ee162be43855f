use snaptest::Error;
use snaptest::Line;
use snaptest::Outcome;
use snaptest::Palette;
use snaptest::Store;
use snaptest::Style;
use snaptest::Test;

fn demo_builder() -> snaptest::Builder {
    Test::builder()
        .file("tests/demo.rs")
        .name("adds")
        .path("demo::tests")
        .uuid("tests/demo.rs:adds")
        .ret("u32")
}

#[test]
fn first_run_records_the_received_value() {
    let mut store = Store::new();
    let report = demo_builder()
        .run(&mut store, || Ok("7".to_string()))
        .expect("a complete builder with a working producer must run");
    assert!(report.outcome().was_successful());
    assert!(store.contains("tests/demo.rs:adds"));
    let golden = store.compare("tests/demo.rs:adds", |g: String| g);
    assert_eq!(golden, Some("7".to_string()));
}

#[test]
fn rerunning_a_deterministic_producer_passes_and_changes_nothing() {
    let mut store = Store::new();
    let first = demo_builder()
        .run(&mut store, || Ok("7".to_string()))
        .expect("first run must succeed");
    assert!(first.outcome().was_successful());
    let second = demo_builder()
        .run(&mut store, || Ok("7".to_string()))
        .expect("second run must succeed");
    assert!(second.outcome().was_successful());
    let golden = store.compare("tests/demo.rs:adds", |g: String| g);
    assert_eq!(golden, Some("7".to_string()));
}

#[test]
fn a_mismatch_reports_golden_and_received() {
    let mut store = Store::new();
    store.insert("tests/demo.rs:adds".to_string(), "A\nB\nC".to_string());
    let report = demo_builder()
        .run(&mut store, || Ok("A\nX\nC".to_string()))
        .expect("a mismatch is a reported outcome, not an error");
    assert!(!report.outcome().was_successful());
    match report.outcome() {
        Outcome::Failure(golden, received) => {
            assert_eq!(golden.as_str(), "A\nB\nC");
            assert_eq!(received.as_str(), "A\nX\nC");
        },
        Outcome::Success => panic!("differing values must fail"),
    }
    // The mismatch never rewrites the golden value.
    let golden = store.compare("tests/demo.rs:adds", |g: String| g);
    assert_eq!(golden, Some("A\nB\nC".to_string()));
}

#[test]
fn outcome_diff_explains_the_mismatch_in_order() {
    let outcome = Outcome::Failure("A\nB\nC".to_string(), "A\nX\nC".to_string());
    let expected = vec![
        Line::Equal("A".to_string()),
        Line::Changed("B".to_string(), "X".to_string()),
        Line::Equal("C".to_string()),
    ];
    assert_eq!(outcome.diff(), snaptest::Diff::Lines(expected));
    assert_eq!(Outcome::Success.diff(), snaptest::Diff::Same);
}

#[test]
fn a_missing_field_is_an_error_and_leaves_the_store_alone() {
    let mut store = Store::new();
    let result = Test::builder()
        .file("tests/demo.rs")
        .run(&mut store, || Ok("7".to_string()));
    match result {
        // The error names the first field, in required order, never set.
        Err(Error::MissingField(m)) => assert_eq!(m, "name is a required field"),
        _ => panic!("an incomplete builder must fail with a missing field"),
    }
    assert!(!store.contains("tests/demo.rs:adds"));
}

#[test]
fn the_missing_field_message_names_the_first_unset_field() {
    let mut store = Store::new();
    match Test::builder().run(&mut store, || Ok("7".to_string())) {
        Err(Error::MissingField(m)) => assert_eq!(m, "file is a required field"),
        _ => panic!("an empty builder must fail with a missing field"),
    }
    match Test::builder()
        .file("f")
        .name("n")
        .path("p")
        .uuid("u")
        .run(&mut store, || Ok("7".to_string()))
    {
        Err(Error::MissingField(m)) => assert_eq!(m, "ret is a required field"),
        _ => panic!("a builder without a return label must fail with a missing field"),
    }
}

#[test]
fn a_failing_producer_never_touches_the_store() {
    let mut store = Store::new();
    let result = demo_builder()
        .run(&mut store, || Err(Error::Producer("boom".to_string())));
    match result {
        Err(Error::Producer(m)) => assert_eq!(m, "boom"),
        _ => panic!("a producer error must surface unchanged"),
    }
    assert!(!store.contains("tests/demo.rs:adds"));
}

#[test]
fn distinct_fresh_keys_are_all_recorded_and_survive_a_round_trip() {
    let mut store = Store::new();
    let keys = ["a", "b", "c", "d", "e", "f", "g", "h"];
    for i in 0..keys.len() {
        let key = keys[i];
        let value = i.to_string();
        let report = Test::builder()
            .file("tests/demo.rs")
            .name(key)
            .path("demo::tests")
            .uuid(key)
            .ret("usize")
            .run(&mut store, move || Ok(value))
            .expect("recording a fresh key must succeed");
        assert!(report.outcome().was_successful());
    }
    let bytes = store.to_bytes();
    let reloaded = Store::from_bytes(&bytes).expect("decoding must succeed");
    for i in 0..keys.len() {
        let key = keys[i];
        assert!(reloaded.contains(key));
        let golden = reloaded.compare(key, |g: String| g);
        assert_eq!(golden, Some(i.to_string()));
    }
}

#[test]
fn test_metadata_accessors() {
    let test = Test {
        file: "tests/demo.rs".to_string(),
        name: "adds".to_string(),
        path: "demo::tests".to_string(),
        uuid: "tests/demo.rs:adds".to_string(),
        ret: "u32".to_string(),
    };
    assert_eq!(test.file(), "tests/demo.rs");
    assert_eq!(test.name(), "adds");
    assert_eq!(test.path(), "demo::tests");
    assert_eq!(test.uuid(), "tests/demo.rs:adds");
    assert_eq!(test.ret(), "u32");
    assert_eq!(test.basename(), "demo.rs");
    assert_eq!(test.dirname(), "tests");
}

#[test]
fn paths_without_a_directory_have_an_empty_dirname() {
    let test = Test {
        file: "demo.rs".to_string(),
        name: "n".to_string(),
        path: "p".to_string(),
        uuid: "u".to_string(),
        ret: "r".to_string(),
    };
    assert_eq!(test.basename(), "demo.rs");
    assert_eq!(test.dirname(), "");
}

#[test]
fn a_successful_report_renders_one_heading_line() {
    let mut store = Store::new();
    let report = demo_builder()
        .run(&mut store, || Ok("7".to_string()))
        .expect("first run must succeed");
    let text = report.render(&Palette::plain());
    assert_eq!(
        text,
        "\n\n\n    PASSED   demo::tests::adds (tests/demo.rs)\n\n\n"
    );
}

#[test]
fn a_failed_report_renders_the_unified_diff_block() {
    let mut store = Store::new();
    store.insert("tests/demo.rs:adds".to_string(), "A\nB\nC".to_string());
    let report = demo_builder()
        .run(&mut store, || Ok("A\nX\nC".to_string()))
        .expect("a mismatch is a reported outcome, not an error");
    let text = report.render(&Palette::plain());
    let expected = "\n\n\n    FAILED   demo::tests::adds (tests/demo.rs)\n\n  - Snapshot\n  + Received\n\n    fn adds() -> u32 {\n\n        A\n  -     B\n  +     X\n        C\n\n    }\n\n\n";
    assert_eq!(text, expected);
    // The removed golden line stands directly above the added received line.
    let removed = text.find("-     B").expect("the golden line must be marked");
    let added = text.find("+     X").expect("the received line must be marked");
    assert!(removed < added);
}

#[test]
fn decorations_wrap_the_fragments_they_are_given() {
    let palette = Palette {
        failed: Style::wrap("[failed:", "]"),
        passed: Style::wrap("[passed:", "]"),
        dim: Style::wrap("[dim:", "]"),
        removed: Style::wrap("[rem:", "]"),
        added: Style::wrap("[add:", "]"),
        keyword: Style::wrap("[kw:", "]"),
        ident: Style::wrap("[id:", "]"),
    };
    let mut store = Store::new();
    store.insert("tests/demo.rs:adds".to_string(), "B".to_string());
    let report = demo_builder()
        .run(&mut store, || Ok("X".to_string()))
        .expect("a mismatch is a reported outcome, not an error");
    let text = report.render(&palette);
    assert!(text.contains("[failed:  FAILED  ]"));
    assert!(text.contains("[dim:demo::tests::]"));
    assert!(text.contains("[rem:-]     [rem:B]"));
    assert!(text.contains("[add:+]     [add:X]"));
    assert!(text.contains("[kw:fn] [id:adds]() -> [kw:u32] {"));
}

#[test]
fn the_test_key_joins_file_and_identifier() {
    assert_eq!(
        snaptest::test::key_of("tests/demo.rs", "adds"),
        "tests/demo.rs:adds"
    );
    // The same inputs always recompute the same key.
    assert_eq!(
        snaptest::test::key_of("tests/demo.rs", "adds"),
        snaptest::test::key_of("tests/demo.rs", "adds")
    );
}

#[test]
fn error_messages_carry_their_text() {
    assert_eq!(Error::Io("cannot open".to_string()).message().as_str(), "cannot open");
    assert_eq!(
        Error::Serialization("bad bytes".to_string()).message().as_str(),
        "bad bytes"
    );
    assert_eq!(Error::Producer("boom".to_string()).message().as_str(), "boom");
    assert_eq!(
        Error::MissingField("name is a required field".to_string()).message().as_str(),
        "name is a required field"
    );
}
