use note_export::{
    append_stripped, brackets_fit, close_tag, dump_resource, export, export_document, on_characters, open_tag,
    reduce, Action, CurrentTag, Event, ExportError, State,
};

fn start(n: &str) -> Event {
    Event::ElementStart(n.to_string())
}

fn end(n: &str) -> Event {
    Event::ElementEnd(n.to_string())
}

fn text(t: &str) -> Event {
    Event::Characters(t.to_string())
}

fn resource_events(name: Option<&str>, payload: &[&str]) -> Vec<Event> {
    let mut v = vec![start("resource")];
    if let Some(n) = name {
        v.push(start("resource-attributes"));
        v.push(start("file-name"));
        v.push(text(n));
        v.push(end("file-name"));
        v.push(end("resource-attributes"));
    }
    v.push(start("data"));
    for p in payload {
        v.push(text(p));
    }
    v.push(end("data"));
    v.push(end("resource"));
    v
}

fn note_events(title: &str, resources: Vec<Vec<Event>>) -> Vec<Event> {
    let mut v = vec![start("note"), start("title"), text(title), end("title")];
    for r in resources {
        v.extend(r);
    }
    v.push(end("note"));
    v
}

fn created_dirs(actions: &[Action]) -> Vec<String> {
    actions
        .iter()
        .filter_map(|a| match a {
            Action::CreateDir(d) => Some(d.clone()),
            _ => None,
        })
        .collect()
}

fn writes(actions: &[Action]) -> Vec<(String, String, Vec<u8>)> {
    actions
        .iter()
        .filter_map(|a| match a {
            Action::WriteFile { dir, name, bytes } => Some((dir.clone(), name.clone(), bytes.clone())),
            _ => None,
        })
        .collect()
}

#[test]
fn new_state_is_empty() {
    let s = State::new();
    assert_eq!(s.tag, None);
    assert_eq!(s.title, None);
    assert_eq!(s.filename, None);
    assert!(s.data.is_empty());
}

#[test]
fn builders_set_one_field() {
    let s = State::new()
        .with_title("t".to_string())
        .with_filename("f.txt".to_string())
        .with_tag(CurrentTag::ResourceData)
        .with_data(vec![1, 2, 3]);
    assert_eq!(s.title.as_deref(), Some("t"));
    assert_eq!(s.filename.as_deref(), Some("f.txt"));
    assert_eq!(s.tag, Some(CurrentTag::ResourceData));
    assert_eq!(s.data, vec![1, 2, 3]);
    let s = s.remove_tag();
    assert_eq!(s.tag, None);
    assert_eq!(s.data, vec![1, 2, 3]);
    let s = s.remove_data();
    assert!(s.data.is_empty());
    assert_eq!(s.title.as_deref(), Some("t"));
}

#[test]
fn open_tag_classifies_names() {
    let cases = [
        ("title", CurrentTag::Title),
        ("content", CurrentTag::Content),
        ("resource", CurrentTag::Resource),
        ("data", CurrentTag::ResourceData),
        ("resource-attributes", CurrentTag::ResourceAttributes),
        ("file-name", CurrentTag::ResourceAttributesFilename),
    ];
    for (name, tag) in cases {
        assert_eq!(open_tag(State::new(), name).tag, Some(tag));
    }
}

#[test]
fn open_tag_ignores_other_names() {
    let s = State::new().with_tag(CurrentTag::Title).with_title("x".to_string());
    let s = open_tag(s, "en-note");
    assert_eq!(s.tag, Some(CurrentTag::Title));
    let s = open_tag(s, "Title");
    assert_eq!(s.tag, Some(CurrentTag::Title));
    assert_eq!(s.title.as_deref(), Some("x"));
}

#[test]
fn open_note_resets_everything() {
    let s = State::new()
        .with_tag(CurrentTag::ResourceData)
        .with_title("a".to_string())
        .with_filename("f".to_string())
        .with_data(b"QQ".to_vec());
    let s = open_tag(s, "note");
    assert_eq!(s.tag, None);
    assert_eq!(s.title, None);
    assert_eq!(s.filename, None);
    assert!(s.data.is_empty());
}

#[test]
fn close_other_tag_clears_tag_only() {
    let s = State::new()
        .with_tag(CurrentTag::ResourceAttributesFilename)
        .with_filename("a.txt".to_string())
        .with_data(b"QQ==".to_vec());
    let (s, a) = close_tag(s, "file-name").unwrap();
    assert!(matches!(a, Action::Nothing));
    assert_eq!(s.tag, None);
    assert_eq!(s.filename.as_deref(), Some("a.txt"));
    assert_eq!(s.data, b"QQ==".to_vec());
}

#[test]
fn close_resource_writes_and_clears_payload() {
    let s = State::new()
        .with_title("note-one".to_string())
        .with_tag(CurrentTag::Resource)
        .with_filename("a.txt".to_string())
        .with_data(b"aGVsbG8=".to_vec());
    let (s, a) = close_tag(s, "resource").unwrap();
    match a {
        Action::WriteFile { dir, name, bytes } => {
            assert_eq!(dir, "note-one");
            assert_eq!(name, "a.txt");
            assert_eq!(bytes, b"hello".to_vec());
        }
        other => panic!("unexpected action {:?}", other),
    }
    assert_eq!(s.tag, None);
    assert!(s.data.is_empty());
    assert_eq!(s.filename.as_deref(), Some("a.txt"));
}

#[test]
fn close_resource_without_title_fails() {
    let s = State::new().with_data(b"QQ==".to_vec());
    let r = reduce(s, Event::ElementEnd("resource".to_string()));
    assert_eq!(r.err(), Some(ExportError::MissingTitle));
}

#[test]
fn dump_resource_rejects_bad_payload() {
    let s = State::new().with_title("n".to_string()).with_data(b"not base64!".to_vec());
    assert_eq!(dump_resource(&s).err(), Some(ExportError::InvalidPayload));
}

#[test]
fn dump_resource_defaults_to_content() {
    let s = State::new().with_title("n".to_string()).with_data(b"QQ==".to_vec());
    match dump_resource(&s).unwrap() {
        Action::WriteFile { dir, name, bytes } => {
            assert_eq!(dir, "n");
            assert_eq!(name, "content");
            assert_eq!(bytes, b"A".to_vec());
        }
        other => panic!("unexpected action {:?}", other),
    }
}

#[test]
fn title_text_creates_slugged_directory() {
    let s = State::new().with_tag(CurrentTag::Title);
    let (s, a) = on_characters(s, "My Idea!".to_string());
    match a {
        Action::CreateDir(d) => assert_eq!(d, "my-idea"),
        other => panic!("unexpected action {:?}", other),
    }
    assert_eq!(s.title.as_deref(), Some("my-idea"));
}

#[test]
fn slugging_the_same_title_twice_agrees() {
    let (a, _) = on_characters(State::new().with_tag(CurrentTag::Title), "Hello, World".to_string());
    let (b, _) = on_characters(State::new().with_tag(CurrentTag::Title), "Hello, World".to_string());
    assert_eq!(a.title, b.title);
    assert_eq!(a.title.as_deref(), Some("hello-world"));
}

#[test]
fn payload_text_drops_line_breaks() {
    let s = State::new().with_tag(CurrentTag::ResourceData);
    let (s, a) = on_characters(s, "aGVs\r\nbG8=\n".to_string());
    assert!(matches!(a, Action::Nothing));
    assert_eq!(s.data, b"aGVsbG8=".to_vec());
}

#[test]
fn filename_text_is_kept_verbatim() {
    let s = State::new().with_tag(CurrentTag::ResourceAttributesFilename);
    let (s, _) = on_characters(s, " odd name.txt ".to_string());
    assert_eq!(s.filename.as_deref(), Some(" odd name.txt "));
}

#[test]
fn text_elsewhere_is_ignored() {
    for tag in [CurrentTag::Content, CurrentTag::Resource, CurrentTag::ResourceAttributes] {
        let s = State::new().with_tag(tag);
        let (s, a) = on_characters(s, "words".to_string());
        assert!(matches!(a, Action::Nothing));
        assert!(s.data.is_empty());
        assert_eq!(s.title, None);
        assert_eq!(s.filename, None);
    }
    let (s, _) = on_characters(State::new(), "words".to_string());
    assert_eq!(s.title, None);
}

#[test]
fn append_stripped_keeps_order() {
    assert_eq!(append_stripped(b"ab".to_vec(), "c\rd\ne"), b"abcde".to_vec());
    assert_eq!(append_stripped(Vec::new(), ""), Vec::<u8>::new());
    assert_eq!(append_stripped(Vec::new(), "\r\n\r\n"), Vec::<u8>::new());
}

#[test]
fn other_events_change_nothing() {
    let s = State::new().with_tag(CurrentTag::ResourceData).with_data(b"QQ".to_vec());
    let (s, a) = reduce(s, Event::Other).unwrap();
    assert!(matches!(a, Action::Nothing));
    assert_eq!(s.tag, Some(CurrentTag::ResourceData));
    assert_eq!(s.data, b"QQ".to_vec());
}

#[test]
fn one_directory_per_note() {
    let mut events = note_events("First note", vec![]);
    events.extend(note_events("Second: note", vec![]));
    events.extend(note_events("Third", vec![]));
    let (actions, end) = export(&events);
    assert!(end.is_ok());
    assert_eq!(created_dirs(&actions), vec!["first-note", "second-note", "third"]);
}

#[test]
fn decoded_file_matches_stripped_payload() {
    let events = note_events("n", vec![resource_events(Some("f.bin"), &["aGVs\r\nbG8g\nd29y", "bGQ="])]);
    let (actions, end) = export(&events);
    assert!(end.is_ok());
    let reference = note_events("n", vec![resource_events(Some("f.bin"), &["aGVsbG8gd29ybGQ="])]);
    let (expected, _) = export(&reference);
    assert_eq!(writes(&actions), writes(&expected));
    assert_eq!(writes(&actions), vec![("n".to_string(), "f.bin".to_string(), b"hello world".to_vec())]);
}

#[test]
fn note_open_discards_pending_resource() {
    let events = vec![
        start("note"),
        start("title"),
        text("A"),
        end("title"),
        start("resource"),
        start("file-name"),
        text("x.bin"),
        end("file-name"),
        start("data"),
        text("QQ=="),
        start("note"),
        start("title"),
        text("B"),
        end("title"),
        end("data"),
        end("resource"),
        end("note"),
    ];
    let (actions, end) = export(&events);
    assert!(end.is_ok());
    assert_eq!(writes(&actions), vec![("b".to_string(), "content".to_string(), Vec::new())]);
}

#[test]
fn nested_note_titles() {
    let events = vec![
        start("note"),
        start("title"),
        text("A"),
        end("title"),
        start("note"),
        start("title"),
        text("B"),
        end("title"),
        end("note"),
        end("note"),
    ];
    let (actions, end) = export(&events);
    let end = end.unwrap();
    assert_eq!(end.title.as_deref(), Some("b"));
    assert_eq!(created_dirs(&actions), vec!["a", "b"]);
}

#[test]
fn resource_without_file_name_is_content() {
    let events = note_events("Plain", vec![resource_events(None, &["QQ=="])]);
    let (actions, _) = export(&events);
    assert_eq!(writes(&actions), vec![("plain".to_string(), "content".to_string(), b"A".to_vec())]);
}

#[test]
fn split_payload_runs_concatenate() {
    let whole = note_events("n", vec![resource_events(None, &["QQ=="])]);
    let split = note_events("n", vec![resource_events(None, &["QQ", "=="])]);
    let (a, _) = export(&whole);
    let (b, _) = export(&split);
    assert_eq!(writes(&a), writes(&b));
    assert_eq!(writes(&b)[0].2, b"A".to_vec());
}

#[test]
fn my_idea_photo_end_to_end() {
    let events = note_events("My Idea!", vec![resource_events(Some("photo.png"), &["aGVs\r\nbG8="])]);
    let (actions, end) = export(&events);
    assert!(end.is_ok());
    assert_eq!(created_dirs(&actions), vec!["my-idea"]);
    assert_eq!(writes(&actions), vec![("my-idea".to_string(), "photo.png".to_string(), b"hello".to_vec())]);
}

#[test]
fn malformed_payload_stops_without_write() {
    let mut events = note_events("Bad", vec![resource_events(Some("x.bin"), &["@@@="])]);
    events.extend(note_events("Later", vec![]));
    let (actions, end) = export(&events);
    assert_eq!(end.err(), Some(ExportError::InvalidPayload));
    assert!(writes(&actions).is_empty());
    assert_eq!(created_dirs(&actions), vec!["bad"]);
}

#[test]
fn document_end_to_end() {
    let doc = "<en-export><note><title>My Idea!</title><content>x</content>\
               <resource><data>aGVs\r\nbG8=</data><resource-attributes>\
               <file-name>photo.png</file-name></resource-attributes></resource></note></en-export>";
    let (actions, end) = export_document(doc);
    assert!(end.is_ok());
    assert_eq!(created_dirs(&actions), vec!["my-idea"]);
    assert_eq!(writes(&actions), vec![("my-idea".to_string(), "photo.png".to_string(), b"hello".to_vec())]);
}

#[test]
fn document_parse_error_keeps_earlier_actions() {
    let doc = "<en-export><note><title>First</title></note><note a=b><title>Second</title></note></en-export>";
    let (actions, end) = export_document(doc);
    assert_eq!(end.err(), Some(ExportError::Malformed));
    assert_eq!(created_dirs(&actions)[0], "first");
}

#[test]
fn bracket_runs_are_measured() {
    assert!(brackets_fit("<a>]]</a>"));
    assert!(brackets_fit(&"]".repeat(255)));
    assert!(!brackets_fit(&"]".repeat(256)));
    assert!(brackets_fit(&format!("{}x{}", "]".repeat(255), "]".repeat(255))));
}

#[test]
fn long_bracket_run_in_cdata_is_refused() {
    let doc = format!(
        "<en-export><note><title>T</title><content><![CDATA[{}]]></content></note></en-export>",
        "]".repeat(300)
    );
    let (actions, end) = export_document(&doc);
    assert!(actions.is_empty());
    assert_eq!(end.err(), Some(ExportError::BracketRunTooLong));
}

#[test]
fn shorter_bracket_run_in_cdata_is_tokenized() {
    let doc = format!(
        "<en-export><note><title>T</title><content><![CDATA[{}]]></content></note></en-export>",
        "]".repeat(200)
    );
    let (actions, end) = export_document(&doc);
    assert!(end.is_ok());
    assert_eq!(created_dirs(&actions), vec!["t"]);
}

#[test]
fn three_payload_runs_concatenate() {
    let split = note_events("n", vec![resource_events(Some("w.txt"), &["aGVs", "bG8g\r\nd2", "9ybGQ="])]);
    let (actions, end) = export(&split);
    assert!(end.is_ok());
    assert_eq!(writes(&actions), vec![("n".to_string(), "w.txt".to_string(), b"hello world".to_vec())]);
}

#[test]
fn one_directory_per_note_with_content() {
    let mut events = note_events("Alpha", vec![resource_events(Some("a.txt"), &["QQ=="])]);
    events.extend(note_events("Beta", vec![vec![start("content"), text("words"), end("content")]]));
    events.extend(note_events("Gamma", vec![resource_events(None, &["QQ=="]), resource_events(None, &["Qg=="])]));
    let (actions, end) = export(&events);
    assert!(end.is_ok());
    assert_eq!(created_dirs(&actions), vec!["alpha", "beta", "gamma"]);
}

#[test]
fn document_length_bound_is_the_counter_limit() {
    assert_eq!(note_export::LONGEST_DOCUMENT as u64, u32::MAX as u64);
    let (_, end) = export_document("<note><title>Short</title></note>");
    assert!(end.is_ok());
}
