use bx::client::{attributes_json, upload_form, UPLOAD_URL};
use bx::download::{Download, DownloadStep};
use bx::network::Part;
use bx::models::Collection;
use bx::operations::FileUpdates;

#[test]
fn upload_form_has_attributes_then_file() {
    let parts = upload_form("report.pdf", "0", "/tmp/report.pdf").into_parts();
    assert_eq!(parts.len(), 2);
    match &parts[0] {
        Part::Text { name, value } => {
            assert_eq!(name, "attributes");
            assert_eq!(value, "{\"name\":\"report.pdf\",\"parent\":{\"id\":\"0\"}}");
            let json: serde_json::Value = serde_json::from_str(value).unwrap();
            assert_eq!(json["name"], "report.pdf");
            assert_eq!(json["parent"]["id"], "0");
        }
        _ => panic!("expected the attributes part first"),
    }
    match &parts[1] {
        Part::Stream { name, path } => {
            assert_eq!(name, "file");
            assert_eq!(path, "/tmp/report.pdf");
        }
        _ => panic!("expected the file part second"),
    }
    assert!(UPLOAD_URL.starts_with("https://"));
}

#[test]
fn attributes_escape_names() {
    let text = attributes_json("a\"b\\c.txt", "12");
    assert_eq!(text, "{\"name\":\"a\\\"b\\\\c.txt\",\"parent\":{\"id\":\"12\"}}");
    let json: serde_json::Value = serde_json::from_str(&text).unwrap();
    assert_eq!(json["name"], "a\"b\\c.txt");
    assert_eq!(json["parent"]["id"], "12");
}

fn run(chunks: Vec<Vec<u8>>) -> (Vec<u8>, u64) {
    let mut d = Download::new();
    let mut disk = Vec::new();
    for c in chunks {
        match d.step(Some(c)) {
            DownloadStep::Write(bytes) => disk.extend_from_slice(&bytes),
            DownloadStep::Finish(_) => panic!("finished early"),
        }
    }
    match d.step(None) {
        DownloadStep::Finish(n) => (disk, n),
        DownloadStep::Write(_) => panic!("wrote after the end"),
    }
}

#[test]
fn chunk_boundaries_do_not_change_the_file() {
    let body: Vec<u8> = (0u8..10).collect();
    let (a, na) = run(vec![body.clone()]);
    let (b, nb) = run(vec![vec![0, 1, 2], vec![], vec![3], vec![4, 5, 6, 7, 8, 9]]);
    let (c, nc) = run(body.iter().map(|x| vec![*x]).collect());
    assert_eq!(a, body);
    assert_eq!(b, body);
    assert_eq!(c, body);
    assert_eq!((na, nb, nc), (10, 10, 10));
}

#[test]
fn empty_download_writes_nothing() {
    let (disk, n) = run(vec![]);
    assert!(disk.is_empty());
    assert_eq!(n, 0);
}

#[test]
fn file_updates_builder() {
    let u = FileUpdates::new();
    assert!(u.name.is_none() && u.description.is_none());
    let u = u.name("new.txt").description("d");
    assert_eq!(u.name.as_deref(), Some("new.txt"));
    assert_eq!(u.description.as_deref(), Some("d"));
    let u = u.name("again");
    assert_eq!(u.name.as_deref(), Some("again"));
    assert_eq!(u.description.as_deref(), Some("d"));
}

#[test]
fn attributes_escape_control_characters() {
    let text = attributes_json("a\tb\u{1}\u{7f}\u{e9}", "x\ny");
    assert_eq!(
        text,
        "{\"name\":\"a\\tb\\u0001\u{7f}\u{e9}\",\"parent\":{\"id\":\"x\\ny\"}}"
    );
}

#[test]
fn first_entry_of_a_collection() {
    let c = Collection { total_count: 2, entries: vec![7u8, 8] };
    assert_eq!(c.into_first(), Some(7));
    let empty: Collection<u8> = Collection { total_count: 0, entries: vec![] };
    assert_eq!(empty.into_first(), None);
}
