use potyi::lsp::locations::{definitions, uri_path, DefinitionReply, RawLocation};

fn plain(uri: &str, line: Option<u64>, character: Option<u64>) -> RawLocation {
    RawLocation { link: false, target_uri: None, target_start: (None, None), uri: Some(uri.to_string()), start: (line, character) }
}

fn link(uri: &str, line: Option<u64>, character: Option<u64>) -> RawLocation {
    RawLocation { link: true, target_uri: Some(uri.to_string()), target_start: (line, character), uri: None, start: (None, None) }
}

#[test]
fn parses_definition_links_and_plain_locations_alike() {
    let uri = "file:///tmp/file.rs";
    let a = definitions(&DefinitionReply::Single(plain(uri, Some(4), Some(3)))).unwrap();
    let b = definitions(&DefinitionReply::List(vec![link(uri, Some(4), Some(3))])).unwrap();
    assert_eq!(a.len(), 1);
    assert_eq!((a[0].path.as_str(), a[0].line, a[0].character), ("/tmp/file.rs", 4, 3));
    assert_eq!((b[0].path.as_str(), b[0].line, b[0].character), ("/tmp/file.rs", 4, 3));
    assert!(definitions(&DefinitionReply::Null).unwrap().is_empty());
    assert_eq!(
        definitions(&DefinitionReply::Single(plain(uri, None, Some(0)))).err().unwrap(),
        "Invalid definition position"
    );
    assert_eq!(
        definitions(&DefinitionReply::Single(plain(uri, Some(1 << 31), Some(0)))).err().unwrap(),
        "Invalid definition position"
    );
    let mut missing = plain(uri, Some(0), Some(0));
    missing.uri = None;
    assert_eq!(definitions(&DefinitionReply::Single(missing)).err().unwrap(), "Missing definition URI");
    let many: Vec<RawLocation> = (0..40).map(|i| plain(uri, Some(i), Some(0))).collect();
    assert_eq!(definitions(&DefinitionReply::List(many)).unwrap().len(), 32);
}

#[test]
fn definition_uris_must_be_local_files() {
    assert_eq!(uri_path("file:///tmp/a%20space.rs").unwrap(), "/tmp/a space.rs");
    assert_eq!(uri_path("file://localhost/tmp/x.rs").unwrap(), "/tmp/x.rs");
    assert_eq!(uri_path("https://example.com/code.rs").err().unwrap(), "This definition is not a local file");
    assert_eq!(uri_path("file:///tmp/x.rs?query").err().unwrap(), "This definition is not a local file");
    assert_eq!(uri_path("file://remote-host/code.rs").err().unwrap(), "Remote definition locations are not supported");
    assert!(uri_path("not a uri").is_err());
}
