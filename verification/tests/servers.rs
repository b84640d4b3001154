use potyi::lsp::servers::{check_config_size, ServerEntry, Servers};

fn server(name: &str, command: &str, extensions: &[&str], language: &str) -> ServerEntry {
    ServerEntry {
        name: name.to_string(),
        command: command.to_string(),
        args: vec![],
        extensions: extensions.iter().map(|e| e.to_string()).collect(),
        language_id: language.to_string(),
        root_markers: vec!["Cargo.toml".to_string(), ".git".to_string()],
    }
}

#[test]
fn servers_are_selected_by_extension_ignoring_case() {
    let servers = Servers::from_entries(vec![
        server("rust", "rust-analyzer", &["rs"], "rust"),
        server("clangd", "clangd", &["c", "h", "cpp"], "cpp"),
        server("other", "other", &["RS"], "other"),
    ])
    .unwrap();
    assert_eq!(servers.server_for(Some("RS")), Some(0));
    assert_eq!(servers.server_for(Some("cpp")), Some(1));
    assert_eq!(servers.server_for(Some("vue")), None);
    assert_eq!(servers.server_for(None), None);
    assert_eq!(servers.server(1).language_id, "cpp");
}

#[test]
fn invalid_server_configurations_are_refused() {
    let invalid = "Invalid or duplicate language server configuration";
    assert_eq!(Servers::from_entries(vec![server("x", "", &["rs"], "rust")]).err().unwrap(), invalid);
    assert_eq!(Servers::from_entries(vec![server("x", "  ", &["rs"], "rust")]).err().unwrap(), invalid);
    assert_eq!(Servers::from_entries(vec![server("", "x", &["rs"], "rust")]).err().unwrap(), invalid);
    assert_eq!(Servers::from_entries(vec![server("x", "x", &[], "rust")]).err().unwrap(), invalid);
    assert_eq!(Servers::from_entries(vec![server("x", "x", &["rs"], "")]).err().unwrap(), invalid);
    assert_eq!(Servers::from_entries(vec![server("x", "x\0", &["rs"], "rust")]).err().unwrap(), invalid);
    let mut marker = server("x", "x", &["rs"], "rust");
    marker.root_markers = vec!["..".to_string()];
    assert_eq!(Servers::from_entries(vec![marker]).err().unwrap(), invalid);
    let mut slash = server("x", "x", &["rs"], "rust");
    slash.root_markers = vec!["a/b".to_string()];
    assert_eq!(Servers::from_entries(vec![slash]).err().unwrap(), invalid);
    let mut args = server("x", "x", &["rs"], "rust");
    args.args = (0..65).map(|i| i.to_string()).collect();
    assert_eq!(Servers::from_entries(vec![args]).err().unwrap(), invalid);
    let duplicate = vec![server("x", "x", &["rs"], "rust"), server("x", "y", &["c"], "c")];
    assert_eq!(Servers::from_entries(duplicate).err().unwrap(), invalid);
    let many: Vec<ServerEntry> = (0..33).map(|i| server(&format!("s{i}"), "x", &["rs"], "rust")).collect();
    assert_eq!(Servers::from_entries(many).err().unwrap(), "At most 32 language servers can be configured");
    assert_eq!(check_config_size(65537), Err("lsp.toml exceeds 64 KiB".to_string()));
    assert!(check_config_size(65536).is_ok());
}
