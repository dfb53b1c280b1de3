use aftman::codec::{join, split, LINE_END};
use aftman::error::ToolError;
use aftman::home::{Home, InstalledTool};
use aftman::store::{
    can_save, from_files, load_from_file_fallible, ids_from_lines, load, read_lines, tools_file, tools_from_lines, trust_file,
    write_lines, FileRead,
};
use aftman::trust::{SourceKind, ToolId};

fn id(scope: &str, name: &str) -> ToolId {
    ToolId { source: SourceKind::GitHub, scope: scope.to_string(), name: name.to_string() }
}

fn sample() -> Home {
    let mut home = Home::new();
    home.trust(id("rojo-rbx", "rojo"));
    home.trust(id("johnnymorganz", "stylua"));
    home.record(InstalledTool {
        id: id("rojo-rbx", "rojo"),
        version: "v7.4.1".to_string(),
        path: "/store/rojo-rbx/rojo/v7.4.1/rojo".to_string(),
    });
    home
}

#[test]
fn join_closes_every_field() {
    let fields = vec![b"ab".to_vec(), Vec::new(), b"c".to_vec()];
    assert_eq!(join(&fields, LINE_END), b"ab\n\nc\n".to_vec());
    assert_eq!(join(&Vec::new(), LINE_END), Vec::<u8>::new());
    assert_eq!(join(&fields, b'\t'), b"ab\t\tc\t".to_vec());
}

#[test]
fn split_reads_closed_fields() {
    assert_eq!(split(b"ab\n\nc\n", LINE_END), Some(vec![b"ab".to_vec(), Vec::new(), b"c".to_vec()]));
    assert_eq!(split(b"", LINE_END), Some(Vec::new()));
    assert_eq!(split(b"\n", LINE_END), Some(vec![Vec::new()]));
}

#[test]
fn split_refuses_an_open_field() {
    assert_eq!(split(b"ab\nc", LINE_END), None);
    assert_eq!(split(b"c", LINE_END), None);
}

#[test]
fn split_inverts_join() {
    let fields = vec![b"one".to_vec(), b"two words".to_vec(), Vec::new(), b"x/y".to_vec()];
    assert_eq!(split(&join(&fields, LINE_END), LINE_END), Some(fields));
}

#[test]
fn lines_are_written_and_read() {
    let texts = vec!["rojo-rbx".to_string(), "rojo".to_string(), "caf\u{e9}".to_string()];
    let bytes = write_lines(&texts);
    assert_eq!(bytes, "rojo-rbx\nrojo\ncaf\u{e9}\n".as_bytes().to_vec());
    assert_eq!(read_lines(&bytes), Some(texts));
}

#[test]
fn lines_must_be_utf8() {
    assert_eq!(read_lines(&[0x61, 0x0a, 0xff, 0x0a]), None);
    assert_eq!(read_lines(&[0x61, 0x0a, 0x62]), None);
    assert_eq!(read_lines(&[0x61, 0x0a, 0x62, 0x0a]), Some(vec!["a".to_string(), "b".to_string()]));
}

#[test]
fn trust_file_text() {
    assert_eq!(
        trust_file(&sample()),
        b"rojo-rbx\nrojo\njohnnymorganz\nstylua\n".to_vec()
    );
    assert_eq!(trust_file(&Home::new()), Vec::<u8>::new());
}

#[test]
fn tools_file_text() {
    assert_eq!(
        tools_file(&sample()),
        b"rojo-rbx\nrojo\nv7.4.1\n/store/rojo-rbx/rojo/v7.4.1/rojo\n".to_vec()
    );
    assert_eq!(tools_file(&Home::new()), Vec::<u8>::new());
}

#[test]
fn saved_state_loads_again() {
    let home = sample();
    let again = from_files(&trust_file(&home), &tools_file(&home)).unwrap();
    assert_eq!(again.trusted_len(), 2);
    assert!(again.trusted_entry(0).same(&id("rojo-rbx", "rojo")));
    assert!(again.trusted_entry(1).same(&id("johnnymorganz", "stylua")));
    assert_eq!(again.tools_len(), 1);
    assert!(again.tool(0).id.same(&id("rojo-rbx", "rojo")));
    assert_eq!(again.tool(0).version, "v7.4.1");
    assert_eq!(again.tool(0).path, "/store/rojo-rbx/rojo/v7.4.1/rojo");
    assert_eq!(trust_file(&again), trust_file(&home));
    assert_eq!(tools_file(&again), tools_file(&home));
}

#[test]
fn lines_group_into_identifiers() {
    let lines = vec!["a".to_string(), "x".to_string(), "b".to_string(), "y".to_string()];
    let ids = ids_from_lines(&lines).unwrap();
    assert_eq!(ids.len(), 2);
    assert!(ids[0].same(&id("a", "x")));
    assert!(ids[1].same(&id("b", "y")));
    assert!(ids_from_lines(&lines[..3].to_vec()).is_none());
}

#[test]
fn lines_group_into_records() {
    let lines: Vec<String> = ["a", "x", "v1.0.0", "/p", "b", "y", "v2.0.0", "/q"]
        .iter()
        .map(|s| s.to_string())
        .collect();
    let tools = tools_from_lines(&lines).unwrap();
    assert_eq!(tools.len(), 2);
    assert!(tools[1].id.same(&id("b", "y")));
    assert_eq!(tools[1].version, "v2.0.0");
    assert_eq!(tools[1].path, "/q");
    assert!(tools_from_lines(&lines[..6].to_vec()).is_none());
}

#[test]
fn corrupt_files_are_refused() {
    assert_eq!(from_files(b"a\nx", b"").err(), Some(ToolError::FileCorrupt));
    assert_eq!(from_files(b"a\n", b"").err(), Some(ToolError::FileCorrupt));
    assert_eq!(from_files(b"", b"a\nx\nv1\n").err(), Some(ToolError::FileCorrupt));
    assert_eq!(from_files(b"a\nx\na\nx\n", b"").err(), Some(ToolError::FileCorrupt));
    assert_eq!(
        from_files(b"", b"a\nx\nv1\n/p\na\nx\nv2\n/q\n").err(),
        Some(ToolError::FileCorrupt)
    );
    assert_eq!(from_files(&[0xff, 0x0a, 0x61, 0x0a], b"").err(), Some(ToolError::FileCorrupt));
}

#[test]
fn state_from_parts() {
    let home = Home::from_parts(&vec![id("a", "x")], &Vec::new()).unwrap();
    assert_eq!(home.trusted_len(), 1);
    assert_eq!(
        Home::from_parts(&vec![id("a", "x"), id("a", "x")], &Vec::new()).err(),
        Some(ToolError::FileCorrupt)
    );
}

#[test]
fn missing_files_are_healed() {
    let loaded = load(&FileRead::Missing, &FileRead::Found(Vec::new())).unwrap();
    assert!(loaded.heal_trust_file);
    assert!(!loaded.heal_tools_file);
    assert_eq!(loaded.home.trusted_len(), 0);
    assert_eq!(loaded.home.tools_len(), 0);
    let loaded = load(&FileRead::Found(b"a\nx\n".to_vec()), &FileRead::Missing).unwrap();
    assert!(!loaded.heal_trust_file);
    assert!(loaded.heal_tools_file);
    assert_eq!(loaded.home.trusted_len(), 1);
}

#[test]
fn failed_read_is_no_corruption() {
    assert_eq!(load(&FileRead::Failed, &FileRead::Missing).err(), Some(ToolError::Io));
    assert_eq!(
        load(&FileRead::Found(b"a".to_vec()), &FileRead::Failed).err(),
        Some(ToolError::Io)
    );
    assert_eq!(
        load(&FileRead::Found(b"a".to_vec()), &FileRead::Missing).err(),
        Some(ToolError::FileCorrupt)
    );
}

#[test]
fn failed_command_is_still_saved() {
    let mut home = Home::new();
    home.trust(id("rojo-rbx", "rojo"));
    let command: Result<(), ToolError> = Err(ToolError::NetworkError);
    assert!(command.is_err());
    let saved = trust_file(&home);
    let again = from_files(&saved, &tools_file(&home)).unwrap();
    assert!(again.is_trusted(&id("rojo-rbx", "rojo")));
}

#[test]
fn line_feed_in_a_text_cannot_be_saved() {
    assert!(can_save(&sample()));
    assert!(can_save(&Home::new()));
    let mut home = Home::new();
    home.trust(id("a\nb", "x"));
    assert!(!can_save(&home));
    let mut home = Home::new();
    home.record(InstalledTool {
        id: id("a", "x"),
        version: "v1.0.0".to_string(),
        path: "/p\n".to_string(),
    });
    assert!(!can_save(&home));
}

#[test]
fn required_file_is_not_healed() {
    assert_eq!(load_from_file_fallible(&FileRead::Missing), Err(ToolError::FileNotFound));
    assert_eq!(load_from_file_fallible(&FileRead::Failed), Err(ToolError::Io));
    assert_eq!(
        load_from_file_fallible(&FileRead::Found(b"a\nb".to_vec())),
        Err(ToolError::FileCorrupt)
    );
    assert_eq!(
        load_from_file_fallible(&FileRead::Found(b"a\nb\n".to_vec())),
        Ok(vec!["a".to_string(), "b".to_string()])
    );
}
