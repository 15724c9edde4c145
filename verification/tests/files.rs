use vscode_atomic_tauri::files::watch_event_payload;
use vscode_atomic_tauri::contracts::{FileDirEntryDto, FileTypeDto};
use vscode_atomic_tauri::files::{
    change_type_from_event_kind, changes_from_watch_event, check_file_listen, check_watcher_listen, decode_write_data,
    delete_action, delete_lookup_error, file_type_from_metadata, map_io_error, read_response, refused_write,
    reject_directory_read, sort_dir_entries, stat_from_metadata, trash_base_name, trash_candidate_name, trash_dirs,
    trash_info_name, uri_from_path, write_open_failure, write_open_step, xdg_data_home, DeleteAction, FileCommand,
    FileMetadata, IoErrorKind, WatchEventKind, WatchTable, WatcherCommand, WriteOpenStep, FILE_CHANGE_TYPE_ADDED,
    FILE_CHANGE_TYPE_DELETED, FILE_CHANGE_TYPE_UPDATED,
};
use vscode_atomic_tauri::files::{trash_probe_step, TrashProbeStep, MAX_TRASH_ATTEMPTS};

#[test]
fn base64_payloads_round_trip() {
    assert_eq!(read_response(&b"hello".to_vec()).data_base64, "aGVsbG8=");
    assert_eq!(decode_write_data("aGVsbG8=").unwrap(), b"hello".to_vec());
    let error = decode_write_data("not base64!").unwrap_err();
    assert_eq!(error.code, "fs.invalidData");
    assert!(error.message.starts_with("data_base64 is not valid base64: "));
}

#[test]
fn io_errors_map_to_stable_codes() {
    let e = map_io_error("fs.readFailed", "read", "/x", IoErrorKind::NotFound, "gone");
    assert_eq!(e.code, "fs.fileNotFound");
    assert_eq!(e.message, "failed to read /x: gone");
    assert_eq!(map_io_error("fs.readFailed", "read", "/x", IoErrorKind::PermissionDenied, "no").code, "fs.noPermissions");
    assert_eq!(map_io_error("fs.readFailed", "read", "/x", IoErrorKind::AlreadyExists, "dup").code, "fs.fileExists");
    assert_eq!(map_io_error("fs.readFailed", "read", "/x", IoErrorKind::Other, "?").code, "fs.readFailed");
    let e = delete_lookup_error("fs.deleteFailed", "delete", "/y", IoErrorKind::NotFound, "gone");
    assert_eq!(e.message, "file not found: /y");
}

#[test]
fn write_open_follows_create_and_overwrite_flags() {
    assert_eq!(write_open_step(true, false), WriteOpenStep::CreateNew);
    assert_eq!(write_open_step(true, true), WriteOpenStep::CreateOrTruncate);
    assert_eq!(write_open_step(false, true), WriteOpenStep::TruncateExisting);
    assert_eq!(write_open_step(false, false), WriteOpenStep::Refuse);
    assert_eq!(write_open_failure(WriteOpenStep::CreateNew, "/f", IoErrorKind::AlreadyExists, "e").message, "file already exists: /f");
    assert_eq!(write_open_failure(WriteOpenStep::TruncateExisting, "/f", IoErrorKind::NotFound, "e").code, "fs.fileNotFound");
    assert_eq!(
        write_open_failure(WriteOpenStep::CreateOrTruncate, "/f", IoErrorKind::Other, "disk full").message,
        "failed to open /f for write: disk full"
    );
    assert_eq!(refused_write("/f", Ok(())).code, "fs.fileExists");
    assert_eq!(refused_write("/f", Err((IoErrorKind::NotFound, "e".to_string()))).code, "fs.fileNotFound");
}

#[test]
fn delete_and_read_guards() {
    assert_eq!(delete_action(true, true), DeleteAction::RemoveDirectoryTree);
    assert_eq!(delete_action(true, false), DeleteAction::RemoveEmptyDirectory);
    assert_eq!(delete_action(false, true), DeleteAction::RemoveFile);
    let error = reject_directory_read("/d", true).unwrap_err();
    assert_eq!(error.code, "fs.fileIsDirectory");
    assert_eq!(error.message, "cannot read directory as file: /d");
    assert!(reject_directory_read("/f", false).is_ok());
}

#[test]
fn stat_reports_type_times_and_size() {
    let metadata = FileMetadata {
        is_symlink: false,
        is_dir: false,
        is_file: true,
        created_millis: Some(1_000),
        modified_millis: None,
        len: 12,
        readonly: true,
    };
    assert_eq!(file_type_from_metadata(&metadata), FileTypeDto::File);
    let stat = stat_from_metadata(uri_from_path("/a.txt"), &metadata);
    assert_eq!(stat.file_type, FileTypeDto::File);
    assert_eq!(stat.ctime, 1_000);
    assert_eq!(stat.mtime, 0);
    assert_eq!(stat.size, 12);
    assert_eq!(stat.readonly, Some(true));
    assert_eq!(stat.resource.path, "/a.txt");
    let link = FileMetadata { is_symlink: true, is_dir: true, ..metadata };
    assert_eq!(file_type_from_metadata(&link), FileTypeDto::SymbolicLink);
}

#[test]
fn watch_events_become_sorted_unique_changes() {
    assert_eq!(change_type_from_event_kind(WatchEventKind::Create), FILE_CHANGE_TYPE_ADDED);
    assert_eq!(change_type_from_event_kind(WatchEventKind::RenameFrom), FILE_CHANGE_TYPE_DELETED);
    assert_eq!(change_type_from_event_kind(WatchEventKind::Modify), FILE_CHANGE_TYPE_UPDATED);
    let changes = changes_from_watch_event(
        WatchEventKind::Modify,
        &vec!["/b".to_string(), "/a".to_string(), "/b".to_string()],
    );
    let paths: Vec<&str> = changes.iter().map(|c| c.resource.path.as_str()).collect();
    assert_eq!(paths, vec!["/a", "/b"]);
    assert!(changes.iter().all(|c| c.change_type == FILE_CHANGE_TYPE_UPDATED));
}

#[test]
fn watch_event_payload_maps_rename_to_delete_and_add() {
    let old_path = "/tmp/vscode-atomic-watch-old.txt";
    let new_path = "/tmp/vscode-atomic-watch-new.txt";
    let changes = changes_from_watch_event(WatchEventKind::RenameBoth, &vec![old_path.to_string(), new_path.to_string()]);

    assert_eq!(changes.len(), 2);
    assert_eq!(changes[0].resource.path, old_path);
    assert_eq!(changes[0].change_type, FILE_CHANGE_TYPE_DELETED);
    assert_eq!(changes[1].resource.path, new_path);
    assert_eq!(changes[1].change_type, FILE_CHANGE_TYPE_ADDED);
}

#[test]
fn watch_event_payload_ignores_access_only_notifications() {
    let changes = changes_from_watch_event(WatchEventKind::Access, &vec!["/tmp/vscode-atomic-watch-access.txt".to_string()]);

    assert!(changes.is_empty());
}

#[test]
fn watch_ids_count_up_and_unwatch_reports_the_rest() {
    let mut table = WatchTable::new();
    let a = table.register();
    let b = table.register();
    assert_eq!(a, "watch-1");
    assert_eq!(b, "watch-2");
    assert_eq!(table.unwatch("watch-1"), Ok(1));
    let error = table.unwatch("watch-1").unwrap_err();
    assert_eq!(error.code, "fs.watchNotFound");
    assert_eq!(error.message, "file watch not found: watch-1");
}

#[test]
fn directory_entries_sort_by_name() {
    let entries = vec![
        FileDirEntryDto { name: "b".to_string(), file_type: FileTypeDto::File },
        FileDirEntryDto { name: "a".to_string(), file_type: FileTypeDto::Directory },
        FileDirEntryDto { name: "B".to_string(), file_type: FileTypeDto::File },
    ];
    let names: Vec<String> = sort_dir_entries(&entries).into_iter().map(|e| e.name).collect();
    assert_eq!(names, vec!["B", "a", "b"]);
}

#[test]
fn trash_names_and_places() {
    assert_eq!(xdg_data_home(Some("/xdg"), Some("/home/u")), Some("/xdg".to_string()));
    assert_eq!(xdg_data_home(Some(""), Some("/home/u")), Some("/home/u/.local/share".to_string()));
    assert_eq!(xdg_data_home(None, None), None);
    let (trash, files, info) = trash_dirs("/home/u/.local/share");
    assert_eq!(trash, "/home/u/.local/share/Trash");
    assert_eq!(files, "/home/u/.local/share/Trash/files");
    assert_eq!(info, "/home/u/.local/share/Trash/info");
    assert_eq!(trash_base_name("/tmp/notes.txt"), "notes.txt");
    assert_eq!(trash_candidate_name("notes.txt", 0), "notes.txt");
    assert_eq!(trash_candidate_name("notes.txt", 3), "notes.txt.3");
    assert_eq!(trash_info_name("notes.txt.3"), "notes.txt.3.trashinfo");
}

#[test]
fn file_and_watcher_commands_parse() {
    assert_eq!(FileCommand::parse("fs_read_file"), Ok(FileCommand::ReadFile));
    assert_eq!(FileCommand::parse("readdir"), Ok(FileCommand::Readdir));
    assert_eq!(FileCommand::parse("copy").unwrap_err().message, "fileService does not implement command: copy");
    assert!(WatcherCommand::parse("watch").is_ok());
    assert!(check_file_listen("fs_watch").is_ok());
    assert_eq!(check_file_listen("other").unwrap_err().code, "service.unsupportedListen");
    assert!(check_watcher_listen("onDidChangeFile").is_ok());
    assert!(check_watcher_listen("fs_watch").is_err());
}

#[test]
fn watch_payload_is_sent_only_with_changes() {
    let paths = vec!["/tmp/b".to_string(), "/tmp/a".to_string()];
    assert!(watch_event_payload(WatchEventKind::Access, "Access(Any)".to_string(), &paths).is_none());
    assert!(watch_event_payload(WatchEventKind::Create, "Create(File)".to_string(), &Vec::new()).is_none());
    let event = watch_event_payload(WatchEventKind::Create, "Create(File)".to_string(), &paths).expect("changes");
    assert_eq!(event.kind, "Create(File)");
    assert_eq!(event.changes.len(), 2);
    assert_eq!(event.changes[0].resource.path, "/tmp/a");
    assert_eq!(event.changes[0].change_type, 1);
}

#[test]
fn written_payload_decodes_to_the_bytes_read() {
    let samples: Vec<Vec<u8>> = vec![vec![], vec![0], vec![255, 1], vec![1, 2, 3], vec![250, 0, 7, 128, 64], (0..=255).collect()];
    for data in samples {
        let encoded = read_response(&data).data_base64;
        assert_eq!(decode_write_data(&encoded).expect("canonical encoding decodes"), data);
    }
}

#[test]
fn non_canonical_base64_is_refused() {
    for text in ["aGVsbG9=", "aGVsbG8", "aGVs bG8=", "aGVsbG8=="] {
        let error = decode_write_data(text).unwrap_err();
        assert_eq!(error.code, "fs.invalidData");
    }
}

#[test]
fn trash_name_search_steps() {
    assert_eq!(trash_probe_step("a.txt", "/t/files", "/w/a.txt", 0, Ok(())), TrashProbeStep::Next(1));
    assert_eq!(
        trash_probe_step("a.txt", "/t/files", "/w/a.txt", 3, Err((IoErrorKind::NotFound, "gone".to_string()))),
        TrashProbeStep::Use("a.txt.3".to_string())
    );
    assert_eq!(
        trash_probe_step("a.txt", "/t/files", "/w/a.txt", 0, Err((IoErrorKind::NotFound, "gone".to_string()))),
        TrashProbeStep::Use("a.txt".to_string())
    );
    match trash_probe_step("a.txt", "/t/files", "/w/a.txt", MAX_TRASH_ATTEMPTS - 1, Ok(())) {
        TrashProbeStep::Fail(e) => {
            assert_eq!(e.code, "fs.trashFailed");
            assert_eq!(e.message, "failed to find unused trash name for /w/a.txt");
        }
        other => panic!("expected failure, got {:?}", other),
    }
    match trash_probe_step("a.txt", "/t/files", "/w/a.txt", 2, Err((IoErrorKind::PermissionDenied, "denied".to_string()))) {
        TrashProbeStep::Fail(e) => {
            assert_eq!(e.code, "fs.noPermissions");
            assert_eq!(e.message, "failed to stat trash candidate /t/files: denied");
        }
        other => panic!("expected failure, got {:?}", other),
    }
}
