//! The file and watcher services' decisions: how a write target is opened,
//! how a delete proceeds, how failures are reported, where deleted files go
//! in the trash, which file changes a watch event reports, and the table of
//! active watches. The file system calls themselves happen outside.
use vstd::prelude::*;
use crate::contracts::{FileDirEntryDto, FileReadResponse, FileStatDto, FileTypeDto, UriDto};
use crate::file_uri::{file_error, is_absolute_posix, path_to_file_uri, posix_path_uri, UriView};
use crate::numfmt::{decimal, lemma_decimal_injective, push_decimal, to_decimal};
use crate::paths::{join_spec, path_join};
use crate::service_registry::{service_name, ServiceError, ServiceId};
use crate::pathorder::{char_order, lemma_lex_irreflexive, lemma_lex_strict_total, lemma_lex_total, lemma_lex_transitive, lex_lt, sorted_unique_of, sorted_unique_paths, strict_total, string_views, Rel};
use crate::workbench::{components, CompSpec, path_components, PathComponent};
use crate::text::{concat2, concat3, owned, push_str, str_eq};

verus! {

pub const FILE_CHANGE_TYPE_UPDATED: u8 = 0;
pub const FILE_CHANGE_TYPE_ADDED: u8 = 1;
pub const FILE_CHANGE_TYPE_DELETED: u8 = 2;

/// Names an active file watch.
#[derive(Debug, Clone, PartialEq, Eq)]
pub struct WatchId(pub String);

/// Asks to watch a file or directory.
#[derive(Debug, Clone, PartialEq, Eq)]
pub struct FileWatchRequest {
    pub resource: UriDto,
    pub recursive: bool,
}

#[derive(Debug, Clone, PartialEq, Eq)]
pub struct FileWatchResponse {
    pub watch_id: WatchId,
}

#[derive(Debug, Clone, PartialEq, Eq)]
pub struct FileUnwatchRequest {
    pub watch_id: WatchId,
}

/// A changed file and how it changed.
#[derive(Debug, Clone, PartialEq, Eq)]
pub struct FileChangeDto {
    pub resource: UriDto,
    pub change_type: u8,
}

/// The changes one watch event reports, with the event's kind.
#[derive(Debug, Clone, PartialEq, Eq)]
pub struct FileWatchEventDto {
    pub changes: Vec<FileChangeDto>,
    pub kind: String,
}

/// The kind of an I/O failure, as far as the services tell kinds apart.
#[derive(Debug, Clone, Copy, PartialEq, Eq, Structural)]
pub enum IoErrorKind {
    NotFound,
    AlreadyExists,
    PermissionDenied,
    Other,
}

/// The code an I/O failure is reported with: its kind's, or the operation's
/// default.
pub open spec fn io_error_code(default_code: Seq<char>, kind: IoErrorKind) -> Seq<char> {
    match kind {
        IoErrorKind::NotFound => "fs.fileNotFound"@,
        IoErrorKind::AlreadyExists => "fs.fileExists"@,
        IoErrorKind::PermissionDenied => "fs.noPermissions"@,
        IoErrorKind::Other => default_code,
    }
}

/// Reports a failed file system operation: `failed to <operation> <path>:
/// <error>`, coded by the failure's kind.
pub fn map_io_error(default_code: &'static str, operation: &str, path: &str, kind: IoErrorKind, error: &str) -> (e: ServiceError)
    ensures
        e.code@ == io_error_code(default_code@, kind),
        e.message@ == "failed to "@ + operation@ + " "@ + path@ + ": "@ + error@,
{
    let code = match kind {
        IoErrorKind::NotFound => "fs.fileNotFound",
        IoErrorKind::AlreadyExists => "fs.fileExists",
        IoErrorKind::PermissionDenied => "fs.noPermissions",
        IoErrorKind::Other => default_code,
    };
    let mut message = concat3("failed to ", operation, " ");
    push_str(&mut message, path);
    push_str(&mut message, ": ");
    push_str(&mut message, error);
    file_error(code, message)
}

/// A write target that could not be opened.
pub fn write_open_error(path: &str, error: &str) -> (e: ServiceError)
    ensures
        e.code@ == "fs.writeFailed"@,
        e.message@ == "failed to open "@ + path@ + " for write: "@ + error@,
{
    let mut message = concat3("failed to open ", path, " for write: ");
    push_str(&mut message, error);
    file_error("fs.writeFailed", message)
}

/// The path does not exist.
pub fn file_not_found(path: &str) -> (e: ServiceError)
    ensures
        e.code@ == "fs.fileNotFound"@,
        e.message@ == "file not found: "@ + path@,
{
    file_error("fs.fileNotFound", concat2("file not found: ", path))
}

/// The path exists already.
pub fn file_exists(path: &str) -> (e: ServiceError)
    ensures
        e.code@ == "fs.fileExists"@,
        e.message@ == "file already exists: "@ + path@,
{
    file_error("fs.fileExists", concat2("file already exists: ", path))
}

/// How a write target is opened, by the request's `create` and `overwrite`.
#[derive(Debug, Clone, Copy, PartialEq, Eq, Structural)]
pub enum WriteOpenStep {
    /// Create a new file; an existing one is refused.
    CreateNew,
    /// Create or truncate.
    CreateOrTruncate,
    /// Truncate a file that must exist.
    TruncateExisting,
    /// Neither creating nor overwriting is allowed: only look whether the
    /// file exists, to report why the write is refused.
    Refuse,
}

pub open spec fn write_open_step_spec(create: bool, overwrite: bool) -> WriteOpenStep {
    if create && !overwrite {
        WriteOpenStep::CreateNew
    } else if create && overwrite {
        WriteOpenStep::CreateOrTruncate
    } else if overwrite {
        WriteOpenStep::TruncateExisting
    } else {
        WriteOpenStep::Refuse
    }
}

pub fn write_open_step(create: bool, overwrite: bool) -> (s: WriteOpenStep)
    ensures
        s == write_open_step_spec(create, overwrite),
{
    match (create, overwrite) {
        (true, false) => WriteOpenStep::CreateNew,
        (true, true) => WriteOpenStep::CreateOrTruncate,
        (false, true) => WriteOpenStep::TruncateExisting,
        (false, false) => WriteOpenStep::Refuse,
    }
}

/// How a failure to open (or, for a truncation, to find) the write target
/// is reported: a missing file or an existing one where the step forbids
/// it gets its own code, anything else is a write failure.
pub open spec fn write_open_failure_spec(step: WriteOpenStep, path: Seq<char>, kind: IoErrorKind, error: Seq<char>) -> (Seq<char>, Seq<char>) {
    match (step, kind) {
        (WriteOpenStep::CreateNew, IoErrorKind::AlreadyExists) => ("fs.fileExists"@, "file already exists: "@ + path),
        (WriteOpenStep::TruncateExisting, IoErrorKind::NotFound) => ("fs.fileNotFound"@, "file not found: "@ + path),
        (WriteOpenStep::Refuse, IoErrorKind::NotFound) => ("fs.fileNotFound"@, "file not found: "@ + path),
        _ => ("fs.writeFailed"@, "failed to open "@ + path + " for write: "@ + error),
    }
}

pub fn write_open_failure(step: WriteOpenStep, path: &str, kind: IoErrorKind, error: &str) -> (e: ServiceError)
    ensures
        (e.code@, e.message@) == write_open_failure_spec(step, path@, kind, error@),
{
    match (step, kind) {
        (WriteOpenStep::CreateNew, IoErrorKind::AlreadyExists) => file_exists(path),
        (WriteOpenStep::TruncateExisting, IoErrorKind::NotFound) => file_not_found(path),
        (WriteOpenStep::Refuse, IoErrorKind::NotFound) => file_not_found(path),
        _ => write_open_error(path, error),
    }
}

/// A write that may neither create nor overwrite is always refused: as
/// existing when the file is there, else by why it could not be looked at.
pub fn refused_write(path: &str, probe: Result<(), (IoErrorKind, String)>) -> (e: ServiceError)
    ensures
        match probe {
            Ok(()) => e.code@ == "fs.fileExists"@ && e.message@ == "file already exists: "@ + path@,
            Err((kind, error)) => (e.code@, e.message@) == write_open_failure_spec(WriteOpenStep::Refuse, path@, kind, error@),
        },
{
    match probe {
        Ok(()) => file_exists(path),
        Err((kind, error)) => write_open_failure(WriteOpenStep::Refuse, path, kind, error.as_str()),
    }
}

/// What a delete removes, by the kind of the target.
#[derive(Debug, Clone, Copy, PartialEq, Eq, Structural)]
pub enum DeleteAction {
    RemoveDirectoryTree,
    RemoveEmptyDirectory,
    RemoveFile,
}

pub fn delete_action(is_dir: bool, recursive: bool) -> (a: DeleteAction)
    ensures
        a == if is_dir {
            if recursive { DeleteAction::RemoveDirectoryTree } else { DeleteAction::RemoveEmptyDirectory }
        } else {
            DeleteAction::RemoveFile
        },
{
    if is_dir {
        if recursive { DeleteAction::RemoveDirectoryTree } else { DeleteAction::RemoveEmptyDirectory }
    } else {
        DeleteAction::RemoveFile
    }
}

/// A delete whose target could not be looked at: missing, or a failure of
/// the look itself (`operation` says which look).
pub fn delete_lookup_error(default_code: &'static str, operation: &str, path: &str, kind: IoErrorKind, error: &str) -> (e: ServiceError)
    ensures
        kind == IoErrorKind::NotFound ==> e.code@ == "fs.fileNotFound"@ && e.message@ == "file not found: "@ + path@,
        kind != IoErrorKind::NotFound ==> e.code@ == io_error_code(default_code@, kind)
            && e.message@ == "failed to "@ + operation@ + " "@ + path@ + ": "@ + error@,
{
    if kind == IoErrorKind::NotFound {
        file_not_found(path)
    } else {
        map_io_error(default_code, operation, path, kind, error)
    }
}

/// A directory is not read as a file.
pub fn reject_directory_read(path: &str, is_dir: bool) -> (r: Result<(), ServiceError>)
    ensures
        is_dir ==> (r matches Err(e) && e.code@ == "fs.fileIsDirectory"@
            && e.message@ == "cannot read directory as file: "@ + path@),
        !is_dir ==> r is Ok,
{
    if is_dir {
        Err(file_error("fs.fileIsDirectory", concat2("cannot read directory as file: ", path)))
    } else {
        Ok(())
    }
}

/// What the services read of a file system entry's metadata.
#[derive(Debug, Clone, Copy, PartialEq, Eq)]
pub struct FileMetadata {
    pub is_symlink: bool,
    pub is_dir: bool,
    pub is_file: bool,
    /// Milliseconds since the epoch, when known.
    pub created_millis: Option<u128>,
    pub modified_millis: Option<u128>,
    pub len: u64,
    pub readonly: bool,
}

/// The entry's kind; a symbolic link counts as a link, not as what it
/// points to.
pub fn file_type_from_metadata(metadata: &FileMetadata) -> (t: FileTypeDto)
    ensures
        t == if metadata.is_symlink {
            FileTypeDto::SymbolicLink
        } else if metadata.is_dir {
            FileTypeDto::Directory
        } else if metadata.is_file {
            FileTypeDto::File
        } else {
            FileTypeDto::Unknown
        },
{
    if metadata.is_symlink {
        FileTypeDto::SymbolicLink
    } else if metadata.is_dir {
        FileTypeDto::Directory
    } else if metadata.is_file {
        FileTypeDto::File
    } else {
        FileTypeDto::Unknown
    }
}

/// A time in milliseconds, capped at `u64::MAX`; an unknown time is 0.
pub fn system_time_millis(millis: Option<u128>) -> (r: u64)
    ensures
        r == match millis {
            Some(m) => if m > u64::MAX as u128 { u64::MAX } else { m as u64 },
            None => 0,
        },
{
    match millis {
        Some(m) => if m > u64::MAX as u128 { u64::MAX } else { m as u64 },
        None => 0,
    }
}

/// The stat of an entry from its metadata.
pub fn stat_from_metadata(resource: UriDto, metadata: &FileMetadata) -> (s: FileStatDto)
    ensures
        s.resource == resource,
        s.file_type == file_type_from_metadata_spec(*metadata),
        s.ctime == system_time_millis_spec(metadata.created_millis),
        s.mtime == system_time_millis_spec(metadata.modified_millis),
        s.size == metadata.len,
        s.readonly == Some(metadata.readonly),
{
    FileStatDto {
        resource,
        file_type: file_type_from_metadata(metadata),
        ctime: system_time_millis(metadata.created_millis),
        mtime: system_time_millis(metadata.modified_millis),
        size: metadata.len,
        readonly: Some(metadata.readonly),
    }
}

pub open spec fn file_type_from_metadata_spec(m: FileMetadata) -> FileTypeDto {
    if m.is_symlink {
        FileTypeDto::SymbolicLink
    } else if m.is_dir {
        FileTypeDto::Directory
    } else if m.is_file {
        FileTypeDto::File
    } else {
        FileTypeDto::Unknown
    }
}

pub open spec fn system_time_millis_spec(millis: Option<u128>) -> u64 {
    match millis {
        Some(m) => if m > u64::MAX as u128 { u64::MAX } else { m as u64 },
        None => 0,
    }
}

/// Whether a write goes to an absolute or a relative path, as reported in
/// write failure metrics.
pub fn write_path_class(path: &str) -> (r: &'static str)
    ensures
        is_absolute_posix(path@) ==> r@ == "absolute"@,
        !is_absolute_posix(path@) ==> r@ == "relative"@,
{
    let cs = crate::text::chars_of(path);
    if cs.len() > 0 && cs[0] == '/' {
        "absolute"
    } else {
        "relative"
    }
}

/// The URI a watched path is reported under: its `file:` URI, or, for a
/// path that has none, the path as it is.
pub open spec fn watch_uri(p: Seq<char>) -> UriView {
    if is_absolute_posix(p) {
        posix_path_uri(p)
    } else {
        UriView { scheme: "file"@, authority: None, path: p, query: None, fragment: None }
    }
}

pub fn uri_from_path(path: &str) -> (u: UriDto)
    ensures
        u@ == watch_uri(path@),
{
    match path_to_file_uri(path) {
        Ok(uri) => uri,
        Err(_) => UriDto { scheme: owned("file"), authority: None, path: owned(path), query: None, fragment: None },
    }
}

/// What happened in a watch event, as far as the reported changes depend
/// on it.
#[derive(Debug, Clone, Copy, PartialEq, Eq, Structural)]
pub enum WatchEventKind {
    Any,
    Access,
    Create,
    /// A rename that names both the old and the new path.
    RenameBoth,
    /// A rename seen from its old path.
    RenameFrom,
    /// A rename seen from its new path.
    RenameTo,
    /// Any other modification.
    Modify,
    Remove,
    Other,
}

/// The change type of an event's paths.
pub open spec fn change_type_spec(kind: WatchEventKind) -> u8 {
    match kind {
        WatchEventKind::Create | WatchEventKind::RenameTo => FILE_CHANGE_TYPE_ADDED,
        WatchEventKind::Remove | WatchEventKind::RenameFrom => FILE_CHANGE_TYPE_DELETED,
        _ => FILE_CHANGE_TYPE_UPDATED,
    }
}

pub fn change_type_from_event_kind(kind: WatchEventKind) -> (t: u8)
    ensures
        t == change_type_spec(kind),
{
    match kind {
        WatchEventKind::Create | WatchEventKind::RenameTo => FILE_CHANGE_TYPE_ADDED,
        WatchEventKind::Remove | WatchEventKind::RenameFrom => FILE_CHANGE_TYPE_DELETED,
        _ => FILE_CHANGE_TYPE_UPDATED,
    }
}

/// The change type an event kind reports: a removal, or a rename seen from
/// its old path, deletes (`2`); a creation, or a rename seen from its new
/// path, adds (`1`); every other kind updates (`0`).
pub proof fn lemma_change_type_of_kind(kind: WatchEventKind)
    ensures
        change_type_spec(kind) == 2u8 <==> (kind == WatchEventKind::Remove || kind == WatchEventKind::RenameFrom),
        change_type_spec(kind) == 1u8 <==> (kind == WatchEventKind::Create || kind == WatchEventKind::RenameTo),
        change_type_spec(kind) == 0u8 <==> !(kind == WatchEventKind::Remove || kind == WatchEventKind::RenameFrom
            || kind == WatchEventKind::Create || kind == WatchEventKind::RenameTo),
        FILE_CHANGE_TYPE_UPDATED == 0u8 && FILE_CHANGE_TYPE_ADDED == 1u8 && FILE_CHANGE_TYPE_DELETED == 2u8,
{
}

/// Every change that a removal reports is a deletion, of a path the event
/// named.
pub proof fn lemma_removed_paths_reported_deleted(paths: Seq<Seq<char>>, out: Seq<Seq<char>>, changes: Seq<(UriView, u8)>)
    requires
        sorted_unique_of(out, paths),
        changes == out.map_values(|p: Seq<char>| (watch_uri(p), change_type_spec(WatchEventKind::Remove))),
    ensures
        forall|i: int| 0 <= i < changes.len() ==> (#[trigger] changes[i]).1 == 2u8
            && exists|j: int| 0 <= j < paths.len() && changes[i].0 == watch_uri(paths[j]),
{
    assert forall|i: int| 0 <= i < changes.len() implies (#[trigger] changes[i]).1 == 2u8
        && exists|j: int| 0 <= j < paths.len() && changes[i].0 == watch_uri(paths[j]) by {
        assert(changes[i] == (watch_uri(out[i]), change_type_spec(WatchEventKind::Remove)));
        assert(crate::pathorder::has_first_source(out[i], paths));
        let j = choose|j: int| 0 <= j < paths.len() && #[trigger] paths[j] == out[i]
            && crate::pathorder::first_of_class(paths, j);
        assert(changes[i].0 == watch_uri(paths[j]));
    }
}

pub open spec fn change_views(v: Seq<FileChangeDto>) -> Seq<(UriView, u8)> {
    v.map_values(|c: FileChangeDto| (c.resource@, c.change_type))
}

/// The changes of one kind for a list of paths: the paths sorted and
/// without repeats, each under its URI.
pub fn sorted_changes(paths: &Vec<String>, change_type: u8) -> (changes: Vec<FileChangeDto>)
    ensures
        exists|out: Seq<Seq<char>>| sorted_unique_of(out, string_views(paths@))
            && change_views(changes@) == out.map_values(|p: Seq<char>| (watch_uri(p), change_type)),
{
    let sorted = sorted_unique_paths(paths);
    let mut changes: Vec<FileChangeDto> = Vec::new();
    let mut i: usize = 0;
    let ghost sv = string_views(sorted@);
    while i < sorted.len()
        invariant
            sv == string_views(sorted@),
            i <= sorted@.len(),
            change_views(changes@) == sv.take(i as int).map_values(|p: Seq<char>| (watch_uri(p), change_type)),
        decreases sorted@.len() - i,
    {
        let ghost before = changes@;
        changes.push(FileChangeDto { resource: uri_from_path(sorted[i].as_str()), change_type });
        proof {
            assert(changes@.drop_last() =~= before);
            assert(change_views(changes@) =~= change_views(before).push((watch_uri(sv[i as int]), change_type)));
            assert(sv.take(i + 1) =~= sv.take(i as int).push(sv[i as int]));
            assert(sv.take(i + 1).map_values(|p: Seq<char>| (watch_uri(p), change_type))
                =~= sv.take(i as int).map_values(|p: Seq<char>| (watch_uri(p), change_type)).push((watch_uri(sv[i as int]), change_type)));
        }
        i = i + 1;
    }
    proof { assert(sv.take(sorted@.len() as int) =~= sv); }
    changes
}

/// The changes a watch event reports. Access is not a change. A rename
/// that names both paths reports the old one deleted and the new one
/// added; any other event reports its paths, sorted and without repeats,
/// with the change type of its kind.
pub fn changes_from_watch_event(kind: WatchEventKind, paths: &Vec<String>) -> (changes: Vec<FileChangeDto>)
    ensures
        kind == WatchEventKind::Access ==> changes@.len() == 0,
        kind == WatchEventKind::RenameBoth && paths@.len() >= 2 ==> change_views(changes@) == seq![
            (watch_uri(paths@[0]@), FILE_CHANGE_TYPE_DELETED),
            (watch_uri(paths@[1]@), FILE_CHANGE_TYPE_ADDED),
        ],
        kind != WatchEventKind::Access && !(kind == WatchEventKind::RenameBoth && paths@.len() >= 2)
            ==> exists|out: Seq<Seq<char>>| sorted_unique_of(out, string_views(paths@))
                && change_views(changes@) == out.map_values(|p: Seq<char>| (watch_uri(p), change_type_spec(kind))),
{
    if kind == WatchEventKind::Access {
        return Vec::new();
    }
    if kind == WatchEventKind::RenameBoth && paths.len() >= 2 {
        let mut changes: Vec<FileChangeDto> = Vec::new();
        changes.push(FileChangeDto { resource: uri_from_path(paths[0].as_str()), change_type: FILE_CHANGE_TYPE_DELETED });
        changes.push(FileChangeDto { resource: uri_from_path(paths[1].as_str()), change_type: FILE_CHANGE_TYPE_ADDED });
        proof {
            assert(change_views(changes@) =~= seq![
                (watch_uri(paths@[0]@), FILE_CHANGE_TYPE_DELETED),
                (watch_uri(paths@[1]@), FILE_CHANGE_TYPE_ADDED),
            ]);
        }
        return changes;
    }
    sorted_changes(paths, change_type_from_event_kind(kind))
}

/// What a watch event sends: its changes, under the name of its kind, when
/// it reports any change; nothing for an access or an event without paths.
pub fn watch_event_payload(kind: WatchEventKind, kind_name: String, paths: &Vec<String>) -> (r: Option<FileWatchEventDto>)
    ensures
        r is None <==> (kind == WatchEventKind::Access || paths@.len() == 0),
        r matches Some(e) ==> {
            &&& e.kind == kind_name
            &&& e.changes@.len() > 0
            &&& (kind == WatchEventKind::RenameBoth && paths@.len() >= 2 ==> change_views(e.changes@) == seq![
                (watch_uri(paths@[0]@), FILE_CHANGE_TYPE_DELETED),
                (watch_uri(paths@[1]@), FILE_CHANGE_TYPE_ADDED),
            ])
            &&& (!(kind == WatchEventKind::RenameBoth && paths@.len() >= 2)
                ==> exists|out: Seq<Seq<char>>| sorted_unique_of(out, string_views(paths@))
                && change_views(e.changes@) == out.map_values(|p: Seq<char>| (watch_uri(p), change_type_spec(kind))))
        },
{
    let changes = changes_from_watch_event(kind, paths);
    proof {
        if kind != WatchEventKind::Access && !(kind == WatchEventKind::RenameBoth && paths@.len() >= 2) {
            let out = choose|out: Seq<Seq<char>>| sorted_unique_of(out, string_views(paths@))
                && change_views(changes@) == out.map_values(|p: Seq<char>| (watch_uri(p), change_type_spec(kind)));
            assert(change_views(changes@).len() == changes@.len());
            if paths@.len() > 0 {
                assert(crate::pathorder::has_class(out, string_views(paths@)[0]));
                assert(out.len() > 0);
            } else if out.len() > 0 {
                assert(crate::pathorder::has_first_source(out[0], string_views(paths@)));
            }
        }
        if kind == WatchEventKind::RenameBoth && paths@.len() >= 2 {
            assert(change_views(changes@).len() == changes@.len());
        }
    }
    let event = FileWatchEventDto { changes, kind: kind_name };
    if watch_event_has_changes(&event) {
        Some(event)
    } else {
        None
    }
}

/// A watch event is sent only when it reports some change.
pub fn watch_event_has_changes(event: &FileWatchEventDto) -> (r: bool)
    ensures
        r == (event.changes@.len() > 0),
{
    event.changes.len() > 0
}

/// The active watches, by id, and the number of watches created so far.
pub struct WatchTable {
    ids: Vec<String>,
    created: u64,
}

/// The id of the watch created after `n` others.
pub open spec fn watch_id_spec(n: u64) -> Seq<char> {
    "watch-"@ + decimal(n as nat + 1)
}

/// Whether `id` is the id of one of the first `created` watches.
pub open spec fn is_issued(id: Seq<char>, created: u64) -> bool {
    exists|n: u64| n < created && id == watch_id_spec(n)
}

impl WatchTable {
    /// The ids of the active watches.
    pub closed spec fn active(&self) -> Set<Seq<char>> {
        string_views(self.ids@).to_set()
    }

    /// How many watches were created.
    pub closed spec fn created(&self) -> u64 {
        self.created
    }

    /// The number of active watches.
    pub closed spec fn active_len(&self) -> nat {
        self.ids@.len()
    }

    /// No id is active twice.
    pub closed spec fn wf(&self) -> bool {
        string_views(self.ids@).no_duplicates()
            && forall|i: int| 0 <= i < self.ids@.len() ==> is_issued(#[trigger] self.ids@[i]@, self.created)
    }

    /// Whether another watch can be registered: the watch numbers are not
    /// used up.
    pub fn can_register(&self) -> (r: bool)
        ensures
            r == (self.created() < u64::MAX),
    {
        self.created < u64::MAX
    }

    pub fn new() -> (t: WatchTable)
        ensures
            t.wf(),
            t.active() == Set::<Seq<char>>::empty(),
            t.created() == 0,
            t.active_len() == 0,
    {
        let t = WatchTable { ids: Vec::new(), created: 0 };
        proof { assert(string_views(t.ids@) =~= Seq::<Seq<char>>::empty()); }
        t
    }

    /// Registers a new watch and returns its id, `watch-<n>` for the n-th
    /// watch created.
    pub fn register(&mut self) -> (id: String)
        requires
            old(self).wf(),
            old(self).created() < u64::MAX,
        ensures
            final(self).wf(),
            id@ == watch_id_spec(old(self).created()),
            !old(self).active().contains(id@),
            final(self).active() == old(self).active().insert(id@),
            final(self).created() == old(self).created() + 1,
            final(self).active_len() == old(self).active_len() + 1,
    {
        let n = self.created;
        let mut id = owned("watch-");
        push_decimal(&mut id, n + 1);
        let ghost ov = string_views(self.ids@);
        proof {
            assert forall|i: int| 0 <= i < ov.len() implies #[trigger] ov[i] != id@ by {
                assert(is_issued(self.ids@[i]@, n));
                let m = choose|m: u64| m < n && self.ids@[i]@ == watch_id_spec(m);
                if ov[i] == id@ {
                    let p = "watch-"@;
                    assert(watch_id_spec(m).skip(p.len() as int) =~= decimal(m as nat + 1));
                    assert(id@.skip(p.len() as int) =~= decimal(n as nat + 1));
                    lemma_decimal_injective(m as nat + 1, n as nat + 1);
                }
            }
            assert(!ov.contains(id@));
        }
        self.ids.push(owned(id.as_str()));
        self.created = n + 1;
        proof {
            let nv = string_views(self.ids@);
            assert(nv =~= ov.push(id@));
            assert(nv.no_duplicates()) by {
                assert forall|a: int, b: int| 0 <= a < nv.len() && 0 <= b < nv.len() && a != b implies nv[a] != nv[b] by {
                    if a < ov.len() && b < ov.len() {
                        assert(nv[a] == ov[a] && nv[b] == ov[b]);
                    } else if a < ov.len() {
                        assert(nv[a] == ov[a]);
                    } else if b < ov.len() {
                        assert(nv[b] == ov[b]);
                    }
                }
            }
            assert forall|i: int| 0 <= i < self.ids@.len() implies is_issued(#[trigger] self.ids@[i]@, self.created) by {
                if i < ov.len() {
                    assert(self.ids@[i]@ == old(self).ids@[i]@);
                    assert(is_issued(old(self).ids@[i]@, n));
                    let m = choose|m: u64| m < n && old(self).ids@[i]@ == watch_id_spec(m);
                    assert(self.ids@[i]@ == watch_id_spec(m));
                } else {
                    assert(self.ids@[i]@ == watch_id_spec(n));
                }
            }
            assert(nv.to_set() =~= ov.to_set().insert(id@)) by {
                assert forall|x: Seq<char>| nv.to_set().contains(x) <==> ov.to_set().insert(id@).contains(x) by {
                    if nv.contains(x) {
                        let a = choose|a: int| 0 <= a < nv.len() && nv[a] == x;
                        if a < ov.len() {
                            assert(ov[a] == x);
                        }
                    }
                    if ov.contains(x) {
                        let a = choose|a: int| 0 <= a < ov.len() && ov[a] == x;
                        assert(nv[a] == x);
                    }
                    if x == id@ {
                        assert(nv[ov.len() as int] == x);
                    }
                }
            }
        }
        id
    }

    /// Removes a watch; says how many stay active. An unknown id is refused
    /// with `fs.watchNotFound`.
    pub fn unwatch(&mut self, id: &str) -> (r: Result<usize, ServiceError>)
        requires
            old(self).wf(),
        ensures
            final(self).wf(),
            final(self).created() == old(self).created(),
            old(self).active().contains(id@) ==> final(self).active() == old(self).active().remove(id@)
                && final(self).active_len() == old(self).active_len() - 1
                && r == Ok::<usize, ServiceError>(final(self).active_len() as usize),
            !old(self).active().contains(id@) ==> final(self).active() == old(self).active()
                && final(self).active_len() == old(self).active_len()
                && (r matches Err(e) && e.code@ == "fs.watchNotFound"@ && e.message@ == "file watch not found: "@ + id@),
    {
        let ghost ov = string_views(self.ids@);
        let mut i: usize = 0;
        while i < self.ids.len()
            invariant
                ov == string_views(self.ids@),
                self.ids@ == old(self).ids@,
                self.created == old(self).created,
                old(self).wf(),
                i <= ov.len(),
                forall|k: int| 0 <= k < i ==> ov[k] != id@,
            decreases ov.len() - i,
        {
            if str_eq(self.ids[i].as_str(), id) {
                let ghost old_ids = self.ids@;
                self.ids.remove(i);
                proof {
                    let nv = string_views(self.ids@);
                    assert(nv =~= ov.remove(i as int));
                    assert(nv.no_duplicates()) by {
                        assert forall|a: int, b: int| 0 <= a < nv.len() && 0 <= b < nv.len() && a != b implies nv[a] != nv[b] by {
                            let oa = if a < i { a } else { a + 1 };
                            let ob = if b < i { b } else { b + 1 };
                            assert(nv[a] == ov[oa] && nv[b] == ov[ob]);
                        }
                    }
                    assert forall|k: int| 0 <= k < self.ids@.len() implies is_issued(#[trigger] self.ids@[k]@, self.created) by {
                        let ok = if k < i { k } else { k + 1 };
                        assert(self.ids@[k] == old_ids[ok]);
                        assert(is_issued(old_ids[ok]@, self.created));
                    }
                    assert(nv.to_set() =~= ov.to_set().remove(id@)) by {
                        assert forall|x: Seq<char>| nv.to_set().contains(x) <==> ov.to_set().remove(id@).contains(x) by {
                            if nv.contains(x) {
                                let a = choose|a: int| 0 <= a < nv.len() && nv[a] == x;
                                let oa = if a < i { a } else { a + 1 };
                                assert(ov[oa] == x);
                                assert(oa != i);
                                assert(ov[i as int] == id@);
                                assert(ov.no_duplicates());
                                assert(x != id@);
                                assert(ov.contains(x));
                            }
                            if ov.contains(x) && x != id@ {
                                let a = choose|a: int| 0 <= a < ov.len() && ov[a] == x;
                                assert(a != i);
                                let na = if a < i { a } else { a - 1 };
                                assert(nv[na] == x);
                            }
                        }
                    }
                }
                proof {
                    assert(ov[i as int] == id@);
                    assert(ov.contains(id@));
                }
                return Ok(self.ids.len());
            }
            i = i + 1;
        }
        proof { assert(!ov.contains(id@)); }
        Err(file_error("fs.watchNotFound", concat2("file watch not found: ", id)))
    }
}

/// The base of the data directory: `$XDG_DATA_HOME` when set and not
/// empty, else `$HOME/.local/share`; `None` when neither is there.
pub open spec fn xdg_data_home_spec(xdg: Option<Seq<char>>, home: Option<Seq<char>>) -> Option<Seq<char>> {
    match xdg {
        Some(x) if x.len() > 0 => Some(x),
        _ => match home {
            Some(h) => Some(join_spec(h, ".local/share"@)),
            None => None,
        },
    }
}

pub fn xdg_data_home(xdg: Option<&str>, home: Option<&str>) -> (r: Option<String>)
    ensures
        match xdg_data_home_spec(
            match xdg { Some(x) => Some(x@), None => None },
            match home { Some(h) => Some(h@), None => None },
        ) {
            Some(p) => r matches Some(got) && got@ == p,
            None => r is None,
        },
{
    match xdg {
        Some(x) => {
            if !x.is_empty() {
                return Some(owned(x));
            }
        },
        None => {},
    }
    match home {
        Some(h) => Some(path_join(h, ".local/share")),
        None => None,
    }
}

/// The trash home could not be found.
pub fn trash_home_error(error: &str) -> (e: ServiceError)
    ensures
        e.code@ == "fs.trashFailed"@,
        e.message@ == "failed to resolve trash home: "@ + error@,
{
    file_error("fs.trashFailed", concat2("failed to resolve trash home: ", error))
}

/// The trash directories under a data directory: the trash itself, its
/// `files` and its `info` directory.
pub fn trash_dirs(data_home: &str) -> (r: (String, String, String))
    ensures
        r.0@ == join_spec(data_home@, "Trash"@),
        r.1@ == join_spec(join_spec(data_home@, "Trash"@), "files"@),
        r.2@ == join_spec(join_spec(data_home@, "Trash"@), "info"@),
{
    let trash = path_join(data_home, "Trash");
    let files = path_join(trash.as_str(), "files");
    let info = path_join(trash.as_str(), "info");
    (trash, files, info)
}

/// The last component of a path when it is a name, as `Path::file_name`
/// gives it.
pub open spec fn file_name_spec(p: Seq<char>) -> Option<Seq<char>> {
    let c = components(p);
    if c.len() > 0 {
        match c.last() {
            CompSpec::Normal(n) => Some(n),
            _ => None,
        }
    } else {
        None
    }
}

/// The name a trashed file keeps: its own, or `deleted` when it has none.
pub open spec fn trash_base_spec(p: Seq<char>) -> Seq<char> {
    match file_name_spec(p) {
        Some(n) if n.len() > 0 => n,
        _ => "deleted"@,
    }
}

pub fn trash_base_name(path: &str) -> (r: String)
    ensures
        r@ == trash_base_spec(path@),
{
    let comps = path_components(path);
    proof { assert(crate::workbench::comps_view(comps@) == components(path@)); }
    if comps.len() > 0 {
        match &comps[comps.len() - 1] {
            PathComponent::Normal(n) => {
                proof { assert(crate::workbench::comps_view(comps@).last() == crate::workbench::comp_view(comps@.last())); }
                if !n.as_str().is_empty() {
                    return owned(n.as_str());
                }
            },
            _ => {
                proof { assert(crate::workbench::comps_view(comps@).last() == crate::workbench::comp_view(comps@.last())); }
            },
        }
    }
    owned("deleted")
}

/// How many names are tried for a trashed file.
pub const MAX_TRASH_ATTEMPTS: u32 = 1000;

/// The name tried at an attempt: the base name first, then `<base>.<n>`.
pub open spec fn trash_candidate_spec(base: Seq<char>, attempt: u32) -> Seq<char> {
    if attempt == 0 { base } else { base + "."@ + decimal(attempt as nat) }
}

pub fn trash_candidate_name(base: &str, attempt: u32) -> (r: String)
    ensures
        r@ == trash_candidate_spec(base@, attempt),
{
    if attempt == 0 {
        owned(base)
    } else {
        let mut r = concat2(base, ".");
        push_decimal(&mut r, attempt as u64);
        r
    }
}

/// The name of the info file that goes with a trashed file.
pub fn trash_info_name(name: &str) -> (r: String)
    ensures
        r@ == name@ + ".trashinfo"@,
{
    concat2(name, ".trashinfo")
}

/// No free name was found for a trashed file.
pub fn trash_exhausted_error(path: &str) -> (e: ServiceError)
    ensures
        e.code@ == "fs.trashFailed"@,
        e.message@ == "failed to find unused trash name for "@ + path@,
{
    file_error("fs.trashFailed", concat2("failed to find unused trash name for ", path))
}

/// What one look at a candidate trash name decides.
#[derive(Debug, Clone, PartialEq, Eq)]
pub enum TrashProbeStep {
    /// Nothing has that name: move the file there.
    Use(String),
    /// The name is taken: look at the candidate of this attempt next.
    Next(u32),
    /// Give up with this error.
    Fail(ServiceError),
}

/// One step of the search for a free trash name. `existing` is what looking
/// up the candidate of `attempt` in `files_dir` gave: `Ok` when something
/// has that name, else the kind and text of the error. A missing entry
/// frees the name; a taken one moves on to the next attempt, until the
/// attempts run out; any other error stops the search.
pub fn trash_probe_step(
    base: &str,
    files_dir: &str,
    path: &str,
    attempt: u32,
    existing: Result<(), (IoErrorKind, String)>,
) -> (s: TrashProbeStep)
    requires
        attempt < MAX_TRASH_ATTEMPTS,
    ensures
        match existing {
            Ok(()) => if attempt + 1 < MAX_TRASH_ATTEMPTS {
                s == TrashProbeStep::Next((attempt + 1) as u32)
            } else {
                s matches TrashProbeStep::Fail(e) && e.code@ == "fs.trashFailed"@
                    && e.message@ == "failed to find unused trash name for "@ + path@
            },
            Err((kind, error)) => if kind == IoErrorKind::NotFound {
                s matches TrashProbeStep::Use(name) && name@ == trash_candidate_spec(base@, attempt)
            } else {
                s matches TrashProbeStep::Fail(e) && e.code@ == io_error_code("fs.trashFailed"@, kind)
                    && e.message@ == "failed to "@ + "stat trash candidate"@ + " "@ + files_dir@ + ": "@ + error@
            },
        },
{
    match existing {
        Ok(()) => {
            if attempt + 1 < MAX_TRASH_ATTEMPTS {
                TrashProbeStep::Next(attempt + 1)
            } else {
                TrashProbeStep::Fail(trash_exhausted_error(path))
            }
        },
        Err((kind, error)) => match kind {
            IoErrorKind::NotFound => TrashProbeStep::Use(trash_candidate_name(base, attempt)),
            _ => TrashProbeStep::Fail(
                map_io_error("fs.trashFailed", "stat trash candidate", files_dir, kind, error.as_str()),
            ),
        },
    }
}

/// Different attempts try different names, so a trashed file never lands
/// on a name tried before.
pub proof fn lemma_trash_candidates_distinct(base: Seq<char>, a: u32, b: u32)
    requires
        a != b,
    ensures
        trash_candidate_spec(base, a) != trash_candidate_spec(base, b),
{
    reveal_strlit(".");
    if a != 0 && b != 0 {
        if trash_candidate_spec(base, a) == trash_candidate_spec(base, b) {
            let n: int = base.len() as int + 1;
            assert(trash_candidate_spec(base, a).skip(n) =~= decimal(a as nat));
            assert(trash_candidate_spec(base, b).skip(n) =~= decimal(b as nat));
            lemma_decimal_injective(a as nat, b as nat);
        }
    } else {
        let nz = if a == 0 { b } else { a };
        crate::numfmt::lemma_decimal_nonempty(nz as nat);
        assert(trash_candidate_spec(base, nz).len() > base.len());
    }
}

/// A watch that is registered and then removed leaves the active watches as
/// they were, and removing it again is refused.
pub proof fn lemma_watch_round_trip(active: Set<Seq<char>>, id: Seq<char>)
    requires
        !active.contains(id),
    ensures
        active.insert(id).contains(id),
        active.insert(id).remove(id) == active,
        !active.insert(id).remove(id).contains(id),
{
    assert(active.insert(id).remove(id) =~= active);
}

/// A command of the file service.
#[derive(Debug, Clone, Copy, PartialEq, Eq, Structural)]
pub enum FileCommand {
    Stat,
    ReadFile,
    WriteFile,
    Delete,
    Mkdir,
    Readdir,
    Watch,
    Unwatch,
}

pub open spec fn parse_file_command(s: Seq<char>) -> Option<FileCommand> {
    if s == "fs_stat"@ || s == "stat"@ {
        Some(FileCommand::Stat)
    } else if s == "fs_read_file"@ || s == "readFile"@ {
        Some(FileCommand::ReadFile)
    } else if s == "fs_write_file"@ || s == "writeFile"@ {
        Some(FileCommand::WriteFile)
    } else if s == "fs_delete"@ || s == "delete"@ {
        Some(FileCommand::Delete)
    } else if s == "fs_mkdir"@ || s == "mkdir"@ {
        Some(FileCommand::Mkdir)
    } else if s == "fs_readdir"@ || s == "readdir"@ {
        Some(FileCommand::Readdir)
    } else if s == "fs_watch"@ || s == "watch"@ {
        Some(FileCommand::Watch)
    } else if s == "fs_unwatch"@ || s == "unwatch"@ {
        Some(FileCommand::Unwatch)
    } else {
        None
    }
}

impl FileCommand {
    /// The file command named `command`, under its `fs_` name or its short
    /// one; any other name is refused.
    pub fn parse(command: &str) -> (r: Result<FileCommand, ServiceError>)
        ensures
            match parse_file_command(command@) {
                Some(c) => r == Ok::<FileCommand, ServiceError>(c),
                None => r matches Err(e) && e.code@ == "service.unsupportedCommand"@
                    && e.message@ == service_name(ServiceId::File) + " does not implement command: "@ + command@,
            },
    {
        if str_eq(command, "fs_stat") || str_eq(command, "stat") {
            Ok(FileCommand::Stat)
        } else if str_eq(command, "fs_read_file") || str_eq(command, "readFile") {
            Ok(FileCommand::ReadFile)
        } else if str_eq(command, "fs_write_file") || str_eq(command, "writeFile") {
            Ok(FileCommand::WriteFile)
        } else if str_eq(command, "fs_delete") || str_eq(command, "delete") {
            Ok(FileCommand::Delete)
        } else if str_eq(command, "fs_mkdir") || str_eq(command, "mkdir") {
            Ok(FileCommand::Mkdir)
        } else if str_eq(command, "fs_readdir") || str_eq(command, "readdir") {
            Ok(FileCommand::Readdir)
        } else if str_eq(command, "fs_watch") || str_eq(command, "watch") {
            Ok(FileCommand::Watch)
        } else if str_eq(command, "fs_unwatch") || str_eq(command, "unwatch") {
            Ok(FileCommand::Unwatch)
        } else {
            Err(ServiceError::unsupported(ServiceId::File, command))
        }
    }
}

/// The file service's one event: file changes under a watch.
pub fn check_file_listen(event: &str) -> (r: Result<(), ServiceError>)
    ensures
        (event@ == "fs_watch"@ || event@ == "watch"@) ==> r is Ok,
        !(event@ == "fs_watch"@ || event@ == "watch"@) ==> (r matches Err(e) && e.code@ == "service.unsupportedListen"@
            && e.message@ == service_name(ServiceId::File) + " does not implement event: "@ + event@),
{
    if str_eq(event, "fs_watch") || str_eq(event, "watch") {
        Ok(())
    } else {
        Err(ServiceError::unsupported_listen(ServiceId::File, event))
    }
}

/// A command of the watcher service.
#[derive(Debug, Clone, Copy, PartialEq, Eq, Structural)]
pub enum WatcherCommand {
    Watch,
    Unwatch,
}

pub open spec fn parse_watcher_command(s: Seq<char>) -> Option<WatcherCommand> {
    if s == "watch"@ || s == "startWatching"@ || s == "fs_watch"@ {
        Some(WatcherCommand::Watch)
    } else if s == "unwatch"@ || s == "stopWatching"@ || s == "fs_unwatch"@ {
        Some(WatcherCommand::Unwatch)
    } else {
        None
    }
}

impl WatcherCommand {
    pub fn parse(command: &str) -> (r: Result<WatcherCommand, ServiceError>)
        ensures
            match parse_watcher_command(command@) {
                Some(c) => r == Ok::<WatcherCommand, ServiceError>(c),
                None => r matches Err(e) && e.code@ == "service.unsupportedCommand"@
                    && e.message@ == service_name(ServiceId::Watcher) + " does not implement command: "@ + command@,
            },
    {
        if str_eq(command, "watch") || str_eq(command, "startWatching") || str_eq(command, "fs_watch") {
            Ok(WatcherCommand::Watch)
        } else if str_eq(command, "unwatch") || str_eq(command, "stopWatching") || str_eq(command, "fs_unwatch") {
            Ok(WatcherCommand::Unwatch)
        } else {
            Err(ServiceError::unsupported(ServiceId::Watcher, command))
        }
    }
}

/// The watcher service's event: file changes.
pub fn check_watcher_listen(event: &str) -> (r: Result<(), ServiceError>)
    ensures
        (event@ == "watch"@ || event@ == "fileChanges"@ || event@ == "onDidChangeFile"@) ==> r is Ok,
        !(event@ == "watch"@ || event@ == "fileChanges"@ || event@ == "onDidChangeFile"@) ==> (r matches Err(e)
            && e.code@ == "service.unsupportedListen"@
            && e.message@ == service_name(ServiceId::Watcher) + " does not implement event: "@ + event@),
{
    if str_eq(event, "watch") || str_eq(event, "fileChanges") || str_eq(event, "onDidChangeFile") {
        Ok(())
    } else {
        Err(ServiceError::unsupported_listen(ServiceId::Watcher, event))
    }
}

/// An argument that does not decode.
pub fn invalid_argument(error: &str) -> (e: ServiceError)
    ensures
        e.code@ == "fs.invalidArgument"@,
        e.message@ == "invalid file service argument: "@ + error@,
{
    file_error("fs.invalidArgument", concat2("invalid file service argument: ", error))
}

/// A response that does not encode.
pub fn serialize_error(error: &str) -> (e: ServiceError)
    ensures
        e.code@ == "fs.serializeFailed"@,
        e.message@ == "failed to serialize file service response: "@ + error@,
{
    file_error("fs.serializeFailed", concat2("failed to serialize file service response: ", error))
}

/// What standard base64 (with padding) decodes `input` to: its bytes, or
/// the text of the error it fails with.
pub uninterp spec fn base64_standard_decode(input: Seq<char>) -> Result<Seq<u8>, Seq<char>>;

/// The character of a 6-bit value in the standard base64 alphabet.
pub open spec fn base64_char(v: int) -> char {
    if v < 26 {
        ((65 + v) as u32) as char
    } else if v < 52 {
        ((97 + v - 26) as u32) as char
    } else if v < 62 {
        ((48 + v - 52) as u32) as char
    } else if v == 62 {
        '+'
    } else {
        '/'
    }
}

/// Standard base64 with padding (RFC 4648): each group of three bytes
/// becomes four characters of six bits each; a last group of one or two
/// bytes is filled with zero bits and padded with `=` to four characters.
pub open spec fn base64_standard_encode(data: Seq<u8>) -> Seq<char>
    decreases data.len(),
{
    if data.len() == 0 {
        seq![]
    } else if data.len() == 1 {
        let n = data[0] as int;
        seq![base64_char(n / 4), base64_char((n % 4) * 16), '=', '=']
    } else if data.len() == 2 {
        let n = data[0] as int * 256 + data[1] as int;
        seq![base64_char(n / 1024), base64_char((n / 16) % 64), base64_char((n % 16) * 4), '=']
    } else {
        let n = data[0] as int * 65536 + data[1] as int * 256 + data[2] as int;
        seq![base64_char(n / 262144), base64_char((n / 4096) % 64), base64_char((n / 64) % 64), base64_char(n % 64)]
            + base64_standard_encode(data.skip(3))
    }
}

proof fn lemma_base64_char(v: int, w: int)
    requires
        0 <= v < 64,
        0 <= w < 64,
    ensures
        base64_char(v) != '=',
        base64_char(v) == base64_char(w) ==> v == w,
{
}

proof fn lemma_base64_group3(a0: u8, a1: u8, a2: u8, b0: u8, b1: u8, b2: u8)
    by (bit_vector)
    requires
        (a0 * 65536 + a1 * 256 + a2) / 262144 == (b0 * 65536 + b1 * 256 + b2) / 262144,
        ((a0 * 65536 + a1 * 256 + a2) / 4096) % 64 == ((b0 * 65536 + b1 * 256 + b2) / 4096) % 64,
        ((a0 * 65536 + a1 * 256 + a2) / 64) % 64 == ((b0 * 65536 + b1 * 256 + b2) / 64) % 64,
        (a0 * 65536 + a1 * 256 + a2) % 64 == (b0 * 65536 + b1 * 256 + b2) % 64,
    ensures
        a0 == b0 && a1 == b1 && a2 == b2,
{
}

proof fn lemma_base64_group2(a0: u8, a1: u8, b0: u8, b1: u8)
    by (bit_vector)
    requires
        (a0 * 256 + a1) / 1024 == (b0 * 256 + b1) / 1024,
        ((a0 * 256 + a1) / 16) % 64 == ((b0 * 256 + b1) / 16) % 64,
        ((a0 * 256 + a1) % 16) * 4 == ((b0 * 256 + b1) % 16) * 4,
    ensures
        a0 == b0 && a1 == b1,
{
}

proof fn lemma_base64_group1(a0: u8, b0: u8)
    by (bit_vector)
    requires
        a0 / 4 == b0 / 4,
        (a0 % 4) * 16 == (b0 % 4) * 16,
    ensures
        a0 == b0,
{
}

/// The shape of an encoding: four characters per started group of three
/// bytes, with `=` in the third place only after a single last byte and in
/// the fourth only after one or two.
proof fn lemma_base64_shape(d: Seq<u8>)
    ensures
        d.len() == 0 <==> base64_standard_encode(d).len() == 0,
        d.len() > 0 ==> base64_standard_encode(d).len() >= 4,
        d.len() > 0 ==> (base64_standard_encode(d)[2] == '=' <==> d.len() == 1),
        d.len() > 0 ==> (base64_standard_encode(d)[3] == '=' <==> d.len() <= 2),
{
    if d.len() == 1 {
        lemma_base64_char(d[0] as int / 4, 0);
        lemma_base64_char((d[0] as int % 4) * 16, 0);
    } else if d.len() == 2 {
        let n = d[0] as int * 256 + d[1] as int;
        lemma_base64_char((n % 16) * 4, 0);
    } else if d.len() >= 3 {
        let n = d[0] as int * 65536 + d[1] as int * 256 + d[2] as int;
        lemma_base64_char((n / 64) % 64, 0);
        lemma_base64_char(n % 64, 0);
    }
}

proof fn lemma_base64_head1(a: Seq<u8>, b: Seq<u8>)
    requires
        a.len() == 1,
        b.len() == 1,
        base64_standard_encode(a) == base64_standard_encode(b),
    ensures
        a == b,
{
    let (x, y) = (a[0] as int, b[0] as int);
    let (ea, eb) = (base64_standard_encode(a), base64_standard_encode(b));
    assert(ea[0] == eb[0] && ea[1] == eb[1]);
    lemma_base64_char(x / 4, y / 4);
    lemma_base64_char((x % 4) * 16, (y % 4) * 16);
    lemma_base64_group1(a[0], b[0]);
    assert(a =~= b);
}

proof fn lemma_base64_head2(a: Seq<u8>, b: Seq<u8>)
    requires
        a.len() == 2,
        b.len() == 2,
        base64_standard_encode(a) == base64_standard_encode(b),
    ensures
        a == b,
{
    let x = a[0] as int * 256 + a[1] as int;
    let y = b[0] as int * 256 + b[1] as int;
    let (ea, eb) = (base64_standard_encode(a), base64_standard_encode(b));
    assert(ea[0] == eb[0] && ea[1] == eb[1] && ea[2] == eb[2]);
    assert(0 <= x < 65536 && 0 <= y < 65536);
    lemma_base64_char(x / 1024, y / 1024);
    lemma_base64_char((x / 16) % 64, (y / 16) % 64);
    lemma_base64_char((x % 16) * 4, (y % 16) * 4);
    lemma_base64_group2(a[0], a[1], b[0], b[1]);
    assert(a =~= b);
}

proof fn lemma_base64_head3(a: Seq<u8>, b: Seq<u8>)
    requires
        a.len() >= 3,
        b.len() >= 3,
        base64_standard_encode(a) == base64_standard_encode(b),
    ensures
        a.take(3) == b.take(3),
        base64_standard_encode(a.skip(3)) == base64_standard_encode(b.skip(3)),
{
    let x = a[0] as int * 65536 + a[1] as int * 256 + a[2] as int;
    let y = b[0] as int * 65536 + b[1] as int * 256 + b[2] as int;
    let (ea, eb) = (base64_standard_encode(a), base64_standard_encode(b));
    assert(ea[0] == eb[0] && ea[1] == eb[1] && ea[2] == eb[2] && ea[3] == eb[3]);
    assert(0 <= x < 16777216 && 0 <= y < 16777216);
    lemma_base64_char(x / 262144, y / 262144);
    lemma_base64_char((x / 4096) % 64, (y / 4096) % 64);
    lemma_base64_char((x / 64) % 64, (y / 64) % 64);
    lemma_base64_char(x % 64, y % 64);
    lemma_base64_group3(a[0], a[1], a[2], b[0], b[1], b[2]);
    assert(a.take(3) =~= b.take(3));
    assert(ea.skip(4) =~= base64_standard_encode(a.skip(3)));
    assert(eb.skip(4) =~= base64_standard_encode(b.skip(3)));
}

/// Standard base64 loses nothing: two byte strings with the same encoding
/// are the same, so decoding what a read sent gives back the bytes read.
pub proof fn lemma_base64_encode_injective(a: Seq<u8>, b: Seq<u8>)
    requires
        base64_standard_encode(a) == base64_standard_encode(b),
    ensures
        a == b,
    decreases a.len(),
{
    lemma_base64_shape(a);
    lemma_base64_shape(b);
    if a.len() == 0 {
    } else if a.len() == 1 {
        lemma_base64_head1(a, b);
    } else if a.len() == 2 {
        lemma_base64_head2(a, b);
    } else {
        lemma_base64_head3(a, b);
        lemma_base64_encode_injective(a.skip(3), b.skip(3));
        assert(a =~= a.take(3) + a.skip(3));
        assert(b =~= b.take(3) + b.skip(3));
    }
}

/// Decodes standard base64.
///
/// Trusted wrapper around `base64::Engine::decode` with the `STANDARD`
/// engine: the contract claims that the result is a function of the input
/// alone, bytes or the text of the crate's `DecodeError`, named by
/// `base64_standard_decode`; and, as that engine requires canonical padding
/// and no trailing bits, that it succeeds exactly on the standard encodings
/// of byte strings, giving back the bytes so encoded.
#[verifier::external_body]
fn base64_decode(input: &str) -> (r: Result<Vec<u8>, String>)
    ensures
        match base64_standard_decode(input@) {
            Ok(b) => r matches Ok(v) && v@ == b,
            Err(text) => r matches Err(t) && t@ == text,
        },
        r matches Ok(v) ==> base64_standard_encode(v@) == input@,
        (exists|b: Seq<u8>| base64_standard_encode(b) == input@) ==> r is Ok,
{
    match base64::Engine::decode(&base64::engine::general_purpose::STANDARD, input) {
        Ok(v) => Ok(v),
        Err(e) => Err(e.to_string()),
    }
}

/// Encodes standard base64.
///
/// Trusted wrapper around `base64::Engine::encode` with the `STANDARD`
/// engine: the contract claims that the result is a function of the input
/// standard base64 with padding, as `base64_standard_encode` spells it.
#[verifier::external_body]
fn base64_encode(data: &Vec<u8>) -> (r: String)
    ensures
        r@ == base64_standard_encode(data@),
{
    base64::Engine::encode(&base64::engine::general_purpose::STANDARD, data.as_slice())
}

/// What a write does with the decoded payload: writes the bytes, or
/// refuses the payload as invalid data.
pub fn write_data_from_decoded(decoded: Result<Vec<u8>, String>) -> (r: Result<Vec<u8>, ServiceError>)
    ensures
        match decoded {
            Ok(v) => r == Ok::<Vec<u8>, ServiceError>(v),
            Err(t) => r matches Err(e) && e.code@ == "fs.invalidData"@
                && e.message@ == "data_base64 is not valid base64: "@ + t@,
        },
{
    match decoded {
        Ok(v) => Ok(v),
        Err(t) => Err(file_error("fs.invalidData", concat2("data_base64 is not valid base64: ", t.as_str()))),
    }
}

/// The bytes a write request carries, decoded from base64.
pub fn decode_write_data(data_base64: &str) -> (r: Result<Vec<u8>, ServiceError>)
    ensures
        match base64_standard_decode(data_base64@) {
            Ok(b) => r matches Ok(v) && v@ == b,
            Err(text) => r matches Err(e) && e.code@ == "fs.invalidData"@
                && e.message@ == "data_base64 is not valid base64: "@ + text,
        },
        r is Ok <==> exists|b: Seq<u8>| base64_standard_encode(b) == data_base64@,
        r matches Ok(v) ==> base64_standard_encode(v@) == data_base64@,
{
    write_data_from_decoded(base64_decode(data_base64))
}

/// The response to a read: the file's bytes in base64.
pub fn read_response(data: &Vec<u8>) -> (r: FileReadResponse)
    ensures
        r.data_base64@ == base64_standard_encode(data@),
{
    FileReadResponse { data_base64: base64_encode(data) }
}

pub open spec fn dir_entry_views(v: Seq<FileDirEntryDto>) -> Seq<(Seq<char>, FileTypeDto)> {
    v.map_values(|e: FileDirEntryDto| (e.name@, e.file_type))
}

/// Whether entries are in order of their names.
pub open spec fn names_sorted(v: Seq<FileDirEntryDto>) -> bool {
    forall|a: int, b: int| 0 <= a < b < v.len() ==> !lex_lt(#[trigger] v[b].name@, #[trigger] v[a].name@, char_order())
}

/// Directory entries in order of their names.
pub fn sort_dir_entries(entries: &Vec<FileDirEntryDto>) -> (out: Vec<FileDirEntryDto>)
    ensures
        dir_entry_views(out@).to_multiset() == dir_entry_views(entries@).to_multiset(),
        names_sorted(out@),
{
    let ghost co = char_order();
    proof {
        assert(strict_total(co));
    }
    let mut out: Vec<FileDirEntryDto> = Vec::new();
    let mut i: usize = 0;
    proof {
        assert(dir_entry_views(entries@).take(0) =~= Seq::<(Seq<char>, FileTypeDto)>::empty());
        assert(dir_entry_views(out@) =~= Seq::<(Seq<char>, FileTypeDto)>::empty());
    }
    while i < entries.len()
        invariant
            co == char_order(),
            strict_total(co),
            i <= entries@.len(),
            dir_entry_views(out@).to_multiset() == dir_entry_views(entries@).take(i as int).to_multiset(),
            names_sorted(out@),
        decreases entries@.len() - i,
    {
        let e = &entries[i];
        let mut k: usize = 0;
        while k < out.len()
            invariant
                k <= out@.len(),
                co == char_order(),
                forall|m: int| 0 <= m < k ==> !lex_lt(e.name@, #[trigger] out@[m].name@, co),
            ensures
                k <= out@.len(),
                forall|m: int| 0 <= m < k ==> !lex_lt(e.name@, #[trigger] out@[m].name@, co),
                k < out@.len() ==> lex_lt(e.name@, out@[k as int].name@, co),
            decreases out@.len() - k,
        {
            if crate::pathorder::compare_strings(&e.name, &out[k].name) == Rel::Less {
                break;
            }
            k = k + 1;
        }
        let ghost before = out@;
        let item = FileDirEntryDto { name: owned(e.name.as_str()), file_type: e.file_type };
        out.insert(k, item);
        proof {
            let bv = dir_entry_views(before);
            assert(dir_entry_views(out@) =~= bv.insert(k as int, dir_entry_views(entries@)[i as int]));
            vstd::seq_lib::to_multiset_insert(bv, k as int, dir_entry_views(entries@)[i as int]);
            assert(dir_entry_views(entries@).take(i + 1) =~= dir_entry_views(entries@).take(i as int).push(dir_entry_views(entries@)[i as int]));
            vstd::seq_lib::to_multiset_build(dir_entry_views(entries@).take(i as int), dir_entry_views(entries@)[i as int]);
            assert forall|a: int, b: int| 0 <= a < b < out@.len() implies !lex_lt(#[trigger] out@[b].name@, #[trigger] out@[a].name@, co) by {
                if a < k && b < k {
                    assert(out@[a] == before[a] && out@[b] == before[b]);
                } else if a < k && b == k {
                    assert(out@[a] == before[a]);
                } else if a < k && b > k {
                    assert(out@[a] == before[a] && out@[b] == before[b - 1]);
                    // before[a] <= e < before[k] <= before[b - 1]
                    lemma_le_lt_trans(before[a].name@, e.name@, before[k as int].name@, co);
                    if b - 1 > k {
                        lemma_lt_le_trans(before[a].name@, before[k as int].name@, before[b - 1].name@, co);
                    }
                } else if a == k && b > k {
                    assert(out@[b] == before[b - 1]);
                    if b - 1 > k {
                        lemma_lt_le_trans(e.name@, before[k as int].name@, before[b - 1].name@, co);
                    }
                    lemma_lex_irreflexive(e.name@, co);
                    if lex_lt(before[b - 1].name@, e.name@, co) {
                        lemma_lex_transitive(before[b - 1].name@, e.name@, before[b - 1].name@, co);
                        lemma_lex_irreflexive(before[b - 1].name@, co);
                    }
                } else {
                    assert(out@[a] == before[a - 1] && out@[b] == before[b - 1]);
                }
            }
        }
        i = i + 1;
    }
    proof { assert(dir_entry_views(entries@).take(entries@.len() as int) =~= dir_entry_views(entries@)); }
    out
}

/// `a <= b` and `b < c` give `a < c`.
proof fn lemma_le_lt_trans(a: Seq<char>, b: Seq<char>, c: Seq<char>, co: spec_fn(char, char) -> bool)
    requires
        strict_total(co),
        !lex_lt(b, a, co),
        lex_lt(b, c, co),
    ensures
        lex_lt(a, c, co),
{
    if a != b {
        lemma_lex_total(a, b, co);
        lemma_lex_transitive(a, b, c, co);
    }
}

/// `a < b` and `b <= c` give `a < c`.
proof fn lemma_lt_le_trans(a: Seq<char>, b: Seq<char>, c: Seq<char>, co: spec_fn(char, char) -> bool)
    requires
        strict_total(co),
        lex_lt(a, b, co),
        !lex_lt(c, b, co),
    ensures
        lex_lt(a, c, co),
{
    if b != c {
        lemma_lex_total(b, c, co);
        lemma_lex_transitive(a, b, c, co);
    }
}

} // verus!
