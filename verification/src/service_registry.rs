//! Stable service identifiers, the errors services report, and the registry
//! that finds the service a channel names.
use vstd::prelude::*;
use crate::text::{concat2, push_str, str_eq};

verus! {

/// The platform services the bridge can dispatch to.
#[derive(Debug, Clone, Copy, PartialEq, Eq, Hash, Structural)]
pub enum ServiceId {
    Auth,
    File,
    Watcher,
    Terminal,
    Configuration,
    Storage,
    NativeHost,
    Dialog,
    Telemetry,
    ExtensionHost,
    Tunnel,
    Lifecycle,
}

/// The canonical channel name of a service.
pub open spec fn service_name(id: ServiceId) -> Seq<char> {
    match id {
        ServiceId::Auth => "authService"@,
        ServiceId::File => "fileService"@,
        ServiceId::Watcher => "watcherService"@,
        ServiceId::Terminal => "terminalService"@,
        ServiceId::Configuration => "configurationService"@,
        ServiceId::Storage => "storageService"@,
        ServiceId::NativeHost => "nativeHostService"@,
        ServiceId::Dialog => "dialogService"@,
        ServiceId::Telemetry => "telemetryService"@,
        ServiceId::ExtensionHost => "extensionHostService"@,
        ServiceId::Tunnel => "tunnelService"@,
        ServiceId::Lifecycle => "lifecycleService"@,
    }
}

/// The service a channel name (canonical or alias) refers to.
pub open spec fn parse_service_name(s: Seq<char>) -> Option<ServiceId> {
    if s == "authService"@ || s == "auth"@ || s == "authentication"@ {
        Some(ServiceId::Auth)
    } else if s == "fileService"@ || s == "files"@ {
        Some(ServiceId::File)
    } else if s == "watcherService"@ || s == "watcher"@ || s == "watchers"@ || s == "fileWatcher"@
        || s == "fileWatcherService"@ {
        Some(ServiceId::Watcher)
    } else if s == "terminalService"@ || s == "terminal"@ || s == "terminals"@ {
        Some(ServiceId::Terminal)
    } else if s == "configurationService"@ || s == "configuration"@ {
        Some(ServiceId::Configuration)
    } else if s == "storageService"@ || s == "storage"@ {
        Some(ServiceId::Storage)
    } else if s == "nativeHostService"@ || s == "nativeHost"@ || s == "native"@ {
        Some(ServiceId::NativeHost)
    } else if s == "dialogService"@ || s == "dialog"@ || s == "dialogs"@ {
        Some(ServiceId::Dialog)
    } else if s == "telemetryService"@ || s == "telemetry"@ {
        Some(ServiceId::Telemetry)
    } else if s == "extensionHostService"@ || s == "extensionHost"@ {
        Some(ServiceId::ExtensionHost)
    } else if s == "tunnelService"@ || s == "tunnel"@ || s == "tunnels"@ {
        Some(ServiceId::Tunnel)
    } else if s == "lifecycleService"@ || s == "lifecycle"@ {
        Some(ServiceId::Lifecycle)
    } else {
        None
    }
}

/// A service's canonical name reads back as that service.
proof fn lemma_service_name_reads_back(id: ServiceId)
    ensures
        parse_service_name(service_name(id)) == Some(id),
{
    match id {
        ServiceId::Auth => {
            reveal_strlit("authService");
        },
        ServiceId::File => {
            reveal_strlit("fileService");
            reveal_strlit("authService");
            assert("fileService"@[0] != "authService"@[0]);
            reveal_strlit("auth");
            assert("fileService"@.len() != "auth"@.len());
            reveal_strlit("authentication");
            assert("fileService"@.len() != "authentication"@.len());
        },
        ServiceId::Watcher => {
            reveal_strlit("watcherService");
            reveal_strlit("authService");
            assert("watcherService"@.len() != "authService"@.len());
            reveal_strlit("auth");
            assert("watcherService"@.len() != "auth"@.len());
            reveal_strlit("authentication");
            assert("watcherService"@[0] != "authentication"@[0]);
            reveal_strlit("fileService");
            assert("watcherService"@.len() != "fileService"@.len());
            reveal_strlit("files");
            assert("watcherService"@.len() != "files"@.len());
        },
        ServiceId::Terminal => {
            reveal_strlit("terminalService");
            reveal_strlit("authService");
            assert("terminalService"@.len() != "authService"@.len());
            reveal_strlit("auth");
            assert("terminalService"@.len() != "auth"@.len());
            reveal_strlit("authentication");
            assert("terminalService"@.len() != "authentication"@.len());
            reveal_strlit("fileService");
            assert("terminalService"@.len() != "fileService"@.len());
            reveal_strlit("files");
            assert("terminalService"@.len() != "files"@.len());
            reveal_strlit("watcherService");
            assert("terminalService"@.len() != "watcherService"@.len());
            reveal_strlit("watcher");
            assert("terminalService"@.len() != "watcher"@.len());
            reveal_strlit("watchers");
            assert("terminalService"@.len() != "watchers"@.len());
            reveal_strlit("fileWatcher");
            assert("terminalService"@.len() != "fileWatcher"@.len());
            reveal_strlit("fileWatcherService");
            assert("terminalService"@.len() != "fileWatcherService"@.len());
        },
        ServiceId::Configuration => {
            reveal_strlit("configurationService");
            reveal_strlit("authService");
            assert("configurationService"@.len() != "authService"@.len());
            reveal_strlit("auth");
            assert("configurationService"@.len() != "auth"@.len());
            reveal_strlit("authentication");
            assert("configurationService"@.len() != "authentication"@.len());
            reveal_strlit("fileService");
            assert("configurationService"@.len() != "fileService"@.len());
            reveal_strlit("files");
            assert("configurationService"@.len() != "files"@.len());
            reveal_strlit("watcherService");
            assert("configurationService"@.len() != "watcherService"@.len());
            reveal_strlit("watcher");
            assert("configurationService"@.len() != "watcher"@.len());
            reveal_strlit("watchers");
            assert("configurationService"@.len() != "watchers"@.len());
            reveal_strlit("fileWatcher");
            assert("configurationService"@.len() != "fileWatcher"@.len());
            reveal_strlit("fileWatcherService");
            assert("configurationService"@.len() != "fileWatcherService"@.len());
            reveal_strlit("terminalService");
            assert("configurationService"@.len() != "terminalService"@.len());
            reveal_strlit("terminal");
            assert("configurationService"@.len() != "terminal"@.len());
            reveal_strlit("terminals");
            assert("configurationService"@.len() != "terminals"@.len());
        },
        ServiceId::Storage => {
            reveal_strlit("storageService");
            reveal_strlit("authService");
            assert("storageService"@.len() != "authService"@.len());
            reveal_strlit("auth");
            assert("storageService"@.len() != "auth"@.len());
            reveal_strlit("authentication");
            assert("storageService"@[0] != "authentication"@[0]);
            reveal_strlit("fileService");
            assert("storageService"@.len() != "fileService"@.len());
            reveal_strlit("files");
            assert("storageService"@.len() != "files"@.len());
            reveal_strlit("watcherService");
            assert("storageService"@[0] != "watcherService"@[0]);
            reveal_strlit("watcher");
            assert("storageService"@.len() != "watcher"@.len());
            reveal_strlit("watchers");
            assert("storageService"@.len() != "watchers"@.len());
            reveal_strlit("fileWatcher");
            assert("storageService"@.len() != "fileWatcher"@.len());
            reveal_strlit("fileWatcherService");
            assert("storageService"@.len() != "fileWatcherService"@.len());
            reveal_strlit("terminalService");
            assert("storageService"@.len() != "terminalService"@.len());
            reveal_strlit("terminal");
            assert("storageService"@.len() != "terminal"@.len());
            reveal_strlit("terminals");
            assert("storageService"@.len() != "terminals"@.len());
            reveal_strlit("configurationService");
            assert("storageService"@.len() != "configurationService"@.len());
            reveal_strlit("configuration");
            assert("storageService"@.len() != "configuration"@.len());
        },
        ServiceId::NativeHost => {
            reveal_strlit("nativeHostService");
            reveal_strlit("authService");
            assert("nativeHostService"@.len() != "authService"@.len());
            reveal_strlit("auth");
            assert("nativeHostService"@.len() != "auth"@.len());
            reveal_strlit("authentication");
            assert("nativeHostService"@.len() != "authentication"@.len());
            reveal_strlit("fileService");
            assert("nativeHostService"@.len() != "fileService"@.len());
            reveal_strlit("files");
            assert("nativeHostService"@.len() != "files"@.len());
            reveal_strlit("watcherService");
            assert("nativeHostService"@.len() != "watcherService"@.len());
            reveal_strlit("watcher");
            assert("nativeHostService"@.len() != "watcher"@.len());
            reveal_strlit("watchers");
            assert("nativeHostService"@.len() != "watchers"@.len());
            reveal_strlit("fileWatcher");
            assert("nativeHostService"@.len() != "fileWatcher"@.len());
            reveal_strlit("fileWatcherService");
            assert("nativeHostService"@.len() != "fileWatcherService"@.len());
            reveal_strlit("terminalService");
            assert("nativeHostService"@.len() != "terminalService"@.len());
            reveal_strlit("terminal");
            assert("nativeHostService"@.len() != "terminal"@.len());
            reveal_strlit("terminals");
            assert("nativeHostService"@.len() != "terminals"@.len());
            reveal_strlit("configurationService");
            assert("nativeHostService"@.len() != "configurationService"@.len());
            reveal_strlit("configuration");
            assert("nativeHostService"@.len() != "configuration"@.len());
            reveal_strlit("storageService");
            assert("nativeHostService"@.len() != "storageService"@.len());
            reveal_strlit("storage");
            assert("nativeHostService"@.len() != "storage"@.len());
        },
        ServiceId::Dialog => {
            reveal_strlit("dialogService");
            reveal_strlit("authService");
            assert("dialogService"@.len() != "authService"@.len());
            reveal_strlit("auth");
            assert("dialogService"@.len() != "auth"@.len());
            reveal_strlit("authentication");
            assert("dialogService"@.len() != "authentication"@.len());
            reveal_strlit("fileService");
            assert("dialogService"@.len() != "fileService"@.len());
            reveal_strlit("files");
            assert("dialogService"@.len() != "files"@.len());
            reveal_strlit("watcherService");
            assert("dialogService"@.len() != "watcherService"@.len());
            reveal_strlit("watcher");
            assert("dialogService"@.len() != "watcher"@.len());
            reveal_strlit("watchers");
            assert("dialogService"@.len() != "watchers"@.len());
            reveal_strlit("fileWatcher");
            assert("dialogService"@.len() != "fileWatcher"@.len());
            reveal_strlit("fileWatcherService");
            assert("dialogService"@.len() != "fileWatcherService"@.len());
            reveal_strlit("terminalService");
            assert("dialogService"@.len() != "terminalService"@.len());
            reveal_strlit("terminal");
            assert("dialogService"@.len() != "terminal"@.len());
            reveal_strlit("terminals");
            assert("dialogService"@.len() != "terminals"@.len());
            reveal_strlit("configurationService");
            assert("dialogService"@.len() != "configurationService"@.len());
            reveal_strlit("configuration");
            assert("dialogService"@[0] != "configuration"@[0]);
            reveal_strlit("storageService");
            assert("dialogService"@.len() != "storageService"@.len());
            reveal_strlit("storage");
            assert("dialogService"@.len() != "storage"@.len());
            reveal_strlit("nativeHostService");
            assert("dialogService"@.len() != "nativeHostService"@.len());
            reveal_strlit("nativeHost");
            assert("dialogService"@.len() != "nativeHost"@.len());
            reveal_strlit("native");
            assert("dialogService"@.len() != "native"@.len());
        },
        ServiceId::Telemetry => {
            reveal_strlit("telemetryService");
            reveal_strlit("authService");
            assert("telemetryService"@.len() != "authService"@.len());
            reveal_strlit("auth");
            assert("telemetryService"@.len() != "auth"@.len());
            reveal_strlit("authentication");
            assert("telemetryService"@.len() != "authentication"@.len());
            reveal_strlit("fileService");
            assert("telemetryService"@.len() != "fileService"@.len());
            reveal_strlit("files");
            assert("telemetryService"@.len() != "files"@.len());
            reveal_strlit("watcherService");
            assert("telemetryService"@.len() != "watcherService"@.len());
            reveal_strlit("watcher");
            assert("telemetryService"@.len() != "watcher"@.len());
            reveal_strlit("watchers");
            assert("telemetryService"@.len() != "watchers"@.len());
            reveal_strlit("fileWatcher");
            assert("telemetryService"@.len() != "fileWatcher"@.len());
            reveal_strlit("fileWatcherService");
            assert("telemetryService"@.len() != "fileWatcherService"@.len());
            reveal_strlit("terminalService");
            assert("telemetryService"@.len() != "terminalService"@.len());
            reveal_strlit("terminal");
            assert("telemetryService"@.len() != "terminal"@.len());
            reveal_strlit("terminals");
            assert("telemetryService"@.len() != "terminals"@.len());
            reveal_strlit("configurationService");
            assert("telemetryService"@.len() != "configurationService"@.len());
            reveal_strlit("configuration");
            assert("telemetryService"@.len() != "configuration"@.len());
            reveal_strlit("storageService");
            assert("telemetryService"@.len() != "storageService"@.len());
            reveal_strlit("storage");
            assert("telemetryService"@.len() != "storage"@.len());
            reveal_strlit("nativeHostService");
            assert("telemetryService"@.len() != "nativeHostService"@.len());
            reveal_strlit("nativeHost");
            assert("telemetryService"@.len() != "nativeHost"@.len());
            reveal_strlit("native");
            assert("telemetryService"@.len() != "native"@.len());
            reveal_strlit("dialogService");
            assert("telemetryService"@.len() != "dialogService"@.len());
            reveal_strlit("dialog");
            assert("telemetryService"@.len() != "dialog"@.len());
            reveal_strlit("dialogs");
            assert("telemetryService"@.len() != "dialogs"@.len());
        },
        ServiceId::ExtensionHost => {
            reveal_strlit("extensionHostService");
            reveal_strlit("authService");
            assert("extensionHostService"@.len() != "authService"@.len());
            reveal_strlit("auth");
            assert("extensionHostService"@.len() != "auth"@.len());
            reveal_strlit("authentication");
            assert("extensionHostService"@.len() != "authentication"@.len());
            reveal_strlit("fileService");
            assert("extensionHostService"@.len() != "fileService"@.len());
            reveal_strlit("files");
            assert("extensionHostService"@.len() != "files"@.len());
            reveal_strlit("watcherService");
            assert("extensionHostService"@.len() != "watcherService"@.len());
            reveal_strlit("watcher");
            assert("extensionHostService"@.len() != "watcher"@.len());
            reveal_strlit("watchers");
            assert("extensionHostService"@.len() != "watchers"@.len());
            reveal_strlit("fileWatcher");
            assert("extensionHostService"@.len() != "fileWatcher"@.len());
            reveal_strlit("fileWatcherService");
            assert("extensionHostService"@.len() != "fileWatcherService"@.len());
            reveal_strlit("terminalService");
            assert("extensionHostService"@.len() != "terminalService"@.len());
            reveal_strlit("terminal");
            assert("extensionHostService"@.len() != "terminal"@.len());
            reveal_strlit("terminals");
            assert("extensionHostService"@.len() != "terminals"@.len());
            reveal_strlit("configurationService");
            assert("extensionHostService"@[0] != "configurationService"@[0]);
            reveal_strlit("configuration");
            assert("extensionHostService"@.len() != "configuration"@.len());
            reveal_strlit("storageService");
            assert("extensionHostService"@.len() != "storageService"@.len());
            reveal_strlit("storage");
            assert("extensionHostService"@.len() != "storage"@.len());
            reveal_strlit("nativeHostService");
            assert("extensionHostService"@.len() != "nativeHostService"@.len());
            reveal_strlit("nativeHost");
            assert("extensionHostService"@.len() != "nativeHost"@.len());
            reveal_strlit("native");
            assert("extensionHostService"@.len() != "native"@.len());
            reveal_strlit("dialogService");
            assert("extensionHostService"@.len() != "dialogService"@.len());
            reveal_strlit("dialog");
            assert("extensionHostService"@.len() != "dialog"@.len());
            reveal_strlit("dialogs");
            assert("extensionHostService"@.len() != "dialogs"@.len());
            reveal_strlit("telemetryService");
            assert("extensionHostService"@.len() != "telemetryService"@.len());
            reveal_strlit("telemetry");
            assert("extensionHostService"@.len() != "telemetry"@.len());
        },
        ServiceId::Tunnel => {
            reveal_strlit("tunnelService");
            reveal_strlit("authService");
            assert("tunnelService"@.len() != "authService"@.len());
            reveal_strlit("auth");
            assert("tunnelService"@.len() != "auth"@.len());
            reveal_strlit("authentication");
            assert("tunnelService"@.len() != "authentication"@.len());
            reveal_strlit("fileService");
            assert("tunnelService"@.len() != "fileService"@.len());
            reveal_strlit("files");
            assert("tunnelService"@.len() != "files"@.len());
            reveal_strlit("watcherService");
            assert("tunnelService"@.len() != "watcherService"@.len());
            reveal_strlit("watcher");
            assert("tunnelService"@.len() != "watcher"@.len());
            reveal_strlit("watchers");
            assert("tunnelService"@.len() != "watchers"@.len());
            reveal_strlit("fileWatcher");
            assert("tunnelService"@.len() != "fileWatcher"@.len());
            reveal_strlit("fileWatcherService");
            assert("tunnelService"@.len() != "fileWatcherService"@.len());
            reveal_strlit("terminalService");
            assert("tunnelService"@.len() != "terminalService"@.len());
            reveal_strlit("terminal");
            assert("tunnelService"@.len() != "terminal"@.len());
            reveal_strlit("terminals");
            assert("tunnelService"@.len() != "terminals"@.len());
            reveal_strlit("configurationService");
            assert("tunnelService"@.len() != "configurationService"@.len());
            reveal_strlit("configuration");
            assert("tunnelService"@[0] != "configuration"@[0]);
            reveal_strlit("storageService");
            assert("tunnelService"@.len() != "storageService"@.len());
            reveal_strlit("storage");
            assert("tunnelService"@.len() != "storage"@.len());
            reveal_strlit("nativeHostService");
            assert("tunnelService"@.len() != "nativeHostService"@.len());
            reveal_strlit("nativeHost");
            assert("tunnelService"@.len() != "nativeHost"@.len());
            reveal_strlit("native");
            assert("tunnelService"@.len() != "native"@.len());
            reveal_strlit("dialogService");
            assert("tunnelService"@[0] != "dialogService"@[0]);
            reveal_strlit("dialog");
            assert("tunnelService"@.len() != "dialog"@.len());
            reveal_strlit("dialogs");
            assert("tunnelService"@.len() != "dialogs"@.len());
            reveal_strlit("telemetryService");
            assert("tunnelService"@.len() != "telemetryService"@.len());
            reveal_strlit("telemetry");
            assert("tunnelService"@.len() != "telemetry"@.len());
            reveal_strlit("extensionHostService");
            assert("tunnelService"@.len() != "extensionHostService"@.len());
            reveal_strlit("extensionHost");
            assert("tunnelService"@[0] != "extensionHost"@[0]);
        },
        ServiceId::Lifecycle => {
            reveal_strlit("lifecycleService");
            reveal_strlit("authService");
            assert("lifecycleService"@.len() != "authService"@.len());
            reveal_strlit("auth");
            assert("lifecycleService"@.len() != "auth"@.len());
            reveal_strlit("authentication");
            assert("lifecycleService"@.len() != "authentication"@.len());
            reveal_strlit("fileService");
            assert("lifecycleService"@.len() != "fileService"@.len());
            reveal_strlit("files");
            assert("lifecycleService"@.len() != "files"@.len());
            reveal_strlit("watcherService");
            assert("lifecycleService"@.len() != "watcherService"@.len());
            reveal_strlit("watcher");
            assert("lifecycleService"@.len() != "watcher"@.len());
            reveal_strlit("watchers");
            assert("lifecycleService"@.len() != "watchers"@.len());
            reveal_strlit("fileWatcher");
            assert("lifecycleService"@.len() != "fileWatcher"@.len());
            reveal_strlit("fileWatcherService");
            assert("lifecycleService"@.len() != "fileWatcherService"@.len());
            reveal_strlit("terminalService");
            assert("lifecycleService"@.len() != "terminalService"@.len());
            reveal_strlit("terminal");
            assert("lifecycleService"@.len() != "terminal"@.len());
            reveal_strlit("terminals");
            assert("lifecycleService"@.len() != "terminals"@.len());
            reveal_strlit("configurationService");
            assert("lifecycleService"@.len() != "configurationService"@.len());
            reveal_strlit("configuration");
            assert("lifecycleService"@.len() != "configuration"@.len());
            reveal_strlit("storageService");
            assert("lifecycleService"@.len() != "storageService"@.len());
            reveal_strlit("storage");
            assert("lifecycleService"@.len() != "storage"@.len());
            reveal_strlit("nativeHostService");
            assert("lifecycleService"@.len() != "nativeHostService"@.len());
            reveal_strlit("nativeHost");
            assert("lifecycleService"@.len() != "nativeHost"@.len());
            reveal_strlit("native");
            assert("lifecycleService"@.len() != "native"@.len());
            reveal_strlit("dialogService");
            assert("lifecycleService"@.len() != "dialogService"@.len());
            reveal_strlit("dialog");
            assert("lifecycleService"@.len() != "dialog"@.len());
            reveal_strlit("dialogs");
            assert("lifecycleService"@.len() != "dialogs"@.len());
            reveal_strlit("telemetryService");
            assert("lifecycleService"@[0] != "telemetryService"@[0]);
            reveal_strlit("telemetry");
            assert("lifecycleService"@.len() != "telemetry"@.len());
            reveal_strlit("extensionHostService");
            assert("lifecycleService"@.len() != "extensionHostService"@.len());
            reveal_strlit("extensionHost");
            assert("lifecycleService"@.len() != "extensionHost"@.len());
            reveal_strlit("tunnelService");
            assert("lifecycleService"@.len() != "tunnelService"@.len());
            reveal_strlit("tunnel");
            assert("lifecycleService"@.len() != "tunnel"@.len());
            reveal_strlit("tunnels");
            assert("lifecycleService"@.len() != "tunnels"@.len());
        },
    }
}

/// Every service's canonical name reads back as that service, so no two
/// services share a name.
pub proof fn lemma_service_name_round_trip(id: ServiceId, other: ServiceId)
    ensures
        parse_service_name(service_name(id)) == Some(id),
        service_name(id) == service_name(other) ==> id == other,
{
    lemma_service_name_reads_back(id);
    lemma_service_name_reads_back(other);
}

impl ServiceId {
    pub const AUTH: &'static str = "authService";
    pub const FILE: &'static str = "fileService";
    pub const WATCHER: &'static str = "watcherService";
    pub const TERMINAL: &'static str = "terminalService";
    pub const CONFIGURATION: &'static str = "configurationService";
    pub const STORAGE: &'static str = "storageService";
    pub const NATIVE_HOST: &'static str = "nativeHostService";
    pub const DIALOG: &'static str = "dialogService";
    pub const TELEMETRY: &'static str = "telemetryService";
    pub const EXTENSION_HOST: &'static str = "extensionHostService";
    pub const TUNNEL: &'static str = "tunnelService";
    pub const LIFECYCLE: &'static str = "lifecycleService";

    /// The canonical channel name of this service.
    pub fn as_str(self) -> (s: &'static str)
        ensures
            s@ == service_name(self),
    {
        match self {
            ServiceId::Auth => "authService",
            ServiceId::File => "fileService",
            ServiceId::Watcher => "watcherService",
            ServiceId::Terminal => "terminalService",
            ServiceId::Configuration => "configurationService",
            ServiceId::Storage => "storageService",
            ServiceId::NativeHost => "nativeHostService",
            ServiceId::Dialog => "dialogService",
            ServiceId::Telemetry => "telemetryService",
            ServiceId::ExtensionHost => "extensionHostService",
            ServiceId::Tunnel => "tunnelService",
            ServiceId::Lifecycle => "lifecycleService",
        }
    }

    /// Resolves a channel name or one of its aliases to a service; an unknown
    /// name is reported as a missing service.
    pub fn parse(value: &str) -> (r: Result<ServiceId, ServiceError>)
        ensures
            match parse_service_name(value@) {
                Some(id) => r == Ok::<ServiceId, ServiceError>(id),
                None => r matches Err(e) && e.code@ == "service.missing"@
                    && e.message@ == "service not registered: "@ + value@,
            },
    {
        if str_eq(value, "authService") || str_eq(value, "auth") || str_eq(value, "authentication") {
            Ok(ServiceId::Auth)
        } else if str_eq(value, "fileService") || str_eq(value, "files") {
            Ok(ServiceId::File)
        } else if str_eq(value, "watcherService") || str_eq(value, "watcher") || str_eq(value, "watchers")
            || str_eq(value, "fileWatcher") || str_eq(value, "fileWatcherService") {
            Ok(ServiceId::Watcher)
        } else if str_eq(value, "terminalService") || str_eq(value, "terminal") || str_eq(value, "terminals") {
            Ok(ServiceId::Terminal)
        } else if str_eq(value, "configurationService") || str_eq(value, "configuration") {
            Ok(ServiceId::Configuration)
        } else if str_eq(value, "storageService") || str_eq(value, "storage") {
            Ok(ServiceId::Storage)
        } else if str_eq(value, "nativeHostService") || str_eq(value, "nativeHost") || str_eq(value, "native") {
            Ok(ServiceId::NativeHost)
        } else if str_eq(value, "dialogService") || str_eq(value, "dialog") || str_eq(value, "dialogs") {
            Ok(ServiceId::Dialog)
        } else if str_eq(value, "telemetryService") || str_eq(value, "telemetry") {
            Ok(ServiceId::Telemetry)
        } else if str_eq(value, "extensionHostService") || str_eq(value, "extensionHost") {
            Ok(ServiceId::ExtensionHost)
        } else if str_eq(value, "tunnelService") || str_eq(value, "tunnel") || str_eq(value, "tunnels") {
            Ok(ServiceId::Tunnel)
        } else if str_eq(value, "lifecycleService") || str_eq(value, "lifecycle") {
            Ok(ServiceId::Lifecycle)
        } else {
            Err(ServiceError::missing(value))
        }
    }
}

/// An error reported by a platform service: a stable code and a message.
#[derive(Debug, Clone, PartialEq, Eq)]
pub struct ServiceError {
    pub code: &'static str,
    pub message: String,
}

impl ServiceError {
    /// The service with this name is not registered.
    pub fn missing(service_id: &str) -> (e: ServiceError)
        ensures
            e.code@ == "service.missing"@,
            e.message@ == "service not registered: "@ + service_id@,
    {
        ServiceError { code: "service.missing", message: concat2("service not registered: ", service_id) }
    }

    /// The service does not implement this command.
    pub fn unsupported(service_id: ServiceId, command: &str) -> (e: ServiceError)
        ensures
            e.code@ == "service.unsupportedCommand"@,
            e.message@ == service_name(service_id) + " does not implement command: "@ + command@,
    {
        let mut message = concat2(service_id.as_str(), " does not implement command: ");
        push_str(&mut message, command);
        ServiceError { code: "service.unsupportedCommand", message }
    }

    /// The service does not implement this event.
    pub fn unsupported_listen(service_id: ServiceId, event: &str) -> (e: ServiceError)
        ensures
            e.code@ == "service.unsupportedListen"@,
            e.message@ == service_name(service_id) + " does not implement event: "@ + event@,
    {
        let mut message = concat2(service_id.as_str(), " does not implement event: ");
        push_str(&mut message, event);
        ServiceError { code: "service.unsupportedListen", message }
    }
}

/// The slot each service occupies in a registry.
pub open spec fn slot_of(id: ServiceId) -> int {
    match id {
        ServiceId::Auth => 0,
        ServiceId::File => 1,
        ServiceId::Watcher => 2,
        ServiceId::Terminal => 3,
        ServiceId::Configuration => 4,
        ServiceId::Storage => 5,
        ServiceId::NativeHost => 6,
        ServiceId::Dialog => 7,
        ServiceId::Telemetry => 8,
        ServiceId::ExtensionHost => 9,
        ServiceId::Tunnel => 10,
        ServiceId::Lifecycle => 11,
    }
}

fn slot_index(id: ServiceId) -> (i: usize)
    ensures
        i == slot_of(id),
{
    match id {
        ServiceId::Auth => 0,
        ServiceId::File => 1,
        ServiceId::Watcher => 2,
        ServiceId::Terminal => 3,
        ServiceId::Configuration => 4,
        ServiceId::Storage => 5,
        ServiceId::NativeHost => 6,
        ServiceId::Dialog => 7,
        ServiceId::Telemetry => 8,
        ServiceId::ExtensionHost => 9,
        ServiceId::Tunnel => 10,
        ServiceId::Lifecycle => 11,
    }
}

proof fn lemma_slots_distinct(a: ServiceId, b: ServiceId)
    ensures
        0 <= slot_of(a) < 12,
        slot_of(a) == slot_of(b) ==> a == b,
{
}

/// The platform services, one per service id.
pub struct ServiceRegistry<S> {
    slots: Vec<Option<S>>,
}

impl<S> View for ServiceRegistry<S> {
    type V = Map<ServiceId, S>;

    closed spec fn view(&self) -> Map<ServiceId, S> {
        Map::new(
            |id: ServiceId| self.slots@[slot_of(id)] is Some,
            |id: ServiceId| self.slots@[slot_of(id)]->Some_0,
        )
    }
}

impl<S> ServiceRegistry<S> {
    pub closed spec fn wf(&self) -> bool {
        self.slots@.len() == 12
    }

    /// A registry without services.
    pub fn new() -> (r: ServiceRegistry<S>)
        ensures
            r.wf(),
            r@ == Map::<ServiceId, S>::empty(),
    {
        let mut slots: Vec<Option<S>> = Vec::new();
        let mut k: usize = 0;
        while k < 12
            invariant
                k <= 12,
                slots@.len() == k,
                forall|j: int| 0 <= j < k ==> slots@[j] is None,
            decreases 12 - k,
        {
            slots.push(None);
            k = k + 1;
        }
        let r = ServiceRegistry { slots };
        proof {
            assert forall|id: ServiceId| !r@.contains_key(id) by {
                lemma_slots_distinct(id, id);
            }
            assert(r@ =~= Map::<ServiceId, S>::empty());
        }
        r
    }

    /// Registers a service under its id. A service registered before under
    /// the same id is replaced, and handed back.
    pub fn register(&mut self, service_id: ServiceId, service: S) -> (previous: Option<S>)
        requires
            old(self).wf(),
        ensures
            final(self).wf(),
            final(self)@ == old(self)@.insert(service_id, service),
            previous == if old(self)@.contains_key(service_id) { Some(old(self)@[service_id]) } else { None::<S> },
    {
        let ghost before = self.slots@;
        let i = slot_index(service_id);
        proof { lemma_slots_distinct(service_id, service_id); }
        let previous = self.slots.remove(i);
        self.slots.insert(i, Some(service));
        proof {
            assert(self.slots@ =~= before.update(i as int, Some(service)));
            assert forall|id: ServiceId| #[trigger] self@.contains_key(id) == old(self)@.insert(service_id, service).contains_key(id)
                && (self@.contains_key(id) ==> self@[id] == old(self)@.insert(service_id, service)[id]) by {
                lemma_slots_distinct(id, service_id);
            }
            assert(self@ =~= old(self)@.insert(service_id, service));
        }
        previous
    }

    /// The service registered under an id.
    pub fn get(&self, service_id: ServiceId) -> (r: Option<&S>)
        requires
            self.wf(),
        ensures
            match r {
                Some(s) => self@.contains_key(service_id) && *s == self@[service_id],
                None => !self@.contains_key(service_id),
            },
    {
        let i = slot_index(service_id);
        proof { lemma_slots_distinct(service_id, service_id); }
        match &self.slots[i] {
            Some(s) => Some(s),
            None => None,
        }
    }

    /// The service registered under an id; its absence is an error.
    pub fn require(&self, service_id: ServiceId) -> (r: Result<&S, ServiceError>)
        requires
            self.wf(),
        ensures
            match r {
                Ok(s) => self@.contains_key(service_id) && *s == self@[service_id],
                Err(e) => !self@.contains_key(service_id) && e.code@ == "service.missing"@
                    && e.message@ == "service not registered: "@ + service_name(service_id),
            },
    {
        match self.get(service_id) {
            Some(s) => Ok(s),
            None => Err(ServiceError::missing(service_id.as_str())),
        }
    }

    /// Which registered service a channel call or listen goes to: the
    /// service the channel names, which must be registered. An unknown
    /// channel is refused by its name, an unregistered service by the
    /// service's name.
    pub fn route(&self, channel: &str) -> (r: Result<(ServiceId, &S), ServiceError>)
        requires
            self.wf(),
        ensures
            match parse_service_name(channel@) {
                None => r matches Err(e) && e.code@ == "service.missing"@
                    && e.message@ == "service not registered: "@ + channel@,
                Some(id) => if self@.contains_key(id) {
                    r matches Ok((got, s)) && got == id && *s == self@[id]
                } else {
                    r matches Err(e) && e.code@ == "service.missing"@
                        && e.message@ == "service not registered: "@ + service_name(id)
                },
            },
    {
        let id = ServiceId::parse(channel)?;
        let s = self.require(id)?;
        Ok((id, s))
    }
}

/// What one registration leaves: the registered service is found under its
/// id, and every other id finds what it found before.
pub proof fn lemma_register_then_get<S>(before: Map<ServiceId, S>, after: Map<ServiceId, S>, id: ServiceId, service: S, other: ServiceId)
    requires
        after == before.insert(id, service),
    ensures
        after.contains_key(id) && after[id] == service,
        other != id ==> (after.contains_key(other) == before.contains_key(other)
            && (before.contains_key(other) ==> after[other] == before[other])),
{
}

} // verus!
