use vscode_atomic_tauri::service_registry::{ServiceId, ServiceRegistry};

#[test]
fn service_id_parses_parity_service_identifiers() {
    let cases = [
        (ServiceId::AUTH, ServiceId::Auth),
        ("auth", ServiceId::Auth),
        (ServiceId::FILE, ServiceId::File),
        ("files", ServiceId::File),
        (ServiceId::WATCHER, ServiceId::Watcher),
        ("fileWatcherService", ServiceId::Watcher),
        (ServiceId::TERMINAL, ServiceId::Terminal),
        ("terminals", ServiceId::Terminal),
        (ServiceId::CONFIGURATION, ServiceId::Configuration),
        ("configuration", ServiceId::Configuration),
        (ServiceId::STORAGE, ServiceId::Storage),
        ("storage", ServiceId::Storage),
        (ServiceId::NATIVE_HOST, ServiceId::NativeHost),
        ("nativeHost", ServiceId::NativeHost),
        (ServiceId::DIALOG, ServiceId::Dialog),
        ("dialogs", ServiceId::Dialog),
        (ServiceId::TELEMETRY, ServiceId::Telemetry),
        ("telemetry", ServiceId::Telemetry),
        (ServiceId::EXTENSION_HOST, ServiceId::ExtensionHost),
        ("extensionHost", ServiceId::ExtensionHost),
        (ServiceId::TUNNEL, ServiceId::Tunnel),
        ("tunnels", ServiceId::Tunnel),
        (ServiceId::LIFECYCLE, ServiceId::Lifecycle),
        ("lifecycle", ServiceId::Lifecycle),
    ];

    for (input, expected) in cases {
        assert_eq!(ServiceId::parse(input), Ok(expected));
    }
}

#[test]
fn service_id_rejects_unknown_identifier() {
    let error = ServiceId::parse("unknownService").expect_err("unknown service rejected");

    assert_eq!(error.code, "service.missing");
    assert_eq!(error.message, "service not registered: unknownService");
}

#[test]
fn service_id_names_round_trip() {
    for id in [
        ServiceId::Auth,
        ServiceId::File,
        ServiceId::Watcher,
        ServiceId::Terminal,
        ServiceId::Configuration,
        ServiceId::Storage,
        ServiceId::NativeHost,
        ServiceId::Dialog,
        ServiceId::Telemetry,
        ServiceId::ExtensionHost,
        ServiceId::Tunnel,
        ServiceId::Lifecycle,
    ] {
        assert_eq!(ServiceId::parse(id.as_str()), Ok(id));
    }
}

struct TestFileService;

impl TestFileService {
    fn service_id(&self) -> ServiceId {
        ServiceId::File
    }
}

#[test]
fn dispatch_refuses_unregistered_service_by_name() {
    let mut registry = ServiceRegistry::new();
    registry.register(ServiceId::File, TestFileService);
    let (id, service) = registry.route("files").map_err(|e| e.message).expect("files registered");
    assert_eq!(id, ServiceId::File);
    assert_eq!(service.service_id(), ServiceId::File);
    let error = registry.route("terminal").map(|(id, _)| id).expect_err("terminal not registered");
    assert_eq!(error.code, "service.missing");
    assert_eq!(error.message, "service not registered: terminalService");
    let error = registry.route("bogus").map(|(id, _)| id).expect_err("unknown channel");
    assert_eq!(error.message, "service not registered: bogus");
}

#[test]
fn register_and_get_service_by_stable_id() {
    let mut registry = ServiceRegistry::new();
    registry.register(ServiceId::File, TestFileService);

    let service = registry.get(ServiceId::File).expect("file service registered");
    assert_eq!(service.service_id().as_str(), ServiceId::FILE);
}

#[test]
fn get_missing_service_returns_none() {
    let registry: ServiceRegistry<TestFileService> = ServiceRegistry::new();

    assert!(registry.get(ServiceId::Terminal).is_none());
}

#[test]
fn require_missing_service_returns_error() {
    let registry: ServiceRegistry<TestFileService> = ServiceRegistry::new();

    let error = match registry.require(ServiceId::Storage) {
        Ok(_) => panic!("storage service missing"),
        Err(error) => error,
    };
    assert_eq!(error.code, "service.missing");
    assert_eq!(error.message, "service not registered: storageService");
}

#[test]
fn registering_again_replaces_and_returns_the_previous_service() {
    let mut registry = ServiceRegistry::new();
    assert_eq!(registry.register(ServiceId::Dialog, 1u8), None);
    assert_eq!(registry.register(ServiceId::Dialog, 2u8), Some(1u8));
    assert_eq!(registry.get(ServiceId::Dialog), Some(&2u8));
    assert_eq!(registry.get(ServiceId::Lifecycle), None);
}
