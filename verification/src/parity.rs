//! The small platform services: native host, dialogs, lifecycle and
//! telemetry. Their commands, and the telemetry events they collect.
use vstd::prelude::*;
use crate::json::JsonValue;
use crate::service_registry::{service_name, ServiceError, ServiceId};
use crate::numfmt::{decimal, to_decimal};
use crate::text::{owned, str_eq};

verus! {

/// A command of one of the small platform services.
#[derive(Debug, Clone, Copy, PartialEq, Eq, Structural)]
pub enum ParityCommand {
    OsProperties,
    WindowCount,
    ShowMessageBox,
    LifecyclePhase,
    TelemetryLog,
    TelemetryInfo,
    TelemetryLevel,
}

/// The command `command` of service `service`, if that service has it.
pub open spec fn parity_command(service: ServiceId, s: Seq<char>) -> Option<ParityCommand> {
    match service {
        ServiceId::NativeHost => if s == "getOSProperties"@ || s == "osProperties"@ {
            Some(ParityCommand::OsProperties)
        } else if s == "getWindowCount"@ || s == "windowCount"@ {
            Some(ParityCommand::WindowCount)
        } else {
            None
        },
        ServiceId::Dialog => if s == "showMessageBox"@ || s == "showMessageBoxSync"@ {
            Some(ParityCommand::ShowMessageBox)
        } else {
            None
        },
        ServiceId::Lifecycle => if s == "getLifecyclePhase"@ || s == "phase"@ || s == "when"@ {
            Some(ParityCommand::LifecyclePhase)
        } else {
            None
        },
        ServiceId::Telemetry => if s == "publicLog"@ || s == "publicLog2"@ || s == "log"@ {
            Some(ParityCommand::TelemetryLog)
        } else if s == "getTelemetryInfo"@ || s == "telemetryInfo"@ {
            Some(ParityCommand::TelemetryInfo)
        } else if s == "getTelemetryLevel"@ || s == "telemetryLevel"@ {
            Some(ParityCommand::TelemetryLevel)
        } else {
            None
        },
        _ => None,
    }
}

impl ParityCommand {
    /// The command of service `service` named `command`; any other name is
    /// refused as a command the service does not implement.
    pub fn parse(service: ServiceId, command: &str) -> (r: Result<ParityCommand, ServiceError>)
        ensures
            match parity_command(service, command@) {
                Some(c) => r == Ok::<ParityCommand, ServiceError>(c),
                None => r matches Err(e) && e.code@ == "service.unsupportedCommand"@
                    && e.message@ == service_name(service) + " does not implement command: "@ + command@,
            },
    {
        let found = match service {
            ServiceId::NativeHost => if str_eq(command, "getOSProperties") || str_eq(command, "osProperties") {
                Some(ParityCommand::OsProperties)
            } else if str_eq(command, "getWindowCount") || str_eq(command, "windowCount") {
                Some(ParityCommand::WindowCount)
            } else {
                None
            },
            ServiceId::Dialog => if str_eq(command, "showMessageBox") || str_eq(command, "showMessageBoxSync") {
                Some(ParityCommand::ShowMessageBox)
            } else {
                None
            },
            ServiceId::Lifecycle => if str_eq(command, "getLifecyclePhase") || str_eq(command, "phase") || str_eq(command, "when") {
                Some(ParityCommand::LifecyclePhase)
            } else {
                None
            },
            ServiceId::Telemetry => if str_eq(command, "publicLog") || str_eq(command, "publicLog2") || str_eq(command, "log") {
                Some(ParityCommand::TelemetryLog)
            } else if str_eq(command, "getTelemetryInfo") || str_eq(command, "telemetryInfo") {
                Some(ParityCommand::TelemetryInfo)
            } else if str_eq(command, "getTelemetryLevel") || str_eq(command, "telemetryLevel") {
                Some(ParityCommand::TelemetryLevel)
            } else {
                None
            },
            _ => None,
        };
        match found {
            Some(c) => Ok(c),
            None => Err(ServiceError::unsupported(service, command)),
        }
    }
}

/// The telemetry events the telemetry service collected, oldest first.
pub struct RustTelemetryService {
    events: Vec<JsonValue>,
}

impl View for RustTelemetryService {
    type V = Seq<JsonValue>;

    closed spec fn view(&self) -> Seq<JsonValue> {
        self.events@
    }
}

impl RustTelemetryService {
    pub fn new() -> (s: RustTelemetryService)
        ensures
            s@ == Seq::<JsonValue>::empty(),
    {
        RustTelemetryService { events: Vec::new() }
    }

    /// Records the event a log call carries: its first argument, or `null`.
    pub fn log(&mut self, args: Vec<JsonValue>)
        ensures
            final(self)@ == old(self)@.push(if args@.len() > 0 { args@[0] } else { JsonValue::Null }),
    {
        let mut args = args;
        let event = if args.len() > 0 { args.remove(0) } else { JsonValue::Null };
        self.events.push(event);
    }

    /// The events collected so far.
    pub fn events(&self) -> (r: &Vec<JsonValue>)
        ensures
            r@ == self@,
    {
        &self.events
    }
}


/// A JSON string value holding exactly `text`.
pub open spec fn is_json_text(v: JsonValue, text: Seq<char>) -> bool {
    v matches JsonValue::String(t) && t@ == text
}

/// A JSON number value written as `text`.
pub open spec fn is_json_number(v: JsonValue, text: Seq<char>) -> bool {
    v matches JsonValue::Number(t) && t@ == text
}

/// The machine facts the native host reports; the host process gathers them.
pub struct OsProperties {
    pub platform: String,
    pub arch: String,
    pub family: String,
    pub pid: u32,
    pub cwd: Option<String>,
}

/// The reply to `getOSProperties`: platform, arch, family, pid and working
/// directory (`null` where it is unknown), in that order.
pub open spec fn is_os_properties_reply(v: JsonValue, os: OsProperties) -> bool {
    v matches JsonValue::Object(e) && e@.len() == 5
        && e@[0].0@ == "platform"@ && is_json_text(e@[0].1, os.platform@)
        && e@[1].0@ == "arch"@ && is_json_text(e@[1].1, os.arch@)
        && e@[2].0@ == "family"@ && is_json_text(e@[2].1, os.family@)
        && e@[3].0@ == "pid"@ && is_json_number(e@[3].1, decimal(os.pid as nat))
        && e@[4].0@ == "cwd"@ && match os.cwd {
            Some(c) => is_json_text(e@[4].1, c@),
            None => e@[4].1 == JsonValue::Null,
        }
}

/// The reply to a message box: button 0, box not checked.
pub open spec fn is_message_box_reply(v: JsonValue) -> bool {
    v matches JsonValue::Object(e) && e@.len() == 2
        && e@[0].0@ == "response"@ && is_json_number(e@[0].1, "0"@)
        && e@[1].0@ == "checkboxChecked"@ && e@[1].1 == JsonValue::Bool(false)
}

/// The reply to a lifecycle phase query: ready, in a new window.
pub open spec fn is_lifecycle_reply(v: JsonValue) -> bool {
    v matches JsonValue::Object(e) && e@.len() == 2
        && e@[0].0@ == "phase"@ && is_json_text(e@[0].1, "ready"@)
        && e@[1].0@ == "startupKind"@ && is_json_text(e@[1].1, "newWindow"@)
}

/// The reply to a telemetry info query.
pub open spec fn is_telemetry_info_reply(v: JsonValue) -> bool {
    v matches JsonValue::Object(e) && e@.len() == 4
        && e@[0].0@ == "sessionId"@ && is_json_text(e@[0].1, "tauri"@)
        && e@[1].0@ == "machineId"@ && is_json_text(e@[1].1, "tauri"@)
        && e@[2].0@ == "sqmId"@ && is_json_text(e@[2].1, ""@)
        && e@[3].0@ == "devDeviceId"@ && is_json_text(e@[3].1, ""@)
}

fn text_value(s: &str) -> (v: JsonValue)
    ensures
        is_json_text(v, s@),
{
    JsonValue::String(owned(s))
}

fn entry(key: &str, value: JsonValue) -> (e: (String, JsonValue))
    ensures
        e.0@ == key@,
        e.1 == value,
{
    (owned(key), value)
}

/// The native host service: machine facts and the window count.
pub struct RustNativeHostService;

impl RustNativeHostService {
    /// Answers `command` from the facts in `os`; side-effecting commands are
    /// refused.
    pub fn call(&self, command: &str, os: OsProperties) -> (r: Result<JsonValue, ServiceError>)
        ensures
            match parity_command(ServiceId::NativeHost, command@) {
                Some(ParityCommand::OsProperties) => r matches Ok(v) && is_os_properties_reply(v, os),
                Some(_) => r matches Ok(v) && is_json_number(v, "1"@),
                None => r matches Err(e) && e.code@ == "service.unsupportedCommand"@
                    && e.message@ == service_name(ServiceId::NativeHost) + " does not implement command: "@ + command@,
            },
    {
        match ParityCommand::parse(ServiceId::NativeHost, command) {
            Ok(ParityCommand::OsProperties) => {
                let ghost g = os;
                let OsProperties { platform, arch, family, pid, cwd } = os;
                let cwd_value = match cwd {
                    Some(c) => JsonValue::String(c),
                    None => JsonValue::Null,
                };
                let mut e: Vec<(String, JsonValue)> = Vec::new();
                e.push(entry("platform", JsonValue::String(platform)));
                e.push(entry("arch", JsonValue::String(arch)));
                e.push(entry("family", JsonValue::String(family)));
                e.push(entry("pid", JsonValue::Number(to_decimal(pid as u64))));
                e.push(entry("cwd", cwd_value));
                let v = JsonValue::Object(e);
                proof { assert(is_os_properties_reply(v, g)); }
                Ok(v)
            },
            Ok(_) => Ok(JsonValue::Number(owned("1"))),
            Err(e) => Err(e),
        }
    }
}

/// The dialog service: message boxes answer with the first button.
pub struct RustDialogService;

impl RustDialogService {
    pub fn call(&self, command: &str) -> (r: Result<JsonValue, ServiceError>)
        ensures
            match parity_command(ServiceId::Dialog, command@) {
                Some(_) => r matches Ok(v) && is_message_box_reply(v),
                None => r matches Err(e) && e.code@ == "service.unsupportedCommand"@
                    && e.message@ == service_name(ServiceId::Dialog) + " does not implement command: "@ + command@,
            },
    {
        match ParityCommand::parse(ServiceId::Dialog, command) {
            Ok(_) => {
                let mut e: Vec<(String, JsonValue)> = Vec::new();
                e.push(entry("response", JsonValue::Number(owned("0"))));
                e.push(entry("checkboxChecked", JsonValue::Bool(false)));
                Ok(JsonValue::Object(e))
            },
            Err(e) => Err(e),
        }
    }
}

/// The lifecycle service: the window is always ready.
pub struct RustLifecycleService;

impl RustLifecycleService {
    pub fn call(&self, command: &str) -> (r: Result<JsonValue, ServiceError>)
        ensures
            match parity_command(ServiceId::Lifecycle, command@) {
                Some(_) => r matches Ok(v) && is_lifecycle_reply(v),
                None => r matches Err(e) && e.code@ == "service.unsupportedCommand"@
                    && e.message@ == service_name(ServiceId::Lifecycle) + " does not implement command: "@ + command@,
            },
    {
        match ParityCommand::parse(ServiceId::Lifecycle, command) {
            Ok(_) => {
                let mut e: Vec<(String, JsonValue)> = Vec::new();
                e.push(entry("phase", text_value("ready")));
                e.push(entry("startupKind", text_value("newWindow")));
                Ok(JsonValue::Object(e))
            },
            Err(e) => Err(e),
        }
    }
}

impl RustTelemetryService {
    /// Answers a telemetry command: a log call records its event and answers
    /// `null`; the info and level queries answer fixed values.
    pub fn call(&mut self, command: &str, args: Vec<JsonValue>) -> (r: Result<JsonValue, ServiceError>)
        ensures
            match parity_command(ServiceId::Telemetry, command@) {
                Some(ParityCommand::TelemetryLog) => r == Ok::<JsonValue, ServiceError>(JsonValue::Null)
                    && final(self)@ == old(self)@.push(if args@.len() > 0 { args@[0] } else { JsonValue::Null }),
                Some(ParityCommand::TelemetryInfo) => r matches Ok(v) && is_telemetry_info_reply(v)
                    && final(self)@ == old(self)@,
                Some(_) => r matches Ok(v) && is_json_text(v, "off"@) && final(self)@ == old(self)@,
                None => r matches Err(e) && e.code@ == "service.unsupportedCommand"@
                    && e.message@ == service_name(ServiceId::Telemetry) + " does not implement command: "@ + command@
                    && final(self)@ == old(self)@,
            },
    {
        match ParityCommand::parse(ServiceId::Telemetry, command) {
            Ok(ParityCommand::TelemetryLog) => {
                self.log(args);
                Ok(JsonValue::Null)
            },
            Ok(ParityCommand::TelemetryInfo) => {
                let mut e: Vec<(String, JsonValue)> = Vec::new();
                e.push(entry("sessionId", text_value("tauri")));
                e.push(entry("machineId", text_value("tauri")));
                e.push(entry("sqmId", text_value("")));
                e.push(entry("devDeviceId", text_value("")));
                Ok(JsonValue::Object(e))
            },
            Ok(_) => Ok(text_value("off")),
            Err(e) => Err(e),
        }
    }
}

} // verus!
