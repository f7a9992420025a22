//! Application information and the protocol compatibility check; reads no
//! outside resource.

use vstd::prelude::*;

use crate::error::{CommandError, CommandErrorCode};
use crate::text::{decimal_chars, push_decimal};

verus! {

/// IPC contract version shared by the desktop front end and the core.
pub const IPC_PROTOCOL_VERSION: u32 = 1;

/// User-facing application name.
pub const APP_NAME: &'static str = "LayerLens";

/// Application version, the package version of this crate.
pub const APP_VERSION: &'static str = "0.1.0";

pub const MISMATCH_HEAD: &'static str = "IPC 协议版本不兼容：客户端为 ";

pub const MISMATCH_MIDDLE: &'static str = "，核心要求 ";

pub const MISMATCH_TAIL: &'static str = "。请更新应用后重试。";

/// Before asking for application information, the caller states the protocol
/// version that it understands.
#[derive(Debug, Clone)]
pub struct AppInfoRequest {
    /// IPC contract version of the caller.
    pub protocol_version: u32,
}

/// Application identity returned by the core.
#[derive(Debug, Clone)]
pub struct AppInfo {
    /// User-facing application name.
    pub app_name: String,
    /// Current application version.
    pub app_version: String,
    /// IPC contract version of this reply.
    pub protocol_version: u32,
}

/// The message of a protocol mismatch: both versions and a recovery hint.
pub open spec fn mismatch_message(client: u32) -> Seq<char> {
    MISMATCH_HEAD@ + decimal_chars(client as nat) + MISMATCH_MIDDLE@ + decimal_chars(
        IPC_PROTOCOL_VERSION as nat,
    ) + MISMATCH_TAIL@
}

/// Checks the caller's protocol and returns the application information; no
/// application state changes.
///
/// A caller with another protocol version gets `ProtocolMismatch` and no data.
pub fn get_app_info(request: AppInfoRequest) -> (r: Result<AppInfo, CommandError>)
    ensures
        (request.protocol_version == IPC_PROTOCOL_VERSION) <==> r is Ok,
        r matches Ok(info) ==> info.app_name@ == APP_NAME@ && info.app_version@ == APP_VERSION@
            && info.protocol_version == IPC_PROTOCOL_VERSION,
        r matches Err(e) ==> e.code == CommandErrorCode::ProtocolMismatch && e.message@
            == mismatch_message(request.protocol_version),
{
    if request.protocol_version != IPC_PROTOCOL_VERSION {
        let mut message = String::from_str(MISMATCH_HEAD);
        push_decimal(&mut message, request.protocol_version as u64);
        message.append(MISMATCH_MIDDLE);
        push_decimal(&mut message, IPC_PROTOCOL_VERSION as u64);
        message.append(MISMATCH_TAIL);
        return Err(CommandError { code: CommandErrorCode::ProtocolMismatch, message });
    }
    Ok(
        AppInfo {
            app_name: String::from_str(APP_NAME),
            app_version: String::from_str(APP_VERSION),
            protocol_version: IPC_PROTOCOL_VERSION,
        },
    )
}

} // verus!
