//! LayerLens core library: application information, the bounded read-only PSD
//! container check, resource ledgers, and the selection and task registry.

mod app_info;
pub mod documents;
mod error;
pub mod psd;
pub mod selection_contract;
pub mod text;
pub mod workspace_contract;

pub use app_info::{
    AppInfo, AppInfoRequest, APP_NAME, APP_VERSION, IPC_PROTOCOL_VERSION, get_app_info,
};
pub use error::{CommandError, CommandErrorCode};
