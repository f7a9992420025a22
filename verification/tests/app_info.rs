use layerlens_core::{AppInfoRequest, CommandErrorCode, IPC_PROTOCOL_VERSION, get_app_info};

#[test]
fn compatible_protocol_returns_workspace_app_info() {
    let info = get_app_info(AppInfoRequest {
        protocol_version: IPC_PROTOCOL_VERSION,
    })
    .expect("匹配协议必须返回应用信息");

    assert_eq!(info.app_name, "LayerLens");
    assert_eq!(info.app_version, "0.1.0");
    assert_eq!(info.protocol_version, IPC_PROTOCOL_VERSION);
}

#[test]
fn incompatible_protocol_returns_recoverable_error() {
    let error = get_app_info(AppInfoRequest {
        protocol_version: IPC_PROTOCOL_VERSION + 1,
    })
    .expect_err("不匹配协议不能返回应用信息");

    assert_eq!(error.code, CommandErrorCode::ProtocolMismatch);
    assert!(error.message.contains("请更新应用后重试"));
}

#[test]
fn mismatch_message_names_both_versions() {
    let error = get_app_info(AppInfoRequest {
        protocol_version: 1207,
    })
    .unwrap_err();
    assert_eq!(
        error.message,
        "IPC 协议版本不兼容：客户端为 1207，核心要求 1。请更新应用后重试。"
    );
    let zero = get_app_info(AppInfoRequest { protocol_version: 0 }).unwrap_err();
    assert!(zero.message.contains("客户端为 0，"));
}
