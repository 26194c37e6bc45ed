use pcl_ce_extension::error::AppError;

#[test]
fn error_messages() {
    assert_eq!(AppError::PipeDisconnected.message(), "Pipe disconnected");
    assert_eq!(AppError::Protocol("x".to_string()).message(), "Protocol error: x");
    assert_eq!(AppError::InvalidRpcParams("bad".to_string()).message(), "Invalid RPC params: bad");
    assert_eq!(
        AppError::RpcError { code: -32601, msg: "m".to_string() }.message(),
        "RPC error: code=-32601 msg=m"
    );
    assert_eq!(AppError::HResult(-2147024891).message(), "Windows HRESULT: 0x80070005");
    assert_eq!(AppError::HResult(1).message(), "Windows HRESULT: 0x00000001");
    assert_eq!(AppError::HResult(-1).message(), "Windows HRESULT: 0xFFFFFFFF");
    assert_eq!(AppError::MissingHmac.message(), "Missing HMAC signature in request");
    assert_eq!(AppError::FileNotFound("C:\\x".to_string()).message(), "File not found: C:\\x");
    assert_eq!(
        AppError::MissingEnvironmentVariable("PCL_CE_HMAC_KEY".to_string()).message(),
        "Missing environment variable: PCL_CE_HMAC_KEY"
    );
}
