use request_service::error::ErrorCode;

#[test]
fn ut_enum_error_code() {
    assert_eq!(ErrorCode::ErrOk.code(), 0);
    assert_eq!(ErrorCode::IpcSizeTooLarge.code(), 2);
    assert_eq!(ErrorCode::ChannelNotOpen.code(), 5);
    assert_eq!(ErrorCode::Permission.code(), 201);
    assert_eq!(ErrorCode::SystemApi.code(), 202);
    assert_eq!(ErrorCode::ParameterCheck.code(), 401);
    assert_eq!(ErrorCode::FileOperationErr.code(), 13400001);
    assert_eq!(ErrorCode::Other.code(), 13499999);
    assert_eq!(ErrorCode::TaskEnqueueErr.code(), 21900004);
    assert_eq!(ErrorCode::TaskNotFound.code(), 21900006);
    assert_eq!(ErrorCode::TaskStateErr.code(), 21900007);
}
