use request_service::register::{NetRegisterError, NetRegistrar, NetUnregisterError};

#[test]
fn ut_net_observer_callback() {
    let mut registrar = NetRegistrar::new();
    for _ in 0..10 {
        registrar.add_observer();
    }
    assert_eq!(registrar.register(false, 0), Err(NetRegisterError::RegisterFailed(0)));
    registrar.add_observer();
    assert_eq!(registrar.register(false, 0), Err(NetRegisterError::RegisterFailed(0)));
}

#[test]
fn observers_are_numbered() {
    let mut registrar = NetRegistrar::new();
    assert_eq!(registrar.add_observer(), Some(0));
    assert_eq!(registrar.add_observer(), Some(1));
}

#[test]
fn register_once_then_unregister() {
    let mut registrar = NetRegistrar::new();
    assert_eq!(registrar.may_register(), Ok(()));
    assert_eq!(registrar.register(true, 3), Err(NetRegisterError::RegisterFailed(3)));
    assert_eq!(registrar.register(true, 0), Ok(()));
    assert_eq!(registrar.may_register(), Err(NetRegisterError::AlreadyRegistered));
    assert_eq!(registrar.register(true, 0), Err(NetRegisterError::AlreadyRegistered));
    assert_eq!(registrar.unregister(9), Err(NetUnregisterError::UnregisterFailed(9)));
    assert_eq!(registrar.unregister(0), Ok(()));
    assert_eq!(registrar.unregister(0), Err(NetUnregisterError::NotRegistered));
    assert_eq!(registrar.register(true, 0), Ok(()));
}
