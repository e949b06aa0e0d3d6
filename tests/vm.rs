use lua_engine_ex::registry::RinningState;
use lua_engine_ex::vm::{LuaHandler, LuaVM, LuaVMError};

#[test]
fn instance_state_machine() {
    let mut h = LuaHandler::new("a.lua", 1);
    assert_eq!(h.run(), Err(LuaVMError::NotLoaded));
    assert_eq!(h.reload(), Err(LuaVMError::NotLoaded));
    assert_eq!(h.luavm.running_state, RinningState::Unloaded);
    assert_eq!(
        h.load_file("LuaEngineEx/a.lua", Err("missing".to_string())),
        Err(LuaVMError::LoadFile { reason: "missing".to_string() })
    );
    assert_eq!(h.luavm.running_state, RinningState::Unloaded);
    h.load_file("LuaEngineEx/a.lua", Ok("x = 1".to_string())).unwrap();
    assert_eq!(h.luavm.running_state, RinningState::Loaded);
    assert_eq!(h.run(), Ok("x = 1".to_string()));
    assert_eq!(h.reload(), Ok("LuaEngineEx/a.lua".to_string()));
    h.finish_run(Ok(())).unwrap();
    assert!(h.luavm.is_running());
    h.load_file("LuaEngineEx/a.lua", Ok("x = 2".to_string())).unwrap();
    assert_eq!(h.luavm.running_state, RinningState::Loaded);
    assert_eq!(
        h.finish_run(Err("bad".to_string())),
        Err(LuaVMError::LuaRuntime { reason: "bad".to_string() })
    );
    assert!(!h.luavm.is_running());
}

#[test]
fn interpreter_state() {
    let mut vm = LuaVM::new();
    assert!(!vm.is_running());
    assert!(vm.run(Err("x".to_string())).is_err());
    assert!(!vm.is_running());
    assert!(vm.run(Ok(())).is_ok());
    assert!(vm.is_running());
}
