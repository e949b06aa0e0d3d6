use lua_engine_ex::manager::{LoadFailure, LuaManager, ManagerError, ScriptEntry, ScriptRead};
use lua_engine_ex::registry::{EventType, PluginError, RinningState, TickStep};
use lua_engine_ex::vm::LuaVMError;

fn read(name: &str, text: Result<&str, &str>) -> ScriptRead {
    ScriptRead {
        name: name.to_string(),
        path: format!("LuaEngineEx/{}", name),
        text: text.map(|t| t.to_string()).map_err(|e| e.to_string()),
    }
}

fn states(m: &LuaManager) -> Vec<(String, RinningState)> {
    let mut v = m.list_vms();
    v.sort_by(|a, b| a.0.cmp(&b.0));
    v
}

fn run_everything(m: &mut LuaManager) {
    for t in m.run_all() {
        m.finish_run(t.serial, Ok(())).unwrap();
    }
}

#[test]
fn load_all_continues_past_a_failure() {
    let mut m = LuaManager::new();
    let reads = vec![read("a.lua", Ok("x = 1")), read("b.lua", Err("denied")), read("c.lua", Ok("y = 2"))];
    let failures = m.load_all(&reads);
    assert_eq!(failures, vec![LoadFailure { name: "b.lua".to_string(), reason: "denied".to_string() }]);
    assert_eq!(
        states(&m),
        vec![("a.lua".to_string(), RinningState::Loaded), ("c.lua".to_string(), RinningState::Loaded)]
    );
}

#[test]
fn reload_all_with_one_fault_runs_the_others() {
    let mut m = LuaManager::new();
    m.load_all(&vec![read("old.lua", Ok("z = 0"))]);
    let reads = vec![read("a.lua", Ok("x = 1")), read("b.lua", Err("unreadable")), read("c.lua", Ok("y = 2"))];
    let (failures, tickets) = m.reload_all(&reads);
    assert_eq!(failures.len(), 1);
    assert_eq!(failures[0].name, "b.lua");
    assert_eq!(tickets.len(), 2);
    for t in &tickets {
        m.finish_run(t.serial, Ok(())).unwrap();
    }
    assert_eq!(
        states(&m),
        vec![("a.lua".to_string(), RinningState::Running), ("c.lua".to_string(), RinningState::Running)]
    );
}

#[test]
fn first_run_fault_is_reported_and_discards_the_instance() {
    let mut m = LuaManager::new();
    m.load_all(&vec![read("a.lua", Ok("error('boom')"))]);
    let tickets = m.run_all();
    assert_eq!(tickets.len(), 1);
    assert_eq!(tickets[0].script, "error('boom')");
    let r = m.finish_run(tickets[0].serial, Err("boom".to_string()));
    assert_eq!(r, Err(ManagerError::LuaVM(LuaVMError::LuaRuntime { reason: "boom".to_string() })));
    assert!(m.list_vms().is_empty());
}

#[test]
fn fault_in_a_running_instance_keeps_it() {
    let mut m = LuaManager::new();
    m.load_all(&vec![read("a.lua", Ok("x = 1"))]);
    run_everything(&mut m);
    let t = m.run_all().pop().unwrap();
    assert!(m.finish_run(t.serial, Err("late".to_string())).is_err());
    assert_eq!(states(&m), vec![("a.lua".to_string(), RinningState::Running)]);
}

#[test]
fn reload_all_drops_a_script_whose_top_level_faults() {
    let mut m = LuaManager::new();
    let reads = vec![read("a.lua", Ok("x = 1")), read("b.lua", Ok("y = 1")), read("c.lua", Ok("error('c')"))];
    let (failures, tickets) = m.reload_all(&reads);
    assert!(failures.is_empty());
    let mut faults = Vec::new();
    for t in &tickets {
        let outcome = if t.name == "c.lua" { Err("c".to_string()) } else { Ok(()) };
        if let Err(e) = m.finish_run(t.serial, outcome) {
            faults.push((t.name.clone(), e));
        }
    }
    assert_eq!(faults.len(), 1);
    assert_eq!(faults[0].0, "c.lua");
    assert_eq!(
        states(&m),
        vec![("a.lua".to_string(), RinningState::Running), ("b.lua".to_string(), RinningState::Running)]
    );
}

#[test]
fn repeated_reload_keeps_one_running_instance() {
    let mut m = LuaManager::new();
    m.load_all(&vec![read("a.lua", Ok("x = 1")), read("b.lua", Ok("y = 1"))]);
    run_everything(&mut m);
    for _ in 0..3 {
        let path = m.reload("a.lua", &vec![]).unwrap();
        assert_eq!(path, "LuaEngineEx/a.lua");
        let t = m.complete_reload("a.lua", &path, Ok("x = 1".to_string())).unwrap();
        m.finish_run(t.serial, Ok(())).unwrap();
        assert_eq!(
            states(&m),
            vec![("a.lua".to_string(), RinningState::Running), ("b.lua".to_string(), RinningState::Running)]
        );
    }
}

#[test]
fn reload_of_missing_script_is_not_found() {
    let mut m = LuaManager::new();
    m.load_all(&vec![read("a.lua", Ok("x = 1"))]);
    let before = states(&m);
    let listing = vec![ScriptEntry { name: "a.lua".to_string(), path: "LuaEngineEx/a.lua".to_string() }];
    assert_eq!(m.reload("missing.script", &listing), Err(ManagerError::NotFound));
    assert_eq!(states(&m), before);
}

#[test]
fn reload_finds_a_new_script_in_the_listing() {
    let mut m = LuaManager::new();
    let listing = vec![ScriptEntry { name: "new.lua".to_string(), path: "LuaEngineEx/new.lua".to_string() }];
    let path = m.reload("new.lua", &listing).unwrap();
    assert_eq!(path, "LuaEngineEx/new.lua");
    let t = m.complete_reload("new.lua", &path, Ok("n = 1".to_string())).unwrap();
    assert_eq!(t.name, "new.lua");
    assert_eq!(states(&m), vec![("new.lua".to_string(), RinningState::Loaded)]);
}

#[test]
fn failed_reload_read_changes_nothing() {
    let mut m = LuaManager::new();
    m.load_all(&vec![read("a.lua", Ok("x = 1"))]);
    run_everything(&mut m);
    let r = m.complete_reload("a.lua", "LuaEngineEx/a.lua", Err("gone".to_string()));
    assert_eq!(r, Err(ManagerError::LuaVM(LuaVMError::LoadFile { reason: "gone".to_string() })));
    assert_eq!(states(&m), vec![("a.lua".to_string(), RinningState::Running)]);
}

#[test]
fn listeners_reach_a_running_instance_in_order() {
    let mut m = LuaManager::new();
    m.load_all(&vec![read("a.lua", Ok("x = 1"))]);
    let t = m.run_all().pop().unwrap();
    assert_eq!(m.add_event_listener_with_id(t.serial, "OnMonsterCreate", 11), Ok(true));
    assert_eq!(m.add_event_listener_with_id(t.serial, "OnMonsterCreate", 12), Ok(false));
    assert!(m.dispatch_event_monster(t.serial, EventType::OnMonsterCreate).is_empty());
    m.finish_run(t.serial, Ok(())).unwrap();
    assert_eq!(m.dispatch_event_monster(t.serial, EventType::OnMonsterCreate), vec![11, 12]);
    assert!(m.dispatch_event_monster(t.serial, EventType::OnMonsterDestroy).is_empty());
}

#[test]
fn unloaded_instance_is_unreachable() {
    let mut m = LuaManager::new();
    m.load_all(&vec![read("a.lua", Ok("x = 1"))]);
    let t = m.run_all().pop().unwrap();
    m.add_event_listener_with_id(t.serial, "OnMonsterDestroy", 5).unwrap();
    m.set_interval_with_id(t.serial, 100, 6).unwrap();
    m.finish_run(t.serial, Ok(())).unwrap();
    assert_eq!(m.dispatch_event_monster(t.serial, EventType::OnMonsterDestroy), vec![5]);
    assert_eq!(m.unload("a.lua"), Ok(()));
    assert!(m.dispatch_event_monster(t.serial, EventType::OnMonsterDestroy).is_empty());
    assert_eq!(m.dispatch_set_interval(t.serial, 100), TickStep::Stop);
    assert_eq!(m.add_event_listener_with_id(t.serial, "OnMonsterDestroy", 7), Err(PluginError::InstanceGone));
}

#[test]
fn reload_replaces_the_registry_and_the_serial() {
    let mut m = LuaManager::new();
    m.load_all(&vec![read("a.lua", Ok("x = 1"))]);
    let t = m.run_all().pop().unwrap();
    m.set_interval_with_id(t.serial, 100, 1).unwrap();
    m.finish_run(t.serial, Ok(())).unwrap();
    let t2 = m.complete_reload("a.lua", "LuaEngineEx/a.lua", Ok("x = 2".to_string())).unwrap();
    assert_ne!(t2.serial, t.serial);
    assert_eq!(m.dispatch_set_interval(t.serial, 100), TickStep::Stop);
    assert_eq!(m.dispatch_set_interval(t2.serial, 100), TickStep::Stop);
    assert_eq!(m.set_interval_with_id(t2.serial, 100, 2), Ok(true));
}

#[test]
fn unload_all_empties_the_manager() {
    let mut m = LuaManager::new();
    m.load_all(&vec![read("a.lua", Ok("x = 1")), read("b.lua", Ok("y = 1"))]);
    m.unload_all();
    assert!(m.list_vms().is_empty());
    assert!(m.run_all().is_empty());
}

#[test]
fn later_read_of_a_name_wins() {
    let mut m = LuaManager::new();
    m.load_all(&vec![read("a.lua", Ok("first")), read("a.lua", Ok("second"))]);
    let tickets = m.run_all();
    assert_eq!(tickets.len(), 1);
    assert_eq!(tickets[0].script, "second");
}

#[test]
fn random_registration_through_the_manager() {
    let mut m = LuaManager::new();
    m.load_all(&vec![read("a.lua", Ok("x = 1"))]);
    let t = m.run_all().pop().unwrap();
    let reg = m.add_event_listener(t.serial, "OnMonsterCreate").unwrap();
    assert!(reg.start_source);
    assert_eq!(m.add_event_listener(t.serial, "Bogus"), Err(PluginError::InvalidEventType));
    let tick = m.set_interval(t.serial, 30).unwrap();
    assert!(tick.start_source);
    m.finish_run(t.serial, Ok(())).unwrap();
    assert_eq!(m.dispatch_event_monster(t.serial, EventType::OnMonsterCreate), vec![reg.id]);
    assert_eq!(m.dispatch_set_interval(t.serial, 30), TickStep::Fire(vec![tick.id]));
}
