use lua_engine_ex::registry::{EventType, Plugin, PluginError, RinningState, TickStep};

#[test]
fn event_type_spellings() {
    assert_eq!(EventType::from_str("OnMonsterCreate"), Some(EventType::OnMonsterCreate));
    assert_eq!(EventType::from_str("OnMonsterDestroy"), Some(EventType::OnMonsterDestroy));
    assert_eq!(EventType::from_str("onmonstercreate"), None);
    assert_eq!(EventType::from_str(""), None);
}

#[test]
fn listeners_are_reached_in_registration_order() {
    let mut p = Plugin::new();
    assert_eq!(p.add_event_listener_with_id("OnMonsterCreate", 7), Ok(true));
    assert_eq!(p.add_event_listener_with_id("OnMonsterCreate", 3), Ok(false));
    assert_eq!(p.add_event_listener_with_id("OnMonsterDestroy", 9), Ok(true));
    let running = Some(RinningState::Running);
    assert_eq!(p.dispatch_event_monster(EventType::OnMonsterCreate, running), vec![7, 3]);
    assert_eq!(p.dispatch_event_monster(EventType::OnMonsterDestroy, running), vec![9]);
}

#[test]
fn no_listener_is_reached_unless_running() {
    let mut p = Plugin::new();
    p.add_event_listener_with_id("OnMonsterDestroy", 1).unwrap();
    assert!(p.dispatch_event_monster(EventType::OnMonsterDestroy, None).is_empty());
    assert!(p.dispatch_event_monster(EventType::OnMonsterDestroy, Some(RinningState::Loaded)).is_empty());
    assert!(Plugin::new().dispatch_event_monster(EventType::OnMonsterCreate, Some(RinningState::Running)).is_empty());
}

#[test]
fn unknown_event_type_is_refused() {
    let mut p = Plugin::new();
    assert_eq!(p.add_event_listener_with_id("OnPlayerJoin", 1), Err(PluginError::InvalidEventType));
    assert_eq!(p.add_event_listener("OnPlayerJoin"), Err(PluginError::InvalidEventType));
    assert!(p.dispatch_event_monster(EventType::OnMonsterCreate, Some(RinningState::Running)).is_empty());
}

#[test]
fn same_interval_starts_one_ticker() {
    let mut p = Plugin::new();
    assert_eq!(p.set_interval_with_id(100, 1), Ok(true));
    assert_eq!(p.set_interval_with_id(100, 2), Ok(false));
    assert_eq!(p.set_interval_with_id(250, 3), Ok(true));
    assert_eq!(p.dispatch_set_interval(100, Some(RinningState::Running)), TickStep::Fire(vec![1, 2]));
    assert_eq!(p.dispatch_set_interval(250, Some(RinningState::Running)), TickStep::Fire(vec![3]));
    assert_eq!(p.dispatch_set_interval(999, Some(RinningState::Running)), TickStep::Fire(vec![]));
}

#[test]
fn ticks_stop_once_gone_or_not_running() {
    let mut p = Plugin::new();
    p.set_interval_with_id(100, 1).unwrap();
    assert_eq!(p.dispatch_set_interval(100, None), TickStep::Stop);
    assert_eq!(p.dispatch_set_interval(100, Some(RinningState::Loaded)), TickStep::Stop);
    assert_eq!(p.dispatch_set_interval(100, Some(RinningState::Unloaded)), TickStep::Stop);
}

#[test]
fn zero_interval_is_refused() {
    let mut p = Plugin::new();
    assert_eq!(p.set_interval_with_id(0, 1), Err(PluginError::InvalidInterval));
    assert_eq!(p.set_interval(0), Err(PluginError::InvalidInterval));
}

#[test]
fn random_ids_are_registered() {
    let mut p = Plugin::new();
    let a = p.add_event_listener("OnMonsterCreate").unwrap();
    let b = p.add_event_listener("OnMonsterCreate").unwrap();
    assert!(a.start_source);
    assert!(!b.start_source);
    assert_eq!(p.dispatch_event_monster(EventType::OnMonsterCreate, Some(RinningState::Running)), vec![a.id, b.id]);
    let t = p.set_interval(50).unwrap();
    assert!(t.start_source);
    assert!(!p.set_interval(50).unwrap().start_source);
    match p.dispatch_set_interval(50, Some(RinningState::Running)) {
        TickStep::Fire(ids) => assert_eq!(ids.len(), 2),
        other => panic!("unexpected {:?}", other),
    }
}

#[test]
fn listeners_can_be_removed() {
    let mut p = Plugin::new();
    p.add_event_listener_with_id("OnMonsterCreate", 1).unwrap();
    p.add_event_listener_with_id("OnMonsterCreate", 2).unwrap();
    p.add_event_listener_with_id("OnMonsterDestroy", 1).unwrap();
    assert!(p.remove_event_listener(EventType::OnMonsterCreate, 1));
    assert!(!p.remove_event_listener(EventType::OnMonsterCreate, 1));
    let running = Some(RinningState::Running);
    assert_eq!(p.dispatch_event_monster(EventType::OnMonsterCreate, running), vec![2]);
    assert_eq!(p.dispatch_event_monster(EventType::OnMonsterDestroy, running), vec![1]);
    assert_eq!(p.add_event_listener_with_id("OnMonsterCreate", 3), Ok(false));
}
