use mls_sim::require::{
    require_candidates, require_step, ModuleCache, ModuleDirs, ModuleValue, RequireAction,
};

fn pair(a: &str, b: &str) -> (String, String) {
    (a.to_string(), b.to_string())
}

#[test]
fn candidates_in_search_order() {
    assert_eq!(
        require_candidates("lib.util", Some("/s/mods"), "/s"),
        vec![
            pair("/s/mods", "lib/util.lua"),
            pair("/s/mods", "lib/util/init.lua"),
            pair("/s", "lib/util.lua"),
            pair("/s", "lib/util/init.lua"),
        ]
    );
    assert_eq!(
        require_candidates("a/b.c", None, "/s"),
        vec![pair("/s", "a/b.c.lua"), pair("/s", "a/b.c/init.lua")]
    );
}

#[test]
fn require_steps_in_priority_order() {
    assert!(matches!(require_step(true, true, Some(0), "m"), RequireAction::Cached));
    assert!(matches!(require_step(false, true, Some(0), "m"), RequireAction::Global));
    assert!(matches!(require_step(false, false, Some(2), "m"), RequireAction::Load { candidate: 2 }));
    match require_step(false, false, None, "m.x") {
        RequireAction::NotFound { message } => assert_eq!(message, "module 'm.x' not found"),
        _ => panic!("expected the not-found error"),
    }
}

#[test]
fn module_cache_keeps_true_for_nil() {
    let mut cache: ModuleCache<i32> = ModuleCache::new();
    assert!(cache.get("a").is_none());
    cache.store("a".to_string(), None);
    cache.store("b".to_string(), Some(7));
    assert!(matches!(cache.get("a"), Some(ModuleValue::True)));
    assert!(matches!(cache.get("b"), Some(ModuleValue::Value(7))));
    cache.store("b".to_string(), Some(8));
    assert!(matches!(cache.get("b"), Some(ModuleValue::Value(8))));
}

#[test]
fn module_directories_nest() {
    let mut dirs = ModuleDirs::new("/s".to_string());
    assert_eq!(dirs.current(), Some("/s"));
    dirs.enter("/s/lib".to_string());
    assert_eq!(dirs.current(), Some("/s/lib"));
    dirs.leave();
    assert_eq!(dirs.current(), Some("/s"));
    dirs.leave();
    assert_eq!(dirs.current(), None);
    dirs.leave();
    assert_eq!(dirs.current(), None);
}
