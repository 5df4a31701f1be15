use mls_sim::events::{EventHandler, EventHandlers};

fn handler(id: i32) -> EventHandler<&'static str> {
    EventHandler { id, func_key: "callback" }
}

#[test]
fn handlers_keep_registration_order() {
    let mut h: EventHandlers<&'static str> = EventHandlers::new();
    assert!(h.handler_ids("start").is_empty());
    h.register("start".to_string(), handler(1));
    h.register("tick".to_string(), handler(2));
    h.register("start".to_string(), handler(3));
    assert_eq!(h.handler_ids("start"), vec![1, 3]);
    assert_eq!(h.handler_ids("tick"), vec![2]);
    assert!(h.handler_ids("stop").is_empty());
}

#[test]
fn unregister_removes_the_id_everywhere() {
    let mut h: EventHandlers<&'static str> = EventHandlers::new();
    h.register("a".to_string(), handler(1));
    h.register("b".to_string(), handler(1));
    h.register("a".to_string(), handler(2));
    h.unregister(1);
    assert_eq!(h.handler_ids("a"), vec![2]);
    assert!(h.handler_ids("b").is_empty());
    h.unregister(42);
    assert_eq!(h.handler_ids("a"), vec![2]);
}

#[test]
fn unregistering_a_fresh_handler_restores_the_registry() {
    let mut h: EventHandlers<&'static str> = EventHandlers::new();
    h.register("a".to_string(), handler(1));
    h.register("a".to_string(), handler(2));
    h.register("a".to_string(), handler(5));
    h.unregister(5);
    assert_eq!(h.handler_ids("a"), vec![1, 2]);
}
