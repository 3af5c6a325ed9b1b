use di_container::event::{DOMNode, EventListener};
use std::any::TypeId;
use std::sync::{Arc, Mutex};

struct OnClick {
    mouse_x: f32,
    mouse_y: f32,
}

struct OnKey {
    code: u32,
}

struct Recorder {
    id: u32,
    calls: u32,
    log: Arc<Mutex<Vec<(u32, String)>>>,
}

impl EventListener<OnClick> for Recorder {
    fn on_event(&mut self, params: &OnClick) {
        self.calls += 1;
        let line = format!("{}, {}", params.mouse_x, params.mouse_y);
        self.log.lock().unwrap().push((self.id, line));
    }
}

impl EventListener<OnKey> for Recorder {
    fn on_event(&mut self, params: &OnKey) {
        self.calls += 1;
        self.log.lock().unwrap().push((self.id, format!("key {}", params.code)));
    }
}

fn recorder(id: u32, log: &Arc<Mutex<Vec<(u32, String)>>>) -> Recorder {
    Recorder { id, calls: 0, log: log.clone() }
}

#[test]
fn listeners_fire_in_registration_order() {
    let log = Arc::new(Mutex::new(Vec::new()));
    let mut node = DOMNode::new();
    let click = TypeId::of::<OnClick>();
    node.add_event_listener(click, recorder(1, &log));
    node.add_event_listener(click, recorder(2, &log));
    node.add_event_listener(click, recorder(3, &log));
    node.trigger(click, &OnClick { mouse_x: 1.0, mouse_y: 0.5 });
    let seen = log.lock().unwrap().clone();
    assert_eq!(
        seen,
        vec![
            (1, String::from("1, 0.5")),
            (2, String::from("1, 0.5")),
            (3, String::from("1, 0.5")),
        ]
    );
}

#[test]
fn trigger_without_listeners_does_nothing() {
    let mut node: DOMNode<Recorder> = DOMNode::new();
    node.trigger(TypeId::of::<OnClick>(), &OnClick { mouse_x: 0.0, mouse_y: 0.0 });
    node.trigger(TypeId::of::<OnKey>(), &OnKey { code: 1 });
}

#[test]
fn listeners_of_another_event_are_not_fired() {
    let log = Arc::new(Mutex::new(Vec::new()));
    let mut node = DOMNode::new();
    let click = TypeId::of::<OnClick>();
    let key = TypeId::of::<OnKey>();
    node.add_event_listener(click, recorder(1, &log));
    node.add_event_listener(key, recorder(2, &log));
    node.add_event_listener(click, recorder(3, &log));
    node.trigger(key, &OnKey { code: 13 });
    assert_eq!(log.lock().unwrap().clone(), vec![(2, String::from("key 13"))]);
    node.trigger(click, &OnClick { mouse_x: 2.0, mouse_y: 3.5 });
    assert_eq!(
        log.lock().unwrap().clone(),
        vec![
            (2, String::from("key 13")),
            (1, String::from("2, 3.5")),
            (3, String::from("2, 3.5")),
        ]
    );
}

#[test]
fn each_trigger_fires_every_listener_once_more() {
    let log = Arc::new(Mutex::new(Vec::new()));
    let mut node = DOMNode::new();
    let key = TypeId::of::<OnKey>();
    node.add_event_listener(key, recorder(1, &log));
    node.add_event_listener(key, recorder(2, &log));
    node.trigger(key, &OnKey { code: 1 });
    node.trigger(key, &OnKey { code: 2 });
    let ids: Vec<u32> = log.lock().unwrap().iter().map(|entry| entry.0).collect();
    assert_eq!(ids, vec![1, 2, 1, 2]);
}

#[test]
fn closures_are_listeners() {
    let log: Arc<Mutex<Vec<String>>> = Arc::new(Mutex::new(Vec::new()));
    let mut node: DOMNode<Box<dyn FnMut(&OnClick)>> = DOMNode::new();
    let click = TypeId::of::<OnClick>();
    let first = log.clone();
    node.add_event_listener(
        click,
        Box::new(move |event: &OnClick| {
            first.lock().unwrap().push(format!("first {}, {}", event.mouse_x, event.mouse_y));
        }),
    );
    let second = log.clone();
    let mut fired = 0;
    node.add_event_listener(
        click,
        Box::new(move |event: &OnClick| {
            fired += 1;
            second.lock().unwrap().push(format!("second {} #{}", event.mouse_x, fired));
        }),
    );
    let third = log.clone();
    node.add_event_listener(
        click,
        Box::new(move |_event: &OnClick| {
            third.lock().unwrap().push(String::from("third"));
        }),
    );
    node.trigger(click, &OnClick { mouse_x: 1.0, mouse_y: 0.5 });
    node.trigger(click, &OnClick { mouse_x: 2.0, mouse_y: 0.0 });
    assert_eq!(
        log.lock().unwrap().clone(),
        vec![
            String::from("first 1, 0.5"),
            String::from("second 1 #1"),
            String::from("third"),
            String::from("first 2, 0"),
            String::from("second 2 #2"),
            String::from("third"),
        ]
    );
}
