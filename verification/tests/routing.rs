use certflow::routing::{FlowCtrl, PathState};

fn parts_of(path: &str) -> Vec<String> {
    PathState::new(path).parts().clone()
}

#[test]
fn path_is_split_into_segments() {
    assert_eq!(parts_of("/hello/world"), vec!["hello".to_string(), "world".to_string()]);
    assert_eq!(parts_of("hello/world/"), vec!["hello".to_string(), "world".to_string()]);
    assert_eq!(parts_of("hello"), vec!["hello".to_string()]);
}

#[test]
fn empty_segments_are_dropped() {
    assert_eq!(parts_of(""), Vec::<String>::new());
    assert_eq!(parts_of("/"), Vec::<String>::new());
    assert_eq!(parts_of("///"), Vec::<String>::new());
    assert_eq!(parts_of("//a///b//"), vec!["a".to_string(), "b".to_string()]);
}

#[test]
fn segments_are_percent_decoded() {
    assert_eq!(parts_of("/a%20b/c%2Fd"), vec!["a b".to_string(), "c/d".to_string()]);
    assert_eq!(parts_of("/100%/%zz"), vec!["100%".to_string(), "%zz".to_string()]);
    assert_eq!(parts_of("/%E4%BD%A0%E5%A5%BD"), vec!["\u{4f60}\u{597d}".to_string()]);
    assert_eq!(parts_of("/%ff"), vec!["\u{fffd}".to_string()]);
}

#[test]
fn segments_keep_other_characters() {
    assert_eq!(parts_of("/caf\u{e9}/x"), vec!["caf\u{e9}".to_string(), "x".to_string()]);
}

#[test]
fn new_state_stands_at_the_start() {
    let state = PathState::new("/hello/world");
    assert_eq!(state.cursor(), (0, 0));
    assert!(!state.ended());
    assert!(state.on_char_boundary());
    assert_eq!(state.pick(), Some("hello"));
    assert_eq!(state.part_rest(), Some("hello"));
    assert_eq!(state.all_rest().unwrap(), "hello/world");
}

#[test]
fn empty_path_is_ended() {
    let state = PathState::new("/");
    assert!(state.ended());
    assert_eq!(state.pick(), None);
    assert_eq!(state.part_rest(), None);
    assert!(state.all_rest().is_none());
}

#[test]
fn forward_inside_a_part() {
    let mut state = PathState::new("/hello/world");
    state.forward(2);
    assert_eq!(state.cursor(), (0, 2));
    assert_eq!(state.pick(), Some("llo"));
    assert_eq!(state.part_rest(), Some("llo"));
    assert_eq!(state.all_rest().unwrap(), "llo/world");
    state.forward(1);
    assert_eq!(state.cursor(), (0, 3));
    assert_eq!(state.pick(), Some("lo"));
}

#[test]
fn forward_to_the_end_of_a_part_moves_to_the_next() {
    let mut state = PathState::new("/hello/world");
    state.forward(5);
    assert_eq!(state.cursor(), (1, 0));
    assert_eq!(state.pick(), Some("world"));
    assert_eq!(state.part_rest(), Some("world"));
    assert_eq!(state.all_rest().unwrap(), "world/");
    assert!(!state.ended());
}

#[test]
fn forward_across_parts() {
    let mut state = PathState::new("/ab/cd/ef");
    state.forward(3);
    assert_eq!(state.cursor(), (1, 1));
    assert_eq!(state.pick(), Some("d"));
    assert_eq!(state.all_rest().unwrap(), "d/ef");
    state.forward(3);
    assert_eq!(state.cursor(), (3, 0));
    assert!(state.ended());
    assert_eq!(state.pick(), None);
}

#[test]
fn forward_past_the_end() {
    let mut state = PathState::new("/ab");
    state.forward(10);
    assert_eq!(state.cursor(), (1, 0));
    assert!(state.ended());
    state.forward(3);
    assert_eq!(state.cursor(), (1, 0));
}

#[test]
fn forward_by_nothing_stays() {
    let mut state = PathState::new("/ab/cd");
    state.forward(0);
    assert_eq!(state.cursor(), (0, 0));
    state.forward(1);
    state.forward(0);
    assert_eq!(state.cursor(), (0, 1));
}

#[test]
fn cursor_inside_a_character_is_not_on_a_boundary() {
    let mut state = PathState::new("/\u{e9}a");
    state.forward(1);
    assert_eq!(state.cursor(), (0, 1));
    assert!(!state.on_char_boundary());
    state.forward(1);
    assert_eq!(state.cursor(), (0, 2));
    assert!(state.on_char_boundary());
    assert_eq!(state.pick(), Some("a"));
}

#[test]
fn flow_calls_handlers_in_order() {
    let mut ctrl = FlowCtrl::new(vec!["first", "second"]);
    assert!(ctrl.has_next());
    assert!(!ctrl.is_ceased());
    assert_eq!(ctrl.call_next(None), Some(0));
    assert_eq!(*ctrl.handler(0), "first");
    assert!(ctrl.has_next());
    assert_eq!(ctrl.call_next(Some(200)), Some(1));
    assert_eq!(*ctrl.handler(1), "second");
    assert!(!ctrl.has_next());
    assert_eq!(ctrl.call_next(None), None);
}

#[test]
fn flow_without_handlers_has_no_next() {
    let mut ctrl: FlowCtrl<u8> = FlowCtrl::new(Vec::new());
    assert!(!ctrl.has_next());
    assert_eq!(ctrl.call_next(None), None);
}

#[test]
fn error_status_skips_the_rest() {
    for code in [300u16, 302, 399, 400, 404, 499, 500, 503, 599] {
        let mut ctrl = FlowCtrl::new(vec![1, 2, 3]);
        assert_eq!(ctrl.call_next(None), Some(0));
        assert_eq!(ctrl.call_next(Some(code)), None);
        assert!(!ctrl.has_next());
        assert!(!ctrl.is_ceased());
        assert_eq!(ctrl.call_next(None), None);
    }
}

#[test]
fn other_status_lets_the_flow_go_on() {
    for code in [100u16, 200, 204, 299, 600, 999] {
        let mut ctrl = FlowCtrl::new(vec![1, 2, 3]);
        assert_eq!(ctrl.call_next(Some(code)), Some(0));
        assert!(ctrl.has_next());
    }
}

#[test]
fn skip_rest_leaves_nothing_to_call() {
    let mut ctrl = FlowCtrl::new(vec![1, 2, 3]);
    ctrl.skip_rest();
    assert!(!ctrl.has_next());
    assert!(!ctrl.is_ceased());
    assert_eq!(ctrl.call_next(None), None);
}

#[test]
fn cease_skips_and_marks() {
    let mut ctrl = FlowCtrl::new(vec![1, 2, 3]);
    assert_eq!(ctrl.call_next(None), Some(0));
    ctrl.cease();
    assert!(ctrl.is_ceased());
    assert!(!ctrl.has_next());
    assert_eq!(ctrl.call_next(None), None);
}

#[test]
fn no_part_is_empty() {
    for path in ["/%/a", "//%00//", "/a%2F/%20", "%", "/\u{e9}/"] {
        let state = PathState::new(path);
        assert!(!state.parts().is_empty());
        assert!(state.parts().iter().all(|part| !part.is_empty()));
    }
}

#[test]
fn handlers_are_found_by_position() {
    let ctrl = FlowCtrl::new(vec!["first", "second"]);
    assert_eq!(ctrl.get(0), Some(&"first"));
    assert_eq!(ctrl.get(1), Some(&"second"));
    assert_eq!(ctrl.get(2), None);
}

#[test]
fn flow_starts_every_handler_once_and_in_order() {
    let mut ctrl = FlowCtrl::new(vec![10, 20, 30]);
    let mut started = Vec::new();
    while let Some(index) = ctrl.call_next(Some(200)) {
        started.push(*ctrl.get(index).unwrap());
    }
    assert_eq!(started, vec![10, 20, 30]);
    assert!(!ctrl.has_next());
    ctrl.skip_rest();
    ctrl.skip_rest();
    assert!(!ctrl.has_next());
    assert!(!ctrl.is_ceased());
    ctrl.cease();
    ctrl.cease();
    assert!(ctrl.is_ceased());
    ctrl.skip_rest();
    assert_eq!(ctrl.call_next(None), None);
    assert!(ctrl.is_ceased());
}
