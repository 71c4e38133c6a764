use hearth::widgets::{
    add_wrapping, centred, child_constraints, child_event, flow_layout, route_event, Button,
    ButtonState, Child, Constraints, FlowDirection, FlowLayout, IVec2, Id, InputEvent, Slider,
    UVec2,
};

fn iv(x: i32, y: i32) -> IVec2 {
    IVec2 { x, y }
}

fn uv(x: u32, y: u32) -> UVec2 {
    UVec2 { x, y }
}

#[test]
fn offset_moves_drag_starts_only() {
    assert_eq!(InputEvent::DragStart(iv(5, 7)).offset(iv(-2, 3)), InputEvent::DragStart(iv(3, 10)));
    assert_eq!(InputEvent::DragMove(iv(5, 7)).offset(iv(-2, 3)), InputEvent::DragMove(iv(5, 7)));
    assert_eq!(InputEvent::DragEnd.offset(iv(-2, 3)), InputEvent::DragEnd);
    assert_eq!(add_wrapping(iv(i32::MAX, i32::MIN), iv(1, -1)), iv(i32::MIN, i32::MAX));
}

#[test]
fn flow_lays_children_end_to_end() {
    let sizes = vec![uv(10, 3), uv(20, 8), uv(5, 1)];
    assert_eq!(
        flow_layout(FlowDirection::Horizontal, &sizes),
        Some(FlowLayout { positions: vec![uv(0, 0), uv(10, 0), uv(30, 0)], size: uv(35, 8) })
    );
    assert_eq!(
        flow_layout(FlowDirection::Vertical, &sizes),
        Some(FlowLayout { positions: vec![uv(0, 0), uv(0, 3), uv(0, 11)], size: uv(20, 12) })
    );
    assert_eq!(
        flow_layout(FlowDirection::Horizontal, &vec![]),
        Some(FlowLayout { positions: vec![], size: uv(0, 0) })
    );
    assert_eq!(flow_layout(FlowDirection::Horizontal, &vec![uv(u32::MAX, 1), uv(1, 1)]), None);
    assert!(flow_layout(FlowDirection::Vertical, &vec![uv(u32::MAX, 1), uv(1, 1)]).is_some());
}

#[test]
fn flow_children_are_free_along_the_axis() {
    let constraints = Constraints { min: uv(1, 2), max: uv(30, 40) };
    assert_eq!(
        child_constraints(FlowDirection::Horizontal, &constraints),
        Constraints { min: uv(0, 2), max: uv(u32::MAX, 40) }
    );
    assert_eq!(
        child_constraints(FlowDirection::Vertical, &constraints),
        Constraints { min: uv(1, 0), max: uv(30, u32::MAX) }
    );
}

#[test]
fn child_sees_events_from_its_own_origin() {
    assert_eq!(
        child_event(InputEvent::DragStart(iv(15, 9)), uv(10, 4)),
        InputEvent::DragStart(iv(5, 5))
    );
    assert_eq!(child_event(InputEvent::DragEnd, uv(10, 4)), InputEvent::DragEnd);
    assert_eq!(centred(uv(200, 200), uv(41, 21)), uv(79, 89));
    assert_eq!(centred(uv(10, 10), uv(10, 10)), uv(0, 0));
}

#[test]
fn button_clicks_when_a_press_on_it_ends() {
    let mut button = Button::new();
    assert_eq!(button.layout(), uv(41, 21));
    assert!(!button.on_input(InputEvent::DragEnd));
    assert!(!button.on_input(InputEvent::DragStart(iv(20, 10))));
    assert_eq!(button.state, ButtonState::Clicked);
    assert!(!button.on_input(InputEvent::DragMove(iv(100, 100))));
    assert!(button.on_input(InputEvent::DragEnd));
    assert_eq!(button.state, ButtonState::Idle);
    assert!(!button.on_input(InputEvent::DragEnd));
}

#[test]
fn button_ignores_presses_beside_it() {
    // The button reaches 20 to each side of x = 20 and 10 to each side of y = 10.
    for (pos, hit) in [
        (iv(0, 0), true),
        (iv(40, 20), true),
        (iv(41, 10), false),
        (iv(-1, 10), false),
        (iv(20, 21), false),
        (iv(20, -1), false),
        (iv(i32::MAX, i32::MAX), false),
    ] {
        let mut button = Button::new();
        button.on_input(InputEvent::DragStart(pos));
        assert_eq!(button.state == ButtonState::Clicked, hit, "{:?}", pos);
    }
}

#[test]
fn slider_follows_a_drag_on_its_handle() {
    let mut slider = Slider::new();
    assert_eq!(slider.layout(), uv(21, 108));
    assert_eq!(slider.on_input(InputEvent::DragMove(iv(0, 10))), None);
    assert_eq!(slider.handle_pos, 1);
    // The handle is at (11, 3) of the slider, 10 wide and 4 high around it.
    assert_eq!(slider.on_input(InputEvent::DragStart(iv(11, 3))), None);
    assert_eq!(slider.handle_grab, Some(1));
    assert_eq!(slider.on_input(InputEvent::DragMove(iv(0, 10))), Some(11));
    assert_eq!(slider.on_input(InputEvent::DragMove(iv(50, 30))), Some(31));
    assert_eq!(slider.on_input(InputEvent::DragMove(iv(0, 1000))), Some(99));
    assert_eq!(slider.on_input(InputEvent::DragMove(iv(0, -1000))), Some(1));
    assert_eq!(slider.on_input(InputEvent::DragMove(iv(0, i32::MAX))), Some(1));
    assert_eq!(slider.on_input(InputEvent::DragEnd), None);
    assert_eq!(slider.handle_grab, None);
    assert_eq!(slider.on_input(InputEvent::DragMove(iv(0, 10))), None);
    assert_eq!(slider.handle_pos, 1);
}

#[test]
fn slider_ignores_presses_beside_its_handle() {
    for (pos, hit) in [
        (iv(11, 3), true),
        (iv(21, 3), true),
        (iv(22, 3), false),
        (iv(1, 3), true),
        (iv(0, 3), false),
        (iv(11, 7), true),
        (iv(11, 8), false),
        (iv(11, -1), true),
        (iv(11, -2), false),
    ] {
        let mut slider = Slider::new();
        slider.on_input(InputEvent::DragStart(pos));
        assert_eq!(slider.handle_grab.is_some(), hit, "{:?}", pos);
    }
}

#[test]
fn events_are_routed_by_the_second_identifier() {
    let (flow, a, b) = (Id(1), Id(2), Id(3));
    assert_eq!(route_event(&vec![flow, a], a, b), Some(Child::First));
    assert_eq!(route_event(&vec![flow, b, Id(9)], a, b), Some(Child::Second));
    assert_eq!(route_event(&vec![flow, Id(9)], a, b), None);
    assert_eq!(route_event(&vec![flow], a, b), None);
    assert_eq!(route_event(&vec![], a, b), None);
    assert_eq!(route_event(&vec![a, flow], a, b), None);
}
