use button_panel::button::{AsButton, Button, ButtonTrait, GreenButton, RedButton};
use button_panel::params::ParamsState;

fn table() -> ParamsState {
    ParamsState::from_entries(vec![
        ("red_dataref".to_string(), 10),
        ("green_dataref".to_string(), 11),
    ])
}

#[test]
fn red_button_starts_as_described() {
    let red = RedButton::new();
    assert_eq!(red.as_button().label(), "red_btn");
    assert_eq!(red.as_button().local_state(), 0);
    assert_eq!(red.name(), "red_dataref");
    assert_eq!(red.color, "red");
}

#[test]
fn green_button_starts_as_described() {
    let green = GreenButton::new();
    assert_eq!(green.as_button().label(), "green_btn");
    assert_eq!(green.as_button().local_state(), 0);
    assert_eq!(green.name(), "green_dataref");
    assert_eq!(green.color, "green");
}

#[test]
fn plain_button_keeps_what_it_was_given() {
    let button = Button::new("dial", 4, "dial_dataref");
    assert_eq!(button.label(), "dial");
    assert_eq!(button.local_state(), 4);
    assert_eq!(button.name(), "dial_dataref");
}

#[test]
fn name_is_the_parameter_name() {
    let button = Button::new("shown", 0, "bound");
    assert_eq!(button.name(), "bound");
    assert_eq!(RedButton::over(button).name(), "bound");
}

#[test]
fn get_state_reads_the_table() {
    let table = table();
    let red = RedButton::new();
    let green = GreenButton::new();
    assert_eq!(red.get_state(&table), 10);
    assert_eq!(green.get_state(&table), 11);
    assert_eq!(red.as_button().local_state(), 0);
}

#[test]
fn plain_write_sets_state_and_yields_message() {
    let mut button = Button::new("dial", 0, "dial_dataref");
    let effect = button.set_state(5);
    assert_eq!(button.local_state(), 5);
    assert_eq!(button.label(), "dial");
    assert_eq!(button.name(), "dial_dataref");
    assert_eq!(effect.message, ("dial_dataref".to_string(), 5));
    assert_eq!(effect.audit, None);
}

#[test]
fn red_write_adds_a_log_line() {
    let mut red = RedButton::new();
    let effect = red.set_state(1);
    assert_eq!(red.as_button().local_state(), 1);
    assert_eq!(red.color, "red");
    assert_eq!(effect.message, ("red_dataref".to_string(), 1));
    assert_eq!(effect.audit, Some("red button set_state override".to_string()));
}

#[test]
fn green_write_adds_nothing() {
    let mut green = GreenButton::new();
    let effect = green.set_state(1);
    assert_eq!(green.as_button().local_state(), 1);
    assert_eq!(green.color, "green");
    assert_eq!(effect.message, ("green_dataref".to_string(), 1));
    assert_eq!(effect.audit, None);
}

#[test]
fn overriding_kind_writes_as_its_base_does() {
    for state in [i32::MIN, -1, 0, 1, 7, i32::MAX] {
        let mut base = Button::new("b", 3, "b_dataref");
        let mut red = RedButton::over(Button::new("b", 3, "b_dataref"));
        let from_base = base.set_state(state);
        let from_red = red.set_state(state);
        assert_eq!(from_red.message, from_base.message);
        assert_eq!(red.as_button().local_state(), base.local_state());
        assert_eq!(red.as_button().label(), base.label());
        assert_eq!(red.name(), base.name());
    }
}

#[test]
fn write_does_not_touch_the_table() {
    let table = table();
    let mut red = RedButton::new();
    red.set_state(1);
    assert_eq!(red.get_state(&table), 10);
    assert_eq!(red.as_button().local_state(), 1);
}

#[test]
fn base_can_be_reached_and_changed() {
    let mut green = GreenButton::new();
    let effect = green.as_button_mut().set_state(9);
    assert_eq!(effect.message, ("green_dataref".to_string(), 9));
    assert_eq!(green.button.local_state(), 9);
    assert_eq!(green.as_button().local_state(), 9);
}

#[test]
fn repeated_writes_keep_the_last() {
    let mut red = RedButton::new();
    let mut sent = Vec::new();
    for state in [4, 5, 6] {
        sent.push(red.set_state(state).message);
    }
    assert_eq!(red.as_button().local_state(), 6);
    assert_eq!(
        sent,
        vec![
            ("red_dataref".to_string(), 4),
            ("red_dataref".to_string(), 5),
            ("red_dataref".to_string(), 6),
        ]
    );
}
