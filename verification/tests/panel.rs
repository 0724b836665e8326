use button_panel::button::{AsButton, Button, ButtonTrait, GreenButton, RedButton};
use button_panel::panel::{ButtonPanel, PanelButton};
use button_panel::params::ParamsState;

fn two_buttons() -> ButtonPanel {
    let mut panel = ButtonPanel::new();
    assert!(panel.insert(PanelButton::Red(RedButton::new())).is_none());
    assert!(panel.insert(PanelButton::Green(GreenButton::new())).is_none());
    panel
}

fn table() -> ParamsState {
    ParamsState::from_entries(vec![
        ("red_dataref".to_string(), 10),
        ("green_dataref".to_string(), 11),
    ])
}

fn local_state(panel: &ButtonPanel, label: &str) -> i32 {
    panel.button(label).unwrap().as_button().local_state()
}

#[test]
fn empty_panel_has_no_button() {
    let panel = ButtonPanel::new();
    assert_eq!(panel.len(), 0);
    assert_eq!(panel.position("red_btn"), None);
    assert!(panel.button("red_btn").is_none());
}

#[test]
fn buttons_are_found_by_label() {
    let panel = two_buttons();
    assert_eq!(panel.len(), 2);
    assert_eq!(panel.position("red_btn"), Some(0));
    assert_eq!(panel.position("green_btn"), Some(1));
    assert_eq!(panel.position("red_dataref"), None);
    assert_eq!(panel.button("green_btn").unwrap().name(), "green_dataref");
    assert!(matches!(panel.button("red_btn"), Some(PanelButton::Red(_))));
}

#[test]
fn insert_under_a_taken_label_replaces() {
    let mut panel = two_buttons();
    let replaced = panel.insert(PanelButton::Plain(Button::new("red_btn", 3, "other")));
    assert!(matches!(replaced, Some(PanelButton::Red(_))));
    assert_eq!(panel.len(), 2);
    assert_eq!(panel.position("red_btn"), Some(0));
    assert_eq!(panel.position("green_btn"), Some(1));
    assert_eq!(panel.button("red_btn").unwrap().name(), "other");
    assert_eq!(local_state(&panel, "red_btn"), 3);
}

#[test]
fn write_reaches_the_named_button_only() {
    let mut panel = two_buttons();
    let effect = panel.write("green_btn", 5).unwrap();
    assert_eq!(effect.message, ("green_dataref".to_string(), 5));
    assert_eq!(effect.audit, None);
    assert_eq!(local_state(&panel, "green_btn"), 5);
    assert_eq!(local_state(&panel, "red_btn"), 0);
}

#[test]
fn write_to_red_carries_its_log_line() {
    let mut panel = two_buttons();
    let effect = panel.write("red_btn", 2).unwrap();
    assert_eq!(effect.message, ("red_dataref".to_string(), 2));
    assert_eq!(effect.audit, Some("red button set_state override".to_string()));
    assert_eq!(local_state(&panel, "red_btn"), 2);
}

#[test]
fn write_to_unknown_label_changes_nothing() {
    let mut panel = two_buttons();
    assert!(panel.write("blue_btn", 5).is_none());
    assert_eq!(panel.len(), 2);
    assert_eq!(local_state(&panel, "green_btn"), 0);
    assert_eq!(local_state(&panel, "red_btn"), 0);
}

#[test]
fn write_all_reaches_every_button_in_order() {
    let mut panel = two_buttons();
    let effects = panel.write_all(1);
    assert_eq!(effects.len(), 2);
    assert_eq!(effects[0].message, ("red_dataref".to_string(), 1));
    assert_eq!(effects[0].audit, Some("red button set_state override".to_string()));
    assert_eq!(effects[1].message, ("green_dataref".to_string(), 1));
    assert_eq!(effects[1].audit, None);
    assert_eq!(local_state(&panel, "red_btn"), 1);
    assert_eq!(local_state(&panel, "green_btn"), 1);
    assert_eq!(panel.position("red_btn"), Some(0));
    assert_eq!(panel.position("green_btn"), Some(1));
}

#[test]
fn write_all_on_empty_panel_yields_nothing() {
    let mut panel = ButtonPanel::new();
    assert!(panel.write_all(1).is_empty());
    assert_eq!(panel.len(), 0);
}

#[test]
fn write_each_follows_the_order_of_the_names() {
    let mut panel = two_buttons();
    panel.write_all(1);
    let names = vec!["green_btn".to_string(), "red_btn".to_string()];
    assert!(panel.has_all(&names));
    let effects = panel.write_each(&names, 0).unwrap();
    assert_eq!(effects.len(), 2);
    assert_eq!(effects[0].message, ("green_dataref".to_string(), 0));
    assert_eq!(effects[0].audit, None);
    assert_eq!(effects[1].message, ("red_dataref".to_string(), 0));
    assert_eq!(effects[1].audit, Some("red button set_state override".to_string()));
    assert_eq!(local_state(&panel, "red_btn"), 0);
    assert_eq!(local_state(&panel, "green_btn"), 0);
}

#[test]
fn write_each_leaves_other_buttons_alone() {
    let mut panel = two_buttons();
    panel.write_all(1);
    let effects = panel.write_each(&vec!["green_btn".to_string()], 0).unwrap();
    assert_eq!(effects.len(), 1);
    assert_eq!(local_state(&panel, "green_btn"), 0);
    assert_eq!(local_state(&panel, "red_btn"), 1);
}

#[test]
fn write_each_with_a_name_twice_writes_twice() {
    let mut panel = two_buttons();
    let names = vec!["red_btn".to_string(), "red_btn".to_string()];
    let effects = panel.write_each(&names, 4).unwrap();
    assert_eq!(effects.len(), 2);
    assert_eq!(effects[0].message, ("red_dataref".to_string(), 4));
    assert_eq!(effects[1].message, ("red_dataref".to_string(), 4));
    assert_eq!(local_state(&panel, "red_btn"), 4);
    assert_eq!(local_state(&panel, "green_btn"), 0);
}

#[test]
fn write_each_with_an_unknown_name_writes_nothing() {
    let mut panel = two_buttons();
    let names = vec!["green_btn".to_string(), "blue_btn".to_string()];
    assert!(!panel.has_all(&names));
    assert!(panel.write_each(&names, 7).is_none());
    assert_eq!(local_state(&panel, "green_btn"), 0);
    assert_eq!(local_state(&panel, "red_btn"), 0);
}

#[test]
fn write_each_with_no_name_writes_nothing() {
    let mut panel = two_buttons();
    let effects = panel.write_each(&Vec::new(), 7).unwrap();
    assert!(effects.is_empty());
    assert_eq!(local_state(&panel, "green_btn"), 0);
}

#[test]
fn report_shows_the_table_values() {
    let panel = two_buttons();
    let table = table();
    assert!(panel.is_bound(&table));
    assert_eq!(
        panel.report(&table),
        vec![("red_dataref".to_string(), 10), ("green_dataref".to_string(), 11)]
    );
}

#[test]
fn report_does_not_show_unpropagated_writes() {
    let mut panel = two_buttons();
    let table = table();
    panel.write_all(1);
    assert_eq!(
        panel.report(&table),
        vec![("red_dataref".to_string(), 10), ("green_dataref".to_string(), 11)]
    );
}

#[test]
fn panel_with_an_unseeded_parameter_is_not_bound() {
    let mut panel = two_buttons();
    panel.insert(PanelButton::Plain(Button::new("dial", 0, "dial_dataref")));
    assert!(!panel.is_bound(&table()));
    assert!(ButtonPanel::new().is_bound(&ParamsState::new()));
    assert!(!two_buttons().is_bound(&ParamsState::new()));
}
