use button_panel::button::{AsButton, ButtonTrait, GreenButton, RedButton};
use button_panel::panel::{ButtonPanel, PanelButton};
use button_panel::params::ParamsState;
use button_panel::propagation::apply;
use std::sync::{Arc, Mutex};
use tokio::runtime::Builder;
use tokio::sync::{mpsc, RwLock};
use tokio::task::yield_now;

fn two_buttons() -> ButtonPanel {
    let mut panel = ButtonPanel::new();
    panel.insert(PanelButton::Red(RedButton::new()));
    panel.insert(PanelButton::Green(GreenButton::new()));
    panel
}

fn states(panel: &ButtonPanel) -> Vec<i32> {
    ["red_btn", "green_btn"]
        .iter()
        .map(|label| panel.button(label).unwrap().as_button().local_state())
        .collect()
}

#[test]
fn steps_in_any_order_leave_whole_writes() {
    let mut panel = two_buttons();
    let green = vec!["green_btn".to_string()];
    let both = vec!["green_btn".to_string(), "red_btn".to_string()];
    assert_eq!(states(&panel), vec![0, 0]);
    panel.write_all(1);
    assert_eq!(states(&panel), vec![1, 1]);
    panel.write_each(&green, 0).unwrap();
    assert_eq!(states(&panel), vec![1, 0]);
    panel.write_all(2);
    assert_eq!(states(&panel), vec![2, 2]);
    panel.write_each(&both, 0).unwrap();
    assert_eq!(states(&panel), vec![0, 0]);
    assert_eq!(panel.position("red_btn"), Some(0));
    assert_eq!(panel.position("green_btn"), Some(1));
    assert_eq!(panel.button("red_btn").unwrap().name(), "red_dataref");
    assert_eq!(panel.button("green_btn").unwrap().name(), "green_dataref");
}

#[test]
fn readers_between_writers_see_whole_steps() {
    let runtime = Builder::new_multi_thread().worker_threads(3).build().unwrap();
    let params = Arc::new(Mutex::new(ParamsState::from_entries(vec![
        ("red_dataref".to_string(), 10),
        ("green_dataref".to_string(), 11),
    ])));
    let consumer_params = params.clone();
    let reader_params = params.clone();
    let rounds = 200;
    runtime.block_on(async move {
        let buttons = Arc::new(RwLock::new(two_buttons()));
        let (tx, mut rx) = mpsc::channel::<(String, i32)>(4);

        let consumer = tokio::spawn(async move {
            let mut count = 0;
            while let Some(message) = rx.recv().await {
                apply(&mut consumer_params.lock().unwrap(), &message);
                count += 1;
            }
            count
        });

        let shared = buttons.clone();
        let reader = tokio::spawn(async move {
            for _ in 0..rounds {
                {
                    let panel = shared.read().await;
                    let seen = states(&panel);
                    assert!(seen == vec![0, 0] || seen == vec![1, 1], "saw {:?}", seen);
                    let lines = panel.report(&reader_params.lock().unwrap());
                    assert_eq!(lines.len(), 2);
                    assert_eq!(lines[0].0, "red_dataref");
                    assert_eq!(lines[1].0, "green_dataref");
                    assert!([0, 1, 10].contains(&lines[0].1));
                    assert!([0, 1, 11].contains(&lines[1].1));
                }
                yield_now().await;
            }
        });

        let shared = buttons.clone();
        let sender = tx.clone();
        let resetter = tokio::spawn(async move {
            let names = vec!["green_btn".to_string(), "red_btn".to_string()];
            for _ in 0..rounds {
                {
                    let mut panel = shared.write().await;
                    for effect in panel.write_each(&names, 0).unwrap() {
                        sender.send(effect.message).await.unwrap();
                    }
                }
                yield_now().await;
            }
        });

        let shared = buttons.clone();
        let sender = tx.clone();
        let setter = tokio::spawn(async move {
            for _ in 0..rounds {
                {
                    let mut panel = shared.write().await;
                    for effect in panel.write_all(1) {
                        sender.send(effect.message).await.unwrap();
                    }
                }
                yield_now().await;
            }
        });

        drop(tx);
        reader.await.unwrap();
        resetter.await.unwrap();
        setter.await.unwrap();
        assert_eq!(consumer.await.unwrap(), 4 * rounds);

        let panel = buttons.read().await;
        let last = states(&panel);
        assert!(last == vec![0, 0] || last == vec![1, 1]);
    });
    let params = params.lock().unwrap();
    assert!([0, 1].contains(&params.get("red_dataref")));
    assert!([0, 1].contains(&params.get("green_dataref")));
}
