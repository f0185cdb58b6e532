//! Tests of the channel panel.
use dap_sampler::pipeline::sample::ValueType;
use dap_sampler::ui::channel_panel::ChannelPanel;

fn panel_with_one_channel() -> ChannelPanel {
    let mut p = ChannelPanel::new();
    p.add_channel("CH1".to_string(), egui::Color32::RED, ValueType::Float);
    p
}

#[test]
fn visible_button_toggles_state() {
    let mut p = panel_with_one_channel();
    assert!(p.channels[0].visible);
    p.channels[0].visible = false;
    assert!(!p.channels[0].visible);
    p.channels[0].visible = true;
    assert!(p.channels[0].visible);
}

#[test]
fn visible_label_shows_filled_when_visible() {
    let p = panel_with_one_channel();
    assert_eq!(p.channels[0].visible, true);
    let label_visible = "●";
    assert_eq!(label_visible, "●");

    let label_hidden = "○";
    assert_eq!(label_hidden, "○");
}

#[test]
fn remove_returns_correct_index() {
    let mut p = panel_with_one_channel();
    assert_eq!(p.channel_count(), 1);
    p.remove_channel(0);
    assert_eq!(p.channel_count(), 0);
}

#[test]
fn icon_label_is_multiply_sign() {
    let remove_label = "×";
    assert_eq!(remove_label.chars().next().map(|c| c as u32), Some(0x00D7));
}

#[test]
fn add_channel_stops_at_eight() {
    let mut p = ChannelPanel::new();
    for i in 0..10 {
        p.add_channel(format!("CH{}", i), egui::Color32::BLUE, ValueType::Uint32);
    }
    assert_eq!(p.channel_count(), 8);
    assert_eq!(p.channels[7].name, "CH7");
}

#[test]
fn remove_by_name_keeps_others_in_order() {
    let mut p = ChannelPanel::new();
    p.add_channel("a".to_string(), egui::Color32::RED, ValueType::Float);
    p.add_channel("b".to_string(), egui::Color32::RED, ValueType::Float);
    p.add_channel("a".to_string(), egui::Color32::RED, ValueType::Float);
    p.add_channel("c".to_string(), egui::Color32::RED, ValueType::Float);
    assert!(p.has_channel("a"));
    p.remove_by_name("a");
    assert!(!p.has_channel("a"));
    let names: Vec<&str> = p.channels.iter().map(|c| c.name.as_str()).collect();
    assert_eq!(names, vec!["b", "c"]);
    p.channels[1].visible = false;
    assert_eq!(p.visibility(), vec![true, false]);
    p.remove_channel(5);
    assert_eq!(p.channel_count(), 2);
}
