use mctl::config::{egui_color, Color, Command, Graph, Plot, Rgb, Serial};
use mctl::message::Message;

#[test]
fn shades_are_exact() {
    assert_eq!(egui_color(Color::Red), Rgb { red: 231, green: 111, blue: 81 });
    assert_eq!(egui_color(Color::Orange), Rgb { red: 244, green: 162, blue: 97 });
    assert_eq!(egui_color(Color::Yellow), Rgb { red: 233, green: 196, blue: 106 });
    assert_eq!(egui_color(Color::Green), Rgb { red: 42, green: 157, blue: 143 });
    assert_eq!(egui_color(Color::Blue), Rgb { red: 69, green: 123, blue: 157 });
}

#[test]
fn defaults_are_empty_and_red() {
    assert_eq!(Color::default(), Color::Red);
    let serial = Serial::default();
    assert_eq!(serial.path, "");
    assert_eq!(serial.baud, 0);
    let plot = Plot::default();
    assert_eq!(plot.name, "");
    assert_eq!(plot.source_name, "");
    assert_eq!(plot.color, Color::Red);
    let graph = Graph::default();
    assert_eq!(graph.name, "");
    assert!(graph.plots.is_empty());
    let command = Command::default();
    assert_eq!(command.name, "");
    assert_eq!(command.command, "");
    assert_eq!(command.color, Color::Red);
}

#[test]
fn preset_command_becomes_a_message() {
    let preset = Command { name: "Arm".to_string(), command: "arm\n".to_string(), color: Color::Green };
    assert_eq!(
        preset.message(),
        Message::Command(mctl::message::Command::SendCommand("arm\n".to_string()))
    );
}
