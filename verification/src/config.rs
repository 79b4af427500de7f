//! What an operator configures: the serial port, the graphs and the preset
//! commands.

use vstd::prelude::*;

verus! {

/// The serial port from which telemetry is read.
#[derive(Debug)]
pub struct Serial {
    /// The path of the port.
    pub path: String,
    /// Its baud rate.
    pub baud: u32,
}

/// One graph of the display.
#[derive(Debug)]
pub struct Graph {
    pub name: String,
    pub plots: Vec<Plot>,
}

/// One line of a graph: the channel `source_name` drawn under `name`.
#[derive(Debug)]
pub struct Plot {
    pub name: String,
    pub source_name: String,
    pub color: Color,
}

/// The colours of the display.
#[derive(Copy, Clone, Debug, Default, PartialEq, Eq, Structural)]
pub enum Color {
    #[default]
    Red,
    Orange,
    Yellow,
    Green,
    Blue,
}

/// A command that the operator sends with one click.
#[derive(Debug)]
pub struct Command {
    /// What the button reads.
    pub name: String,
    /// The text that is sent to the device.
    pub command: String,
    pub color: Color,
}

impl Default for Serial {
    fn default() -> (serial: Serial)
        ensures
            serial.path@ == Seq::<char>::empty(),
            serial.baud == 0,
    {
        Serial { path: String::new(), baud: 0 }
    }
}

impl Clone for Serial {
    fn clone(&self) -> (copy: Serial)
        ensures
            copy.path@ == self.path@,
            copy.baud == self.baud,
    {
        Serial { path: self.path.clone(), baud: self.baud }
    }
}

impl Default for Plot {
    fn default() -> (plot: Plot)
        ensures
            plot.name@ == Seq::<char>::empty(),
            plot.source_name@ == Seq::<char>::empty(),
            plot.color == Color::Red,
    {
        Plot { name: String::new(), source_name: String::new(), color: Color::Red }
    }
}

impl Clone for Plot {
    fn clone(&self) -> (copy: Plot)
        ensures
            copy.name@ == self.name@,
            copy.source_name@ == self.source_name@,
            copy.color == self.color,
    {
        Plot {
            name: self.name.clone(),
            source_name: self.source_name.clone(),
            color: self.color,
        }
    }
}

impl Default for Graph {
    fn default() -> (graph: Graph)
        ensures
            graph.name@ == Seq::<char>::empty(),
            graph.plots@ == Seq::<Plot>::empty(),
    {
        Graph { name: String::new(), plots: Vec::new() }
    }
}

impl Clone for Graph {
    fn clone(&self) -> (copy: Graph)
        ensures
            copy.name@ == self.name@,
            copy.plots@.len() == self.plots@.len(),
            forall|i: int|
                0 <= i < self.plots@.len() ==> (#[trigger] copy.plots@[i]).name@
                    == self.plots@[i].name@ && copy.plots@[i].source_name@
                    == self.plots@[i].source_name@ && copy.plots@[i].color == self.plots@[i].color,
    {
        let mut plots: Vec<Plot> = Vec::new();
        let mut i: usize = 0;
        while i < self.plots.len()
            invariant
                i <= self.plots.len(),
                plots@.len() == i,
                forall|k: int|
                    0 <= k < i ==> (#[trigger] plots@[k]).name@ == self.plots@[k].name@
                        && plots@[k].source_name@ == self.plots@[k].source_name@
                        && plots@[k].color == self.plots@[k].color,
            decreases self.plots.len() - i,
        {
            plots.push(self.plots[i].clone());
            i = i + 1;
        }
        Graph { name: self.name.clone(), plots }
    }
}

impl Default for Command {
    fn default() -> (command: Command)
        ensures
            command.name@ == Seq::<char>::empty(),
            command.command@ == Seq::<char>::empty(),
            command.color == Color::Red,
    {
        Command { name: String::new(), command: String::new(), color: Color::Red }
    }
}

impl Clone for Command {
    fn clone(&self) -> (copy: Command)
        ensures
            copy.name@ == self.name@,
            copy.command@ == self.command@,
            copy.color == self.color,
    {
        Command { name: self.name.clone(), command: self.command.clone(), color: self.color }
    }
}

/// A colour by its red, green and blue parts.
#[derive(Copy, Clone, Debug, PartialEq, Eq, Structural)]
pub struct Rgb {
    pub red: u8,
    pub green: u8,
    pub blue: u8,
}

/// The shade in which the display shows each colour.
pub open spec fn shade(color: Color) -> Rgb {
    match color {
        Color::Red => Rgb { red: 231, green: 111, blue: 81 },
        Color::Orange => Rgb { red: 244, green: 162, blue: 97 },
        Color::Yellow => Rgb { red: 233, green: 196, blue: 106 },
        Color::Green => Rgb { red: 42, green: 157, blue: 143 },
        Color::Blue => Rgb { red: 69, green: 123, blue: 157 },
    }
}

/// The shade in which the display shows `color`.
pub fn egui_color(color: Color) -> (rgb: Rgb)
    ensures
        rgb == shade(color),
{
    match color {
        Color::Red => Rgb { red: 231, green: 111, blue: 81 },
        Color::Orange => Rgb { red: 244, green: 162, blue: 97 },
        Color::Yellow => Rgb { red: 233, green: 196, blue: 106 },
        Color::Green => Rgb { red: 42, green: 157, blue: 143 },
        Color::Blue => Rgb { red: 69, green: 123, blue: 157 },
    }
}

impl Command {
    /// The message that sends this command to the device.
    pub fn message(&self) -> (message: crate::message::Message)
        ensures
            message@ == crate::message::MessageView::Command(
                crate::message::CommandView::SendCommand(self.command@),
            ),
    {
        crate::message::Message::Command(
            crate::message::Command::SendCommand(self.command.clone()),
        )
    }
}

} // verus!
