//! Keyboard and MIDI input: bindings, message decoding, and the rules that
//! decide what a shortcut or a MIDI message does.
pub mod actions;
pub mod keyboard;
pub mod midi;
pub mod midi_binding;
pub mod midi_dispatch;
pub mod midi_message;
pub mod midi_ports;
pub mod midi_rules;
pub mod midi_runtime;
