//! Decoding of the MIDI messages that can trigger an action.
use crate::input::midi_binding::channel_label;
use crate::text::{dec, dec_chars, push_chars, push_str, str_eq, string_of};
use vstd::prelude::*;

verus! {

/// A trigger message received from a MIDI input device.
#[derive(Clone, Debug)]
pub struct MidiInputEvent {
    pub device_id: String,
    pub device_name: String,
    pub message: String,
    pub channel: u8,
    pub number: u8,
    pub value: u8,
}

/// What a raw message triggers: message kind, channel, number and value.
/// Note-on with velocity 0, controller value 0, and every other kind of
/// message trigger nothing.
pub open spec fn decoded(data: Seq<u8>) -> Option<(Seq<char>, u8, u8, u8)> {
    if data.len() == 0 {
        None
    } else {
        let status = data[0];
        let channel = (status % 16) as u8;
        let kind = status / 16;
        if kind == 9 && data.len() >= 3 && data[2] > 0 {
            Some(("note"@, channel, data[1], data[2]))
        } else if kind == 11 && data.len() >= 3 && data[2] > 0 {
            Some(("cc"@, channel, data[1], data[2]))
        } else if kind == 12 && data.len() >= 2 {
            Some(("program"@, channel, data[1], 1u8))
        } else {
            None
        }
    }
}

/// Only three kinds of message trigger anything, each from its own status
/// range: a note from a note-on (status `0x90..=0x9F`) with velocity above
/// 0, a controller from a control change (`0xB0..=0xBF`) with value above 0,
/// and a program from a program change (`0xC0..=0xCF`). The channel is the
/// status's low four bits and the number its first data byte; every other
/// status decodes to nothing.
pub proof fn lemma_decoded_kinds(data: Seq<u8>)
    ensures
        match decoded(data) {
            Some((kind, channel, number, value)) => {
                &&& data.len() >= 2
                &&& channel == data[0] % 16
                &&& number == data[1]
                &&& kind == "note"@ || kind == "cc"@ || kind == "program"@
                &&& kind == "note"@ ==> 0x90 <= data[0] <= 0x9F && data.len() >= 3 && data[2] > 0
                    && value == data[2]
                &&& kind == "cc"@ ==> 0xB0 <= data[0] <= 0xBF && data.len() >= 3 && data[2] > 0
                    && value == data[2]
                &&& kind == "program"@ ==> 0xC0 <= data[0] <= 0xCF && value == 1
            },
            None => true,
        },
        data.len() > 0 && !(0x90 <= data[0] <= 0x9F) && !(0xB0 <= data[0] <= 0xBF) && !(0xC0
            <= data[0] <= 0xCF) ==> decoded(data) is None,
        data.len() >= 3 && 0x90 <= data[0] <= 0x9F && data[2] > 0 ==> decoded(data) == Some(
            ("note"@, (data[0] % 16) as u8, data[1], data[2]),
        ),
        data.len() >= 3 && 0xB0 <= data[0] <= 0xBF && data[2] > 0 ==> decoded(data) == Some(
            ("cc"@, (data[0] % 16) as u8, data[1], data[2]),
        ),
        data.len() >= 2 && 0xC0 <= data[0] <= 0xCF ==> decoded(data) == Some(
            ("program"@, (data[0] % 16) as u8, data[1], 1u8),
        ),
        data.len() >= 3 && (0x90 <= data[0] <= 0x9F || 0xB0 <= data[0] <= 0xBF) && data[2] == 0
            ==> decoded(data) is None,
        data.len() < 2 ==> decoded(data) is None,
{
    reveal_strlit("note");
    reveal_strlit("cc");
    reveal_strlit("program");
    if data.len() > 0 {
        let status = data[0];
        assert(status / 16 == 9 <==> 0x90 <= status <= 0x9F);
        assert(status / 16 == 11 <==> 0xB0 <= status <= 0xBF);
        assert(status / 16 == 12 <==> 0xC0 <= status <= 0xCF);
    }
}

/// The event `parse` builds for device `id`/`name` from a decoded message.
pub open spec fn event_of(
    e: MidiInputEvent,
    id: Seq<char>,
    name: Seq<char>,
    d: (Seq<char>, u8, u8, u8),
) -> bool {
    &&& e.device_id@ == id
    &&& e.device_name@ == name
    &&& e.message@ == d.0
    &&& e.channel == d.1
    &&& e.number == d.2
    &&& e.value == d.3
}

/// The user-facing word for a message kind.
pub open spec fn kind_label(message: Seq<char>) -> Seq<char> {
    if message == "note"@ {
        "nota"@
    } else if message == "cc"@ {
        "CC"@
    } else if message == "program"@ {
        "programa"@
    } else {
        "MIDI"@
    }
}

/// `"<device> ch <channel+1> <kind> <number>"`.
pub open spec fn event_text(e: MidiInputEvent) -> Seq<char> {
    e.device_name@ + " ch "@ + dec(channel_label(e.channel)) + " "@ + kind_label(e.message@) + " "@
        + dec(e.number as nat)
}

impl MidiInputEvent {
    pub fn display(&self) -> (r: String)
        ensures
            r@ == event_text(*self),
    {
        let mut v: Vec<char> = Vec::new();
        push_str(&mut v, self.device_name.as_str());
        push_str(&mut v, " ch ");
        let ch = dec_chars(self.channel.saturating_add(1) as u64);
        push_chars(&mut v, ch.as_slice());
        push_str(&mut v, " ");
        push_str(&mut v, label(self.message.as_str()));
        push_str(&mut v, " ");
        let n = dec_chars(self.number as u64);
        push_chars(&mut v, n.as_slice());
        string_of(v.as_slice())
    }
}

fn label(message: &str) -> (r: &str)
    ensures
        r@ == kind_label(message@),
{
    if str_eq(message, "note") {
        "nota"
    } else if str_eq(message, "cc") {
        "CC"
    } else if str_eq(message, "program") {
        "programa"
    } else {
        "MIDI"
    }
}

fn event(
    device_id: &str,
    device_name: &str,
    message: &str,
    channel: u8,
    number: u8,
    value: u8,
) -> (r: Option<MidiInputEvent>)
    ensures
        r is Some,
        event_of(r->0, device_id@, device_name@, (message@, channel, number, value)),
{
    Some(
        MidiInputEvent {
            device_id: device_id.to_owned(),
            device_name: device_name.to_owned(),
            message: message.to_owned(),
            channel,
            number,
            value,
        },
    )
}

/// Decodes `data` from device `device_id`/`device_name`.
pub fn parse(device_id: &str, device_name: &str, data: &[u8]) -> (r: Option<MidiInputEvent>)
    ensures
        match decoded(data@) {
            None => r is None,
            Some(d) => r is Some && event_of(r->0, device_id@, device_name@, d),
        },
{
    if data.len() == 0 {
        return None;
    }
    let status = data[0];
    let channel = status % 16;
    let kind = status / 16;
    if kind == 9 && data.len() >= 3 && data[2] > 0 {
        event(device_id, device_name, "note", channel, data[1], data[2])
    } else if kind == 11 && data.len() >= 3 && data[2] > 0 {
        event(device_id, device_name, "cc", channel, data[1], data[2])
    } else if kind == 12 && data.len() >= 2 {
        event(device_id, device_name, "program", channel, data[1], 1)
    } else {
        None
    }
}

} // verus!
