//! Comparison and description of MIDI bindings.
use crate::model::MidiBinding;
use crate::text::{dec, dec_chars, push_chars, push_str, replace_chars, replace_char, string_of, trim, trim_chars, chars_of, is_blank};
use vstd::prelude::*;

verus! {

/// Two bindings name the same trigger; an unassigned binding matches nothing.
pub open spec fn same_trigger(a: MidiBinding, b: MidiBinding) -> bool {
    &&& !a.blank()
    &&& !b.blank()
    &&& a.device_id@ == b.device_id@
    &&& a.message@ == b.message@
    &&& a.channel == b.channel
    &&& a.number == b.number
}

/// `c + 1`, saturating at 255.
pub open spec fn channel_label(c: u8) -> nat {
    if c < 255 {
        (c + 1) as nat
    } else {
        255
    }
}

/// The name shown for a button: its name, or its label when the name is blank.
pub open spec fn shown_name(name: Seq<char>, label: Seq<char>) -> Seq<char> {
    if trim(name).len() == 0 {
        label
    } else {
        name
    }
}

/// `"<device> ch <channel+1> <message> <number>"`.
pub open spec fn binding_key(b: MidiBinding) -> Seq<char> {
    b.device_name@ + " ch "@ + dec(channel_label(b.channel)) + " "@ + b.message@ + " "@ + dec(
        b.number as nat,
    )
}

/// `"<code>|<trimmed key>|<target with '|' replaced by ' '>"`.
pub open spec fn conflict_text(code: Seq<char>, b: MidiBinding, target: Seq<char>) -> Seq<char> {
    code + "|"@ + trim(binding_key(b)) + "|"@ + replace_char(target, '|', ' ')
}

pub fn same(a: &MidiBinding, b: &MidiBinding) -> (r: bool)
    ensures
        r == same_trigger(*a, *b),
{
    !a.is_empty() && !b.is_empty() && a.device_id == b.device_id && a.message == b.message
        && a.channel == b.channel && a.number == b.number
}

pub fn name(value: &str, label: &str) -> (r: String)
    ensures
        r@ == shown_name(value@, label@),
{
    if is_blank(value) {
        label.to_owned()
    } else {
        value.to_owned()
    }
}

fn binding_key_chars(b: &MidiBinding) -> (r: Vec<char>)
    ensures
        r@ == binding_key(*b),
{
    let mut v: Vec<char> = Vec::new();
    push_str(&mut v, b.device_name.as_str());
    push_str(&mut v, " ch ");
    let ch = dec_chars(b.channel.saturating_add(1) as u64);
    push_chars(&mut v, ch.as_slice());
    push_str(&mut v, " ");
    push_str(&mut v, b.message.as_str());
    push_str(&mut v, " ");
    let n = dec_chars(b.number as u64);
    push_chars(&mut v, n.as_slice());
    v
}

/// The error text of a binding already taken: code, trigger and target.
pub fn conflict(code: &str, binding: &MidiBinding, target: &str) -> (r: String)
    ensures
        r@ == conflict_text(code@, *binding, target@),
{
    let key = binding_key_chars(binding);
    let key = trim_chars(key.as_slice());
    let target = chars_of(target);
    let target = replace_chars(target.as_slice(), '|', ' ');
    let mut v: Vec<char> = Vec::new();
    push_str(&mut v, code);
    push_str(&mut v, "|");
    push_chars(&mut v, key.as_slice());
    push_str(&mut v, "|");
    push_chars(&mut v, target.as_slice());
    string_of(v.as_slice())
}

} // verus!
