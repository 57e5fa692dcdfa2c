//! MIDI input ports: what the device list shows and how ports are named.
use crate::model::{MidiConfig, MidiDeviceRef};
use crate::seqs::{first_index, lemma_first_is, lemma_first_none};
use crate::text::{chars_of, dec, dec_chars, hex, hex_chars, push_chars, push_str, str_eq, string_of};
use vstd::prelude::*;

verus! {

/// An input device as the settings list shows it.
#[derive(Clone, Debug)]
pub struct MidiInputDevice {
    pub id: String,
    pub name: String,
    pub label: String,
    pub selected: bool,
    pub available: bool,
    pub connected: bool,
}

/// A port the system offers.
#[derive(Clone, Debug)]
pub struct MidiPortInfo {
    pub id: String,
    pub name: String,
    pub index: u32,
}

/// Id, name, label, selected, available, connected.
pub type DeviceFacts = (Seq<char>, Seq<char>, Seq<char>, bool, bool, bool);

pub open spec fn device_facts(d: MidiInputDevice) -> DeviceFacts {
    (d.id@, d.name@, d.label@, d.selected, d.available, d.connected)
}

pub open spec fn devices_facts(s: Seq<MidiInputDevice>) -> Seq<DeviceFacts> {
    s.map_values(|d: MidiInputDevice| device_facts(d))
}

pub open spec fn input_selected(inputs: Seq<MidiDeviceRef>, id: Seq<char>) -> bool {
    exists|k: int| 0 <= k < inputs.len() && (#[trigger] inputs[k]).id@ == id
}

pub open spec fn id_listed(ids: Seq<String>, id: Seq<char>) -> bool {
    exists|k: int| 0 <= k < ids.len() && (#[trigger] ids[k])@ == id
}

/// The entry of the `i`-th live port: labelled `"<name> (<i+1>)"`.
pub open spec fn port_device(
    port: MidiPortInfo,
    i: int,
    inputs: Seq<MidiDeviceRef>,
    connected: Seq<String>,
) -> DeviceFacts {
    (
        port.id@,
        port.name@,
        port.name@ + " ("@ + dec((i + 1) as nat) + ")"@,
        input_selected(inputs, port.id@),
        true,
        id_listed(connected, port.id@),
    )
}

/// The entry of a selected device that is not connected to the system.
pub open spec fn saved_device(saved: MidiDeviceRef) -> DeviceFacts {
    (saved.id@, saved.name@, saved.name@, true, false, false)
}

/// `devs` followed by an entry for each selected device, in order, that is
/// not blank and not already listed.
pub open spec fn with_saved(devs: Seq<DeviceFacts>, inputs: Seq<MidiDeviceRef>) -> Seq<DeviceFacts>
    decreases inputs.len(),
{
    if inputs.len() == 0 {
        devs
    } else {
        let d = with_saved(devs, inputs.drop_last());
        let s = inputs.last();
        if !s.blank() && !(exists|k: int| 0 <= k < d.len() && (#[trigger] d[k]).0 == s.id@) {
            d.push(saved_device(s))
        } else {
            d
        }
    }
}

/// The device list for the live `ports`, the selection in `config`, and the
/// ids of the connected ports.
pub open spec fn device_list(
    ports: Seq<MidiPortInfo>,
    config: MidiConfig,
    connected: Seq<String>,
) -> Seq<DeviceFacts> {
    with_saved(
        Seq::new(ports.len(), |i: int| port_device(ports[i], i, config.inputs@, connected)),
        config.inputs@,
    )
}

/// The ports the system offers. No input backend is compiled for this
/// platform, so there are none.
pub fn available_ports() -> (r: Vec<MidiPortInfo>)
    ensures
        r@.len() == 0,
{
    Vec::new()
}

fn selected_by(inputs: &Vec<MidiDeviceRef>, id: &String) -> (r: bool)
    ensures
        r == input_selected(inputs@, id@),
{
    let mut k: usize = 0;
    while k < inputs.len()
        invariant
            k <= inputs.len(),
            forall|j: int| 0 <= j < k ==> (#[trigger] inputs@[j]).id@ != id@,
        decreases inputs.len() - k,
    {
        if inputs[k].id == *id {
            return true;
        }
        k += 1;
    }
    false
}

fn listed(ids: &[String], id: &String) -> (r: bool)
    ensures
        r == id_listed(ids@, id@),
{
    let mut k: usize = 0;
    while k < ids.len()
        invariant
            k <= ids.len(),
            forall|j: int| 0 <= j < k ==> (#[trigger] ids@[j])@ != id@,
        decreases ids.len() - k,
    {
        if ids[k] == *id {
            return true;
        }
        k += 1;
    }
    false
}

fn device_listed(devices: &Vec<MidiInputDevice>, id: &String) -> (r: bool)
    ensures
        r == exists|k: int| 0 <= k < devices@.len() && (#[trigger] devices_facts(devices@)[k]).0 == id@,
{
    let mut k: usize = 0;
    while k < devices.len()
        invariant
            k <= devices.len(),
            forall|j: int| 0 <= j < k ==> (#[trigger] devices_facts(devices@)[j]).0 != id@,
        decreases devices.len() - k,
    {
        if devices[k].id == *id {
            assert(devices_facts(devices@)[k as int].0 == id@);
            return true;
        }
        k += 1;
    }
    false
}

/// The device list for `ports`: every live port, then every selected device
/// that is missing.
pub fn device_view_of(ports: &Vec<MidiPortInfo>, config: &MidiConfig, connected: &[String]) -> (r: Vec<
    MidiInputDevice,
>)
    requires
        ports@.len() < u64::MAX,
    ensures
        devices_facts(r@) == device_list(ports@, *config, connected@),
{
    let ghost base = Seq::new(
        ports@.len(),
        |i: int| port_device(ports@[i], i, config.inputs@, connected@),
    );
    let mut devices: Vec<MidiInputDevice> = Vec::new();
    let mut i: usize = 0;
    while i < ports.len()
        invariant
            i <= ports.len(),
            ports@.len() < u64::MAX,
            base == Seq::new(
                ports@.len(),
                |i: int| port_device(ports@[i], i, config.inputs@, connected@),
            ),
            devices_facts(devices@) =~= base.take(i as int),
        decreases ports.len() - i,
    {
        let port = &ports[i];
        let mut label: Vec<char> = Vec::new();
        push_str(&mut label, port.name.as_str());
        push_str(&mut label, " (");
        let n = dec_chars(i as u64 + 1);
        push_chars(&mut label, n.as_slice());
        push_str(&mut label, ")");
        let d = MidiInputDevice {
            id: port.id.clone(),
            name: port.name.clone(),
            label: string_of(label.as_slice()),
            selected: selected_by(&config.inputs, &port.id),
            available: true,
            connected: listed(connected, &port.id),
        };
        let ghost before = devices@;
        proof {
            assert(device_facts(d) == base[i as int]);
        }
        devices.push(d);
        proof {
            assert(devices_facts(devices@) =~= devices_facts(before).push(base[i as int]));
            assert(base.take(i as int + 1) =~= base.take(i as int).push(base[i as int]));
        }
        i += 1;
    }
    let mut k: usize = 0;
    while k < config.inputs.len()
        invariant
            k <= config.inputs.len(),
            devices_facts(devices@) == with_saved(base, config.inputs@.take(k as int)),
        decreases config.inputs.len() - k,
    {
        let saved = &config.inputs[k];
        proof {
            let t = config.inputs@.take(k as int + 1);
            assert(t.drop_last() =~= config.inputs@.take(k as int));
            assert(t.last() == config.inputs@[k as int]);
        }
        if !saved.is_empty() && !device_listed(&devices, &saved.id) {
            let d = MidiInputDevice {
                id: saved.id.clone(),
                name: saved.name.clone(),
                label: saved.name.clone(),
                selected: true,
                available: false,
                connected: false,
            };
            let ghost before = devices@;
            devices.push(d);
            proof {
                assert(devices_facts(devices@) =~= devices_facts(before).push(device_facts(d)));
                assert(devices_facts(devices@) =~= with_saved(base, config.inputs@.take(k as int)).push(
                    saved_device(config.inputs@[k as int]),
                ));
            }
        }
        k += 1;
    }
    proof {
        assert(config.inputs@.take(config.inputs@.len() as int) =~= config.inputs@);
    }
    devices
}

/// The device list for the ports the system offers now.
pub fn device_view(config: &MidiConfig, connected: &[String]) -> (r: Vec<MidiInputDevice>)
    ensures
        devices_facts(r@) == device_list(Seq::empty(), *config, connected@),
{
    let ports = available_ports();
    assert(ports@ =~= Seq::<MidiPortInfo>::empty());
    device_view_of(&ports, config, connected)
}

pub open spec fn port_has_id(id: Seq<char>) -> spec_fn(MidiPortInfo) -> bool {
    |p: MidiPortInfo| p.id@ == id
}

/// The name to save for a selected id: the first live port's with that id,
/// or the id itself.
pub open spec fn ref_name(ports: Seq<MidiPortInfo>, id: Seq<char>) -> Seq<char> {
    match first_index(ports, port_has_id(id)) {
        Some(j) => ports[j].name@,
        None => id,
    }
}

fn port_position(ports: &Vec<MidiPortInfo>, id: &String) -> (r: Option<usize>)
    ensures
        match r {
            Some(j) => first_index(ports@, port_has_id(id@)) == Some(j as int),
            None => first_index(ports@, port_has_id(id@)) is None,
        },
{
    let ghost p = port_has_id(id@);
    let mut j: usize = 0;
    while j < ports.len()
        invariant
            j <= ports.len(),
            p == port_has_id(id@),
            forall|m: int| 0 <= m < j ==> !p(#[trigger] ports@[m]),
        decreases ports.len() - j,
    {
        if ports[j].id == *id {
            proof {
                lemma_first_is(ports@, p, j as int);
            }
            return Some(j);
        }
        j += 1;
    }
    proof {
        lemma_first_none(ports@, p);
    }
    None
}

/// References to save for the selected `ids`, named after the live `ports`.
pub fn selected_refs_of(ports: &Vec<MidiPortInfo>, ids: &[String]) -> (r: Vec<MidiDeviceRef>)
    ensures
        r@.len() == ids@.len(),
        forall|k: int|
            0 <= k < ids@.len() ==> (#[trigger] r@[k]).id@ == ids@[k]@ && r@[k].name@ == ref_name(
                ports@,
                ids@[k]@,
            ),
{
    let mut refs: Vec<MidiDeviceRef> = Vec::new();
    let mut k: usize = 0;
    while k < ids.len()
        invariant
            k <= ids.len(),
            refs@.len() == k,
            forall|m: int|
                0 <= m < k ==> (#[trigger] refs@[m]).id@ == ids@[m]@ && refs@[m].name@ == ref_name(
                    ports@,
                    ids@[m]@,
                ),
        decreases ids.len() - k,
    {
        let id = &ids[k];
        let name = match port_position(ports, id) {
            Some(j) => ports[j].name.clone(),
            None => id.clone(),
        };
        refs.push(MidiDeviceRef { id: id.clone(), name });
        k += 1;
    }
    refs
}

/// References to save for the selected `ids`, named after the ports the
/// system offers now.
pub fn selected_refs(ids: &[String]) -> (r: Vec<MidiDeviceRef>)
    ensures
        r@.len() == ids@.len(),
        forall|k: int|
            0 <= k < ids@.len() ==> (#[trigger] r@[k]).id@ == ids@[k]@ && r@[k].name@ == ids@[k]@,
{
    let ports = available_ports();
    let r = selected_refs_of(&ports, ids);
    proof {
        assert forall|k: int| 0 <= k < ids@.len() implies (#[trigger] r@[k]).name@ == ids@[k]@ by {
            crate::seqs::lemma_first_none(ports@, port_has_id(ids@[k]@));
        }
    }
    r
}

/// `name` without a trailing `" <native_id>"`: the system appends the
/// volatile port address to the name.
pub open spec fn stable(name: Seq<char>, native_id: Seq<char>) -> Seq<char> {
    let suffix = " "@ + native_id;
    if suffix.len() <= name.len() && name.subrange(name.len() - suffix.len(), name.len() as int)
        == suffix {
        name.subrange(0, name.len() - suffix.len())
    } else {
        name
    }
}

pub fn stable_name(name: &str, native_id: &str) -> (r: String)
    ensures
        r@ == stable(name@, native_id@),
{
    let n = chars_of(name);
    let mut suffix: Vec<char> = Vec::new();
    push_str(&mut suffix, " ");
    push_str(&mut suffix, native_id);
    if suffix.len() <= n.len() {
        let start = n.len() - suffix.len();
        let mut k: usize = 0;
        let mut same = true;
        while k < suffix.len()
            invariant
                start + suffix.len() == n.len(),
                k <= suffix.len(),
                same == forall|m: int| 0 <= m < k ==> n@[start + m] == suffix@[m],
            decreases suffix.len() - k,
        {
            if n[start + k] != suffix[k] {
                same = false;
            }
            k += 1;
        }
        if same {
            assert(n@.subrange(start as int, n@.len() as int) =~= suffix@);
            let mut r: Vec<char> = Vec::new();
            let mut m: usize = 0;
            while m < start
                invariant
                    m <= start,
                    start <= n.len(),
                    r@ =~= n@.subrange(0, m as int),
                decreases start - m,
            {
                r.push(n[m]);
                m += 1;
            }
            return string_of(r.as_slice());
        } else {
            proof {
                if n@.subrange(start as int, n@.len() as int) == suffix@ {
                    assert forall|m: int| 0 <= m < suffix.len() implies n@[start + m] == suffix@[m] by {
                        assert(n@.subrange(start as int, n@.len() as int)[m] == n@[start + m]);
                    }
                }
            }
        }
    }
    name.to_owned()
}

/// `"alsa:<hex of the UTF-8 bytes of name>:<occurrence>"`.
pub open spec fn persisted(name: Seq<char>, occurrence: u32) -> Seq<char> {
    "alsa:"@ + hex(vstd::utf8::encode_utf8(name)) + ":"@ + dec(occurrence as nat)
}

/// The id saved for a port: its stable name and its position among ports of
/// the same name.
pub fn persisted_id(name: &str, occurrence: u32) -> (r: String)
    ensures
        r@ == persisted(name@, occurrence),
{
    let mut v: Vec<char> = Vec::new();
    push_str(&mut v, "alsa:");
    let h = hex_chars(name.as_bytes());
    push_chars(&mut v, h.as_slice());
    push_str(&mut v, ":");
    let d = dec_chars(occurrence as u64);
    push_chars(&mut v, d.as_slice());
    string_of(v.as_slice())
}

} // verus!
