//! The MIDI runtime's decisions: which device connections stay open, which
//! offered ports to connect, and the connected ids it publishes.
use crate::input::midi_ports::MidiPortInfo;
use crate::library::order::{insert_sorted, strictly_sorted, views};
use crate::model::{MidiConfig, MidiDeviceRef};
use crate::text::{chars_of, string_of};
use vstd::prelude::*;

verus! {

/// Some saved input has id `id`.
pub open spec fn chosen(inputs: Seq<MidiDeviceRef>, id: Seq<char>) -> bool {
    exists|i: int| 0 <= i < inputs.len() && (#[trigger] inputs[i]).id@ == id
}

/// Some offered port has id `id`.
pub open spec fn offered(ports: Seq<MidiPortInfo>, id: Seq<char>) -> bool {
    exists|i: int| 0 <= i < ports.len() && (#[trigger] ports[i]).id@ == id
}

/// Some text of `v` is `id`.
pub open spec fn listed(v: Seq<String>, id: Seq<char>) -> bool {
    exists|i: int| 0 <= i < v.len() && (#[trigger] v[i])@ == id
}

/// An open connection stays while MIDI is enabled, its device is chosen,
/// and its port is still offered.
pub open spec fn stays(config: MidiConfig, live: Seq<MidiPortInfo>, id: Seq<char>) -> bool {
    config.enabled && chosen(config.inputs@, id) && offered(live, id)
}

/// Port `j` gets connected: MIDI is enabled, its device is chosen, no
/// connection is open for it, and no earlier port has its id.
pub open spec fn connects(config: MidiConfig, live: Seq<MidiPortInfo>, open: Seq<String>, j: int) -> bool {
    &&& config.enabled
    &&& chosen(config.inputs@, live[j].id@)
    &&& !listed(open, live[j].id@)
    &&& forall|k: int| 0 <= k < j ==> (#[trigger] live[k]).id@ != live[j].id@
}

fn chosen_exec(inputs: &Vec<MidiDeviceRef>, id: &str) -> (r: bool)
    ensures
        r == chosen(inputs@, id@),
{
    let mut i: usize = 0;
    while i < inputs.len()
        invariant
            i <= inputs.len(),
            forall|k: int| 0 <= k < i ==> (#[trigger] inputs@[k]).id@ != id@,
        decreases inputs.len() - i,
    {
        if crate::text::str_eq(inputs[i].id.as_str(), id) {
            return true;
        }
        i += 1;
    }
    false
}

fn offered_before(live: &Vec<MidiPortInfo>, id: &str, end: usize) -> (r: bool)
    requires
        end <= live.len(),
    ensures
        r == exists|i: int| 0 <= i < end && (#[trigger] live@[i]).id@ == id@,
{
    let mut i: usize = 0;
    while i < end
        invariant
            i <= end <= live.len(),
            forall|k: int| 0 <= k < i ==> (#[trigger] live@[k]).id@ != id@,
        decreases end - i,
    {
        if crate::text::str_eq(live[i].id.as_str(), id) {
            return true;
        }
        i += 1;
    }
    false
}

fn listed_exec(v: &Vec<String>, id: &str) -> (r: bool)
    ensures
        r == listed(v@, id@),
{
    let mut i: usize = 0;
    while i < v.len()
        invariant
            i <= v.len(),
            forall|k: int| 0 <= k < i ==> (#[trigger] v@[k])@ != id@,
        decreases v.len() - i,
    {
        if crate::text::str_eq(v[i].as_str(), id) {
            return true;
        }
        i += 1;
    }
    false
}

/// For each open connection, whether it stays; and the offered ports to
/// connect, in the order offered.
pub fn reconcile_plan(config: &MidiConfig, live: &Vec<MidiPortInfo>, open: &Vec<String>) -> (r: (
    Vec<bool>,
    Vec<usize>,
))
    ensures
        r.0.len() == open.len(),
        forall|i: int| 0 <= i < open.len() ==> r.0@[i] == stays(*config, live@, (#[trigger] open@[i])@),
        forall|k: int| 0 <= k < r.1.len() ==> (#[trigger] r.1@[k]) < live.len(),
        forall|a: int, b: int| 0 <= a < b < r.1.len() ==> #[trigger] r.1@[a] < #[trigger] r.1@[b],
        forall|j: int| 0 <= j < live.len() ==> (connects(*config, live@, open@, j) <==> r.1@.contains(j as usize)),
{
    let mut keep: Vec<bool> = Vec::new();
    let mut i: usize = 0;
    while i < open.len()
        invariant
            i <= open.len(),
            keep.len() == i,
            forall|k: int| 0 <= k < i ==> keep@[k] == stays(*config, live@, (#[trigger] open@[k])@),
        decreases open.len() - i,
    {
        let id = open[i].as_str();
        let stay = config.enabled && chosen_exec(&config.inputs, id) && offered_before(live, id, live.len());
        keep.push(stay);
        i += 1;
    }
    let mut connect: Vec<usize> = Vec::new();
    let mut j: usize = 0;
    while j < live.len()
        invariant
            j <= live.len(),
            forall|k: int| 0 <= k < connect.len() ==> (#[trigger] connect@[k]) < j,
            forall|a: int, b: int| 0 <= a < b < connect.len() ==> #[trigger] connect@[a] < #[trigger] connect@[b],
            forall|m: int| 0 <= m < j ==> (connects(*config, live@, open@, m) <==> connect@.contains(m as usize)),
        decreases live.len() - j,
    {
        let id = live[j].id.as_str();
        let go = config.enabled && chosen_exec(&config.inputs, id) && !listed_exec(open, id)
            && !offered_before(live, id, j);
        let ghost before = connect@;
        if go {
            connect.push(j);
        }
        proof {
            assert forall|m: int| 0 <= m < j + 1 implies (connects(*config, live@, open@, m)
                <==> connect@.contains(m as usize)) by {
                if m < j {
                    if before.contains(m as usize) {
                        let k = choose|k: int| 0 <= k < before.len() && before[k] == m as usize;
                        assert(connect@[k] == m as usize);
                    }
                    if connect@.contains(m as usize) {
                        let k = choose|k: int| 0 <= k < connect@.len() && connect@[k] == m as usize;
                        if k < before.len() {
                            assert(before[k] == m as usize);
                        }
                    }
                } else {
                    if go {
                        assert(connect@[before.len() as int] == j);
                    } else {
                        if connect@.contains(j) {
                            let k = choose|k: int| 0 <= k < connect@.len() && connect@[k] == j;
                            assert(before[k] < j);
                        }
                    }
                }
            }
        }
        j += 1;
    }
    (keep, connect)
}

/// The connected ids as the runtime publishes them: each once, in `String`
/// order.
pub fn published_ids(ids: &Vec<String>) -> (r: Vec<String>)
    ensures
        strictly_sorted(r@.map_values(|s: String| s@)),
        r@.map_values(|s: String| s@).to_set() == ids@.map_values(|s: String| s@).to_set(),
{
    let mut set: Vec<Vec<char>> = Vec::new();
    let mut i: usize = 0;
    assert(views(set@).to_set() =~= ids@.take(0).map_values(|s: String| s@).to_set());
    while i < ids.len()
        invariant
            i <= ids.len(),
            strictly_sorted(views(set@)),
            views(set@).to_set() == ids@.take(i as int).map_values(|s: String| s@).to_set(),
        decreases ids.len() - i,
    {
        let c = chars_of(ids[i].as_str());
        insert_sorted(&mut set, c);
        proof {
            let prev = ids@.take(i as int).map_values(|s: String| s@);
            let next = ids@.take(i + 1).map_values(|s: String| s@);
            assert(next =~= prev.push(ids@[i as int]@));
            assert(next.to_set() =~= prev.to_set().insert(ids@[i as int]@)) by {
                assert forall|e: Seq<char>| next.to_set().contains(e) implies prev.to_set().insert(ids@[i as int]@).contains(e) by {
                    let k = choose|k: int| 0 <= k < next.len() && next[k] == e;
                    if k < prev.len() {
                        assert(prev[k] == e);
                    }
                }
                assert forall|e: Seq<char>| prev.to_set().insert(ids@[i as int]@).contains(e) implies next.to_set().contains(e) by {
                    if e == ids@[i as int]@ {
                        assert(next[i as int] == e);
                    } else {
                        let k = choose|k: int| 0 <= k < prev.len() && prev[k] == e;
                        assert(next[k] == e);
                    }
                }
            }
        }
        i += 1;
    }
    assert(ids@.take(ids.len() as int) =~= ids@);
    let ghost names = views(set@);
    let mut r: Vec<String> = Vec::new();
    let mut k: usize = 0;
    while k < set.len()
        invariant
            k <= set.len(),
            names == views(set@),
            r@.map_values(|s: String| s@) == names.take(k as int),
        decreases set.len() - k,
    {
        let s = string_of(set[k].as_slice());
        let ghost before = r@.map_values(|s: String| s@);
        r.push(s);
        assert(r@.map_values(|s: String| s@) =~= before.push(names[k as int]));
        assert(names.take(k + 1) =~= names.take(k as int).push(names[k as int]));
        k += 1;
    }
    assert(names.take(set.len() as int) =~= names);
    r
}

} // verus!
