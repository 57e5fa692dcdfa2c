//! What a received MIDI message does under the current configuration.
use crate::input::midi_message::MidiInputEvent;
use crate::model::{
    active_index, active_paleta_index, fixed_of, no_active_profile, paleta_has_id, AppConfig,
    ButtonData, MidiBinding, Paleta,
};
use crate::seqs::{first_index, is_first, lemma_first_is, lemma_first_none};
use vstd::prelude::*;

verus! {

/// The action a MIDI message resolves to.
#[derive(Debug, PartialEq, Eq)]
pub enum MidiAction {
    Nothing,
    StopAll,
    Cycle(i32),
    SetPaleta(String),
    PlayButton(String),
}

/// `MidiAction` with its texts taken as character sequences.
pub enum ActionView {
    Nothing,
    StopAll,
    Cycle(i32),
    SetPaleta(Seq<char>),
    PlayButton(Seq<char>),
}

pub open spec fn action_view(a: MidiAction) -> ActionView {
    match a {
        MidiAction::Nothing => ActionView::Nothing,
        MidiAction::StopAll => ActionView::StopAll,
        MidiAction::Cycle(o) => ActionView::Cycle(o),
        MidiAction::SetPaleta(id) => ActionView::SetPaleta(id@),
        MidiAction::PlayButton(id) => ActionView::PlayButton(id@),
    }
}

pub open spec fn resolved_view(r: Result<MidiAction, String>) -> Result<ActionView, Seq<char>> {
    match r {
        Ok(a) => Ok(action_view(a)),
        Err(e) => Err(e@),
    }
}

/// The message is the trigger of `binding` (an unassigned binding matches nothing).
pub open spec fn triggers(binding: MidiBinding, event: MidiInputEvent) -> bool {
    &&& !binding.blank()
    &&& binding.device_id@ == event.device_id@
    &&& binding.message@ == event.message@
    &&& binding.channel == event.channel
    &&& binding.number == event.number
}

pub open spec fn tab_triggered(event: MidiInputEvent) -> spec_fn(Paleta) -> bool {
    |t: Paleta| triggers(t.midi, event)
}

pub open spec fn button_triggered(event: MidiInputEvent) -> spec_fn(ButtonData) -> bool {
    |b: ButtonData| triggers(b.midi, event)
}

/// The first button of `s` the message triggers, as a play action.
pub open spec fn button_action(s: Seq<ButtonData>, event: MidiInputEvent) -> Option<ActionView> {
    match first_index(s, button_triggered(event)) {
        Some(i) => Some(ActionView::PlayButton(s[i].id@)),
        None => None,
    }
}

/// What `event` does: nothing while MIDI is off; otherwise, in order, the
/// profile's stop/next/previous controls, the first tab it selects, the
/// first fixed button, then the first button of the active tab.
pub open spec fn resolution(cfg: AppConfig, event: MidiInputEvent) -> Result<ActionView, Seq<char>> {
    if !cfg.midi.enabled {
        Ok(ActionView::Nothing)
    } else {
        match active_index(cfg) {
            None => Err(no_active_profile()),
            Some(pi) => {
                let p = cfg.profiles@[pi];
                if triggers(p.audio.midi_stop, event) {
                    Ok(ActionView::StopAll)
                } else if triggers(p.audio.midi_next, event) {
                    Ok(ActionView::Cycle(1i32))
                } else if triggers(p.audio.midi_prev, event) {
                    Ok(ActionView::Cycle(-1i32))
                } else {
                    match first_index(p.paletas@, tab_triggered(event)) {
                        Some(t) => Ok(ActionView::SetPaleta(p.paletas@[t].id@)),
                        None => match button_action(fixed_of(cfg, p), event) {
                            Some(a) => Ok(a),
                            None => match active_paleta_index(p) {
                                None => Ok(ActionView::Nothing),
                                Some(ti) => match button_action(p.paletas@[ti].botones@, event) {
                                    Some(a) => Ok(a),
                                    None => Ok(ActionView::Nothing),
                                },
                            },
                        },
                    }
                }
            },
        }
    }
}

/// A binding fires only on its own channel: a message on any other channel
/// never triggers it, whatever its device, kind and number.
pub proof fn lemma_other_channel_never_triggers(binding: MidiBinding, event: MidiInputEvent)
    requires
        binding.channel != event.channel,
    ensures
        !triggers(binding, event),
{
}

/// A message triggers a binding exactly when the binding is assigned and the
/// message comes from the binding's device, with its kind, on its channel,
/// with its number; a difference in any one of these means no trigger.
pub proof fn lemma_trigger_needs_every_field(binding: MidiBinding, event: MidiInputEvent)
    ensures
        binding.blank() ==> !triggers(binding, event),
        binding.device_id@ != event.device_id@ ==> !triggers(binding, event),
        binding.message@ != event.message@ ==> !triggers(binding, event),
        binding.channel != event.channel ==> !triggers(binding, event),
        binding.number != event.number ==> !triggers(binding, event),
        !binding.blank() && binding.device_id@ == event.device_id@ && binding.message@
            == event.message@ && binding.channel == event.channel && binding.number
            == event.number ==> triggers(binding, event),
{
}

/// A message on a channel that none of the active profile's bindings uses
/// (its stop/next/previous controls, its tabs, the fixed buttons in force and
/// the buttons of every tab) does nothing: no binding's action is chosen.
pub proof fn lemma_unused_channel_does_nothing(cfg: AppConfig, event: MidiInputEvent)
    requires
        cfg.midi.enabled,
        active_index(cfg) is Some,
        cfg.profiles@[active_index(cfg)->0].audio.midi_stop.channel != event.channel,
        cfg.profiles@[active_index(cfg)->0].audio.midi_next.channel != event.channel,
        cfg.profiles@[active_index(cfg)->0].audio.midi_prev.channel != event.channel,
        forall|t: int|
            0 <= t < cfg.profiles@[active_index(cfg)->0].paletas@.len()
                ==> (#[trigger] cfg.profiles@[active_index(cfg)->0].paletas@[t]).midi.channel
                != event.channel,
        forall|j: int|
            0 <= j < fixed_of(cfg, cfg.profiles@[active_index(cfg)->0]).len()
                ==> (#[trigger] fixed_of(cfg, cfg.profiles@[active_index(cfg)->0])[j]).midi.channel
                != event.channel,
        forall|t: int, j: int|
            0 <= t < cfg.profiles@[active_index(cfg)->0].paletas@.len() && 0 <= j
                < cfg.profiles@[active_index(cfg)->0].paletas@[t].botones@.len()
                ==> (#[trigger] cfg.profiles@[active_index(cfg)->0].paletas@[t].botones@[j]).midi.channel
                != event.channel,
    ensures
        resolution(cfg, event) == Ok::<ActionView, Seq<char>>(ActionView::Nothing),
{
    let p = cfg.profiles@[active_index(cfg)->0];
    let tp = tab_triggered(event);
    assert forall|j: int| 0 <= j < p.paletas@.len() implies !tp(#[trigger] p.paletas@[j]) by {
        lemma_other_channel_never_triggers(p.paletas@[j].midi, event);
    }
    lemma_first_none(p.paletas@, tp);
    let bp = button_triggered(event);
    let fixed = fixed_of(cfg, p);
    assert forall|j: int| 0 <= j < fixed.len() implies !bp(#[trigger] fixed[j]) by {
        lemma_other_channel_never_triggers(fixed[j].midi, event);
    }
    lemma_first_none(fixed, bp);
    match active_paleta_index(p) {
        None => {},
        Some(ti) => {
            assert(is_first(p.paletas@, paleta_has_id(p.active_paleta_id@), ti));
            let bs = p.paletas@[ti].botones@;
            assert forall|j: int| 0 <= j < bs.len() implies !bp(#[trigger] bs[j]) by {
                lemma_other_channel_never_triggers(bs[j].midi, event);
            }
            lemma_first_none(bs, bp);
        },
    }
}

pub fn matches_binding(binding: &MidiBinding, event: &MidiInputEvent) -> (r: bool)
    ensures
        r == triggers(*binding, *event),
{
    !binding.is_empty() && binding.device_id == event.device_id && binding.message == event.message
        && binding.channel == event.channel && binding.number == event.number
}

fn find_triggered_button(buttons: &Vec<ButtonData>, event: &MidiInputEvent) -> (r: Option<String>)
    ensures
        match button_action(buttons@, *event) {
            Some(a) => r is Some && a == ActionView::PlayButton(r->0@),
            None => r is None,
        },
{
    let ghost p = button_triggered(*event);
    let mut i: usize = 0;
    while i < buttons.len()
        invariant
            i <= buttons.len(),
            p == button_triggered(*event),
            forall|j: int| 0 <= j < i ==> !p(#[trigger] buttons@[j]),
        decreases buttons.len() - i,
    {
        if matches_binding(&buttons[i].midi, event) {
            proof {
                lemma_first_is(buttons@, p, i as int);
            }
            return Some(buttons[i].id.clone());
        }
        i += 1;
    }
    proof {
        lemma_first_none(buttons@, p);
    }
    None
}

/// Decides what `event` does under `cfg`.
pub fn resolve(cfg: &AppConfig, event: &MidiInputEvent) -> (r: Result<MidiAction, String>)
    ensures
        resolved_view(r) == resolution(*cfg, *event),
{
    if !cfg.midi.enabled {
        return Ok(MidiAction::Nothing);
    }
    let pi = match cfg.active_profile_position() {
        Some(pi) => pi,
        None => return Err("Perfil activo no encontrado".to_owned()),
    };
    let profile = &cfg.profiles[pi];
    if matches_binding(&profile.audio.midi_stop, event) {
        return Ok(MidiAction::StopAll);
    }
    if matches_binding(&profile.audio.midi_next, event) {
        return Ok(MidiAction::Cycle(1));
    }
    if matches_binding(&profile.audio.midi_prev, event) {
        return Ok(MidiAction::Cycle(-1));
    }
    let ghost tp = tab_triggered(*event);
    let mut t: usize = 0;
    while t < profile.paletas.len()
        invariant
            t <= profile.paletas.len(),
            tp == tab_triggered(*event),
            cfg.midi.enabled,
            active_index(*cfg) == Some(pi as int),
            *profile == cfg.profiles@[pi as int],
            !triggers(profile.audio.midi_stop, *event),
            !triggers(profile.audio.midi_next, *event),
            !triggers(profile.audio.midi_prev, *event),
            forall|j: int| 0 <= j < t ==> !tp(#[trigger] profile.paletas@[j]),
        decreases profile.paletas.len() - t,
    {
        if matches_binding(&profile.paletas[t].midi, event) {
            proof {
                lemma_first_is(profile.paletas@, tp, t as int);
            }
            return Ok(MidiAction::SetPaleta(profile.paletas[t].id.clone()));
        }
        t += 1;
    }
    proof {
        lemma_first_none(profile.paletas@, tp);
    }
    let fixed = if cfg.is_profile_scope() {
        &profile.fixed_buttons
    } else {
        &cfg.fixed_panel.global_buttons
    };
    if let Some(id) = find_triggered_button(fixed, event) {
        return Ok(MidiAction::PlayButton(id));
    }
    let ti = match profile.active_paleta_position() {
        Some(ti) => ti,
        None => return Ok(MidiAction::Nothing),
    };
    match find_triggered_button(&profile.paletas[ti].botones, event) {
        Some(id) => Ok(MidiAction::PlayButton(id)),
        None => Ok(MidiAction::Nothing),
    }
}

} // verus!
