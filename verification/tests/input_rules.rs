use botonera_engine::input::actions::{activate_paleta, cycle_paleta, play_by_shortcut, same_key};
use botonera_engine::input::keyboard::{
    add_key, collect_keys, find_action, normalize_shortcut, shortcut_keys, ShortcutAction,
};
use botonera_engine::input::midi::MidiEngine;
use botonera_engine::input::midi_binding::{conflict, name, same};
use botonera_engine::input::midi_dispatch::{matches_binding, resolve, MidiAction};
use botonera_engine::input::midi_message::parse;
use botonera_engine::input::midi_ports::{persisted_id, stable_name};
use botonera_engine::input::midi_rules::{apply_button, apply_tab, validate_global};
use botonera_engine::model::{
    AppConfig, AudioSettings, ButtonData, FixedPanel, MidiBinding, MidiConfig, Paleta, ProfileData,
};
use std::time::{Duration, Instant};
use botonera_engine::input::midi_ports::MidiPortInfo;
use botonera_engine::input::midi_runtime::{published_ids, reconcile_plan};
use botonera_engine::model::MidiDeviceRef;

fn binding(number: u8) -> MidiBinding {
    MidiBinding {
        device_id: "dev".into(),
        device_name: "Pad".into(),
        message: "note".into(),
        channel: 0,
        number,
    }
}

fn button(index: u32, shortcut: &str, midi: MidiBinding) -> ButtonData {
    ButtonData {
        id: format!("b{index}"),
        index,
        name: format!("Boton {index}"),
        label: String::new(),
        shortcut: shortcut.into(),
        path: String::new(),
        midi,
    }
}

fn tab(id: &str, shortcut: &str, midi: MidiBinding, botones: Vec<ButtonData>) -> Paleta {
    Paleta { id: id.into(), nombre: format!("Tab {id}"), shortcut: shortcut.into(), midi, botones }
}

fn config() -> AppConfig {
    let profile = ProfileData {
        id: "p".into(),
        active_paleta_id: "t1".into(),
        paletas: vec![
            tab("t1", "F1", binding(1), vec![button(0, " a ", binding(10)), button(1, "b", MidiBinding::default())]),
            tab("t2", "f1", MidiBinding::default(), vec![button(0, "Ctrl+A", MidiBinding::default())]),
            tab("t3", "", MidiBinding::default(), vec![]),
        ],
        fixed_buttons: vec![button(7, "x", MidiBinding::default())],
        audio: AudioSettings {
            global_keys: true,
            key_stop: "Espacio".into(),
            key_next: " F1 ".into(),
            key_prev: "".into(),
            midi_stop: binding(99),
            midi_next: MidiBinding::default(),
            midi_prev: MidiBinding::default(),
        },
    };
    AppConfig {
        active_profile_id: "p".into(),
        profiles: vec![profile],
        fixed_panel: FixedPanel { scope: "profile".into(), global_buttons: vec![] },
        midi: MidiConfig { enabled: true, inputs: vec![] },
    }
}

#[test]
fn cancellation_wakes_capture_without_waiting_for_timeout() {
    let mut engine = MidiEngine::new();
    let wait = engine.begin_capture().unwrap();
    engine.cancel_capture();

    let started = Instant::now();
    let error = wait.wait(Duration::from_secs(1)).unwrap_err();

    assert_eq!(error, "midi_capture_cancelled");
    assert!(started.elapsed() < Duration::from_millis(250));
}

#[test]
fn timeout_releases_capture_slot() {
    let mut engine = MidiEngine::new();
    let first = engine.begin_capture().unwrap();

    assert_eq!(
        first.wait(Duration::from_millis(1)).unwrap_err(),
        "midi_capture_timeout"
    );
    assert!(engine.begin_capture().is_ok());
}

#[test]
fn second_capture_is_busy_while_the_first_waits() {
    let mut engine = MidiEngine::new();
    let _first = engine.begin_capture().unwrap();
    assert_eq!(engine.begin_capture().err().unwrap(), "midi_capture_busy");
}

#[test]
fn note_on_zero_velocity_is_ignored() {
    assert!(parse("a", "dev", &[0x90, 36, 0]).is_none());
}

#[test]
fn parses_supported_trigger_messages() {
    let note = parse("a", "dev", &[0x91, 36, 127]).unwrap();
    assert_eq!(
        (note.message.as_str(), note.channel, note.number),
        ("note", 1, 36)
    );
    let cc = parse("a", "dev", &[0xb0, 10, 64]).unwrap();
    assert_eq!((cc.message.as_str(), cc.channel, cc.number), ("cc", 0, 10));
    let pc = parse("a", "dev", &[0xc2, 5]).unwrap();
    assert_eq!(
        (pc.message.as_str(), pc.channel, pc.number),
        ("program", 2, 5)
    );
}

#[test]
fn other_messages_trigger_nothing() {
    assert!(parse("a", "dev", &[0x80, 36, 64]).is_none());
    assert!(parse("a", "dev", &[0xb0, 10, 0]).is_none());
    assert!(parse("a", "dev", &[0xc0]).is_none());
    assert!(parse("a", "dev", &[]).is_none());
}

#[test]
fn removes_volatile_alsa_address_from_name() {
    assert_eq!(
        stable_name("Controller:MIDI 128:0", "128:0"),
        "Controller:MIDI"
    );
}

#[test]
fn persisted_id_uses_stable_name_and_duplicate_position() {
    assert_eq!(persisted_id("MIDI", 1), "alsa:4d494449:1");
}

#[test]
fn bindings_compare_and_describe_conflicts() {
    assert!(same(&binding(3), &binding(3)));
    assert!(!same(&binding(3), &binding(4)));
    assert!(!same(&MidiBinding::default(), &MidiBinding::default()));
    assert_eq!(name("  ", "Etiqueta"), "Etiqueta");
    assert_eq!(name("Nombre", "Etiqueta"), "Nombre");
    assert_eq!(
        conflict("midi_conflict_tab", &binding(36), "A|B"),
        "midi_conflict_tab|Pad ch 1 note 36|A B"
    );
}

#[test]
fn binding_a_button_reports_or_clears_the_other_owner() {
    let mut cfg = config();
    let err = apply_button(&mut cfg, 1, &binding(10), false).unwrap_err();
    assert_eq!(err, "midi_conflict_button|Pad ch 1 note 10|0 Boton 0");
    assert!(same(&cfg.profiles[0].paletas[0].botones[0].midi, &binding(10)));
    apply_button(&mut cfg, 1, &binding(10), true).unwrap();
    assert!(cfg.profiles[0].paletas[0].botones[0].midi.device_id.is_empty());
    assert!(apply_button(&mut cfg, 1, &MidiBinding::default(), false).is_ok());
}

#[test]
fn global_controls_block_their_binding() {
    let mut cfg = config();
    assert!(validate_global(&cfg, "stop", &binding(99)).is_ok());
    assert!(apply_button(&mut cfg, 1, &binding(99), true).is_err());
}

#[test]
fn tab_binding_conflicts_with_other_tabs() {
    let mut cfg = config();
    let err = apply_tab(&mut cfg, "p", "t2", &binding(1), false).unwrap_err();
    assert!(err.starts_with("midi_conflict_tab|Pad ch 1 note 1|"));
    apply_tab(&mut cfg, "p", "t2", &binding(1), true).unwrap();
    assert!(cfg.profiles[0].paletas[0].midi.device_id.is_empty());
    assert_eq!(
        apply_tab(&mut cfg, "nadie", "t2", &binding(1), true).unwrap_err(),
        "Perfil no encontrado"
    );
}

#[test]
fn midi_events_resolve_to_actions() {
    let cfg = config();
    let mut event = parse("dev", "Pad", &[0x90, 10, 100]).unwrap();
    assert!(matches_binding(&binding(10), &event));
    assert_eq!(resolve(&cfg, &event).unwrap(), MidiAction::PlayButton("b0".into()));
    event.number = 99;
    assert_eq!(resolve(&cfg, &event).unwrap(), MidiAction::StopAll);
    event.number = 1;
    assert_eq!(resolve(&cfg, &event).unwrap(), MidiAction::SetPaleta("t1".into()));
    event.number = 55;
    assert_eq!(resolve(&cfg, &event).unwrap(), MidiAction::Nothing);
}

#[test]
fn tabs_cycle_around_both_ends() {
    let mut cfg = config();
    cycle_paleta(&mut cfg, -1).unwrap();
    assert_eq!(cfg.profiles[0].active_paleta_id, "t3");
    cycle_paleta(&mut cfg, 1).unwrap();
    assert_eq!(cfg.profiles[0].active_paleta_id, "t1");
    cycle_paleta(&mut cfg, 5).unwrap();
    assert_eq!(cfg.profiles[0].active_paleta_id, "t3");
    assert!(activate_paleta(&mut cfg, "t2").unwrap());
    assert_eq!(cfg.profiles[0].active_paleta_id, "t2");
    assert!(!activate_paleta(&mut cfg, "nada").unwrap());
    cfg.profiles[0].paletas.clear();
    assert_eq!(cycle_paleta(&mut cfg, 1).unwrap_err(), "El perfil no tiene pestanas");
    cfg.active_profile_id = "otro".into();
    assert_eq!(cycle_paleta(&mut cfg, 1).unwrap_err(), "Perfil activo no encontrado");
}

#[test]
fn shortcuts_play_fixed_buttons_first() {
    let cfg = config();
    assert!(same_key(" A ", "a"));
    assert!(!same_key("  ", ""));
    assert_eq!(play_by_shortcut(&cfg, "X").unwrap(), Some("b7".to_string()));
    assert_eq!(play_by_shortcut(&cfg, "a").unwrap(), Some("b0".to_string()));
    assert_eq!(play_by_shortcut(&cfg, "zz").unwrap(), None);
}

#[test]
fn registered_keys_are_trimmed_and_unique() {
    let cfg = config();
    let mut keys = collect_keys(&cfg);
    keys.sort();
    assert_eq!(keys, ["Ctrl+A", "Espacio", "F1", "a", "b", "f1"]);
    let mut off = config();
    off.profiles[0].audio.global_keys = false;
    assert!(collect_keys(&off).is_empty());
    let mut list = vec!["F1".to_string()];
    add_key(&mut list, " F1 ");
    add_key(&mut list, "   ");
    add_key(&mut list, " F2");
    assert_eq!(list, ["F1", "F2"]);
}

#[test]
fn saved_keys_are_spelled_for_the_parser() {
    assert_eq!(normalize_shortcut(" Ctrl+Espacio "), "Control+Space");
    assert_eq!(normalize_shortcut("Ctrl+Ctrl+B"), "Control+Control+B");
    assert_eq!(normalize_shortcut("Shift+F5"), "Shift+F5");
}

#[test]
fn pressed_shortcuts_find_the_first_matching_action() {
    let cfg = config();
    let keys = shortcut_keys(&cfg).unwrap();
    assert_eq!(keys, ["Espacio", " F1 ", "", "F1", "f1", "", " a ", "b"]);
    let hit = |i: usize| (0..keys.len()).map(|k| k == i).collect::<Vec<bool>>();
    assert_eq!(find_action(&cfg, &hit(0)).unwrap(), ShortcutAction::StopAll);
    assert_eq!(find_action(&cfg, &hit(1)).unwrap(), ShortcutAction::Cycle(1));
    assert_eq!(find_action(&cfg, &hit(4)).unwrap(), ShortcutAction::SetPaleta("t2".into()));
    assert_eq!(find_action(&cfg, &hit(7)).unwrap(), ShortcutAction::PlayButton("b1".into()));
    assert_eq!(find_action(&cfg, &hit(2)).unwrap_err(), "Atajo no encontrado");
    let mut both = hit(3);
    both[4] = true;
    assert_eq!(find_action(&cfg, &both).unwrap(), ShortcutAction::SetPaleta("t1".into()));
    let mut off = config();
    off.profiles[0].audio.global_keys = false;
    assert_eq!(shortcut_keys(&off).unwrap_err(), "Atajos globales desactivados");
    assert_eq!(find_action(&off, &vec![]).unwrap_err(), "Atajos globales desactivados");
}

#[test]
fn runtime_keeps_chosen_live_connections_and_connects_new_ports() {
    let port = |id: &str, index: u32| MidiPortInfo { id: id.into(), name: id.into(), index };
    let config = MidiConfig {
        enabled: true,
        inputs: vec![
            MidiDeviceRef { id: "a".into(), name: "A".into() },
            MidiDeviceRef { id: "b".into(), name: "B".into() },
            MidiDeviceRef { id: "gone".into(), name: "G".into() },
        ],
    };
    let live = vec![port("a", 0), port("c", 1), port("b", 2), port("b", 3)];
    let open = vec!["a".to_string(), "gone".to_string(), "c".to_string()];
    let (keep, connect) = reconcile_plan(&config, &live, &open);
    assert_eq!(keep, vec![true, false, false]);
    assert_eq!(connect, vec![2]);
    let off = MidiConfig { enabled: false, inputs: config.inputs.clone() };
    let (keep, connect) = reconcile_plan(&off, &live, &open);
    assert_eq!(keep, vec![false, false, false]);
    assert!(connect.is_empty());
    assert_eq!(
        published_ids(&vec!["b".to_string(), "a".to_string(), "b".to_string()]),
        vec!["a".to_string(), "b".to_string()]
    );
}

#[test]
fn cycling_back_restores_the_tab() {
    for k in [1, 2, 5, -4, 7] {
        let mut cfg = config();
        cfg.profiles[0].active_paleta_id = "t2".into();
        cycle_paleta(&mut cfg, k).unwrap();
        cycle_paleta(&mut cfg, -k).unwrap();
        assert_eq!(cfg.profiles[0].active_paleta_id, "t2");
    }
    let mut cfg = config();
    cycle_paleta(&mut cfg, 3).unwrap();
    assert_eq!(cfg.profiles[0].active_paleta_id, "t1");
}

#[test]
fn events_reach_only_a_waiting_capture() {
    let mut engine = MidiEngine::new();
    let event = parse("dev", "Pad", &[0x90, 10, 100]).unwrap();
    assert!(engine.route_event(event.clone()).is_some());
    let wait = engine.begin_capture().unwrap();
    drop(wait);
    assert!(engine.route_event(event.clone()).is_some());
    let wait = engine.begin_capture().unwrap();
    assert!(engine.route_event(event.clone()).is_none());
    assert_eq!(wait.wait(Duration::from_millis(100)).unwrap().number, 10);
    assert!(engine.deliver_event(event, true).is_some());
}
