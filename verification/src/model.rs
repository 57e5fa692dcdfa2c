//! The part of the application configuration that the input rules read and edit.
use crate::seqs::{first_index, lemma_first_is, lemma_first_none};
use crate::text::str_eq;
use vstd::prelude::*;

verus! {

/// A MIDI trigger assigned to an action: a message kind on a channel and
/// note/controller/program number of one device.
#[derive(Clone, Debug)]
pub struct MidiBinding {
    pub device_id: String,
    pub device_name: String,
    pub message: String,
    pub channel: u8,
    pub number: u8,
}

impl MidiBinding {
    /// A binding with no device or no message triggers nothing.
    pub open spec fn blank(&self) -> bool {
        self.device_id@.len() == 0 || self.message@.len() == 0
    }

    pub fn is_empty(&self) -> (r: bool)
        ensures
            r == self.blank(),
    {
        self.device_id.as_str().is_empty() || self.message.as_str().is_empty()
    }

    /// The unassigned binding.
    pub fn unassigned() -> (r: Self)
        ensures
            r.blank(),
            r.device_id@.len() == 0,
            r.device_name@.len() == 0,
            r.message@.len() == 0,
            r.channel == 0,
            r.number == 0,
    {
        MidiBinding {
            device_id: String::new(),
            device_name: String::new(),
            message: String::new(),
            channel: 0,
            number: 0,
        }
    }
}

impl Default for MidiBinding {
    fn default() -> (r: Self)
        ensures
            r.blank(),
    {
        MidiBinding::unassigned()
    }
}

/// A playable button, either in a tab (paleta) or in the fixed panel.
#[derive(Clone, Debug)]
pub struct ButtonData {
    pub id: String,
    pub index: u32,
    pub name: String,
    pub label: String,
    pub shortcut: String,
    pub path: String,
    pub midi: MidiBinding,
}

/// A tab of buttons.
#[derive(Clone, Debug)]
pub struct Paleta {
    pub id: String,
    pub nombre: String,
    pub shortcut: String,
    pub midi: MidiBinding,
    pub botones: Vec<ButtonData>,
}

/// Global playback controls of a profile.
#[derive(Clone, Debug)]
pub struct AudioSettings {
    pub global_keys: bool,
    pub key_stop: String,
    pub key_next: String,
    pub key_prev: String,
    pub midi_stop: MidiBinding,
    pub midi_next: MidiBinding,
    pub midi_prev: MidiBinding,
}

#[derive(Clone, Debug)]
pub struct ProfileData {
    pub id: String,
    pub active_paleta_id: String,
    pub paletas: Vec<Paleta>,
    pub fixed_buttons: Vec<ButtonData>,
    pub audio: AudioSettings,
}

/// The fixed panel: its buttons belong to each profile when `scope` is
/// `"profile"`, otherwise to the whole application.
#[derive(Clone, Debug)]
pub struct FixedPanel {
    pub scope: String,
    pub global_buttons: Vec<ButtonData>,
}

/// A MIDI input device the user selected.
#[derive(Clone, Debug)]
pub struct MidiDeviceRef {
    pub id: String,
    pub name: String,
}

impl MidiDeviceRef {
    pub open spec fn blank(&self) -> bool {
        self.id@.len() == 0
    }

    pub fn is_empty(&self) -> (r: bool)
        ensures
            r == self.blank(),
    {
        self.id.as_str().is_empty()
    }
}

#[derive(Clone, Debug)]
pub struct MidiConfig {
    pub enabled: bool,
    pub inputs: Vec<MidiDeviceRef>,
}

#[derive(Clone, Debug)]
pub struct AppConfig {
    pub active_profile_id: String,
    pub profiles: Vec<ProfileData>,
    pub fixed_panel: FixedPanel,
    pub midi: MidiConfig,
}

pub open spec fn profile_has_id(id: Seq<char>) -> spec_fn(ProfileData) -> bool {
    |p: ProfileData| p.id@ == id
}

pub open spec fn paleta_has_id(id: Seq<char>) -> spec_fn(Paleta) -> bool {
    |p: Paleta| p.id@ == id
}

/// Index of the active profile: the first whose id is `active_profile_id`.
pub open spec fn active_index(cfg: AppConfig) -> Option<int> {
    first_index(cfg.profiles@, profile_has_id(cfg.active_profile_id@))
}

/// Index of the active tab of a profile: the first whose id is `active_paleta_id`.
pub open spec fn active_paleta_index(p: ProfileData) -> Option<int> {
    first_index(p.paletas@, paleta_has_id(p.active_paleta_id@))
}

/// The fixed panel is kept per profile.
pub open spec fn profile_scope(cfg: AppConfig) -> bool {
    cfg.fixed_panel.scope@ == "profile"@
}

/// The fixed buttons in force, given the active profile `p`.
pub open spec fn fixed_of(cfg: AppConfig, p: ProfileData) -> Seq<ButtonData> {
    if profile_scope(cfg) {
        p.fixed_buttons@
    } else {
        cfg.fixed_panel.global_buttons@
    }
}

/// Error text of a missing active profile.
pub open spec fn no_active_profile() -> Seq<char> {
    "Perfil activo no encontrado"@
}

impl AppConfig {
    /// Index of the active profile, as `active_index` defines it.
    pub fn active_profile_position(&self) -> (r: Option<usize>)
        ensures
            match r {
                Some(i) => active_index(*self) == Some(i as int),
                None => active_index(*self) is None,
            },
    {
        let ghost p = profile_has_id(self.active_profile_id@);
        let mut i: usize = 0;
        while i < self.profiles.len()
            invariant
                i <= self.profiles.len(),
                p == profile_has_id(self.active_profile_id@),
                forall|j: int| 0 <= j < i ==> !p(#[trigger] self.profiles@[j]),
            decreases self.profiles.len() - i,
        {
            if self.profiles[i].id == self.active_profile_id {
                proof {
                    lemma_first_is(self.profiles@, p, i as int);
                }
                return Some(i);
            }
            i += 1;
        }
        proof {
            lemma_first_none(self.profiles@, p);
        }
        None
    }

    /// Whether the fixed panel is kept per profile.
    pub fn is_profile_scope(&self) -> (r: bool)
        ensures
            r == profile_scope(*self),
    {
        proof {
            reveal_strlit("profile");
        }
        str_eq(self.fixed_panel.scope.as_str(), "profile")
    }
}

impl ProfileData {
    /// Index of the active tab, as `active_paleta_index` defines it.
    pub fn active_paleta_position(&self) -> (r: Option<usize>)
        ensures
            match r {
                Some(i) => active_paleta_index(*self) == Some(i as int),
                None => active_paleta_index(*self) is None,
            },
    {
        let ghost p = paleta_has_id(self.active_paleta_id@);
        let mut i: usize = 0;
        while i < self.paletas.len()
            invariant
                i <= self.paletas.len(),
                p == paleta_has_id(self.active_paleta_id@),
                forall|j: int| 0 <= j < i ==> !p(#[trigger] self.paletas@[j]),
            decreases self.paletas.len() - i,
        {
            if self.paletas[i].id == self.active_paleta_id {
                proof {
                    lemma_first_is(self.paletas@, p, i as int);
                }
                return Some(i);
            }
            i += 1;
        }
        proof {
            lemma_first_none(self.paletas@, p);
        }
        None
    }
}

} // verus!
