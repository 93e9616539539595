//! The state of the panels.

use vstd::prelude::*;
use crate::gui::widgets::{PathPicker, StatusDisplay};
use crate::text::{decimal_text, push_decimal, push_text, trim, trimmed};

verus! {

/// Whether a text holds nothing but white space.
pub open spec fn blank(s: Seq<char>) -> bool {
    trimmed(s).len() == 0
}

/// Whether a text holds nothing but white space.
pub fn is_blank(s: &str) -> (b: bool)
    ensures
        b == blank(s@),
{
    trim(s).is_empty()
}

/// A named pair of repository address and base directory.
#[derive(Clone, Debug)]
pub struct Profile {
    pub name: String,
    pub repo_url: String,
    pub base_path: String,
}

impl Default for Profile {
    fn default() -> (p: Profile)
        ensures
            p.name@ == Seq::<char>::empty(),
            p.repo_url@ == Seq::<char>::empty(),
            p.base_path@ == Seq::<char>::empty(),
    {
        Profile { name: String::new(), repo_url: String::new(), base_path: String::new() }
    }
}

/// The first place in `profiles` of a profile with the given name.
pub open spec fn profile_named(profiles: Seq<Profile>, name: Seq<char>) -> Option<int>
    decreases profiles.len(),
{
    if profiles.len() == 0 {
        None
    } else if profiles[0].name@ == name {
        Some(0)
    } else {
        match profile_named(profiles.drop_first(), name) {
            Some(i) => Some(i + 1),
            None => None,
        }
    }
}

/// The profiles, which of them is selected, and the one being edited.
pub struct ProfileManager {
    pub profiles: Vec<Profile>,
    pub selected_profile: Option<String>,
    pub editing_profile: Option<Profile>,
    pub path_picker: PathPicker,
}

fn find_profile(profiles: &Vec<Profile>, name: &String) -> (r: Option<usize>)
    ensures
        match r {
            Some(i) => profile_named(profiles@, name@) == Some(i as int) && i < profiles.len(),
            None => profile_named(profiles@, name@) is None,
        },
{
    let mut i: usize = 0;
    assert(profiles@.skip(0) == profiles@);
    while i < profiles.len()
        invariant
            i <= profiles.len(),
            profile_named(profiles@, name@) == match profile_named(
                profiles@.skip(i as int),
                name@,
            ) {
                Some(k) => Some(k + i),
                None => None,
            },
        decreases profiles.len() - i,
    {
        assert(profiles@.skip(i as int)[0] == profiles@[i as int]);
        assert(profiles@.skip(i as int).drop_first() == profiles@.skip(i + 1));
        if profiles[i].name == *name {
            return Some(i);
        }
        i += 1;
    }
    None
}

impl ProfileManager {
    /// The profile that is selected: the first with the selected name.
    pub open spec fn selected(&self) -> Option<Profile> {
        match self.selected_profile {
            Some(name) => match profile_named(self.profiles@, name@) {
                Some(i) => Some(self.profiles@[i]),
                None => None,
            },
            None => None,
        }
    }

    /// The base directory in the path field.
    pub fn get_base_path(&self) -> (p: String)
        ensures
            p@ == self.path_picker.value(),
    {
        self.path_picker.path()
    }

    /// The profile that is selected, if the selected name is that of a
    /// profile.
    pub fn get_selected_profile(&self) -> (r: Option<&Profile>)
        ensures
            match r {
                Some(p) => self.selected() == Some(*p),
                None => self.selected() is None,
            },
    {
        match &self.selected_profile {
            Some(name) => match find_profile(&self.profiles, name) {
                Some(i) => Some(&self.profiles[i]),
                None => None,
            },
            None => None,
        }
    }

    /// The repository address of the selected profile.
    pub fn get_current_url(&self) -> (r: Option<String>)
        ensures
            match r {
                Some(url) => self.selected() matches Some(p) && url@ == p.repo_url@,
                None => self.selected() is None,
            },
    {
        match self.get_selected_profile() {
            Some(profile) => Some(profile.repo_url.clone()),
            None => None,
        }
    }

    /// Selects the profile of the given name, or none. The path field
    /// takes the base directory of the selected profile; it is emptied
    /// when none is selected, and left alone when the name is that of no
    /// profile.
    pub fn set_selected(&mut self, profile: Option<String>)
        ensures
            final(self).selected_profile == profile,
            final(self).profiles == old(self).profiles,
            final(self).editing_profile == old(self).editing_profile,
            final(self).path_picker.value() == match profile {
                Some(name) => match profile_named(old(self).profiles@, name@) {
                    Some(i) => old(self).profiles@[i].base_path@,
                    None => old(self).path_picker.value(),
                },
                None => Seq::<char>::empty(),
            },
    {
        self.selected_profile = profile;
        match &self.selected_profile {
            Some(name) => {
                match find_profile(&self.profiles, name) {
                    Some(i) => {
                        self.path_picker.set_path(&self.profiles[i].base_path);
                    },
                    None => {},
                }
            },
            None => {
                self.path_picker.clear();
            },
        }
    }

    /// Takes `profile` as the one being edited.
    pub fn set_editing(&mut self, profile: Option<Profile>)
        ensures
            final(self).editing_profile == profile,
            final(self).profiles == old(self).profiles,
            final(self).selected_profile == old(self).selected_profile,
            final(self).path_picker == old(self).path_picker,
    {
        self.editing_profile = profile;
    }

    /// The profile being edited.
    pub fn get_editing(&self) -> (r: Option<&Profile>)
        ensures
            match r {
                Some(p) => self.editing_profile == Some(*p),
                None => self.editing_profile is None,
            },
    {
        self.editing_profile.as_ref()
    }

    /// Replaces the profiles by what `f` makes of them.
    pub fn update_profiles<F: FnOnce(Vec<Profile>) -> Vec<Profile>>(&mut self, f: F)
        requires
            f.requires((old(self).profiles,)),
        ensures
            f.ensures((old(self).profiles,), final(self).profiles),
            final(self).editing_profile == old(self).editing_profile,
            final(self).selected_profile == old(self).selected_profile,
            final(self).path_picker == old(self).path_picker,
    {
        let mut taken: Vec<Profile> = Vec::new();
        std::mem::swap(&mut taken, &mut self.profiles);
        self.profiles = f(taken);
    }

    /// Takes `profile` as the one being edited.
    pub fn set_editor_profile(&mut self, profile: Option<Profile>)
        ensures
            final(self).editing_profile == profile,
            final(self).profiles == old(self).profiles,
            final(self).selected_profile == old(self).selected_profile,
            final(self).path_picker == old(self).path_picker,
    {
        self.editing_profile = profile;
    }

    /// The name of the first profile.
    pub fn get_first_profile_name(&self) -> (r: Option<String>)
        ensures
            match r {
                Some(name) => self.profiles@.len() > 0 && name@ == self.profiles@[0].name@,
                None => self.profiles@.len() == 0,
            },
    {
        if self.profiles.len() > 0 {
            Some(self.profiles[0].name.clone())
        } else {
            None
        }
    }
}

impl Default for ProfileManager {
    fn default() -> (m: ProfileManager)
        ensures
            m.profiles@.len() == 0,
            m.selected_profile is None,
            m.editing_profile is None,
            m.path_picker.value() == Seq::<char>::empty(),
    {
        ProfileManager {
            profiles: Vec::new(),
            selected_profile: None,
            editing_profile: None,
            path_picker: PathPicker::new("Base Path:", "Select Mods Directory"),
        }
    }
}

/// How the repository panel stands to the remote.
#[derive(Debug, PartialEq, Eq)]
pub enum ConnectionState {
    Disconnected,
    Connecting,
    Connected,
    Error(String),
}

/// What the repository panel is busy with.
#[derive(Clone, Copy, Debug, PartialEq, Eq, Structural)]
pub enum OperationState {
    Idle,
    Syncing,
    Launching,
}

/// The repository address is missing.
pub open spec fn url_required() -> Seq<char> {
    "Repository URL is required"@
}

/// The base path is missing.
pub open spec fn base_path_required() -> Seq<char> {
    "Base path is required"@
}

/// The sync panel: the repository address and the base directory.
pub struct SyncPanel {
    pub repo_url: String,
    pub path_picker: PathPicker,
    pub error: Option<String>,
}

impl SyncPanel {
    /// The repository address.
    pub fn repo_url(&self) -> (r: &str)
        ensures
            r@ == self.repo_url@,
    {
        self.repo_url.as_str()
    }

    /// The base directory.
    pub fn base_path(&self) -> (p: String)
        ensures
            p@ == self.path_picker.value(),
    {
        self.path_picker.path()
    }

    /// Whether a sync can start: the address and the base directory must
    /// hold more than white space.
    pub fn validate(&self) -> (r: Result<(), String>)
        ensures
            r is Ok <==> !blank(self.repo_url@) && !blank(self.path_picker.value()),
            r matches Err(e) ==> e@ == (if blank(self.repo_url@) {
                url_required()
            } else {
                base_path_required()
            }),
    {
        if is_blank(self.repo_url.as_str()) {
            return Err("Repository URL is required".to_owned());
        }
        let path = self.path_picker.path();
        if is_blank(path.as_str()) {
            return Err("Base path is required".to_owned());
        }
        Ok(())
    }
}

impl Default for SyncPanel {
    fn default() -> (p: SyncPanel)
        ensures
            p.repo_url@ == Seq::<char>::empty(),
            p.path_picker.value() == Seq::<char>::empty(),
            p.error is None,
    {
        SyncPanel {
            repo_url: String::new(),
            path_picker: PathPicker::new("Base Path:", "Select Mods Directory"),
            error: None,
        }
    }
}

/// The mods path does not exist.
pub open spec fn mods_path_missing() -> Seq<char> {
    "Mods path does not exist"@
}

/// The mods path is no directory.
pub open spec fn mods_path_not_dir() -> Seq<char> {
    "Mods path must be a directory"@
}

/// The launch panel: the directory of the mods.
pub struct LaunchPanel {
    pub path_picker: PathPicker,
    pub status: StatusDisplay,
}

impl LaunchPanel {
    /// The directory of the mods.
    pub fn base_path(&self) -> (p: String)
        ensures
            p@ == self.path_picker.value(),
    {
        self.path_picker.path()
    }

    /// Whether the game can be launched, given what the file system says
    /// of the mods path: it must exist and be a directory.
    pub fn validate(&self, exists: bool, is_dir: bool) -> (r: Result<(), String>)
        ensures
            r is Ok <==> exists && is_dir,
            r matches Err(e) ==> e@ == (if !exists {
                mods_path_missing()
            } else {
                mods_path_not_dir()
            }),
    {
        if !exists {
            return Err("Mods path does not exist".to_owned());
        }
        if !is_dir {
            return Err("Mods path must be a directory".to_owned());
        }
        Ok(())
    }
}

impl Default for LaunchPanel {
    fn default() -> (p: LaunchPanel)
        ensures
            p.path_picker.value() == Seq::<char>::empty(),
            p.status.text() is None,
    {
        LaunchPanel {
            path_picker: PathPicker::new("Mods Path:", "Select Mods Directory"),
            status: StatusDisplay::default(),
        }
    }
}

/// The input path is missing.
pub open spec fn input_path_required() -> Seq<char> {
    "Input path is required"@
}

/// The input path does not exist.
pub open spec fn input_path_missing() -> Seq<char> {
    "Input path does not exist"@
}

/// Whether manifests can be generated under `path`, given whether the
/// file system has it: the path must not be empty and must exist.
pub fn validate_path(path: &str, exists: bool) -> (r: Result<(), String>)
    ensures
        r is Ok <==> path@.len() > 0 && exists,
        r matches Err(e) ==> e@ == (if path@.len() == 0 {
            input_path_required()
        } else {
            input_path_missing()
        }),
{
    if path.is_empty() {
        return Err("Input path is required".to_owned());
    }
    if !exists {
        return Err("Input path does not exist".to_owned());
    }
    Ok(())
}

/// What the panel that generates manifests holds.
pub struct GenSrfPanelState {
    pub input_path: PathPicker,
    pub output_path: PathPicker,
    pub status: StatusDisplay,
    pub output_dir: Option<String>,
}

impl Default for GenSrfPanelState {
    fn default() -> (s: GenSrfPanelState)
        ensures
            s.input_path.value() == Seq::<char>::empty(),
            s.output_path.value() == Seq::<char>::empty(),
            s.status.text() is None,
            s.output_dir is None,
    {
        GenSrfPanelState {
            input_path: PathPicker::new("Input Path:", "Select Input Directory"),
            output_path: PathPicker::new("Output Path (optional):", "Select Output Directory"),
            status: StatusDisplay::default(),
            output_dir: None,
        }
    }
}

/// The panel that generates manifests.
pub struct GenSrfPanel {
    pub state: GenSrfPanelState,
}

impl GenSrfPanel {
    /// The directory whose mods get manifests.
    pub fn base_path(&self) -> (p: String)
        ensures
            p@ == self.state.input_path.value(),
    {
        self.state.input_path.path()
    }

    /// Whether generation can start on `path`: it must not be empty.
    pub fn validate(path: &str) -> (r: Result<(), String>)
        ensures
            r is Ok <==> path@.len() > 0,
            r matches Err(e) ==> e@ == input_path_required(),
    {
        if path.is_empty() {
            return Err("Input path is required".to_owned());
        }
        Ok(())
    }

    /// The output directory to remember for a generation that starts with
    /// the given output path: none for an empty path.
    pub fn remember_output(&mut self, output_path: String)
        ensures
            final(self).state.output_dir == (if output_path@.len() == 0 {
                None
            } else {
                Some(output_path)
            }),
            final(self).state.input_path == old(self).state.input_path,
            final(self).state.output_path == old(self).state.output_path,
            final(self).state.status == old(self).state.status,
    {
        if output_path.as_str().is_empty() {
            self.state.output_dir = None;
        } else {
            self.state.output_dir = Some(output_path);
        }
    }
}

impl Default for GenSrfPanel {
    fn default() -> (p: GenSrfPanel)
        ensures
            p.state.input_path.value() == Seq::<char>::empty(),
            p.state.output_path.value() == Seq::<char>::empty(),
            p.state.output_dir is None,
    {
        GenSrfPanel { state: GenSrfPanelState::default() }
    }
}

/// The view in which a repository address is entered.
pub struct ConnectionView {
    pub repo_url: String,
    pub status: StatusDisplay,
}

impl ConnectionView {
    /// Whether a connection can be tried: the address must hold more than
    /// white space.
    pub fn validate(repo_url: &str) -> (r: Result<(), String>)
        ensures
            r is Ok <==> !blank(repo_url@),
            r matches Err(e) ==> e@ == url_required(),
    {
        if is_blank(repo_url) {
            return Err("Repository URL is required".to_owned());
        }
        Ok(())
    }
}

impl Default for ConnectionView {
    fn default() -> (v: ConnectionView)
        ensures
            v.repo_url@ == Seq::<char>::empty(),
            v.status.text() is None,
    {
        ConnectionView { repo_url: String::new(), status: StatusDisplay::default() }
    }
}

/// How long ago something happened, in words: in whole days, else whole
/// hours, else whole minutes, else just now.
pub open spec fn duration_text(seconds: i64) -> Seq<char> {
    if seconds >= 86400 {
        decimal_text((seconds / 86400) as nat) + " days ago"@
    } else if seconds >= 3600 {
        decimal_text((seconds / 3600) as nat) + " hours ago"@
    } else if seconds >= 60 {
        decimal_text((seconds / 60) as nat) + " minutes ago"@
    } else {
        "just now"@
    }
}

/// How long ago something happened, for a span of seconds.
pub fn format_duration(seconds: i64) -> (text: String)
    ensures
        text@ == duration_text(seconds),
{
    let mut text = String::new();
    if seconds >= 86400 {
        push_decimal(&mut text, (seconds / 86400) as u64);
        push_text(&mut text, " days ago");
    } else if seconds >= 3600 {
        push_decimal(&mut text, (seconds / 3600) as u64);
        push_text(&mut text, " hours ago");
    } else if seconds >= 60 {
        push_decimal(&mut text, (seconds / 60) as u64);
        push_text(&mut text, " minutes ago");
    } else {
        push_text(&mut text, "just now");
    }
    assert(text@ == duration_text(seconds)) by {
        assert(Seq::<char>::empty() + decimal_text((seconds / 86400) as nat) == decimal_text(
            (seconds / 86400) as nat,
        ));
        assert(Seq::<char>::empty() + decimal_text((seconds / 3600) as nat) == decimal_text(
            (seconds / 3600) as nat,
        ));
        assert(Seq::<char>::empty() + decimal_text((seconds / 60) as nat) == decimal_text(
            (seconds / 60) as nat,
        ));
        assert(Seq::<char>::empty() + "just now"@ == "just now"@);
    }
    text
}

} // verus!
