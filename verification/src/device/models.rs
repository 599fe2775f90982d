//! What is remembered of a device and of the user's settings.

use crate::serial::protocol::{
    AxisConfig, AxisConfigView, ButtonConfig, ButtonConfigView, DeviceStatus, ProfileConfig,
};
use crate::seqs::{first_where, lemma_first_where_is};
use crate::serial::SerialDeviceInfo;
use crate::text::{chars_of, decimal, push_decimal, range_equals};
use vstd::prelude::*;
use vstd::string::StringExecFns;

verus! {

/// Whether a device is connected.
#[derive(Debug, Clone, PartialEq, Eq)]
pub enum ConnectionState {
    Disconnected,
    Connecting,
    Connected,
    Error(String),
}

/// The settings of the application.
#[derive(Debug, Clone, PartialEq, Eq)]
pub struct AppSettings {
    pub auto_connect: bool,
    pub auto_save: bool,
    pub log_level: String,
    /// `light`, `dark` or `system`.
    pub theme: String,
    pub language: String,
    pub update_rate_ms: u64,
}

impl Default for AppSettings {
    /// Connect and save without asking, log at `info`, follow the system's
    /// theme, speak English, update every 100 milliseconds.
    fn default() -> (r: AppSettings)
        ensures
            r.auto_connect,
            r.auto_save,
            r.log_level@ == "info"@,
            r.theme@ == "system"@,
            r.language@ == "en"@,
            r.update_rate_ms == 100,
    {
        AppSettings {
            auto_connect: true,
            auto_save: true,
            log_level: "info".to_owned(),
            theme: "system".to_owned(),
            language: "en".to_owned(),
            update_rate_ms: 100,
        }
    }
}

/// Whether two texts are the same.
pub fn same_text(a: &str, b: &str) -> (r: bool)
    ensures
        r == (a@ == b@),
{
    let x = chars_of(a);
    let y = chars_of(b);
    assert(x@.subrange(0, x@.len() as int) =~= x@);
    range_equals(x.as_slice(), 0, x.len(), y.as_slice())
}

/// Everything that is known of one device.
#[derive(Debug, Clone, PartialEq, Eq)]
pub struct Device {
    /// The identifier the tool gave the device.
    pub id: u128,
    pub port_name: String,
    pub serial_number: Option<String>,
    pub manufacturer: Option<String>,
    pub product: Option<String>,
    pub connection_state: ConnectionState,
    pub device_status: Option<DeviceStatus>,
    /// When the device was last heard of, in microseconds since the Unix
    /// epoch.
    pub last_seen_us: i64,
}

impl Device {
    /// A device on a port, of which nothing else is known yet.
    pub fn new(id: u128, port_name: String, now_us: i64) -> (r: Device)
        ensures
            r.id == id,
            r.port_name == port_name,
            r.serial_number is None,
            r.manufacturer is None,
            r.product is None,
            r.connection_state == ConnectionState::Disconnected,
            r.device_status is None,
            r.last_seen_us == now_us,
    {
        Device {
            id,
            port_name,
            serial_number: None,
            manufacturer: None,
            product: None,
            connection_state: ConnectionState::Disconnected,
            device_status: None,
            last_seen_us: now_us,
        }
    }

    /// A device as discovery describes it.
    pub fn from_serial_info(id: u128, info: &SerialDeviceInfo, now_us: i64) -> (r: Device)
        ensures
            r.id == id,
            r.port_name@ == info.port_name@,
            r.serial_number == info.serial_number,
            r.manufacturer == info.manufacturer,
            r.product == info.product,
            r.connection_state == ConnectionState::Disconnected,
            r.device_status is None,
            r.last_seen_us == now_us,
    {
        Device {
            id,
            port_name: info.port_name.clone(),
            serial_number: copy_text(&info.serial_number),
            manufacturer: copy_text(&info.manufacturer),
            product: copy_text(&info.product),
            connection_state: ConnectionState::Disconnected,
            device_status: None,
            last_seen_us: now_us,
        }
    }

    /// Whether the device is connected.
    pub fn is_connected(&self) -> (r: bool)
        ensures
            r == (self.connection_state is Connected),
    {
        match self.connection_state {
            ConnectionState::Connected => true,
            _ => false,
        }
    }

    /// Records a new connection state, and that the device was heard of at
    /// `now_us`.
    pub fn update_connection_state(&mut self, state: ConnectionState, now_us: i64)
        ensures
            *final(self) == (Device { connection_state: state, last_seen_us: now_us, ..*old(self) }),
    {
        self.connection_state = state;
        self.last_seen_us = now_us;
    }

    /// Records what the device says of itself, and that it was heard of at
    /// `now_us`.
    pub fn update_device_status(&mut self, status: DeviceStatus, now_us: i64)
        ensures
            *final(self) == (Device {
                device_status: Some(status),
                last_seen_us: now_us,
                ..*old(self)
            }),
    {
        self.device_status = Some(status);
        self.last_seen_us = now_us;
    }
}

fn copy_text(s: &Option<String>) -> (r: Option<String>)
    ensures
        r == *s,
{
    match s {
        Some(t) => Some(t.clone()),
        None => None,
    }
}

/// The profiles with the identifier `id`.
pub open spec fn profile_named(id: Seq<char>) -> spec_fn(ProfileConfig) -> bool {
    |p: ProfileConfig| p.id@ == id
}

/// The profiles of the user and the one that is active.
#[derive(Debug, Clone, PartialEq, Eq)]
pub struct ProfileManager {
    pub profiles: Vec<ProfileConfig>,
    pub active_profile_id: Option<String>,
}

impl ProfileManager {
    pub fn new() -> (r: ProfileManager)
        ensures
            r.profiles@.len() == 0,
            r.active_profile_id is None,
    {
        ProfileManager { profiles: Vec::new(), active_profile_id: None }
    }

    /// Where the first profile with the identifier `id` stands, or the
    /// number of profiles if there is none.
    pub open spec fn position(&self, id: Seq<char>) -> int {
        first_where(self.profiles@, profile_named(id))
    }

    fn find(&self, profile_id: &str) -> (i: usize)
        ensures
            i == self.position(profile_id@),
            i <= self.profiles@.len(),
    {
        let mut i: usize = 0;
        while i < self.profiles.len()
            invariant
                i <= self.profiles.len(),
                forall|j: int| 0 <= j < i ==> !profile_named(profile_id@)(self.profiles@[j]),
            decreases self.profiles.len() - i,
        {
            if same_text(self.profiles[i].id.as_str(), profile_id) {
                proof {
                    lemma_first_where_is(self.profiles@, profile_named(profile_id@), i as int);
                }
                return i;
            }
            i = i + 1;
        }
        proof {
            lemma_first_where_is(self.profiles@, profile_named(profile_id@), i as int);
        }
        i
    }

    /// Adds a profile at the end.
    pub fn add_profile(&mut self, profile: ProfileConfig)
        ensures
            final(self).profiles@ == old(self).profiles@.push(profile),
            final(self).active_profile_id == old(self).active_profile_id,
    {
        self.profiles.push(profile);
    }

    /// Removes the first profile with the identifier, and with it the
    /// choice of the active profile if that was the one. Says whether there
    /// was such a profile.
    pub fn remove_profile(&mut self, profile_id: &str) -> (removed: bool)
        ensures
            removed == (old(self).position(profile_id@) < old(self).profiles@.len()),
            removed ==> final(self).profiles@ == old(self).profiles@.remove(
                old(self).position(profile_id@),
            ),
            removed ==> final(self).active_profile_id == (if old(self).active_profile_id is Some
                && old(self).active_profile_id->0@ == profile_id@ {
                None
            } else {
                old(self).active_profile_id
            }),
            !removed ==> *final(self) == *old(self),
    {
        let at = self.find(profile_id);
        if at >= self.profiles.len() {
            return false;
        }
        let _ = self.profiles.remove(at);
        let was_active = match &self.active_profile_id {
            Some(active) => same_text(active.as_str(), profile_id),
            None => false,
        };
        if was_active {
            self.active_profile_id = None;
        }
        true
    }

    /// The first profile with the identifier.
    pub fn get_profile(&self, profile_id: &str) -> (r: Option<&ProfileConfig>)
        ensures
            match r {
                Some(p) => self.position(profile_id@) < self.profiles@.len() && *p
                    == self.profiles@[self.position(profile_id@)],
                None => self.position(profile_id@) >= self.profiles@.len(),
            },
    {
        let at = self.find(profile_id);
        if at < self.profiles.len() {
            Some(&self.profiles[at])
        } else {
            None
        }
    }

    /// The first profile with the identifier, to be changed in place. What
    /// the caller leaves in it takes the profile's place; nothing else
    /// changes.
    pub fn get_profile_mut(&mut self, profile_id: &str) -> (r: Option<&mut ProfileConfig>)
        ensures
            match r {
                Some(p) => old(self).position(profile_id@) < old(self).profiles@.len() && *p
                    == old(self).profiles@[old(self).position(profile_id@)]
                    && final(self).profiles@ == old(self).profiles@.update(
                    old(self).position(profile_id@),
                    *final(p),
                ) && final(self).active_profile_id == old(self).active_profile_id,
                None => old(self).position(profile_id@) >= old(self).profiles@.len() && *final(self)
                    == *old(self),
            },
    {
        let at = self.find(profile_id);
        if at < self.profiles.len() {
            Some(&mut self.profiles[at])
        } else {
            None
        }
    }

    /// Makes the profile with the identifier the active one, if there is
    /// such a profile, and says whether there is.
    pub fn set_active_profile(&mut self, profile_id: &str) -> (set: bool)
        ensures
            set == (old(self).position(profile_id@) < old(self).profiles@.len()),
            final(self).profiles == old(self).profiles,
            set ==> final(self).active_profile_id is Some && final(self).active_profile_id->0@
                == profile_id@,
            !set ==> final(self).active_profile_id == old(self).active_profile_id,
    {
        let at = self.find(profile_id);
        if at < self.profiles.len() {
            self.active_profile_id = Some(profile_id.to_owned());
            true
        } else {
            false
        }
    }

    /// The active profile, if one is chosen and still there.
    pub fn get_active_profile(&self) -> (r: Option<&ProfileConfig>)
        ensures
            match r {
                Some(p) => self.active_profile_id is Some && self.position(
                    self.active_profile_id->0@,
                ) < self.profiles@.len() && *p == self.profiles@[self.position(
                    self.active_profile_id->0@,
                )],
                None => self.active_profile_id is None || self.position(
                    self.active_profile_id->0@,
                ) >= self.profiles@.len(),
            },
    {
        match &self.active_profile_id {
            Some(id) => self.get_profile(id.as_str()),
            None => None,
        }
    }

    /// Axis `index` of the default profile: the full signed range around
    /// zero, a deadzone of 100, linear, not inverted.
    pub open spec fn default_axis(index: int) -> AxisConfigView {
        AxisConfigView {
            id: index as u8,
            name: "Axis "@ + decimal((index + 1) as nat),
            min_value: i16::MIN,
            max_value: i16::MAX,
            center_value: 0,
            deadzone: 100,
            curve: "linear"@,
            inverted: false,
        }
    }

    /// Button `index` of the default profile: a normal button, enabled.
    pub open spec fn default_button(index: int) -> ButtonConfigView {
        ButtonConfigView {
            id: index as u8,
            name: "Button "@ + decimal((index + 1) as nat),
            function: "normal"@,
            enabled: true,
        }
    }

    /// The profile a device gets when the user has made none: one default
    /// axis and one default button for each that the device has.
    pub fn create_default_profile(device_status: &DeviceStatus, id: String, now_us: i64) -> (r:
        ProfileConfig)
        ensures
            r.id == id,
            r.name@ == "Default Profile"@,
            r.description@ == "Default configuration for "@ + device_status.device_name@,
            r.created_at_us == now_us,
            r.modified_at_us == now_us,
            r.axes@.len() == device_status.axes_count,
            forall|i: int|
                0 <= i < device_status.axes_count ==> (#[trigger] r.axes@[i])@
                    == ProfileManager::default_axis(i),
            r.buttons@.len() == device_status.buttons_count,
            forall|i: int|
                0 <= i < device_status.buttons_count ==> (#[trigger] r.buttons@[i])@
                    == ProfileManager::default_button(i),
    {
        let mut axes: Vec<AxisConfig> = Vec::new();
        let mut i: u8 = 0;
        while i < device_status.axes_count
            invariant
                i <= device_status.axes_count,
                axes@.len() == i,
                forall|k: int| 0 <= k < i ==> (#[trigger] axes@[k])@ == ProfileManager::default_axis(k),
            decreases device_status.axes_count - i,
        {
            let mut name = "Axis ".to_owned();
            push_decimal(&mut name, i as u64 + 1);
            axes.push(
                AxisConfig {
                    id: i,
                    name,
                    min_value: -32768,
                    max_value: 32767,
                    center_value: 0,
                    deadzone: 100,
                    curve: "linear".to_owned(),
                    inverted: false,
                },
            );
            i = i + 1;
        }
        let mut buttons: Vec<ButtonConfig> = Vec::new();
        let mut j: u8 = 0;
        while j < device_status.buttons_count
            invariant
                j <= device_status.buttons_count,
                buttons@.len() == j,
                forall|k: int|
                    0 <= k < j ==> (#[trigger] buttons@[k])@ == ProfileManager::default_button(k),
            decreases device_status.buttons_count - j,
        {
            let mut name = "Button ".to_owned();
            push_decimal(&mut name, j as u64 + 1);
            buttons.push(
                ButtonConfig { id: j, name, function: "normal".to_owned(), enabled: true },
            );
            j = j + 1;
        }
        let mut description = "Default configuration for ".to_owned();
        description.append(device_status.device_name.as_str());
        ProfileConfig {
            id,
            name: "Default Profile".to_owned(),
            description,
            axes,
            buttons,
            created_at_us: now_us,
            modified_at_us: now_us,
        }
    }
}

} // verus!
