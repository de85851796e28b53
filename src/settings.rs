use vstd::prelude::*;

verus! {

/// User preferences.
#[derive(Debug, Clone)]
pub struct Settings {
    pub global_shortcut: String,
    pub max_history_items: usize,
    pub auto_cleanup: bool,
    pub tray_text_length: usize,
    pub store_original_image: bool,
    pub max_pinned_in_tray: usize,
    pub max_recent_in_tray: usize,
    pub custom_data_path: Option<String>,
}

/// The preferences a fresh installation starts with.
pub open spec fn is_default_settings(s: Settings) -> bool {
    &&& s.global_shortcut@ == "CommandOrControl+Shift+V"@
    &&& s.max_history_items == 100
    &&& s.auto_cleanup
    &&& s.tray_text_length == 50
    &&& !s.store_original_image
    &&& s.max_pinned_in_tray == 5
    &&& s.max_recent_in_tray == 20
    &&& s.custom_data_path is None
}

impl Default for Settings {
    fn default() -> (r: Settings)
        ensures
            is_default_settings(r),
    {
        Settings {
            global_shortcut: String::from_str("CommandOrControl+Shift+V"),
            max_history_items: 100,
            auto_cleanup: true,
            tray_text_length: 50,
            store_original_image: false,
            max_pinned_in_tray: 5,
            max_recent_in_tray: 20,
            custom_data_path: None,
        }
    }
}

impl Settings {
    /// A field-by-field copy.
    pub fn duplicate(&self) -> (r: Settings)
        ensures
            r == *self,
    {
        Settings {
            global_shortcut: self.global_shortcut.clone(),
            max_history_items: self.max_history_items,
            auto_cleanup: self.auto_cleanup,
            tray_text_length: self.tray_text_length,
            store_original_image: self.store_original_image,
            max_pinned_in_tray: self.max_pinned_in_tray,
            max_recent_in_tray: self.max_recent_in_tray,
            custom_data_path: match &self.custom_data_path {
                Some(p) => Some(p.clone()),
                None => None,
            },
        }
    }
}

/// Holds the current preferences; whoever shares it wraps it in a lock.
pub struct SettingsManager {
    settings: Settings,
}

impl SettingsManager {
    /// The current preferences.
    pub closed spec fn current(&self) -> Settings {
        self.settings
    }

    /// A manager holding the default preferences.
    pub fn new() -> (r: SettingsManager)
        ensures
            is_default_settings(r.current()),
    {
        SettingsManager { settings: Settings::default() }
    }

    /// A copy of the current preferences.
    pub fn get(&self) -> (r: Settings)
        ensures
            r == self.current(),
    {
        self.settings.duplicate()
    }

    pub fn set_global_shortcut(&mut self, shortcut: String)
        ensures
            final(self).current() == (Settings { global_shortcut: shortcut, ..old(self).current() }),
    {
        self.settings.global_shortcut = shortcut;
    }

    pub fn set_max_history_items(&mut self, max_items: usize)
        ensures
            final(self).current() == (Settings { max_history_items: max_items, ..old(self).current() }),
    {
        self.settings.max_history_items = max_items;
    }

    pub fn set_auto_cleanup(&mut self, auto_cleanup: bool)
        ensures
            final(self).current() == (Settings { auto_cleanup: auto_cleanup, ..old(self).current() }),
    {
        self.settings.auto_cleanup = auto_cleanup;
    }

    pub fn set_tray_text_length(&mut self, length: usize)
        ensures
            final(self).current() == (Settings { tray_text_length: length, ..old(self).current() }),
    {
        self.settings.tray_text_length = length;
    }

    pub fn set_store_original_image(&mut self, store_original: bool)
        ensures
            final(self).current() == (Settings { store_original_image: store_original, ..old(self).current() }),
    {
        self.settings.store_original_image = store_original;
    }

    /// Replaces all preferences.
    pub fn set(&mut self, settings: Settings)
        ensures
            final(self).current() == settings,
    {
        self.settings = settings;
    }
}

} // verus!
