//! Preferences of the configuration tool itself: which GUI backend it opens
//! by default, and where those preferences are stored.
//!
//! Reading and writing the preferences file is left to the caller; this
//! module holds the values and the decisions about them.

use vstd::prelude::*;
use crate::config::{join_path, path_join};
use crate::text::{push_str, str_eq, str_to_lowercase, lowercase_of, to_owned_string};

verus! {

/// Available GUI backends.
#[derive(Debug, Clone, Copy, PartialEq, Eq, Structural)]
pub enum GuiBackend {
    /// Native GUI
    Native,
    /// Web-based GUI
    Web,
}

/// The name a backend is written as.
pub open spec fn backend_name(b: GuiBackend) -> Seq<char> {
    match b {
        GuiBackend::Native => "native"@,
        GuiBackend::Web => "web"@,
    }
}

/// The backend a lowercased name denotes, if any.
pub open spec fn backend_of_lowercase(lower: Seq<char>) -> Option<GuiBackend> {
    if lower == "native"@ {
        Some(GuiBackend::Native)
    } else if lower == "web"@ {
        Some(GuiBackend::Web)
    } else {
        None
    }
}

/// The message for a name that denotes no backend.
pub open spec fn invalid_backend_message(s: Seq<char>) -> Seq<char> {
    "Invalid GUI backend: "@ + s + ". Valid options: native, web"@
}

impl GuiBackend {
    /// Parse a backend name, ignoring case (the name is lowercased first).
    pub fn from_str(s: &str) -> (r: Result<GuiBackend, String>)
        ensures
            match backend_of_lowercase(lowercase_of(s@)) {
                Some(b) => r == Ok::<GuiBackend, String>(b),
                None => r matches Err(m) && m@ == invalid_backend_message(s@),
            },
    {
        let lower = str_to_lowercase(s);
        Self::from_lowercase(lower.as_str(), s)
    }

    /// The backend for `lower`, the lowercased form of the name `s` as given.
    pub fn from_lowercase(lower: &str, s: &str) -> (r: Result<GuiBackend, String>)
        ensures
            match backend_of_lowercase(lower@) {
                Some(b) => r == Ok::<GuiBackend, String>(b),
                None => r matches Err(m) && m@ == invalid_backend_message(s@),
            },
    {
        if str_eq(lower, "native") {
            proof { reveal_strlit("native"); }
            Ok(GuiBackend::Native)
        } else if str_eq(lower, "web") {
            proof {
                reveal_strlit("native");
                reveal_strlit("web");
            }
            Ok(GuiBackend::Web)
        } else {
            proof {
                reveal_strlit("native");
                reveal_strlit("web");
            }
            let mut m = to_owned_string("Invalid GUI backend: ");
            push_str(&mut m, s);
            push_str(&mut m, ". Valid options: native, web");
            Err(m)
        }
    }

    /// The name of the backend.
    pub fn as_str(&self) -> (r: &'static str)
        ensures
            r@ == backend_name(*self),
    {
        match self {
            GuiBackend::Native => "native",
            GuiBackend::Web => "web",
        }
    }
}

/// Writing the name of a backend and reading it back gives the backend.
pub proof fn law_backend_name_roundtrip(b: GuiBackend)
    ensures
        backend_of_lowercase(backend_name(b)) == Some(b),
{
    reveal_strlit("native");
    reveal_strlit("web");
    assert("web"@.len() != "native"@.len());
}

/// User configuration of the tool.
#[derive(Debug, Clone, Copy, PartialEq, Eq, Structural)]
pub struct WezztershierConfig {
    /// Default GUI backend preference
    pub default_gui_backend: GuiBackend,
}

impl Default for WezztershierConfig {
    /// The native GUI is the default backend.
    fn default() -> (c: WezztershierConfig)
        ensures
            c.default_gui_backend == GuiBackend::Native,
    {
        WezztershierConfig { default_gui_backend: GuiBackend::Native }
    }
}

/// Where the preferences are stored, below the user's configuration directory.
pub open spec fn settings_path(config_dir: Seq<char>) -> Seq<char> {
    path_join(path_join(config_dir, "wezztershier"@), "config.toml"@)
}

/// Manager of the tool's preferences: the file they live in and their values.
#[derive(Debug)]
pub struct ConfigManager {
    config_path: String,
    config: WezztershierConfig,
}

impl View for ConfigManager {
    type V = (Seq<char>, WezztershierConfig);

    closed spec fn view(&self) -> (Seq<char>, WezztershierConfig) {
        (self.config_path@, self.config)
    }
}

impl ConfigManager {
    /// Create a new config manager with the given path and config.
    pub fn new(config_path: String, config: WezztershierConfig) -> (m: ConfigManager)
        ensures
            m@ == (config_path@, config),
    {
        ConfigManager { config_path, config }
    }

    /// The path of the preferences file, given the user's configuration
    /// directory; an error when there is none.
    pub fn config_file_path(config_dir: Option<&str>) -> (r: Result<String, String>)
        ensures
            match config_dir {
                Some(d) => r matches Ok(p) && p@ == settings_path(d@),
                None => r matches Err(m) && m@ == "Could not determine config directory"@,
            },
    {
        match config_dir {
            Some(d) => {
                let p = join_path(d, "wezztershier");
                Ok(join_path(p.as_str(), "config.toml"))
            },
            None => Err(to_owned_string("Could not determine config directory")),
        }
    }

    /// Get current configuration.
    pub fn config(&self) -> (r: &WezztershierConfig)
        ensures
            *r == self@.1,
    {
        &self.config
    }

    /// Get mutable configuration.
    pub fn config_mut(&mut self) -> (r: &mut WezztershierConfig)
        ensures
            *r == old(self)@.1,
            final(self)@ == (old(self)@.0, *final(r)),
    {
        &mut self.config
    }

    /// Reset to the default configuration (the path is kept).
    pub fn reset(&mut self)
        ensures
            final(self)@ == (old(self)@.0, WezztershierConfig { default_gui_backend: GuiBackend::Native }),
    {
        self.config = WezztershierConfig::default();
    }

    /// Get the config file path for this manager.
    pub fn path(&self) -> (r: &str)
        ensures
            r@ == self@.0,
    {
        self.config_path.as_str()
    }
}

} // verus!
