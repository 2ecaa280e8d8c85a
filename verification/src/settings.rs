use vstd::prelude::*;
use vstd::string::StringExecFns;
use crate::error::Error;

verus! {

/// The interface language.
#[derive(Debug, Clone, PartialEq, Eq, Structural)]
pub enum Language {
    Russian,
    English,
}

impl Default for Language {
    fn default() -> (r: Language)
        ensures
            r is Russian,
    {
        Language::Russian
    }
}

pub struct Settings {
    pub general: GeneralSettings,
    pub java: JavaSettings,
    pub minecraft: MinecraftSettings,
    pub ui: UiSettings,
    pub network: NetworkSettings,
    pub advanced: AdvancedSettings,
}

pub struct GeneralSettings {
    pub language: Language,
    pub theme: String,
    pub instances_directory: String,
    pub java_directory: String,
    pub check_for_updates: bool,
    pub send_analytics: bool,
    pub maximize_on_launch: bool,
    pub close_launcher_on_game_start: bool,
}

pub struct JavaSettings {
    pub default_installation: Option<String>,
    pub memory_min: u32,
    pub memory_max: u32,
    pub permgen_size: u32,
    pub gc_args: String,
    pub additional_args: String,
    pub auto_detect_installations: bool,
    pub download_missing_java: bool,
}

pub struct MinecraftSettings {
    pub default_width: u32,
    pub default_height: u32,
    pub fullscreen: bool,
    pub auto_login: bool,
    pub pre_launch_command: Option<String>,
    pub post_exit_command: Option<String>,
    pub wrapper_command: Option<String>,
    pub enable_console: bool,
    pub auto_close_console: bool,
}

pub struct UiSettings {
    pub window_width: u32,
    pub window_height: u32,
    pub window_maximized: bool,
    pub instance_view_type: String,
    pub sort_mode: String,
    pub show_console: bool,
    pub icon_size: String,
    pub group_view: bool,
}

pub struct NetworkSettings {
    pub use_proxy: bool,
    pub proxy_type: String,
    pub proxy_host: String,
    pub proxy_port: u16,
    pub proxy_username: Option<String>,
    pub proxy_password: Option<String>,
    pub timeout: u64,
    pub max_concurrent_downloads: u32,
    pub user_agent: String,
}

pub struct AdvancedSettings {
    pub enable_logging: bool,
    pub log_level: String,
    pub console_max_lines: u32,
    pub enable_profiling: bool,
    pub developer_mode: bool,
    pub custom_commands: Vec<(String, String)>,
    pub environment_variables: Vec<(String, String)>,
    pub save_logs_to_file: bool,
    pub logs_directory: String,
    pub log_retention_hours: u32,
}

/// Whether file logging is on when the configuration does not say.
pub fn default_save_logs_to_file() -> (r: bool)
    ensures
        r == true,
{
    true
}

/// How long log files are kept when the configuration does not say.
pub fn default_log_retention_hours() -> (r: u32)
    ensures
        r == 24,
{
    24
}

pub open spec fn spec_general_default(g: GeneralSettings, data_dir: Seq<char>) -> bool {
    &&& g.language is Russian
    &&& g.theme@ == "dark"@
    &&& g.instances_directory@ == data_dir + seq!['/'] + "instances"@
    &&& g.java_directory@ == data_dir + seq!['/'] + "java"@
    &&& g.check_for_updates == true
    &&& g.send_analytics == false
    &&& g.maximize_on_launch == false
    &&& g.close_launcher_on_game_start == false
}

pub open spec fn spec_java_default(j: JavaSettings) -> bool {
    &&& j.default_installation is None
    &&& j.memory_min == 512
    &&& j.memory_max == 2048
    &&& j.permgen_size == 128
    &&& j.gc_args@ == "-XX:+UseG1GC -XX:+ParallelRefProcEnabled -XX:MaxGCPauseMillis=200"@
    &&& j.additional_args@.len() == 0
    &&& j.auto_detect_installations == true
    &&& j.download_missing_java == true
}

pub open spec fn spec_minecraft_default(m: MinecraftSettings) -> bool {
    &&& m.default_width == 854
    &&& m.default_height == 480
    &&& m.fullscreen == false
    &&& m.auto_login == false
    &&& m.pre_launch_command is None
    &&& m.post_exit_command is None
    &&& m.wrapper_command is None
    &&& m.enable_console == true
    &&& m.auto_close_console == false
}

pub open spec fn spec_ui_default(u: UiSettings) -> bool {
    &&& u.window_width == 1024
    &&& u.window_height == 768
    &&& u.window_maximized == false
    &&& u.instance_view_type@ == "icons"@
    &&& u.sort_mode@ == "name"@
    &&& u.show_console == false
    &&& u.icon_size@ == "medium"@
    &&& u.group_view == true
}

pub open spec fn spec_network_default(n: NetworkSettings) -> bool {
    &&& n.use_proxy == false
    &&& n.proxy_type@ == "http"@
    &&& n.proxy_host@.len() == 0
    &&& n.proxy_port == 8080
    &&& n.proxy_username is None
    &&& n.proxy_password is None
    &&& n.timeout == 30
    &&& n.max_concurrent_downloads == 4
    &&& n.user_agent@ == "mango-launcher/1.0"@
}

pub open spec fn spec_advanced_default(a: AdvancedSettings, data_dir: Seq<char>) -> bool {
    &&& a.enable_logging == true
    &&& a.log_level@ == "info"@
    &&& a.console_max_lines == 100000
    &&& a.enable_profiling == false
    &&& a.developer_mode == false
    &&& a.custom_commands@.len() == 0
    &&& a.environment_variables@.len() == 0
    &&& a.save_logs_to_file == true
    &&& a.logs_directory@ == data_dir + seq!['/'] + "logs"@
    &&& a.log_retention_hours == 24
}

pub open spec fn spec_settings_default(s: Settings, data_dir: Seq<char>) -> bool {
    &&& spec_general_default(s.general, data_dir)
    &&& spec_java_default(s.java)
    &&& spec_minecraft_default(s.minecraft)
    &&& spec_ui_default(s.ui)
    &&& spec_network_default(s.network)
    &&& spec_advanced_default(s.advanced, data_dir)
}

impl GeneralSettings {
    /// The defaults, with directories placed under the given data
    /// directory (which the caller asks the platform for).
    pub fn with_data_dir(data_dir: &str) -> (r: GeneralSettings)
        ensures
            spec_general_default(r, data_dir@),
    {
        GeneralSettings {
            language: Language::Russian,
            theme: "dark".to_owned(),
            instances_directory: crate::version::path_join(data_dir, "instances"),
            java_directory: crate::version::path_join(data_dir, "java"),
            check_for_updates: true,
            send_analytics: false,
            maximize_on_launch: false,
            close_launcher_on_game_start: false,
        }
    }
}

impl JavaSettings {
    pub fn with_defaults() -> (r: JavaSettings)
        ensures
            spec_java_default(r),
    {
        JavaSettings {
            default_installation: None,
            memory_min: 512,
            memory_max: 2048,
            permgen_size: 128,
            gc_args: "-XX:+UseG1GC -XX:+ParallelRefProcEnabled -XX:MaxGCPauseMillis=200"
                .to_owned(),
            additional_args: String::new(),
            auto_detect_installations: true,
            download_missing_java: true,
        }
    }
}

impl Default for JavaSettings {
    fn default() -> (r: JavaSettings)
        ensures
            spec_java_default(r),
    {
        JavaSettings::with_defaults()
    }
}

impl MinecraftSettings {
    pub fn with_defaults() -> (r: MinecraftSettings)
        ensures
            spec_minecraft_default(r),
    {
        MinecraftSettings {
            default_width: 854,
            default_height: 480,
            fullscreen: false,
            auto_login: false,
            pre_launch_command: None,
            post_exit_command: None,
            wrapper_command: None,
            enable_console: true,
            auto_close_console: false,
        }
    }
}

impl Default for MinecraftSettings {
    fn default() -> (r: MinecraftSettings)
        ensures
            spec_minecraft_default(r),
    {
        MinecraftSettings::with_defaults()
    }
}

impl UiSettings {
    pub fn with_defaults() -> (r: UiSettings)
        ensures
            spec_ui_default(r),
    {
        UiSettings {
            window_width: 1024,
            window_height: 768,
            window_maximized: false,
            instance_view_type: "icons".to_owned(),
            sort_mode: "name".to_owned(),
            show_console: false,
            icon_size: "medium".to_owned(),
            group_view: true,
        }
    }
}

impl Default for UiSettings {
    fn default() -> (r: UiSettings)
        ensures
            spec_ui_default(r),
    {
        UiSettings::with_defaults()
    }
}

impl NetworkSettings {
    pub fn with_defaults() -> (r: NetworkSettings)
        ensures
            spec_network_default(r),
    {
        NetworkSettings {
            use_proxy: false,
            proxy_type: "http".to_owned(),
            proxy_host: String::new(),
            proxy_port: 8080,
            proxy_username: None,
            proxy_password: None,
            timeout: 30,
            max_concurrent_downloads: 4,
            user_agent: "mango-launcher/1.0".to_owned(),
        }
    }
}

impl Default for NetworkSettings {
    fn default() -> (r: NetworkSettings)
        ensures
            spec_network_default(r),
    {
        NetworkSettings::with_defaults()
    }
}

impl AdvancedSettings {
    pub fn with_data_dir(data_dir: &str) -> (r: AdvancedSettings)
        ensures
            spec_advanced_default(r, data_dir@),
    {
        AdvancedSettings {
            enable_logging: true,
            log_level: "info".to_owned(),
            console_max_lines: 100000,
            enable_profiling: false,
            developer_mode: false,
            custom_commands: Vec::new(),
            environment_variables: Vec::new(),
            save_logs_to_file: default_save_logs_to_file(),
            logs_directory: crate::version::path_join(data_dir, "logs"),
            log_retention_hours: default_log_retention_hours(),
        }
    }
}

impl Settings {
    /// The default configuration, rooted at the given data directory.
    pub fn with_data_dir(data_dir: &str) -> (r: Settings)
        ensures
            spec_settings_default(r, data_dir@),
    {
        Settings {
            general: GeneralSettings::with_data_dir(data_dir),
            java: JavaSettings::with_defaults(),
            minecraft: MinecraftSettings::with_defaults(),
            ui: UiSettings::with_defaults(),
            network: NetworkSettings::with_defaults(),
            advanced: AdvancedSettings::with_data_dir(data_dir),
        }
    }
}

/// An absolute path starts at the filesystem root.
pub open spec fn spec_path_absolute(p: Seq<char>) -> bool {
    p.len() > 0 && p[0] == '/'
}

/// Holds the current configuration and whether it differs from what was
/// last persisted. Reading and writing the configuration file is the
/// caller's part; the manager answers when a write is due.
pub struct SettingsManager {
    pub settings: Settings,
    pub dirty: bool,
}

impl SettingsManager {
    /// Starts from a configuration the caller loaded or built.
    pub fn new(settings: Settings) -> (r: SettingsManager)
        ensures
            r.settings == settings,
            r.dirty == false,
    {
        SettingsManager { settings, dirty: false }
    }

    pub fn get(&self) -> (r: &Settings)
        ensures
            *r == self.settings,
    {
        &self.settings
    }

    /// Hands out the configuration for editing and remembers that it may
    /// now differ from disk.
    pub fn get_mut(&mut self) -> (r: &mut Settings)
        ensures
            *r == old(self).settings,
            final(self).settings == *final(r),
            final(self).dirty == true,
    {
        self.dirty = true;
        &mut self.settings
    }

    pub fn set_general_setting(&mut self, value: GeneralSettings)
        ensures
            final(self).settings.general == value,
            final(self).settings.java == old(self).settings.java,
            final(self).settings.minecraft == old(self).settings.minecraft,
            final(self).settings.ui == old(self).settings.ui,
            final(self).settings.network == old(self).settings.network,
            final(self).settings.advanced == old(self).settings.advanced,
            final(self).dirty == true,
    {
        self.dirty = true;
        self.settings.general = value;
    }

    pub fn set_java_setting(&mut self, value: JavaSettings)
        ensures
            final(self).settings.java == value,
            final(self).settings.general == old(self).settings.general,
            final(self).settings.minecraft == old(self).settings.minecraft,
            final(self).settings.ui == old(self).settings.ui,
            final(self).settings.network == old(self).settings.network,
            final(self).settings.advanced == old(self).settings.advanced,
            final(self).dirty == true,
    {
        self.dirty = true;
        self.settings.java = value;
    }

    pub fn set_minecraft_setting(&mut self, value: MinecraftSettings)
        ensures
            final(self).settings.minecraft == value,
            final(self).settings.general == old(self).settings.general,
            final(self).settings.java == old(self).settings.java,
            final(self).settings.ui == old(self).settings.ui,
            final(self).settings.network == old(self).settings.network,
            final(self).settings.advanced == old(self).settings.advanced,
            final(self).dirty == true,
    {
        self.dirty = true;
        self.settings.minecraft = value;
    }

    pub fn set_ui_setting(&mut self, value: UiSettings)
        ensures
            final(self).settings.ui == value,
            final(self).settings.general == old(self).settings.general,
            final(self).settings.java == old(self).settings.java,
            final(self).settings.minecraft == old(self).settings.minecraft,
            final(self).settings.network == old(self).settings.network,
            final(self).settings.advanced == old(self).settings.advanced,
            final(self).dirty == true,
    {
        self.dirty = true;
        self.settings.ui = value;
    }

    pub fn set_network_setting(&mut self, value: NetworkSettings)
        ensures
            final(self).settings.network == value,
            final(self).settings.general == old(self).settings.general,
            final(self).settings.java == old(self).settings.java,
            final(self).settings.minecraft == old(self).settings.minecraft,
            final(self).settings.ui == old(self).settings.ui,
            final(self).settings.advanced == old(self).settings.advanced,
            final(self).dirty == true,
    {
        self.dirty = true;
        self.settings.network = value;
    }

    pub fn set_advanced_setting(&mut self, value: AdvancedSettings)
        ensures
            final(self).settings.advanced == value,
            final(self).settings.general == old(self).settings.general,
            final(self).settings.java == old(self).settings.java,
            final(self).settings.minecraft == old(self).settings.minecraft,
            final(self).settings.ui == old(self).settings.ui,
            final(self).settings.network == old(self).settings.network,
            final(self).dirty == true,
    {
        self.dirty = true;
        self.settings.advanced = value;
    }

    /// Replaces the whole configuration with the defaults rooted at the
    /// given data directory.
    pub fn reset_to_defaults(&mut self, data_dir: &str)
        ensures
            spec_settings_default(final(self).settings, data_dir@),
            final(self).dirty == true,
    {
        self.settings = Settings::with_data_dir(data_dir);
        self.dirty = true;
    }

    /// Resets one named section to its defaults; an unknown name is
    /// refused and changes nothing.
    pub fn reset_section(&mut self, section: &str, data_dir: &str) -> (r: Result<(), Error>)
        ensures
            match r {
                Ok(_) => {
                    &&& final(self).dirty == true
                    &&& (section@ == "general"@ ==> spec_general_default(
                        final(self).settings.general,
                        data_dir@,
                    ))
                    &&& (section@ == "java"@ ==> spec_java_default(final(self).settings.java))
                    &&& (section@ == "minecraft"@ ==> spec_minecraft_default(
                        final(self).settings.minecraft,
                    ))
                    &&& (section@ == "ui"@ ==> spec_ui_default(final(self).settings.ui))
                    &&& (section@ == "network"@ ==> spec_network_default(
                        final(self).settings.network,
                    ))
                    &&& (section@ == "advanced"@ ==> spec_advanced_default(
                        final(self).settings.advanced,
                        data_dir@,
                    ))
                    &&& (section@ == "general"@ || section@ == "java"@ || section@ == "minecraft"@
                        || section@ == "ui"@ || section@ == "network"@ || section@ == "advanced"@)
                },
                Err(e) => {
                    &&& e matches Error::Settings(_)
                    &&& *final(self) == *old(self)
                    &&& !(section@ == "general"@ || section@ == "java"@ || section@
                        == "minecraft"@ || section@ == "ui"@ || section@ == "network"@ || section@
                        == "advanced"@)
                },
            },
    {
        proof {
            reveal_strlit("general");
            reveal_strlit("java");
            reveal_strlit("minecraft");
            reveal_strlit("ui");
            reveal_strlit("network");
            reveal_strlit("advanced");
            assert("general"@.len() == 7 && "java"@.len() == 4 && "minecraft"@.len() == 9
                && "ui"@.len() == 2 && "network"@.len() == 7 && "advanced"@.len() == 8);
            assert("general"@[0] == 'g' && "network"@[0] == 'n');
        }
        if crate::strutil::str_eq(section, "general") {
            self.settings.general = GeneralSettings::with_data_dir(data_dir);
        } else if crate::strutil::str_eq(section, "java") {
            self.settings.java = JavaSettings::with_defaults();
        } else if crate::strutil::str_eq(section, "minecraft") {
            self.settings.minecraft = MinecraftSettings::with_defaults();
        } else if crate::strutil::str_eq(section, "ui") {
            self.settings.ui = UiSettings::with_defaults();
        } else if crate::strutil::str_eq(section, "network") {
            self.settings.network = NetworkSettings::with_defaults();
        } else if crate::strutil::str_eq(section, "advanced") {
            self.settings.advanced = AdvancedSettings::with_data_dir(data_dir);
        } else {
            return Err(Error::Settings("Unknown section".to_owned()));
        }
        self.dirty = true;
        Ok(())
    }

    /// What must be written out, if anything: the settings when they are
    /// dirty. After the caller has written them, it calls
    /// [`Self::mark_saved`].
    pub fn auto_save(&self) -> (r: Option<&Settings>)
        ensures
            self.dirty ==> (r matches Some(s) && *s == self.settings),
            !self.dirty ==> r is None,
    {
        if self.dirty {
            Some(&self.settings)
        } else {
            None
        }
    }

    /// The caller persisted the settings; they match the disk again.
    pub fn mark_saved(&mut self)
        ensures
            final(self).settings == old(self).settings,
            final(self).dirty == false,
    {
        self.dirty = false;
    }

    pub fn is_dirty(&self) -> (r: bool)
        ensures
            r == self.dirty,
    {
        self.dirty
    }

    /// The configuration is usable: the memory range is ordered, the
    /// proxy port is a real port, and the instances directory is an
    /// absolute path. Each violation is reported in that order.
    pub fn validate(&self) -> (r: Result<(), Error>)
        ensures
            match r {
                Ok(_) => {
                    &&& self.settings.java.memory_min <= self.settings.java.memory_max
                    &&& self.settings.network.proxy_port != 0
                    &&& spec_path_absolute(self.settings.general.instances_directory@)
                },
                Err(e) => {
                    &&& e matches Error::Settings(_)
                    &&& (self.settings.java.memory_min > self.settings.java.memory_max
                        || self.settings.network.proxy_port == 0 || !spec_path_absolute(
                        self.settings.general.instances_directory@,
                    ))
                },
            },
    {
        if self.settings.java.memory_min > self.settings.java.memory_max {
            return Err(
                Error::Settings("Minimum memory cannot be greater than maximum memory".to_owned()),
            );
        }
        if self.settings.network.proxy_port == 0 {
            return Err(Error::Settings("Proxy port cannot be 0".to_owned()));
        }
        let dir = self.settings.general.instances_directory.as_str();
        let absolute = if dir.unicode_len() == 0 {
            false
        } else {
            dir.get_char(0) == '/'
        };
        if !absolute {
            return Err(Error::Settings("Instances directory must be an absolute path".to_owned()));
        }
        Ok(())
    }
}

} // verus!
