use mango_launcher::error::Error;
use mango_launcher::java::JavaCapabilities;
use mango_launcher::java::JavaInstallation;
use mango_launcher::java::JavaManager;
use mango_launcher::settings::default_log_retention_hours;
use mango_launcher::settings::default_save_logs_to_file;
use mango_launcher::settings::JavaSettings;
use mango_launcher::settings::Language;
use mango_launcher::settings::MinecraftSettings;
use mango_launcher::settings::NetworkSettings;
use mango_launcher::settings::Settings;
use mango_launcher::settings::SettingsManager;
use mango_launcher::settings::UiSettings;

fn sample_installation(version: &str, vendor: &str, is_64bit: bool) -> JavaInstallation {
    JavaInstallation {
        path: "/usr/bin/java".to_string(),
        version: version.to_string(),
        vendor: vendor.to_string(),
        architecture: "amd64".to_string(),
        is_64bit,
        is_default: false,
        capabilities: JavaCapabilities::default(),
    }
}

#[test]
fn java_score_formula() {
    let mgr = JavaManager::new(None).unwrap();
    // 17 scores 90, 64-bit adds 25, Adoptium adds 30
    assert_eq!(mgr.calculate_java_score(&sample_installation("17.0.1", "Eclipse Adoptium", true)), 145);
    // 21 scores 100, OpenJDK adds 25
    assert_eq!(mgr.calculate_java_score(&sample_installation("21", "OpenJDK", false)), 125);
    // 8 scores 50, unknown vendor adds 10
    assert_eq!(mgr.calculate_java_score(&sample_installation("8.0.302", "SomeBody", true)), 85);
    // unparsable version scores no version component
    assert_eq!(mgr.calculate_java_score(&sample_installation("beta", "ibm runtime", false)), 15);
    // 25 (> 21) scores 80, azul adds 20
    assert_eq!(mgr.calculate_java_score(&sample_installation("25.1", "Azul Zulu", false)), 100);
}

#[test]
fn java_selection_picks_the_best() {
    let mut mgr = JavaManager::new(None).unwrap();
    mgr.add_installation("OpenJDK 8".to_string(), sample_installation("8", "OpenJDK", true));
    mgr.add_installation(
        "Eclipse Adoptium 17.0.1".to_string(),
        sample_installation("17.0.1", "Eclipse Adoptium", true),
    );
    mgr.select_default_installation();
    let chosen = mgr.get_default_installation().expect("a default must be chosen");
    assert_eq!(chosen.version, "17.0.1");
    assert!(chosen.is_default);
}

#[test]
fn java_default_can_be_set_by_key() {
    let mut mgr = JavaManager::new(None).unwrap();
    mgr.add_installation("OpenJDK 8".to_string(), sample_installation("8", "OpenJDK", true));
    mgr.add_installation("OpenJDK 17".to_string(), sample_installation("17", "OpenJDK", true));
    assert!(mgr.set_default_installation("OpenJDK 8").is_ok());
    assert_eq!(mgr.get_default_installation().unwrap().version, "8");
    match mgr.set_default_installation("nonexistent") {
        Err(Error::Java(_)) => {},
        other => panic!("unknown key must be refused, got {:?}", other),
    }
    assert!(mgr.get_installation("OpenJDK 17").is_some());
    assert!(mgr.get_installation("zzz").is_none());
}

#[test]
fn java_executable_name() {
    let mgr = JavaManager::new(None).unwrap();
    assert!(mgr.is_java_executable("/usr/lib/jvm/java-17/bin/java"));
    assert!(mgr.is_java_executable("java"));
    assert!(!mgr.is_java_executable("/usr/bin/javac"));
    assert!(!mgr.is_java_executable("/usr/bin/"));
}

#[test]
fn java_version_parsing() {
    let mgr = JavaManager::new(None).unwrap();
    let banner = "openjdk version \"17.0.1\" 2021-10-19\nOpenJDK Runtime Environment";
    assert_eq!(mgr.parse_java_version(banner).unwrap(), "17.0.1");
    let unquoted = "java version 1.8.0_292\nsomething";
    assert_eq!(mgr.parse_java_version(unquoted).unwrap(), "1.8.0_292");
    match mgr.parse_java_version("no banner here") {
        Err(Error::Java(_)) => {},
        other => panic!("expected a Java error, got {:?}", other),
    }
}

#[test]
fn java_vendor_parsing() {
    let mgr = JavaManager::new(None).unwrap();
    let banner = "Temurin (Adoptium) build \"17\"\nsecond line";
    assert_eq!(mgr.parse_java_vendor(banner, ""), "Eclipse Adoptium");
    let plain = "openjdk version \"17\"\nOpenJDK Runtime Environment";
    assert_eq!(mgr.parse_java_vendor(plain, ""), "OpenJDK");
    let props = "    java.vendor = Oracle Corporation\n    os.arch = amd64";
    assert_eq!(mgr.parse_java_vendor("nothing known", props), "Oracle Corporation");
    assert_eq!(mgr.parse_java_vendor("nothing known", "no properties"), "Unknown");
}

#[test]
fn java_architecture_and_memory_and_awt() {
    let mgr = JavaManager::new(None).unwrap();
    let props = "    os.arch = aarch64\n    java.runtime.version = 17";
    assert_eq!(mgr.parse_java_architecture(props), "aarch64");
    assert_eq!(mgr.parse_java_architecture("nothing"), "amd64");
    assert_eq!(mgr.detect_max_memory(props), Some(32 * 1024 * 1024 * 1024));
    assert_eq!(mgr.detect_max_memory("nothing"), None);
    assert!(mgr.check_awt_support("    os.arch = amd64"));
    assert!(mgr.check_awt_support("    java.awt.headless = false"));
    assert!(!mgr.check_awt_support("    java.awt.headless = true"));
}

#[test]
fn minecraft_compatibility_rules() {
    let mgr = JavaManager::new(None).unwrap();
    assert!(mgr.check_minecraft_compatibility("17.0.1"));
    assert!(mgr.check_minecraft_compatibility("8"));
    assert!(!mgr.check_minecraft_compatibility("7.0"));
    assert!(!mgr.check_minecraft_compatibility("1.8"));
    assert!(!mgr.check_minecraft_compatibility("beta"));
    let inst = sample_installation("11.0.2", "OpenJDK", true);
    assert!(mgr.validate_java_for_minecraft(&inst, "1.18"));
}

#[test]
fn recommended_java_per_game_version() {
    let mgr = JavaManager::new(None).unwrap();
    assert_eq!(mgr.get_recommended_java_for_minecraft("1.20.1"), Some(17));
    assert_eq!(mgr.get_recommended_java_for_minecraft("1.17"), Some(17));
    // the second component drives the answer: anything past 1 wants 17
    assert_eq!(mgr.get_recommended_java_for_minecraft("1.16.5"), Some(17));
    assert_eq!(mgr.get_recommended_java_for_minecraft("1.1.20"), Some(17));
    assert_eq!(mgr.get_recommended_java_for_minecraft("1.1.2"), Some(8));
    assert_eq!(mgr.get_recommended_java_for_minecraft("1.0"), Some(8));
    assert_eq!(mgr.get_recommended_java_for_minecraft("nodots"), Some(8));
}

#[test]
fn settings_defaults() {
    let s = Settings::with_data_dir("/home/user/.local/share/mango-launcher");
    assert_eq!(s.general.theme, "dark");
    assert_eq!(s.general.language, Language::Russian);
    assert_eq!(
        s.general.instances_directory,
        "/home/user/.local/share/mango-launcher/instances"
    );
    assert_eq!(s.java.memory_min, 512);
    assert_eq!(s.java.memory_max, 2048);
    assert_eq!(s.minecraft.default_width, 854);
    assert_eq!(s.minecraft.default_height, 480);
    assert_eq!(s.ui.window_width, 1024);
    assert_eq!(s.network.max_concurrent_downloads, 4);
    assert_eq!(s.network.timeout, 30);
    assert_eq!(s.network.user_agent, "mango-launcher/1.0");
    assert_eq!(s.advanced.log_retention_hours, 24);
    assert!(s.advanced.save_logs_to_file);
    assert_eq!(s.advanced.logs_directory, "/home/user/.local/share/mango-launcher/logs");
    assert_eq!(JavaSettings::default().permgen_size, 128);
    assert_eq!(MinecraftSettings::default().enable_console, true);
    assert_eq!(UiSettings::default().sort_mode, "name");
    assert_eq!(NetworkSettings::default().proxy_port, 8080);
    assert!(default_save_logs_to_file());
    assert_eq!(default_log_retention_hours(), 24);
}

#[test]
fn settings_dirty_tracking() {
    let mut mgr = SettingsManager::new(Settings::with_data_dir("/data"));
    assert!(!mgr.is_dirty());
    assert!(mgr.auto_save().is_none());
    let mut net = NetworkSettings::default();
    net.max_concurrent_downloads = 8;
    mgr.set_network_setting(net);
    assert!(mgr.is_dirty());
    assert_eq!(mgr.get().network.max_concurrent_downloads, 8);
    assert!(mgr.auto_save().is_some());
    mgr.mark_saved();
    assert!(!mgr.is_dirty());
    mgr.get_mut().ui.show_console = true;
    assert!(mgr.is_dirty());
    assert!(mgr.get().ui.show_console);
}

#[test]
fn settings_reset() {
    let mut mgr = SettingsManager::new(Settings::with_data_dir("/data"));
    mgr.get_mut().java.memory_max = 9999;
    mgr.mark_saved();
    assert!(mgr.reset_section("java", "/data").is_ok());
    assert_eq!(mgr.get().java.memory_max, 2048);
    assert!(mgr.is_dirty());
    match mgr.reset_section("bogus", "/data") {
        Err(Error::Settings(_)) => {},
        other => panic!("unknown section must be refused, got {:?}", other),
    }
    mgr.get_mut().minecraft.fullscreen = true;
    mgr.reset_to_defaults("/data");
    assert!(!mgr.get().minecraft.fullscreen);
}

#[test]
fn settings_validation() {
    let mut mgr = SettingsManager::new(Settings::with_data_dir("/data"));
    assert!(mgr.validate().is_ok());
    mgr.get_mut().java.memory_min = 4096;
    match mgr.validate() {
        Err(Error::Settings(_)) => {},
        other => panic!("memory_min above memory_max must be refused, got {:?}", other),
    }
    mgr.get_mut().java.memory_min = 512;
    mgr.get_mut().network.proxy_port = 0;
    assert!(mgr.validate().is_err());
    mgr.get_mut().network.proxy_port = 8080;
    mgr.get_mut().general.instances_directory = "relative/path".to_string();
    assert!(mgr.validate().is_err());
    mgr.get_mut().general.instances_directory = "/abs/path".to_string();
    assert!(mgr.validate().is_ok());
}
