use mango_launcher::hashing::sha1_hex;
use mango_launcher::http_cache::HttpCache;
use mango_launcher::logs::LogLevel;
use mango_launcher::platform::get_classpath_separator;
use mango_launcher::platform::get_default_java_paths;
use mango_launcher::strutil;
use mango_launcher::utils::format_size;

#[test]
fn sha1_digest_matches_known_values() {
    // well-known SHA-1 test vectors; a wrapper that handed its input back
    // would fail both
    assert_eq!(sha1_hex(b"abc"), "a9993e364706816aba3e25717850c26c9cd0d89d");
    assert_eq!(sha1_hex(b""), "da39a3ee5e6b4b0d3255bfef95601890afd80709");
    assert_eq!(sha1_hex(b"abc").len(), 40);
}

#[test]
fn url_digest_names_the_cached_file() {
    let hc = HttpCache::new("cachedir".to_string(), 1000, 3600);
    assert_eq!(HttpCache::hash_url("abc"), "a9993e364706816aba3e25717850c26c9cd0d89d");
    assert_eq!(
        hc.cached_path("abc"),
        "cachedir/a9993e364706816aba3e25717850c26c9cd0d89d"
    );
}

#[test]
fn str_eq_and_case_insensitive_eq() {
    assert!(strutil::str_eq("hello", "hello"));
    assert!(!strutil::str_eq("hello", "hellO"));
    assert!(!strutil::str_eq("hello", "hell"));
    assert!(strutil::eq_ci("WaRn", "warn"));
    assert!(strutil::eq_ci("FATAL", "fatal"));
    assert!(!strutil::eq_ci("warned", "warn"));
}

#[test]
fn substring_search() {
    assert_eq!(strutil::find_sub("openjdk version", "version"), Some(8));
    assert_eq!(strutil::find_sub("abc", "abcd"), None);
    assert!(strutil::contains_sub("net/minecraft/client/main/Main.class", "Main.class"));
    assert!(!strutil::contains_sub("META-INF/MANIFEST.MF", "Main.class"));
    assert!(strutil::contains_ci("Eclipse ADOPTIUM jdk", "adoptium"));
    assert!(!strutil::contains_ci("Oracle", "adoptium"));
    assert_eq!(strutil::find_sub("aaa", "aa"), Some(0));
}

#[test]
fn split_and_rejoin() {
    let parts = strutil::split_char("a=1\nb=2\n", '\n');
    assert_eq!(parts, vec!["a=1".to_string(), "b=2".to_string(), "".to_string()]);
    let single = strutil::split_char("plain", '\n');
    assert_eq!(single, vec!["plain".to_string()]);
    let empty = strutil::split_char("", '\n');
    assert_eq!(empty, vec!["".to_string()]);
}

#[test]
fn char_search_and_slices() {
    assert_eq!(strutil::find_char("1.20.1", '.'), Some(1));
    assert_eq!(strutil::rfind_char("/usr/bin/java", '/'), Some(8));
    assert_eq!(strutil::find_char("nodots", '.'), None);
    assert_eq!(strutil::prefix_before_char("17.0.1", '.'), "17");
    assert_eq!(strutil::prefix_before_char("17", '.'), "17");
    assert_eq!(strutil::suffix_after_char("1.20.1", '.'), "20.1");
    assert_eq!(strutil::suffix_after_char("nodots", '.'), "");
    assert_eq!(strutil::file_name_of("/usr/bin/java"), "java");
    assert_eq!(strutil::file_name_of("java"), "java");
    assert_eq!(
        strutil::suffix_after_sub("openjdk version \"17.0.1\"", "version"),
        Some(" \"17.0.1\"".to_string())
    );
    assert_eq!(strutil::suffix_after_sub("abc", "zzz"), None);
}

#[test]
fn trim_and_tokens() {
    assert_eq!(strutil::trim_ascii("  x y \t"), "x y");
    assert_eq!(strutil::trim_ascii("\r\n"), "");
    assert_eq!(strutil::first_token("  17.0.1 2021-10-19  "), Some("17.0.1".to_string()));
    assert_eq!(strutil::first_token("   "), None);
}

#[test]
fn decimal_parse_and_print() {
    assert_eq!(strutil::parse_u32("123"), Some(123));
    assert_eq!(strutil::parse_u32("0"), Some(0));
    assert_eq!(strutil::parse_u32(""), None);
    assert_eq!(strutil::parse_u32("12a"), None);
    assert_eq!(strutil::parse_u32("4294967295"), Some(u32::MAX));
    assert_eq!(strutil::parse_u32("4294967296"), None);
    assert_eq!(strutil::u64_to_string(0), "0");
    assert_eq!(strutil::u64_to_string(7), "7");
    assert_eq!(strutil::u64_to_string(1234), "1234");
    assert_eq!(strutil::u64_to_string(u64::MAX), "18446744073709551615");
}

#[test]
fn format_size_exact_values() {
    assert_eq!(format_size(0), "0 B");
    assert_eq!(format_size(512), "512 B");
    assert_eq!(format_size(1023), "1023 B");
    assert_eq!(format_size(1024), "1.0 KB");
    assert_eq!(format_size(1536), "1.5 KB");
    assert_eq!(format_size(2048), "2.0 KB");
    assert_eq!(format_size(1048576), "1.0 MB");
    assert_eq!(format_size(1073741824), "1.0 GB");
    assert_eq!(format_size(1099511627776), "1.0 TB");
    assert_eq!(format_size(5 * 1099511627776), "5.0 TB");
}

#[test]
fn log_level_tags() {
    assert_eq!(LogLevel::Info.as_str(), "INFO");
    assert_eq!(LogLevel::Warning.as_str(), "WARN");
    assert_eq!(LogLevel::Error.as_str(), "ERROR");
    assert_eq!(LogLevel::Debug.as_str(), "DEBUG");
    assert_eq!(LogLevel::Launcher.as_str(), "LAUNCHER");
}

#[test]
fn log_level_from_game_output() {
    assert_eq!(LogLevel::from_minecraft_level("INFO"), LogLevel::Info);
    assert_eq!(LogLevel::from_minecraft_level("warning"), LogLevel::Warning);
    assert_eq!(LogLevel::from_minecraft_level("WARN"), LogLevel::Warning);
    assert_eq!(LogLevel::from_minecraft_level("fatal"), LogLevel::Error);
    assert_eq!(LogLevel::from_minecraft_level("Error"), LogLevel::Error);
    assert_eq!(LogLevel::from_minecraft_level("TRACE"), LogLevel::Debug);
    assert_eq!(LogLevel::from_minecraft_level("debug"), LogLevel::Debug);
    assert_eq!(LogLevel::from_minecraft_level("noise"), LogLevel::Info);
}

#[test]
fn platform_constants() {
    assert_eq!(get_classpath_separator(), ":");
    let paths = get_default_java_paths();
    assert_eq!(paths.len(), 3);
    assert_eq!(paths[0], "/usr/lib/jvm");
}
