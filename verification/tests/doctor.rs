use muscli::config::AudioBackendChoice;
use muscli::db::LibraryHealth;
use muscli::doctor::{
    audio_backend, command_check, discord_check, graphics_check, health_checks, instance_check,
    omarchy_media_enabled, platform_checks, platform_commands, run, sources_check, Observations,
    PluginEntry,
};
use muscli::i18n::{catalogues, Translator};

fn translator() -> Translator {
    let english = "\"doctor.protocol_unknown\" = \"unknown\"\n\"doctor.terminal_graphics\" = \"{term} via {protocol}\"\n";
    Translator::new(catalogues(english, "").expect("catalogues"))
}

#[test]
fn each_command_is_checked_with_its_advice() {
    let commands = platform_commands();
    assert_eq!(commands.len(), 6);
    assert_eq!(commands[5].args, ["--user", "status"]);
    let checks = platform_checks(&[true, false, true, true, false, true]);
    assert_eq!(checks[0].name, "mpv");
    assert_eq!(checks[0].detail, "available");
    assert!(!checks[1].ok);
    assert_eq!(checks[1].detail, "Install FFmpeg to analyze ReplayGain");
    assert_eq!(checks[4].detail, "Omarchy was not found");
    assert!(command_check("x", true, "help").ok);
}

#[test]
fn the_audio_check_names_the_device() {
    let devices = || Ok(vec!["Speakers".to_string(), "DAC".to_string()]);
    assert_eq!(audio_backend(AudioBackendChoice::Mpv, "", devices()).detail, "mpv");
    let default = audio_backend(AudioBackendChoice::Native, "  ", devices());
    assert!(default.ok);
    assert_eq!(default.detail, "native, on the default device");
    let named = audio_backend(AudioBackendChoice::Native, " DAC ", devices());
    assert_eq!(named.detail, "native, on DAC");
    let missing = audio_backend(AudioBackendChoice::Native, "USB", devices());
    assert!(!missing.ok);
    assert_eq!(missing.detail, "native, but there is no device called USB");
    let none = audio_backend(AudioBackendChoice::Native, "", Ok(Vec::new()));
    assert_eq!(none.detail, "native, but no output device was found");
    let failed = audio_backend(AudioBackendChoice::Native, "", Err("busy".into()));
    assert_eq!(failed.detail, "native, but the devices could not be listed: busy");
}

#[test]
fn sources_discord_and_the_instance_are_reported() {
    let none = sources_check(&[]);
    assert!(!none.ok);
    assert_eq!(none.detail, "none found; insert a drive or run `muscli library add PATH`");
    let some = sources_check(&[("/a".into(), false), ("/b".into(), true)]);
    assert!(some.ok);
    assert_eq!(some.detail, "/a, /b");
    let off = discord_check(false, None, "123");
    assert!(off.ok);
    let lost = discord_check(true, None, "123");
    assert!(!lost.ok);
    let found = discord_check(true, Some("/run/discord-ipc-0".into()), "123");
    assert_eq!(found.detail, "enabled for 123; IPC /run/discord-ipc-0");
    assert!(instance_check(false).ok);
    assert_eq!(instance_check(false).detail, "not running");
}

#[test]
fn graphics_and_health_are_reported() {
    let t = translator();
    let fallback = graphics_check(&t, "kitty", Some("Halfblocks (fallback)\n".into()));
    assert!(!fallback.ok);
    assert_eq!(fallback.detail, "kitty via Halfblocks (fallback)");
    let kitty = graphics_check(&t, "kitty", Some(" Kitty ".into()));
    assert!(kitty.ok);
    assert_eq!(kitty.detail, "kitty via Kitty");
    let unknown = graphics_check(&t, "xterm", Some("  ".into()));
    assert!(!unknown.ok);
    assert_eq!(unknown.detail, "xterm via unknown");
    let health = LibraryHealth {
        tracks: 10,
        unavailable_tracks: 2,
        missing_tracks_on_available_sources: 0,
        dangling_covers: 1,
        sources: vec![("/a".into(), true), ("/b".into(), false)],
    };
    let checks = health_checks(Ok(health), &[false, true]);
    assert_eq!(checks.len(), 3);
    assert_eq!(checks[0].detail, "1 dangling");
    assert!(!checks[0].ok);
    assert_eq!(checks[1].detail, "10 tracks; 2 unavailable; 0 missing on connected sources");
    assert!(!checks[2].ok);
    assert_eq!(checks[2].detail, "/a (offline), /b (offline)");
    let failed = health_checks(Err("locked".into()), &[]);
    assert_eq!(failed[0].detail, "could not inspect it: locked");
}

#[test]
fn the_widget_counts_only_when_enabled() {
    let entry = |id: Option<&str>, enabled: Option<bool>| PluginEntry {
        id: id.map(str::to_string),
        enabled,
    };
    assert!(omarchy_media_enabled(Some(&[
        entry(Some("omarchy.clock"), Some(true)),
        entry(Some("omarchy.media"), Some(true))
    ])));
    assert!(!omarchy_media_enabled(Some(&[entry(Some("omarchy.media"), Some(false))])));
    assert!(!omarchy_media_enabled(Some(&[entry(None, Some(true))])));
    assert!(!omarchy_media_enabled(None));
}

#[test]
fn the_report_lists_every_check_in_order() {
    let observations = Observations {
        platform: vec![true; 6],
        sources: vec![("/music".into(), true)],
        database_file: "/data/library.db".into(),
        database_folder_writable: true,
        audio_backend: AudioBackendChoice::Mpv,
        audio_device: String::new(),
        audio_devices: Ok(Vec::new()),
        discord_enabled: false,
        discord_socket: None,
        widget_enabled: true,
        term: "kitty".into(),
        protocol_file: None,
        cover_cache_bytes: 2 * 1_048_576,
        cover_cache_mb: 1,
        cover_cache_detail: "2.0 MiB / 1 MiB".into(),
        health: Err("missing".into()),
        root_is_dir: Vec::new(),
        instance_alive: true,
    };
    let checks = run(&translator(), observations, "1234");
    let names: Vec<&str> = checks.iter().map(|c| c.name).collect();
    assert_eq!(
        names,
        [
            "mpv",
            "ffmpeg",
            "ionice",
            "findmnt",
            "omarchy",
            "busctl",
            "music sources",
            "database",
            "audio backend",
            "Discord Rich Presence",
            "Omarchy media widget",
            "terminal graphics",
            "cover cache",
            "library database",
            "instance"
        ]
    );
    assert!(!checks[12].ok);
    assert_eq!(checks[12].detail, "2.0 MiB / 1 MiB");
}

#[test]
fn a_lock_file_names_its_process() {
    assert_eq!(muscli::doctor::lock_pid("1234\n"), Some(1234));
    assert_eq!(muscli::doctor::lock_pid("  +7 "), Some(7));
    assert_eq!(muscli::doctor::lock_pid("4294967296"), None);
    assert_eq!(muscli::doctor::lock_pid("pid"), None);
    assert_eq!(muscli::doctor::lock_pid(""), None);
}
