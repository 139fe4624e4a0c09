use muscli::paths::{ipc_path, AppPaths};
use muscli::profiling::{profile_destination, profile_line, span};

fn paths() -> AppPaths {
    AppPaths {
        config_dir: "/home/me/.config/muscli".into(),
        data_dir: "/home/me/.local/share/muscli".into(),
        cache_dir: "/home/me/.cache/muscli".into(),
        runtime_dir: "/run/user/1000/muscli".into(),
    }
}

#[test]
fn every_file_has_its_place() {
    let p = paths();
    assert_eq!(p.config_file(), "/home/me/.config/muscli/config.toml");
    assert_eq!(p.database_file(), "/home/me/.local/share/muscli/library.db");
    assert_eq!(p.cover_cache_dir(), "/home/me/.cache/muscli/covers");
    assert_eq!(p.mpv_socket(), "/run/user/1000/muscli/mpv.sock");
    assert_eq!(p.lock_file(), "/run/user/1000/muscli/instance.lock");
    assert_eq!(p.control_socket(), "/run/user/1000/muscli/control.sock");
    assert_eq!(
        p.image_protocol_file(),
        "/home/me/.local/share/muscli/image-protocol.txt"
    );
    assert_eq!(ipc_path("x", "/tmp/"), "/tmp/x.sock");
    assert_eq!(
        p.directories(),
        [
            "/home/me/.config/muscli",
            "/home/me/.local/share/muscli",
            "/home/me/.cache/muscli",
            "/run/user/1000/muscli",
            "/home/me/.cache/muscli/covers"
        ]
    );
}

#[test]
fn profiling_is_off_unless_asked_for() {
    assert_eq!(profile_destination(None, "/tmp"), None);
    assert_eq!(profile_destination(Some(""), "/tmp"), None);
    assert_eq!(profile_destination(Some("0"), "/tmp"), None);
    assert_eq!(
        profile_destination(Some("1"), "/tmp"),
        Some("/tmp/muscli-profile.log".to_string())
    );
    assert_eq!(
        profile_destination(Some("/var/log/m.log"), "/tmp"),
        Some("/var/log/m.log".to_string())
    );
}

#[test]
fn a_profile_line_names_the_process_the_span_and_the_time() {
    assert_eq!(profile_line(42, "scan", 12, 3_456), "42\tscan\t12.456ms");
    assert_eq!(profile_line(7, "db", 0, 5), "7\tdb\t0.005ms");
    let timed = span("draw", None);
    assert_eq!(timed.name, "draw");
    assert!(timed.path.is_none());
}
