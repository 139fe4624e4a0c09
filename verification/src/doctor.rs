//! `muscli doctor`: what is checked, and what each check reports, from what
//! the program observed of the machine.

use vstd::prelude::*;

use crate::config::AudioBackendChoice;
use crate::db::LibraryHealth;
use crate::i18n::{argument_views, filled, translation, Translator};
use crate::numbers::{decimal, decimal_chars, parse_bounded, parse_u64};
use crate::text::{chars_of, starts_with, string_of, trim, trim_chars};

verus! {

/// One line of the report.
#[derive(Debug, Clone)]
pub struct Check {
    pub ok: bool,
    pub name: &'static str,
    pub detail: String,
}

/// A line of the report as text.
pub struct CheckView {
    pub ok: bool,
    pub name: Seq<char>,
    pub detail: Seq<char>,
}

impl View for Check {
    type V = CheckView;

    open spec fn view(&self) -> CheckView {
        CheckView { ok: self.ok, name: self.name@, detail: self.detail@ }
    }
}

/// A line of the report.
pub open spec fn check(ok: bool, name: Seq<char>, detail: Seq<char>) -> CheckView {
    CheckView { ok, name, detail }
}

/// The lines of a report as text.
pub open spec fn check_views(checks: Seq<Check>) -> Seq<CheckView> {
    Seq::new(checks.len(), |i: int| checks[i]@)
}

fn push_str(out: &mut Vec<char>, s: &str)
    ensures
        final(out)@ == old(out)@ + s@,
{
    let more = chars_of(s);
    let ghost start = out@;
    let mut i: usize = 0;
    while i < more.len()
        invariant
            i <= more@.len(),
            more@ == s@,
            out@ == start + more@.take(i as int),
        decreases more.len() - i,
    {
        out.push(more[i]);
        i = i + 1;
        assert(out@ =~= start + more@.take(i as int));
    }
    assert(more@.take(more@.len() as int) =~= more@);
}

fn push_chars(out: &mut Vec<char>, more: &Vec<char>)
    ensures
        final(out)@ == old(out)@ + more@,
{
    let ghost start = out@;
    let mut i: usize = 0;
    while i < more.len()
        invariant
            i <= more@.len(),
            out@ == start + more@.take(i as int),
        decreases more.len() - i,
    {
        out.push(more[i]);
        i = i + 1;
        assert(out@ =~= start + more@.take(i as int));
    }
    assert(more@.take(more@.len() as int) =~= more@);
}

/// A command the platform check runs: its name, arguments, and what to do
/// when it is missing.
#[derive(Debug, Clone)]
pub struct PlatformCommand {
    pub name: &'static str,
    pub args: Vec<&'static str>,
    pub help: &'static str,
}

/// The names of the commands checked, in order.
pub open spec fn platform_names() -> Seq<Seq<char>> {
    seq!["mpv"@, "ffmpeg"@, "ionice"@, "findmnt"@, "omarchy"@, "busctl"@]
}

/// What to do about each missing command, in the same order.
pub open spec fn platform_help() -> Seq<Seq<char>> {
    seq![
        "Install with `omarchy pkg add mpv`"@,
        "Install FFmpeg to analyze ReplayGain"@,
        "Install util-linux"@,
        "Install util-linux"@,
        "Omarchy was not found"@,
        "A user D-Bus session is required"@,
    ]
}

/// The commands muscli relies on, and how each is asked whether it runs.
pub fn platform_commands() -> (commands: Vec<PlatformCommand>)
    ensures
        commands@.len() == 6,
        forall|i: int| 0 <= i < 6 ==> (#[trigger] commands@[i]).name@ == platform_names()[i] && commands@[i].help@ == platform_help()[i],
{
    let commands = vec![
        PlatformCommand { name: "mpv", args: vec!["--version"], help: "Install with `omarchy pkg add mpv`" },
        PlatformCommand { name: "ffmpeg", args: vec!["-version"], help: "Install FFmpeg to analyze ReplayGain" },
        PlatformCommand { name: "ionice", args: vec!["--version"], help: "Install util-linux" },
        PlatformCommand { name: "findmnt", args: vec!["--version"], help: "Install util-linux" },
        PlatformCommand { name: "omarchy", args: vec!["version"], help: "Omarchy was not found" },
        PlatformCommand {
            name: "busctl",
            args: vec!["--user", "status"],
            help: "A user D-Bus session is required",
        },
    ];
    assert forall|i: int| 0 <= i < 6 implies (#[trigger] commands@[i]).name@ == platform_names()[i] && commands@[i].help@ == platform_help()[i] by {
        if i == 0 {
        } else if i == 1 {
        } else if i == 2 {
        } else if i == 3 {
        } else if i == 4 {
        } else {
        }
    }
    commands
}

/// The check for one command: available if it ran and succeeded, and what
/// to do about it otherwise.
pub open spec fn command_check_spec(name: Seq<char>, succeeded: bool, help: Seq<char>) -> CheckView {
    check(
        succeeded,
        name,
        if succeeded {
            "available"@
        } else {
            help
        },
    )
}

/// The check for one command.
pub fn command_check(name: &'static str, succeeded: bool, help: &str) -> (c: Check)
    ensures
        c@ == command_check_spec(name@, succeeded, help@),
{
    if succeeded {
        Check { ok: true, name, detail: "available".to_owned() }
    } else {
        Check { ok: false, name, detail: help.to_owned() }
    }
}

/// The checks of the commands muscli relies on.
pub open spec fn platform_checks_spec(succeeded: Seq<bool>) -> Seq<CheckView> {
    Seq::new(6, |i: int| command_check_spec(platform_names()[i], succeeded[i], platform_help()[i]))
}

/// The checks of the commands muscli relies on, given whether each of
/// `platform_commands` ran and succeeded.
pub fn platform_checks(succeeded: &[bool]) -> (checks: Vec<Check>)
    requires
        succeeded@.len() == 6,
    ensures
        check_views(checks@) == platform_checks_spec(succeeded@),
{
    let commands = platform_commands();
    let mut checks: Vec<Check> = Vec::new();
    let mut i: usize = 0;
    while i < 6
        invariant
            i <= 6,
            succeeded@.len() == 6,
            commands@.len() == 6,
            forall|k: int| 0 <= k < 6 ==> (#[trigger] commands@[k]).name@ == platform_names()[k] && commands@[k].help@ == platform_help()[k],
            checks@.len() == i,
            forall|k: int| 0 <= k < i ==> (#[trigger] checks@[k])@ == command_check_spec(platform_names()[k], succeeded@[k], platform_help()[k]),
        decreases 6 - i,
    {
        let c = command_check(commands[i].name, succeeded[i], commands[i].help);
        checks.push(c);
        i = i + 1;
    }
    assert(check_views(checks@) =~= platform_checks_spec(succeeded@));
    checks
}

/// The names, joined with `, `.
pub open spec fn joined(items: Seq<Seq<char>>) -> Seq<char>
    decreases items.len(),
{
    if items.len() == 0 {
        seq![]
    } else if items.len() == 1 {
        items[0]
    } else {
        joined(items.drop_last()) + ", "@ + items.last()
    }
}

/// The music sources check: fine if any source is there. The sources are
/// listed with whether each is there.
pub open spec fn sources_check_spec(sources: Seq<(String, bool)>) -> CheckView {
    check(
        exists|i: int| 0 <= i < sources.len() && #[trigger] sources[i].1,
        "music sources"@,
        if sources.len() == 0 {
            "none found; insert a drive or run `muscli library add PATH`"@
        } else {
            joined(Seq::new(sources.len(), |i: int| sources[i].0@))
        },
    )
}

/// The music sources check.
pub fn sources_check(sources: &[(String, bool)]) -> (c: Check)
    ensures
        c@ == sources_check_spec(sources@),
{
    let mut any = false;
    let mut detail: Vec<char> = Vec::new();
    let ghost names = Seq::new(sources@.len(), |i: int| sources@[i].0@);
    let mut i: usize = 0;
    proof {
        reveal_strlit(", ");
    }
    while i < sources.len()
        invariant
            i <= sources@.len(),
            names == Seq::new(sources@.len(), |k: int| sources@[k].0@),
            any == exists|k: int| 0 <= k < i && #[trigger] sources@[k].1,
            detail@ == joined(names.take(i as int)),
        decreases sources.len() - i,
    {
        if sources[i].1 {
            any = true;
        }
        let ghost before = names.take(i as int);
        if i > 0 {
            push_str(&mut detail, ", ");
        }
        push_str(&mut detail, sources[i].0.as_str());
        assert(names.take(i + 1).drop_last() =~= before);
        i = i + 1;
    }
    assert(names.take(sources@.len() as int) =~= names);
    if sources.len() == 0 {
        Check {
            ok: any,
            name: "music sources",
            detail: "none found; insert a drive or run `muscli library add PATH`".to_owned(),
        }
    } else {
        Check { ok: any, name: "music sources", detail: string_of(&detail) }
    }
}

/// The database check: fine if the folder it lives in is there or can be
/// made.
pub open spec fn database_check_spec(database_file: Seq<char>, folder_writable: bool) -> CheckView {
    check(folder_writable, "database"@, database_file)
}

/// The database check.
pub fn database_check(database_file: &str, folder_writable: bool) -> (c: Check)
    ensures
        c@ == database_check_spec(database_file@, folder_writable),
{
    Check { ok: folder_writable, name: "database", detail: database_file.to_owned() }
}

/// The audio backend check: mpv is always fine; the native backend needs an
/// output device, and the one asked for by name if one is.
pub open spec fn audio_detail(
    backend: AudioBackendChoice,
    wanted: Seq<char>,
    devices: Result<Seq<Seq<char>>, Seq<char>>,
) -> (bool, Seq<char>) {
    match backend {
        AudioBackendChoice::Mpv => (true, "mpv"@),
        AudioBackendChoice::Native => match devices {
            Ok(ds) => if ds.len() == 0 {
                (false, "native, but no output device was found"@)
            } else if wanted.len() > 0 && !ds.contains(wanted) {
                (false, "native, but there is no device called "@ + wanted)
            } else if wanted.len() == 0 {
                (true, "native, on the default device"@)
            } else {
                (true, "native, on "@ + wanted)
            },
            Err(e) => (false, "native, but the devices could not be listed: "@ + e),
        },
    }
}

/// The device list, or why it could not be had, as text.
pub open spec fn device_views(devices: Result<Vec<String>, String>) -> Result<Seq<Seq<char>>, Seq<char>> {
    match devices {
        Ok(ds) => Ok(Seq::new(ds@.len(), |i: int| ds@[i]@)),
        Err(e) => Err(e@),
    }
}

/// The audio backend check, for the device asked for by name (blank for
/// the default).
pub open spec fn audio_backend_spec(
    backend: AudioBackendChoice,
    audio_device: Seq<char>,
    devices: Result<Seq<Seq<char>>, Seq<char>>,
) -> CheckView {
    let d = audio_detail(backend, trim(audio_device), devices);
    check(d.0, "audio backend"@, d.1)
}

/// What will actually make the sound, and whether it can. `devices` is the
/// list of output devices, or why it could not be had.
pub fn audio_backend(backend: AudioBackendChoice, audio_device: &str, devices: Result<Vec<String>, String>) -> (c: Check)
    ensures
        c@ == audio_backend_spec(backend, audio_device@, device_views(devices)),
{
    if backend == AudioBackendChoice::Mpv {
        return Check { ok: true, name: "audio backend", detail: "mpv".to_owned() };
    }
    let wanted = trim_chars(&chars_of(audio_device));
    match devices {
        Ok(ds) => {
            let ghost names = Seq::new(ds@.len(), |i: int| ds@[i]@);
            if ds.len() == 0 {
                return Check {
                    ok: false,
                    name: "audio backend",
                    detail: "native, but no output device was found".to_owned(),
                };
            }
            let mut found = false;
            let mut i: usize = 0;
            while i < ds.len()
                invariant
                    i <= ds@.len(),
                    names == Seq::new(ds@.len(), |k: int| ds@[k]@),
                    found == exists|k: int| 0 <= k < i && #[trigger] names[k] == wanted@,
                decreases ds.len() - i,
            {
                if crate::text::chars_eq(&chars_of(ds[i].as_str()), &wanted) {
                    assert(names[i as int] == wanted@);
                    found = true;
                }
                i = i + 1;
            }
            assert(found == names.contains(wanted@));
            if wanted.len() > 0 && !found {
                let mut d = chars_of("native, but there is no device called ");
                push_chars(&mut d, &wanted);
                Check { ok: false, name: "audio backend", detail: string_of(&d) }
            } else if wanted.len() == 0 {
                Check { ok: true, name: "audio backend", detail: "native, on the default device".to_owned() }
            } else {
                let mut d = chars_of("native, on ");
                push_chars(&mut d, &wanted);
                Check { ok: true, name: "audio backend", detail: string_of(&d) }
            }
        },
        Err(e) => {
            let mut d = chars_of("native, but the devices could not be listed: ");
            push_str(&mut d, e.as_str());
            Check { ok: false, name: "audio backend", detail: string_of(&d) }
        },
    }
}

/// The Rich Presence check: fine when it is off, or when Discord's IPC
/// socket is there.
pub open spec fn discord_detail(enabled: bool, socket: Option<Seq<char>>, application_id: Seq<char>) -> Seq<char> {
    if enabled {
        match socket {
            Some(s) => "enabled for "@ + application_id + "; IPC "@ + s,
            None => "enabled, but Discord/Vesktop IPC is not available"@,
        }
    } else {
        "disabled; enable it in Settings or run `muscli setup discord`"@
    }
}

/// The Rich Presence check.
pub open spec fn discord_check_spec(enabled: bool, socket: Option<Seq<char>>, application_id: Seq<char>) -> CheckView {
    check(!enabled || socket is Some, "Discord Rich Presence"@, discord_detail(enabled, socket, application_id))
}

/// The Rich Presence check.
pub fn discord_check(enabled: bool, socket: Option<String>, application_id: &str) -> (c: Check)
    ensures
        c@ == discord_check_spec(enabled, crate::text::opt_chars(socket), application_id@),
{
    let ok = !enabled || socket.is_some();
    let detail = if enabled {
        match socket {
            Some(s) => {
                let mut d = chars_of("enabled for ");
                push_str(&mut d, application_id);
                push_str(&mut d, "; IPC ");
                push_str(&mut d, s.as_str());
                string_of(&d)
            },
            None => "enabled, but Discord/Vesktop IPC is not available".to_owned(),
        }
    } else {
        "disabled; enable it in Settings or run `muscli setup discord`".to_owned()
    };
    Check { ok, name: "Discord Rich Presence", detail }
}

/// The Omarchy media widget check.
pub open spec fn widget_check_spec(enabled: bool) -> CheckView {
    check(
        enabled,
        "Omarchy media widget"@,
        if enabled {
            "enabled"@
        } else {
            "disabled; run `muscli setup omarchy`"@
        },
    )
}

/// The Omarchy media widget check.
pub fn widget_check(enabled: bool) -> (c: Check)
    ensures
        c@ == widget_check_spec(enabled),
{
    Check {
        ok: enabled,
        name: "Omarchy media widget",
        detail: if enabled {
            "enabled".to_owned()
        } else {
            "disabled; run `muscli setup omarchy`".to_owned()
        },
    }
}

/// The graphics protocol the interface recorded, from the file it wrote:
/// its contents less surrounding white space, if any are left.
pub open spec fn recorded_protocol(file: Option<Seq<char>>) -> Option<Seq<char>> {
    match file {
        Some(f) => if trim(f).len() > 0 {
            Some(trim(f))
        } else {
            None
        },
        None => None,
    }
}

/// The protocol the graphics check names: the one recorded, or the
/// translation of `doctor.protocol_unknown`.
pub open spec fn protocol_shown(translator: Translator, file: Option<Seq<char>>) -> Seq<char> {
    match recorded_protocol(file) {
        Some(p) => p,
        None => translation(translator.english(), translator.spanish(), translator.active(), "doctor.protocol_unknown"@),
    }
}

/// The terminal graphics check: fine when a protocol other than the
/// half-block fallback was recorded; it names the terminal and the protocol.
pub open spec fn graphics_check_spec(translator: Translator, term: Seq<char>, protocol_file: Option<Seq<char>>) -> CheckView {
    check(
        recorded_protocol(protocol_file) matches Some(p) && !"Halfblocks (fallback"@.is_prefix_of(p),
        "terminal graphics"@,
        filled(
            translation(translator.english(), translator.spanish(), translator.active(), "doctor.terminal_graphics"@),
            seq![("term"@, term), ("protocol"@, protocol_shown(translator, protocol_file))],
        ),
    )
}

/// The terminal graphics check.
pub fn graphics_check(translator: &Translator, term: &str, protocol_file: Option<String>) -> (c: Check)
    ensures
        c@ == graphics_check_spec(*translator, term@, crate::text::opt_chars(protocol_file)),
{
    let protocol: Option<Vec<char>> = match &protocol_file {
        Some(f) => {
            let t = trim_chars(&chars_of(f.as_str()));
            if t.len() > 0 {
                Some(t)
            } else {
                None
            }
        },
        None => None,
    };
    let ok = match &protocol {
        Some(p) => !starts_with(p, &chars_of("Halfblocks (fallback")),
        None => false,
    };
    let ghost recorded = recorded_protocol(crate::text::opt_chars(protocol_file));
    proof {
        match protocol_file {
            Some(f) => {
                assert(recorded == if trim(f@).len() > 0 {
                    Some(trim(f@))
                } else {
                    None::<Seq<char>>
                });
            },
            None => {},
        }
    }
    assert(match protocol {
        Some(p) => recorded == Some(p@),
        None => recorded is None,
    });
    let shown: String = match &protocol {
        Some(p) => string_of(p),
        None => crate::i18n::lookup(translator, "doctor.protocol_unknown"),
    };
    let ghost shown_text = shown@;
    assert(shown_text == protocol_shown(*translator, crate::text::opt_chars(protocol_file)));
    let arguments = vec![("term", term.to_owned()), ("protocol", shown)];
    assert(arguments@[1].1@ == shown_text);
    assert(argument_views(arguments@) =~= seq![("term"@, term@), ("protocol"@, shown_text)]);
    let detail = crate::i18n::format(translator, "doctor.terminal_graphics", &arguments);
    Check { ok, name: "terminal graphics", detail }
}

/// The cover cache limit in bytes, as `saturating_mul` gives it.
pub open spec fn cache_limit(cover_cache_mb: u64) -> int {
    let bytes = cover_cache_mb * 1_048_576;
    if bytes > u64::MAX {
        u64::MAX as int
    } else {
        bytes
    }
}

/// The cover cache check: fine while the cache is within its limit. The
/// detail (its size in MiB, to one decimal) is written by the caller.
pub fn cover_cache_check(cache_bytes: u64, cover_cache_mb: u64, detail: String) -> (c: Check)
    ensures
        c@ == check(cache_bytes <= cache_limit(cover_cache_mb), "cover cache"@, detail@),
{
    let limit: u64 = if cover_cache_mb > u64::MAX / 1_048_576 {
        u64::MAX
    } else {
        cover_cache_mb * 1_048_576
    };
    Check { ok: cache_bytes <= limit, name: "cover cache", detail }
}

/// A source as the indexed-sources check shows it.
pub open spec fn source_line(root: Seq<char>, mounted: bool) -> Seq<char> {
    root + " ("@ + (if mounted {
        "mounted"@
    } else {
        "offline"@
    }) + ")"@
}

/// The checks of the library's rows, from the health report and, for each
/// of its sources, whether its root is a folder that is there; or the one
/// failed check when the database could not be inspected.
pub open spec fn health_checks_spec(health: Result<LibraryHealth, String>, root_is_dir: Seq<bool>) -> Seq<CheckView> {
    match health {
        Ok(h) => seq![
            check(h.dangling_covers == 0, "cover references"@, decimal(h.dangling_covers as nat) + " dangling"@),
            check(
                h.missing_tracks_on_available_sources == 0,
                "library rows"@,
                decimal(h.tracks as nat) + " tracks; "@ + decimal(h.unavailable_tracks as nat) + " unavailable; "@
                    + decimal(h.missing_tracks_on_available_sources as nat) + " missing on connected sources"@,
            ),
            check(
                forall|i: int| 0 <= i < h.sources@.len() ==> !(#[trigger] h.sources@[i]).1 || root_is_dir[i],
                "indexed sources"@,
                joined(Seq::new(h.sources@.len(), |i: int| source_line(h.sources@[i].0@, h.sources@[i].1 && root_is_dir[i]))),
            ),
        ],
        Err(e) => seq![check(false, "library database"@, "could not inspect it: "@ + e@)],
    }
}

/// The checks of the library's rows.
pub fn health_checks(health: Result<LibraryHealth, String>, root_is_dir: &[bool]) -> (checks: Vec<Check>)
    requires
        health matches Ok(h) ==> root_is_dir@.len() == h.sources@.len(),
    ensures
        check_views(checks@) == health_checks_spec(health, root_is_dir@),
{
    match health {
        Ok(h) => {
            let mut d1 = decimal_chars(h.dangling_covers as u64);
            push_str(&mut d1, " dangling");
            let c1 = Check { ok: h.dangling_covers == 0, name: "cover references", detail: string_of(&d1) };
            let mut d2 = decimal_chars(h.tracks as u64);
            push_str(&mut d2, " tracks; ");
            push_chars(&mut d2, &decimal_chars(h.unavailable_tracks as u64));
            push_str(&mut d2, " unavailable; ");
            push_chars(&mut d2, &decimal_chars(h.missing_tracks_on_available_sources as u64));
            push_str(&mut d2, " missing on connected sources");
            let c2 = Check {
                ok: h.missing_tracks_on_available_sources == 0,
                name: "library rows",
                detail: string_of(&d2),
            };
            let ghost lines = Seq::new(
                h.sources@.len(),
                |i: int| source_line(h.sources@[i].0@, h.sources@[i].1 && root_is_dir@[i]),
            );
            let mut all_ok = true;
            let mut d3: Vec<char> = Vec::new();
            let mut i: usize = 0;
            proof {
                reveal_strlit(", ");
                reveal_strlit(" (");
                reveal_strlit(")");
                reveal_strlit("mounted");
                reveal_strlit("offline");
            }
            while i < h.sources.len()
                invariant
                    i <= h.sources@.len(),
                    root_is_dir@.len() == h.sources@.len(),
                    lines == Seq::new(
                        h.sources@.len(),
                        |k: int| source_line(h.sources@[k].0@, h.sources@[k].1 && root_is_dir@[k]),
                    ),
                    all_ok == forall|k: int| 0 <= k < i ==> !(#[trigger] h.sources@[k]).1 || root_is_dir@[k],
                    d3@ == joined(lines.take(i as int)),
                decreases h.sources.len() - i,
            {
                let available = h.sources[i].1;
                let mounted = available && root_is_dir[i];
                if available && !root_is_dir[i] {
                    all_ok = false;
                }
                if i > 0 {
                    push_str(&mut d3, ", ");
                }
                push_str(&mut d3, h.sources[i].0.as_str());
                push_str(&mut d3, " (");
                if mounted {
                    push_str(&mut d3, "mounted");
                } else {
                    push_str(&mut d3, "offline");
                }
                push_str(&mut d3, ")");
                assert(lines.take(i + 1).drop_last() =~= lines.take(i as int));
                assert(lines[i as int] == source_line(h.sources@[i as int].0@, mounted));
                i = i + 1;
            }
            assert(lines.take(h.sources@.len() as int) =~= lines);
            let c3 = Check { ok: all_ok, name: "indexed sources", detail: string_of(&d3) };
            let mut checks: Vec<Check> = Vec::new();
            checks.push(c1);
            checks.push(c2);
            checks.push(c3);
            assert(check_views(checks@) =~= health_checks_spec(health, root_is_dir@));
            checks
        },
        Err(e) => {
            let mut d = chars_of("could not inspect it: ");
            push_str(&mut d, e.as_str());
            let mut checks: Vec<Check> = Vec::new();
            checks.push(Check { ok: false, name: "library database", detail: string_of(&d) });
            assert(check_views(checks@) =~= health_checks_spec(health, root_is_dir@));
            checks
        },
    }
}

/// The instance check, which is never a failure: it says whether a running
/// muscli will take rescans and prunes.
pub open spec fn instance_check_spec(alive: bool) -> CheckView {
    check(
        true,
        "instance"@,
        if alive {
            "running; rescan/prune will be delegated through the control socket"@
        } else {
            "not running"@
        },
    )
}

/// The instance check.
pub fn instance_check(alive: bool) -> (c: Check)
    ensures
        c@ == instance_check_spec(alive),
{
    Check {
        ok: true,
        name: "instance",
        detail: if alive {
            "running; rescan/prune will be delegated through the control socket".to_owned()
        } else {
            "not running".to_owned()
        },
    }
}

/// An entry of `omarchy plugin list --json`, as far as it is read: its id
/// and whether it is enabled, where each is there and of the right kind.
#[derive(Debug, Clone)]
pub struct PluginEntry {
    pub id: Option<String>,
    pub enabled: Option<bool>,
}

/// Whether a plugin listing shows the media widget enabled.
pub open spec fn media_enabled(plugins: Option<Seq<PluginEntry>>) -> bool {
    match plugins {
        Some(ps) => exists|i: int|
            0 <= i < ps.len() && (#[trigger] ps[i]).enabled == Some(true) && match ps[i].id {
                Some(id) => id@ == "omarchy.media"@,
                None => false,
            },
        None => false,
    }
}

/// Whether Omarchy's media widget is enabled, from its plugin listing:
/// `None` where the listing could not be had or was not a list.
pub fn omarchy_media_enabled(plugins: Option<&[PluginEntry]>) -> (b: bool)
    ensures
        b == media_enabled(
            match plugins {
                Some(ps) => Some(ps@),
                None => None,
            },
        ),
{
    match plugins {
        Some(ps) => {
            let target = chars_of("omarchy.media");
            let mut i: usize = 0;
            while i < ps.len()
                invariant
                    i <= ps@.len(),
                    plugins == Some(ps),
                    target@ == "omarchy.media"@,
                    forall|k: int|
                        0 <= k < i ==> !((#[trigger] ps@[k]).enabled == Some(true) && match ps@[k].id {
                            Some(id) => id@ == "omarchy.media"@,
                            None => false,
                        }),
                decreases ps.len() - i,
            {
                match &ps[i].id {
                    Some(id) => {
                        if ps[i].enabled == Some(true) && crate::text::chars_eq(&chars_of(id.as_str()), &target) {
                            assert(ps@[i as int].id == Some(*id));
                            assert(id@ == "omarchy.media"@);
                            assert((ps@[i as int]).enabled == Some(true) && match ps@[i as int].id {
                                Some(x) => x@ == "omarchy.media"@,
                                None => false,
                            });
                            assert(media_enabled(Some(ps@)));
                            return true;
                        }
                    },
                    None => {},
                }
                i = i + 1;
            }
            false
        },
        None => false,
    }
}

/// What the program observed of the machine for the report.
#[derive(Debug)]
pub struct Observations {
    /// Whether each of `platform_commands` ran and succeeded.
    pub platform: Vec<bool>,
    /// Every music source, with whether it is there.
    pub sources: Vec<(String, bool)>,
    pub database_file: String,
    /// Whether the database's folder is there or could be made.
    pub database_folder_writable: bool,
    pub audio_backend: AudioBackendChoice,
    pub audio_device: String,
    /// The output devices, or why they could not be listed.
    pub audio_devices: Result<Vec<String>, String>,
    pub discord_enabled: bool,
    pub discord_socket: Option<String>,
    pub widget_enabled: bool,
    pub term: String,
    /// What the interface recorded of the terminal's graphics protocol.
    pub protocol_file: Option<String>,
    pub cover_cache_bytes: u64,
    pub cover_cache_mb: u64,
    /// The cache's size against its limit, in MiB, as the report shows it.
    pub cover_cache_detail: String,
    /// The library's health, or why the database could not be inspected.
    pub health: Result<LibraryHealth, String>,
    /// For each source of the health report, whether its root is a folder
    /// that is there.
    pub root_is_dir: Vec<bool>,
    pub instance_alive: bool,
}

/// The report, in order: the commands muscli relies on, the music sources,
/// the database, the audio backend, Rich Presence, the Omarchy widget, the
/// terminal's graphics, the cover cache, the library's rows and the running
/// instance.
pub open spec fn report_spec(translator: Translator, o: Observations, application_id: Seq<char>) -> Seq<CheckView> {
    platform_checks_spec(o.platform@) + seq![
        sources_check_spec(o.sources@),
        database_check_spec(o.database_file@, o.database_folder_writable),
        audio_backend_spec(o.audio_backend, o.audio_device@, device_views(o.audio_devices)),
        discord_check_spec(o.discord_enabled, crate::text::opt_chars(o.discord_socket), application_id),
        widget_check_spec(o.widget_enabled),
        graphics_check_spec(translator, o.term@, crate::text::opt_chars(o.protocol_file)),
        check(o.cover_cache_bytes <= cache_limit(o.cover_cache_mb), "cover cache"@, o.cover_cache_detail@),
    ] + health_checks_spec(o.health, o.root_is_dir@) + seq![instance_check_spec(o.instance_alive)]
}

/// The doctor's report from what was observed; `application_id` is the
/// Discord application muscli presents as.
pub fn run(translator: &Translator, observations: Observations, application_id: &str) -> (checks: Vec<Check>)
    requires
        observations.platform@.len() == 6,
        observations.health matches Ok(h) ==> observations.root_is_dir@.len() == h.sources@.len(),
    ensures
        check_views(checks@) == report_spec(*translator, observations, application_id@),
{
    let ghost o = observations;
    let mut checks = platform_checks(&observations.platform);
    let ghost first = check_views(checks@);
    checks.push(sources_check(&observations.sources));
    checks.push(database_check(observations.database_file.as_str(), observations.database_folder_writable));
    checks.push(audio_backend(observations.audio_backend, observations.audio_device.as_str(), observations.audio_devices));
    checks.push(discord_check(observations.discord_enabled, observations.discord_socket, application_id));
    checks.push(widget_check(observations.widget_enabled));
    checks.push(graphics_check(translator, observations.term.as_str(), observations.protocol_file));
    checks.push(cover_cache_check(observations.cover_cache_bytes, observations.cover_cache_mb, observations.cover_cache_detail));
    let ghost middle = checks@;
    let mut health = health_checks(observations.health, &observations.root_is_dir);
    let ghost third = health@;
    checks.append(&mut health);
    assert(checks@ == middle + third);
    checks.push(instance_check(observations.instance_alive));
    assert(check_views(checks@) =~= report_spec(*translator, o, application_id@));
    checks
}


/// The process id a lock file records: its contents, trimmed, read as a
/// number that fits `u32` (as `str::parse` reads one).
pub fn lock_pid(contents: &str) -> (r: Option<u32>)
    ensures
        match r {
            Some(pid) => parse_bounded(trim(contents@), u32::MAX as nat) == Some(pid as nat),
            None => parse_bounded(trim(contents@), u32::MAX as nat) is None,
        },
{
    let text = trim_chars(&chars_of(contents));
    match parse_u64(&text) {
        Some(v) => if v <= u32::MAX as u64 {
            Some(v as u32)
        } else {
            None
        },
        None => None,
    }
}
} // verus!
