use muscli::cli::{remote_request, RemoteCommand as CliRemote, VolumeCommand};
use muscli::control::{command_message, parse, parse_request, RemoteCommand};

#[test]
fn parses_remote_volume_commands() {
    assert_eq!(parse("volume up"), Some(RemoteCommand::VolumeUp));
    assert_eq!(parse("volume set 55"), Some(RemoteCommand::VolumeSet(55)));
    assert_eq!(parse("volume set 101"), None);
}

#[test]
fn every_command_survives_the_socket() {
    let commands = [
        RemoteCommand::VolumeUp,
        RemoteCommand::VolumeDown,
        RemoteCommand::VolumeSet(0),
        RemoteCommand::VolumeSet(7),
        RemoteCommand::VolumeSet(100),
        RemoteCommand::MuteToggle,
        RemoteCommand::Rescan,
        RemoteCommand::Prune,
    ];
    for command in commands {
        let message = command_message(command);
        assert_eq!(parse(&message), Some(command), "{message}");
    }
    assert_eq!(command_message(RemoteCommand::VolumeSet(42)), "volume set 42");
    assert_eq!(command_message(RemoteCommand::Rescan), "library rescan");
}

#[test]
fn requests_are_read_without_surrounding_space() {
    assert_eq!(parse_request("  mute toggle\n"), Some(RemoteCommand::MuteToggle));
    assert_eq!(parse("volume set +5"), Some(RemoteCommand::VolumeSet(5)));
    assert_eq!(parse("volume set "), None);
    assert_eq!(parse("volume set -1"), None);
    assert_eq!(parse("Volume up"), None);
    assert_eq!(parse_request(""), None);
}

#[test]
fn a_remote_volume_above_full_asks_for_full() {
    let set = |percent| CliRemote::Volume {
        command: VolumeCommand::SetPercent { percent },
    };
    assert_eq!(remote_request(set(150)), RemoteCommand::VolumeSet(100));
    assert_eq!(remote_request(set(30)), RemoteCommand::VolumeSet(30));
    assert_eq!(remote_request(CliRemote::MuteToggle), RemoteCommand::MuteToggle);
    assert_eq!(
        remote_request(CliRemote::Volume {
            command: VolumeCommand::Down
        }),
        RemoteCommand::VolumeDown
    );
}
