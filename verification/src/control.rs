//! The remote-control protocol: one short text command per connection to
//! the control socket.

use vstd::prelude::*;

use crate::numbers::{decimal, decimal_chars, lemma_parse_decimal, parse_bounded, parse_u64};
use crate::text::{chars_eq, chars_of, slice_of, starts_with, string_of, trim, trim_chars};

verus! {

#[derive(Debug, Clone, Copy, PartialEq, Eq, Structural)]
pub enum RemoteCommand {
    VolumeUp,
    VolumeDown,
    VolumeSet(u8),
    MuteToggle,
    Rescan,
    Prune,
}

/// `volume set `, the prefix of a request for a given volume.
pub open spec fn volume_set_prefix() -> Seq<char> {
    "volume set "@
}

/// The command a request names, if it names one. A volume is a whole
/// number from 0 to 100.
pub open spec fn parse_command(value: Seq<char>) -> Option<RemoteCommand> {
    if value == "volume up"@ {
        Some(RemoteCommand::VolumeUp)
    } else if value == "volume down"@ {
        Some(RemoteCommand::VolumeDown)
    } else if value == "mute toggle"@ {
        Some(RemoteCommand::MuteToggle)
    } else if value == "library rescan"@ {
        Some(RemoteCommand::Rescan)
    } else if value == "library prune"@ {
        Some(RemoteCommand::Prune)
    } else if volume_set_prefix().is_prefix_of(value) {
        match parse_bounded(value.skip(volume_set_prefix().len() as int), u8::MAX as nat) {
            Some(v) => if v <= 100 {
                Some(RemoteCommand::VolumeSet(v as u8))
            } else {
                None
            },
            None => None,
        }
    } else {
        None
    }
}

/// The request that asks for `command`.
pub open spec fn message_of(command: RemoteCommand) -> Seq<char> {
    match command {
        RemoteCommand::VolumeUp => "volume up"@,
        RemoteCommand::VolumeDown => "volume down"@,
        RemoteCommand::VolumeSet(v) => volume_set_prefix() + decimal(v as nat),
        RemoteCommand::MuteToggle => "mute toggle"@,
        RemoteCommand::Rescan => "library rescan"@,
        RemoteCommand::Prune => "library prune"@,
    }
}

/// Whether a command can travel over the socket: a volume asked for is at
/// most 100.
pub open spec fn sendable(command: RemoteCommand) -> bool {
    match command {
        RemoteCommand::VolumeSet(v) => v <= 100,
        _ => true,
    }
}

fn is_text(value: &Vec<char>, literal: &str) -> (b: bool)
    ensures
        b == (value@ == literal@),
{
    chars_eq(value, &chars_of(literal))
}

/// The command a request names.
pub fn parse(value: &str) -> (r: Option<RemoteCommand>)
    ensures
        r == parse_command(value@),
{
    let v = chars_of(value);
    if is_text(&v, "volume up") {
        Some(RemoteCommand::VolumeUp)
    } else if is_text(&v, "volume down") {
        Some(RemoteCommand::VolumeDown)
    } else if is_text(&v, "mute toggle") {
        Some(RemoteCommand::MuteToggle)
    } else if is_text(&v, "library rescan") {
        Some(RemoteCommand::Rescan)
    } else if is_text(&v, "library prune") {
        Some(RemoteCommand::Prune)
    } else {
        let prefix = chars_of("volume set ");
        proof {
            reveal_strlit("volume set ");
        }
        if !starts_with(&v, &prefix) {
            return None;
        }
        let rest = slice_of(&v, prefix.len(), v.len());
        assert(rest@ == value@.skip(volume_set_prefix().len() as int));
        match parse_u64(&rest) {
            Some(n) => if n <= 100 {
                Some(RemoteCommand::VolumeSet(n as u8))
            } else {
                None
            },
            None => None,
        }
    }
}

/// What the control server does with what it read from a connection: the
/// request, less surrounding white space.
pub fn parse_request(raw: &str) -> (r: Option<RemoteCommand>)
    ensures
        r == parse_command(trim(raw@)),
{
    let trimmed = trim_chars(&chars_of(raw));
    parse(string_of(&trimmed).as_str())
}

/// The request that asks for `command`.
pub fn command_message(command: RemoteCommand) -> (m: String)
    ensures
        m@ == message_of(command),
{
    match command {
        RemoteCommand::VolumeUp => "volume up".to_owned(),
        RemoteCommand::VolumeDown => "volume down".to_owned(),
        RemoteCommand::VolumeSet(v) => {
            let mut text = chars_of("volume set ");
            let digits = decimal_chars(v as u64);
            let ghost start = text@;
            let mut i: usize = 0;
            while i < digits.len()
                invariant
                    i <= digits@.len(),
                    text@ == start + digits@.take(i as int),
                decreases digits.len() - i,
            {
                text.push(digits[i]);
                i = i + 1;
                assert(text@ =~= start + digits@.take(i as int));
            }
            assert(digits@.take(digits@.len() as int) =~= digits@);
            string_of(&text)
        },
        RemoteCommand::MuteToggle => "mute toggle".to_owned(),
        RemoteCommand::Rescan => "library rescan".to_owned(),
        RemoteCommand::Prune => "library prune".to_owned(),
    }
}

/// What is sent is what is understood: reading back the request for a
/// command gives that command, for every command that can be sent.
pub proof fn lemma_message_then_parse(command: RemoteCommand)
    requires
        sendable(command),
    ensures
        parse_command(message_of(command)) == Some(command),
{
    reveal_strlit("volume up");
    reveal_strlit("volume down");
    reveal_strlit("mute toggle");
    reveal_strlit("library rescan");
    reveal_strlit("library prune");
    reveal_strlit("volume set ");
    match command {
        RemoteCommand::VolumeSet(v) => {
            let m = message_of(command);
            let p = volume_set_prefix();
            assert(m[4] == 'm');
            assert(m[7] == 's');
            assert(m != "volume up"@) by {
                assert("volume up"@[7] == 'u');
            }
            assert(m != "volume down"@) by {
                assert("volume down"@[7] == 'd');
            }
            assert(m != "mute toggle"@) by {
                assert("mute toggle"@[1] == 'u');
            }
            assert(m != "library rescan"@);
            assert(m != "library prune"@);
            assert(p.is_prefix_of(m)) by {
                assert(m.take(p.len() as int) =~= p);
            }
            assert(m.skip(p.len() as int) =~= decimal(v as nat));
            lemma_parse_decimal(v as nat);
            assert(parse_bounded(m.skip(p.len() as int), u8::MAX as nat) == Some(v as nat));
            assert(parse_command(m) == Some(RemoteCommand::VolumeSet(v)));
        },
        RemoteCommand::VolumeDown => {
            assert("volume down"@ != "volume up"@ ) by {
                assert("volume down"@.len() != "volume up"@.len());
            }
        },
        RemoteCommand::MuteToggle => {
            assert("mute toggle"@ != "volume up"@) by {
                assert("mute toggle"@.len() != "volume up"@.len());
            }
            assert("mute toggle"@ != "volume down"@) by {
                assert("mute toggle"@[0] != "volume down"@[0]);
            }
        },
        RemoteCommand::Rescan => {
            assert("library rescan"@.len() == 14);
        },
        RemoteCommand::Prune => {
            assert("library prune"@.len() == 13);
        },
        _ => {},
    }
}

} // verus!
