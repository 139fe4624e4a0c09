//! The Omarchy desktop integration: a launcher, two Hyprland blocks and the
//! media widget, installed so that they can be taken out again exactly.
//!
//! Reading and writing the files, and running `omarchy` and `hyprctl`, is
//! the program's work; what the files should hold afterwards, and what is
//! reported, is decided here.

use vstd::prelude::*;

use crate::pathname::{join_path, path_join};
use crate::paths::AppPaths;
use crate::text::{
    chars_eq, chars_of, contains_chars, contains_seq, extend_chars, lemma_replaced_none, lemma_replaced_step,
    next_match, occurs_at, replace_chars, replaced, string_of,
};

verus! {

pub const BINDINGS_BLOCK: &'static str = r#"-- >>> muscli managed integration >>>
hl.unbind("SUPER + SHIFT + ALT + M")
o.bind("SUPER + SHIFT + ALT + M", "muscli", "kitty --class muscli-compact --title muscli -e muscli")
hl.unbind("SHIFT + XF86AudioRaiseVolume")
o.bind("SHIFT + XF86AudioRaiseVolume", "muscli volume up", "muscli remote volume up", { locked = true, repeating = true })
hl.unbind("SHIFT + XF86AudioLowerVolume")
o.bind("SHIFT + XF86AudioLowerVolume", "muscli volume down", "muscli remote volume down", { locked = true, repeating = true })
-- <<< muscli managed integration <<<
"#;

pub const LEGACY_BINDINGS_BLOCK: &'static str = r#"-- >>> muscli managed integration >>>
hl.unbind("SUPER + SHIFT + ALT + M")
o.bind("SUPER + SHIFT + ALT + M", "muscli compact", "kitty --class muscli-compact --title muscli-compact -e muscli --compact")
hl.unbind("SHIFT + XF86AudioRaiseVolume")
o.bind("SHIFT + XF86AudioRaiseVolume", "muscli volume up", "muscli remote volume up", { locked = true, repeating = true })
hl.unbind("SHIFT + XF86AudioLowerVolume")
o.bind("SHIFT + XF86AudioLowerVolume", "muscli volume down", "muscli remote volume down", { locked = true, repeating = true })
-- <<< muscli managed integration <<<
"#;

pub const WINDOW_BLOCK: &'static str = r#"-- >>> muscli player window >>>
o.window({ class = "^muscli-compact$" }, {
  float = true,
  center = true,
  size = { 1280, 800 },
})
-- <<< muscli player window <<<
"#;

pub const LEGACY_WINDOW_BLOCK: &'static str = r#"-- >>> muscli compact window >>>
o.window({ class = "^muscli-compact$" }, {
  float = true,
  center = true,
  size = { 760, 520 },
})
-- <<< muscli compact window <<<
"#;

/// The launcher muscli installs.
pub fn desktop_entry() -> (s: &'static str)
    ensures
        s@ == DESKTOP_ENTRY@,
{
    DESKTOP_ENTRY
}

/// The launcher an earlier version installed for the compact player.
pub fn compact_desktop_entry() -> (s: &'static str)
    ensures
        s@ == COMPACT_DESKTOP_ENTRY@,
{
    COMPACT_DESKTOP_ENTRY
}

/// The launcher the first version installed.
pub fn legacy_desktop_entry() -> (s: &'static str)
    ensures
        s@ == LEGACY_DESKTOP_ENTRY@,
{
    LEGACY_DESKTOP_ENTRY
}

/// The launcher muscli installs.
pub const DESKTOP_ENTRY: &'static str = "[Desktop Entry]\nType=Application\nName=muscli\nGenericName=FLAC Music Player\nComment=Browse and play a local FLAC library\nIcon=audio-x-generic\nExec=kitty --class muscli-compact --title muscli -e muscli\nTerminal=false\nCategories=Audio;Music;Player;AudioVideo;\nMimeType=audio/flac;\nKeywords=FLAC;music;terminal;\n";

/// The launcher an earlier version installed for the compact player.
pub const COMPACT_DESKTOP_ENTRY: &'static str = "[Desktop Entry]\nType=Application\nName=muscli\nGenericName=FLAC Music Player\nComment=Browse and play a local FLAC library\nIcon=audio-x-generic\nExec=kitty --class muscli-compact --title muscli-compact -e muscli --compact\nTerminal=false\nCategories=Audio;Music;Player;AudioVideo;\nMimeType=audio/flac;\nKeywords=FLAC;music;terminal;\n";

/// The launcher the first version installed.
pub const LEGACY_DESKTOP_ENTRY: &'static str = "[Desktop Entry]\nType=Application\nName=muscli\nGenericName=FLAC Music Player\nComment=Browse and play a local FLAC library\nIcon=audio-x-generic\nExec=xdg-terminal-exec -- muscli\nTerminal=false\nCategories=Audio;Music;Player;AudioVideo;\nMimeType=audio/flac;\nKeywords=FLAC;music;terminal;\n";

/// Where the record of what setup changed is kept.
pub fn state_file(paths: &AppPaths) -> (p: String)
    ensures
        p@ == path_join(paths.data_dir@, "omarchy-setup.json"@),
{
    join_path(paths.data_dir.as_str(), "omarchy-setup.json")
}

/// Whether a launcher file holds one an earlier version installed, which
/// setup brings up to date.
pub fn desktop_entry_is_outdated(contents: &str) -> (b: bool)
    ensures
        b == (contents@ == LEGACY_DESKTOP_ENTRY@ || contents@ == COMPACT_DESKTOP_ENTRY@),
{
    let c = chars_of(contents);
    chars_eq(&c, &chars_of(LEGACY_DESKTOP_ENTRY)) || chars_eq(&c, &chars_of(COMPACT_DESKTOP_ENTRY))
}

/// Whether a launcher file holds exactly the launcher muscli installs,
/// which is the only one undo removes.
pub fn desktop_entry_is_ours(contents: &str) -> (b: bool)
    ensures
        b == (contents@ == DESKTOP_ENTRY@),
{
    chars_eq(&chars_of(contents), &chars_of(DESKTOP_ENTRY))
}

/// One entry of the centre of Omarchy's bar, as far as it is read: whether
/// it is an object, how many fields it has, and its `id` where that is a
/// string.
#[derive(Debug, Clone)]
pub struct WidgetSlot {
    pub is_object: bool,
    pub field_count: usize,
    pub id: Option<String>,
}

/// Whether a slot holds `id`.
pub open spec fn slot_id_is(slot: WidgetSlot, id: Seq<char>) -> bool {
    match slot.id {
        Some(s) => s@ == id,
        None => false,
    }
}

/// Whether the media widget sits where setup put it: as a bare entry,
/// directly before the clock.
pub open spec fn widget_intact(center: Option<Seq<WidgetSlot>>) -> bool {
    match center {
        Some(c) => exists|i: int|
            0 <= i && i + 1 < c.len() && (#[trigger] c[i]).is_object && c[i].field_count == 1 && slot_id_is(c[i], "omarchy.media"@)
                && slot_id_is(c[i + 1], "omarchy.clock"@),
        None => false,
    }
}

fn slot_has(slot: &WidgetSlot, id: &Vec<char>) -> (b: bool)
    ensures
        b == slot_id_is(*slot, id@),
{
    match &slot.id {
        Some(s) => chars_eq(&chars_of(s.as_str()), id),
        None => false,
    }
}

/// Whether the media widget is still as setup left it, from the centre of
/// the bar's layout (`None` where the settings have no such list). A widget
/// that was moved or customised is left alone by undo.
pub fn media_widget_is_intact(center: Option<&[WidgetSlot]>) -> (b: bool)
    ensures
        b == widget_intact(
            match center {
                Some(c) => Some(c@),
                None => None,
            },
        ),
{
    match center {
        Some(c) => {
            let media = chars_of("omarchy.media");
            let clock = chars_of("omarchy.clock");
            let mut i: usize = 0;
            while i < c.len()
                invariant
                    i <= c@.len(),
                    center == Some(c),
                    media@ == "omarchy.media"@,
                    clock@ == "omarchy.clock"@,
                    forall|j: int|
                        0 <= j < i && j + 1 < c@.len() ==> !((#[trigger] c@[j]).is_object && c@[j].field_count == 1
                            && slot_id_is(c@[j], "omarchy.media"@) && slot_id_is(c@[j + 1], "omarchy.clock"@)),
                decreases c.len() - i,
            {
                if i + 1 < c.len() && c[i].is_object && c[i].field_count == 1 && slot_has(&c[i], &media)
                    && slot_has(&c[i + 1], &clock) {
                    assert((c@[i as int]).is_object && c@[i as int].field_count == 1 && slot_id_is(c@[i as int], "omarchy.media"@)
                        && slot_id_is(c@[i + 1], "omarchy.clock"@));
                    return true;
                }
                i = i + 1;
            }
            false
        },
        None => false,
    }
}

/// What installing a managed block into a configuration file comes to.
#[derive(Debug, Clone)]
pub enum BlockPlan {
    /// The block is there already; nothing changes.
    Present,
    /// A muscli block is there that muscli did not write; it is kept for
    /// the user to review, and nothing changes.
    Modified,
    /// The file is to hold these contents: the block in place of the one
    /// an earlier version wrote, or added at the end.
    Install { contents: String },
}

/// `contents` with `block` added at the end, after a blank line.
pub open spec fn appended(contents: Seq<char>, block: Seq<char>) -> Seq<char> {
    let ended = if contents.len() > 0 && contents.last() == '\n' {
        contents
    } else {
        contents.push('\n')
    };
    ended.push('\n') + block
}

/// The first of the earlier versions of a block that the file holds.
pub open spec fn first_legacy(contents: Seq<char>, legacy: Seq<Seq<char>>) -> Option<int> {
    if exists|k: int| 0 <= k < legacy.len() && contains_seq(contents, #[trigger] legacy[k]) {
        Some(
            choose|k: int|
                0 <= k < legacy.len() && contains_seq(contents, #[trigger] legacy[k]) && forall|j: int|
                    0 <= j < k ==> !contains_seq(contents, #[trigger] legacy[j]),
        )
    } else {
        None
    }
}

/// What installing `block` into a file holding `contents` comes to, where
/// `legacy` are the blocks earlier versions wrote.
pub open spec fn plan_spec(contents: Seq<char>, block: Seq<char>, legacy: Seq<Seq<char>>) -> Option<Option<Seq<char>>> {
    if contains_seq(contents, block) {
        Some(None)
    } else {
        match first_legacy(contents, legacy) {
            Some(k) => Some(Some(replaced(contents, legacy[k], block))),
            None => if contains_seq(contents, ">>> muscli"@) || contains_seq(contents, "<<< muscli"@) {
                None
            } else {
                Some(Some(appended(contents, block)))
            },
        }
    }
}

/// The plan as `plan_spec` states it: `Present` is `Some(None)`, `Modified`
/// is `None`.
pub open spec fn plan_view(plan: BlockPlan) -> Option<Option<Seq<char>>> {
    match plan {
        BlockPlan::Present => Some(None),
        BlockPlan::Modified => None,
        BlockPlan::Install { contents } => Some(Some(contents@)),
    }
}

/// What installing `block` into a file holding `contents` comes to.
pub fn plan_managed_block(contents: &str, block: &str, legacy_blocks: &[&str]) -> (plan: BlockPlan)
    requires
        forall|k: int| 0 <= k < legacy_blocks@.len() ==> (#[trigger] legacy_blocks@[k])@.len() > 0,
    ensures
        plan_view(plan) == plan_spec(contents@, block@, Seq::new(legacy_blocks@.len(), |k: int| legacy_blocks@[k]@)),
{
    let ghost legacy = Seq::new(legacy_blocks@.len(), |k: int| legacy_blocks@[k]@);
    let text = chars_of(contents);
    let b = chars_of(block);
    if contains_chars(&text, &b) {
        return BlockPlan::Present;
    }
    let mut k: usize = 0;
    while k < legacy_blocks.len()
        invariant
            k <= legacy_blocks@.len(),
            text@ == contents@,
            b@ == block@,
            legacy == Seq::new(legacy_blocks@.len(), |i: int| legacy_blocks@[i]@),
            forall|i: int| 0 <= i < legacy_blocks@.len() ==> (#[trigger] legacy_blocks@[i])@.len() > 0,
            !contains_seq(contents@, block@),
            forall|j: int| 0 <= j < k ==> !contains_seq(contents@, #[trigger] legacy[j]),
        decreases legacy_blocks.len() - k,
    {
        let old_block = chars_of(legacy_blocks[k]);
        if contains_chars(&text, &old_block) {
            proof {
                let w = choose|i: int|
                    0 <= i < legacy.len() && contains_seq(contents@, #[trigger] legacy[i]) && forall|j: int|
                        0 <= j < i ==> !contains_seq(contents@, #[trigger] legacy[j]);
                assert(contains_seq(contents@, legacy[k as int]));
                if w < k {
                } else if w > k {
                    assert(!contains_seq(contents@, legacy[k as int]));
                }
                assert(first_legacy(contents@, legacy) == Some(k as int));
            }
            let updated = replace_chars(&text, &old_block, &b);
            return BlockPlan::Install { contents: string_of(&updated) };
        }
        k = k + 1;
    }
    assert(first_legacy(contents@, legacy) is None);
    if contains_chars(&text, &chars_of(">>> muscli")) || contains_chars(&text, &chars_of("<<< muscli")) {
        return BlockPlan::Modified;
    }
    let mut out = text.clone();
    if !(text.len() > 0 && text[text.len() - 1] == '\n') {
        out.push('\n');
    }
    out.push('\n');
    extend_chars(&mut out, &b);
    assert(out@ =~= appended(contents@, block@));
    BlockPlan::Install { contents: string_of(&out) }
}

/// A file with a managed block taken out: every copy of it, together with
/// the line break before it where there is one. `None` where the file does
/// not hold the block, which then is not touched.
pub open spec fn without_block(contents: Seq<char>, block: Seq<char>) -> Option<Seq<char>> {
    if contains_seq(contents, block) {
        Some(replaced(replaced(contents, seq!['\n'] + block, seq![]), block, seq![]))
    } else {
        None
    }
}

/// A file with a managed block taken out, if it holds the block.
pub fn remove_block(contents: &str, block: &str) -> (r: Option<String>)
    requires
        block@.len() > 0,
    ensures
        crate::text::opt_chars(r) == without_block(contents@, block@),
{
    let text = chars_of(contents);
    let b = chars_of(block);
    if !contains_chars(&text, &b) {
        return None;
    }
    let mut with_break: Vec<char> = Vec::new();
    with_break.push('\n');
    extend_chars(&mut with_break, &b);
    let empty: Vec<char> = Vec::new();
    let first = replace_chars(&text, &with_break, &empty);
    assert(with_break@ =~= seq!['\n'] + block@);
    assert(empty@ =~= Seq::<char>::empty());
    let second = replace_chars(&first, &b, &empty);
    Some(string_of(&second))
}

/// How setup ended.
#[derive(Debug, Clone)]
pub enum SetupOutcome {
    /// A record of an earlier setup was found; the launcher and the key
    /// bindings were checked and brought up to date.
    AlreadyConfigured { desktop_file: String },
    /// Setup was done now; `backup` is where the bar settings were copied.
    Enabled { desktop_file: String, backup: Option<String> },
    /// This platform has no Omarchy.
    Unsupported,
}

/// What setup reports.
pub open spec fn setup_message(outcome: SetupOutcome) -> Result<Seq<char>, Seq<char>> {
    match outcome {
        SetupOutcome::AlreadyConfigured { desktop_file } => Ok(
            "Omarchy integration already configured; verified "@ + desktop_file@ + " and compact/global controls"@,
        ),
        SetupOutcome::Enabled { desktop_file, backup } => Ok(
            "Omarchy integration enabled. Desktop entry: "@ + desktop_file@ + match backup {
                Some(b) => "; backup: "@ + b@,
                None => seq![],
            },
        ),
        SetupOutcome::Unsupported => Err("Omarchy integration is only available on Linux"@),
    }
}

fn text_of(parts: &Vec<char>) -> (s: String)
    ensures
        s@ == parts@,
{
    string_of(parts)
}

/// What setup reports.
pub fn setup(outcome: SetupOutcome) -> (r: Result<String, String>)
    ensures
        match r {
            Ok(m) => setup_message(outcome) == Ok::<Seq<char>, Seq<char>>(m@),
            Err(e) => setup_message(outcome) == Err::<Seq<char>, Seq<char>>(e@),
        },
{
    match outcome {
        SetupOutcome::AlreadyConfigured { desktop_file } => {
            let mut m = chars_of("Omarchy integration already configured; verified ");
            extend_chars(&mut m, &chars_of(desktop_file.as_str()));
            extend_chars(&mut m, &chars_of(" and compact/global controls"));
            assert(m@ =~= "Omarchy integration already configured; verified "@ + desktop_file@ + " and compact/global controls"@);
            Ok(text_of(&m))
        },
        SetupOutcome::Enabled { desktop_file, backup } => {
            let mut m = chars_of("Omarchy integration enabled. Desktop entry: ");
            extend_chars(&mut m, &chars_of(desktop_file.as_str()));
            let ghost head = m@;
            match &backup {
                Some(b) => {
                    extend_chars(&mut m, &chars_of("; backup: "));
                    extend_chars(&mut m, &chars_of(b.as_str()));
                    assert(m@ =~= head + ("; backup: "@ + b@));
                },
                None => {
                    assert(m@ =~= head + Seq::<char>::empty());
                },
            }
            Ok(text_of(&m))
        },
        SetupOutcome::Unsupported => Err("Omarchy integration is only available on Linux".to_owned()),
    }
}

/// How undo ended.
#[derive(Debug, Clone)]
pub enum UndoOutcome {
    /// There was no record of a setup, so nothing was changed.
    NoRecord,
    /// The integration was taken out, but for what had changed since setup.
    Undone { preserved: Vec<&'static str> },
    /// This platform has no Omarchy.
    Unsupported,
}

/// The things kept, joined with ` and `.
pub open spec fn joined_and(items: Seq<Seq<char>>) -> Seq<char>
    decreases items.len(),
{
    if items.len() == 0 {
        seq![]
    } else if items.len() == 1 {
        items[0]
    } else {
        joined_and(items.drop_last()) + " and "@ + items.last()
    }
}

/// What undo reports.
pub open spec fn undo_message(outcome: UndoOutcome) -> Result<Seq<char>, Seq<char>> {
    match outcome {
        UndoOutcome::NoRecord => Ok("No muscli Omarchy setup record was found; nothing changed."@),
        UndoOutcome::Undone { preserved } => Ok(
            "Undid the intact muscli Omarchy integration. Backups were preserved."@ + if preserved@.len() == 0 {
                seq![]
            } else {
                " Preserved "@ + joined_and(Seq::new(preserved@.len(), |i: int| preserved@[i]@)) + "."@
            },
        ),
        UndoOutcome::Unsupported => Err("Omarchy integration is only available on Linux"@),
    }
}

/// What undo reports.
pub fn undo(outcome: UndoOutcome) -> (r: Result<String, String>)
    ensures
        match r {
            Ok(m) => undo_message(outcome) == Ok::<Seq<char>, Seq<char>>(m@),
            Err(e) => undo_message(outcome) == Err::<Seq<char>, Seq<char>>(e@),
        },
{
    match outcome {
        UndoOutcome::NoRecord => Ok("No muscli Omarchy setup record was found; nothing changed.".to_owned()),
        UndoOutcome::Undone { preserved } => {
            let mut m = chars_of("Undid the intact muscli Omarchy integration. Backups were preserved.");
            if preserved.len() > 0 {
                let ghost names = Seq::new(preserved@.len(), |i: int| preserved@[i]@);
                let ghost head = m@;
                extend_chars(&mut m, &chars_of(" Preserved "));
                let ghost start = m@;
                let mut i: usize = 0;
                proof {
                    reveal_strlit(" and ");
                }
                while i < preserved.len()
                    invariant
                        i <= preserved@.len(),
                        names == Seq::new(preserved@.len(), |k: int| preserved@[k]@),
                        m@ == start + joined_and(names.take(i as int)),
                    decreases preserved.len() - i,
                {
                    if i > 0 {
                        extend_chars(&mut m, &chars_of(" and "));
                    }
                    extend_chars(&mut m, &chars_of(preserved[i]));
                    assert(names.take(i + 1).drop_last() =~= names.take(i as int));
                    assert(m@ =~= start + joined_and(names.take(i + 1)));
                    i = i + 1;
                }
                assert(names.take(preserved@.len() as int) =~= names);
                extend_chars(&mut m, &chars_of("."));
                assert(m@ =~= head + (" Preserved "@ + joined_and(names) + "."@));
            } else {
                assert(m@ + Seq::<char>::empty() =~= m@);
            }
            Ok(text_of(&m))
        },
        UndoOutcome::Unsupported => Err("Omarchy integration is only available on Linux".to_owned()),
    }
}


/// The bytes `u8::is_ascii_whitespace` accepts: space, tab, line feed, form
/// feed and carriage return.
pub open spec fn ascii_space(b: u8) -> bool {
    b == 0x20 || b == 0x09 || b == 0x0a || b == 0x0c || b == 0x0d
}

/// Whether `hyprctl configerrors` found the configuration clean: it ran,
/// and printed nothing but white space.
pub fn hyprland_reports_no_errors(succeeded: bool, output: &[u8]) -> (b: bool)
    ensures
        b == (succeeded && forall|i: int| 0 <= i < output@.len() ==> ascii_space(#[trigger] output@[i])),
{
    if !succeeded {
        return false;
    }
    let mut i: usize = 0;
    while i < output.len()
        invariant
            i <= output@.len(),
            forall|j: int| 0 <= j < i ==> ascii_space(#[trigger] output@[j]),
        decreases output.len() - i,
    {
        let b = output[i];
        if !(b == 0x20 || b == 0x09 || b == 0x0a || b == 0x0c || b == 0x0d) {
            return false;
        }
        i = i + 1;
    }
    true
}

/// Undo takes out exactly what setup put in: a managed block that setup
/// added at the end of a file (the file ending in a line break, holding no
/// block of any version) is removed by undo, line break and all, and the
/// file is as it was. The block must not turn up in the new file anywhere
/// but where it was added, not even across the old end of the file.
pub proof fn lemma_undo_takes_out_what_setup_put_in(contents: Seq<char>, block: Seq<char>, legacy: Seq<Seq<char>>)
    requires
        block.len() > 0,
        contents.len() > 0,
        contents.last() == '\n',
        first_legacy(contents, legacy) is None,
        !contains_seq(contents, ">>> muscli"@),
        !contains_seq(contents, "<<< muscli"@),
        forall|q: int| 0 <= q <= contents.len() ==> !occurs_at(appended(contents, block), block, q),
    ensures
        plan_spec(contents, block, legacy) == Some(Some(appended(contents, block))),
        without_block(appended(contents, block), block) == Some(contents),
{
    let c = contents;
    let a = appended(c, block);
    let n = c.len() as int;
    let nb = seq!['\n'] + block;
    assert(a =~= c + nb);
    assert(!contains_seq(c, block)) by {
        if contains_seq(c, block) {
            let q = choose|q: int| occurs_at(c, block, q);
            assert(a.subrange(q, q + block.len()) =~= c.subrange(q, q + block.len()));
            assert(occurs_at(a, block, q));
        }
    }
    assert(occurs_at(a, block, n + 1)) by {
        assert(a.subrange(n + 1, n + 1 + block.len()) =~= block);
    }
    assert(contains_seq(a, block));
    assert(occurs_at(a, nb, n)) by {
        assert(a.subrange(n, n + nb.len()) =~= nb);
    }
    assert forall|j: int| 0 <= j < n implies !occurs_at(a, nb, j) by {
        if occurs_at(a, nb, j) {
            assert(a.subrange(j + 1, j + 1 + block.len()) =~= a.subrange(j, j + nb.len()).subrange(1, nb.len() as int));
            assert(nb.subrange(1, nb.len() as int) =~= block);
            assert(occurs_at(a, block, j + 1));
        }
    }
    assert(next_match(a, nb) == Some(n)) by {
        reveal(next_match);
        assert(contains_seq(a, nb));
        let w = choose|w: int| occurs_at(a, nb, w) && forall|j: int| 0 <= j < w ==> !occurs_at(a, nb, j);
        assert(occurs_at(a, nb, w) && forall|j: int| 0 <= j < w ==> !occurs_at(a, nb, j));
        if w < n {
            assert(!occurs_at(a, nb, w));
        } else if w > n {
            assert(!occurs_at(a, nb, n));
        }
    }
    lemma_replaced_step(a, nb, seq![], n);
    let rest = a.skip(n + nb.len());
    assert(rest =~= Seq::<char>::empty());
    assert(next_match(rest, nb) is None) by {
        reveal(next_match);
        if contains_seq(rest, nb) {
            let q = choose|q: int| occurs_at(rest, nb, q);
            assert(occurs_at(rest, nb, q));
        }
    }
    lemma_replaced_none(rest, nb, seq![]);
    assert(a.take(n) =~= c);
    assert(replaced(a, nb, seq![]) =~= c);
    assert(next_match(c, block) is None) by {
        reveal(next_match);
    }
    lemma_replaced_none(c, block, seq![]);
}
} // verus!
