//! Desktop integration settings: close-to-tray, hidden start, and the
//! global shortcuts with their checks and migrations.
use vstd::prelude::*;
use crate::text::{is_blank, message, str_eq, trimmed};

verus! {

/// The desktop settings.
pub struct Settings {
    pub close_to_tray: bool,
    pub start_hidden: bool,
    /// Start/switch task, pause, finish, quick add; a blank entry disables
    /// its action.
    pub shortcuts: Vec<String>,
}

/// What the desktop settings screen shows.
pub struct Status {
    pub settings: Settings,
    pub autostart: bool,
    pub shortcut_warning: Option<String>,
}

/// The default shortcuts, in action order.
pub open spec fn default_shortcuts() -> Seq<Seq<char>> {
    seq![
        "CommandOrControl+Shift+Y"@,
        "CommandOrControl+Shift+Space"@,
        "CommandOrControl+Shift+F"@,
        "CommandOrControl+Shift+A"@,
    ]
}

/// The texts of a list of strings.
pub open spec fn views(v: Seq<String>) -> Seq<Seq<char>> {
    Seq::new(v.len(), |i: int| v[i]@)
}

/// The default settings; `close_to_tray` is on where the platform keeps
/// apps in a tray or menu bar (macOS and Windows).
pub fn default_settings(close_to_tray: bool) -> (r: Settings)
    ensures
        r.close_to_tray == close_to_tray,
        !r.start_hidden,
        views(r.shortcuts@) == default_shortcuts(),
{
    let shortcuts = vec![
        message("CommandOrControl+Shift+Y"),
        message("CommandOrControl+Shift+Space"),
        message("CommandOrControl+Shift+F"),
        message("CommandOrControl+Shift+A"),
    ];
    let r = Settings { close_to_tray, start_hidden: false, shortcuts };
    assert(views(r.shortcuts@) =~= default_shortcuts());
    r
}

/// Whether closing the window leaves the app running: only when the
/// settings say to close to the tray and hiding the window (`hidden`, which
/// the caller reports after trying) worked; otherwise the app quits.
pub fn keeps_running(close_to_tray: bool, hidden: bool) -> (r: bool)
    ensures
        r == (close_to_tray && hidden),
{
    close_to_tray && hidden
}

/// The shortcut list after migration: the old default first shortcut
/// (Cmd/Ctrl+Shift+T, which browsers use) becomes Cmd/Ctrl+Shift+Y, and a
/// list saved before the quick-add slot existed gains its default.
pub open spec fn migrated(s: Seq<Seq<char>>) -> Seq<Seq<char>> {
    let first = if s.len() > 0 && s[0] == "CommandOrControl+Shift+T"@ {
        s.update(0, "CommandOrControl+Shift+Y"@)
    } else {
        s
    };
    if first.len() < 4 {
        first.push("CommandOrControl+Shift+A"@)
    } else {
        first
    }
}

/// Whether migration changes the list.
pub open spec fn needs_migration(s: Seq<Seq<char>>) -> bool {
    (s.len() > 0 && s[0] == "CommandOrControl+Shift+T"@) || s.len() < 4
}

/// Migrates stored shortcuts in place; answers whether they changed (and
/// so must be stored again).
pub fn migrate_shortcuts(shortcuts: &mut Vec<String>) -> (dirty: bool)
    ensures
        views(final(shortcuts)@) == migrated(views(old(shortcuts)@)),
        dirty == needs_migration(views(old(shortcuts)@)),
{
    let ghost before = views(shortcuts@);
    let mut dirty = false;
    if shortcuts.len() > 0 && str_eq(shortcuts[0].as_str(), "CommandOrControl+Shift+T") {
        shortcuts.set(0, message("CommandOrControl+Shift+Y"));
        dirty = true;
        assert(views(shortcuts@) =~= before.update(0, "CommandOrControl+Shift+Y"@));
    }
    let ghost mid = views(shortcuts@);
    if shortcuts.len() < 4 {
        shortcuts.push(message("CommandOrControl+Shift+A"));
        dirty = true;
        assert(views(shortcuts@) =~= mid.push("CommandOrControl+Shift+A"@));
    }
    dirty
}

/// A shortcut as the shortcut parser reads it: its modifier bits and key.
#[derive(PartialEq, Eq, Structural, Clone, Copy)]
pub struct ShortcutKey {
    pub mods: u32,
    pub key: u32,
}

/// The refusal of a shortcut the parser cannot read.
pub open spec fn invalid_shortcut_message() -> Seq<char> {
    "Invalid shortcut. Use CommandOrControl+Shift+Y, for example."@
}

/// The outcome of checking the first `n` shortcuts: the shortcuts to
/// register with their action indexes, or the first problem.
pub open spec fn shortcuts_checked(texts: Seq<Seq<char>>, parsed: Seq<Option<ShortcutKey>>, n: int) -> Result<Seq<(ShortcutKey, int)>, Seq<char>>
    decreases n,
{
    if n <= 0 {
        Ok(Seq::empty())
    } else {
        match shortcuts_checked(texts, parsed, n - 1) {
            Err(m) => Err(m),
            Ok(done) => {
                let i = n - 1;
                if trimmed(texts[i]).len() == 0 {
                    Ok(done)
                } else {
                    match parsed[i] {
                        None => Err(invalid_shortcut_message()),
                        Some(k) => if k.mods == 0 {
                            Err("Global shortcuts must include a modifier key."@)
                        } else if exists|j: int| 0 <= j < done.len() && (#[trigger] done[j]).0 == k {
                            Err("Choose a different shortcut for each action."@)
                        } else {
                            Ok(done.push((k, i)))
                        },
                    }
                }
            },
        }
    }
}

/// Checks the shortcuts, given what the shortcut parser made of each
/// (`None` where it could not read one): blank ones are skipped, each other
/// must read, include a modifier, and differ from the ones before it.
pub fn check_shortcuts(texts: &Vec<String>, parsed: &Vec<Option<ShortcutKey>>) -> (r: Result<Vec<(ShortcutKey, usize)>, String>)
    requires
        parsed.len() == texts.len(),
    ensures
        match shortcuts_checked(views(texts@), parsed@, texts.len() as int) {
            Err(m) => r matches Err(e) && e@ == m,
            Ok(ks) => r matches Ok(v) && v.len() == ks.len()
                && forall|j: int| 0 <= j < v.len() ==> (#[trigger] v@[j]).0 == ks[j].0 && v@[j].1 as int == ks[j].1,
        },
{
    let mut done: Vec<(ShortcutKey, usize)> = Vec::new();
    let mut i: usize = 0;
    while i < texts.len()
        invariant
            parsed.len() == texts.len(),
            i <= texts.len(),
            shortcuts_checked(views(texts@), parsed@, i as int) matches Ok(ks) && done.len() == ks.len()
                && forall|j: int| 0 <= j < done.len() ==> (#[trigger] done@[j]).0 == ks[j].0 && done@[j].1 as int == ks[j].1,
        decreases texts.len() - i,
    {
        let ghost ks = shortcuts_checked(views(texts@), parsed@, i as int)->Ok_0;
        assert(views(texts@)[i as int] == texts@[i as int]@);
        if !is_blank(texts[i].as_str()) {
            match parsed[i] {
                None => {
                    proof { lemma_check_stays(views(texts@), parsed@, i + 1, texts.len() as int); }
                    return Err(message("Invalid shortcut. Use CommandOrControl+Shift+Y, for example."));
                },
                Some(k) => {
                    if k.mods == 0 {
                        proof { lemma_check_stays(views(texts@), parsed@, i + 1, texts.len() as int); }
                        return Err(message("Global shortcuts must include a modifier key."));
                    }
                    let mut j: usize = 0;
                    let mut seen = false;
                    while j < done.len() && !seen
                        invariant
                            j <= done.len(),
                            seen ==> j < done.len() && done@[j as int].0 == k,
                            !seen ==> forall|q: int| 0 <= q < j ==> (#[trigger] done@[q]).0 != k,
                        decreases done.len() - j + if seen { 0int } else { 1int },
                    {
                        if done[j].0 == k {
                            seen = true;
                        } else {
                            j += 1;
                        }
                    }
                    if seen {
                        proof {
                            assert(ks[j as int].0 == k);
                            lemma_check_stays(views(texts@), parsed@, i + 1, texts.len() as int);
                        }
                        return Err(message("Choose a different shortcut for each action."));
                    }
                    proof {
                        assert(!exists|q: int| 0 <= q < ks.len() && (#[trigger] ks[q]).0 == k) by {
                            if exists|q: int| 0 <= q < ks.len() && (#[trigger] ks[q]).0 == k {
                                let q = choose|q: int| 0 <= q < ks.len() && (#[trigger] ks[q]).0 == k;
                                assert(done@[q].0 == k);
                            }
                        }
                    }
                    done.push((k, i));
                },
            }
        }
        i += 1;
    }
    Ok(done)
}

proof fn lemma_check_stays(texts: Seq<Seq<char>>, parsed: Seq<Option<ShortcutKey>>, k: int, n: int)
    requires
        0 <= k <= n,
        shortcuts_checked(texts, parsed, k) is Err,
    ensures
        shortcuts_checked(texts, parsed, n) == shortcuts_checked(texts, parsed, k),
    decreases n - k,
{
    if n > k {
        lemma_check_stays(texts, parsed, k, n - 1);
    }
}

/// Law: the accepted shortcuts are registered in slot order, each for a
/// slot whose text is not blank and reads as that shortcut, each with a
/// modifier, and no two alike; a blank slot registers nothing.
pub proof fn accepted_shortcuts_are_distinct(texts: Seq<Seq<char>>, parsed: Seq<Option<ShortcutKey>>, n: int)
    requires
        0 <= n <= texts.len(),
        parsed.len() == texts.len(),
    ensures
        shortcuts_checked(texts, parsed, n) matches Ok(ks) ==> {
            &&& forall|i: int, j: int| 0 <= i < j < ks.len() ==> (#[trigger] ks[i]).0 != (#[trigger] ks[j]).0 && ks[i].1 < ks[j].1
            &&& forall|i: int| 0 <= i < ks.len() ==> {
                let (k, slot) = #[trigger] ks[i];
                &&& 0 <= slot < n
                &&& trimmed(texts[slot]).len() > 0
                &&& parsed[slot] == Some(k)
                &&& k.mods != 0
            }
        },
    decreases n,
{
    if n > 0 {
        accepted_shortcuts_are_distinct(texts, parsed, n - 1);
        if let Ok(ks) = shortcuts_checked(texts, parsed, n) {
            let done = shortcuts_checked(texts, parsed, n - 1)->Ok_0;
            if ks.len() > done.len() {
                let k = parsed[n - 1]->Some_0;
                assert(ks == done.push((k, n - 1)));
                assert forall|i: int, j: int| 0 <= i < j < ks.len() implies (#[trigger] ks[i]).0 != (#[trigger] ks[j]).0 && ks[i].1 < ks[j].1 by {
                    if j == ks.len() - 1 {
                        assert(ks[i] == done[i]);
                        if ks[i].0 == k {
                            assert(exists|q: int| 0 <= q < done.len() && (#[trigger] done[q]).0 == k);
                        }
                    } else {
                        assert(ks[i] == done[i] && ks[j] == done[j]);
                    }
                }
                assert forall|i: int| 0 <= i < ks.len() implies {
                    let (k, slot) = #[trigger] ks[i];
                    &&& 0 <= slot < n
                    &&& trimmed(texts[slot]).len() > 0
                    &&& parsed[slot] == Some(k)
                    &&& k.mods != 0
                } by {
                    if i < done.len() {
                        assert(ks[i] == done[i]);
                    }
                }
            } else {
                assert(ks == done);
            }
        }
    }
}

/// What a shortcut does.
pub enum ShortcutAction {
    StartTask,
    Pause,
    Finish,
    QuickCapture,
}

/// The action of the shortcut in slot `index`.
pub fn shortcut_action(index: usize) -> (r: ShortcutAction)
    ensures
        index == 0 ==> r is StartTask,
        index == 1 ==> r is Pause,
        index == 2 ==> r is Finish,
        index > 2 ==> r is QuickCapture,
{
    if index == 0 {
        ShortcutAction::StartTask
    } else if index == 1 {
        ShortcutAction::Pause
    } else if index == 2 {
        ShortcutAction::Finish
    } else {
        ShortcutAction::QuickCapture
    }
}

/// The window starts hidden only when asked to and launched at login.
pub fn starts_hidden(s: &Settings, launched_at_login: bool) -> (r: bool)
    ensures
        r == (s.start_hidden && launched_at_login),
{
    s.start_hidden && launched_at_login
}

} // verus!
