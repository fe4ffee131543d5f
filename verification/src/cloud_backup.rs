//! Automatic backups to a chosen folder: the settings, the default folder,
//! when a backup is due, and which old snapshots are pruned.
use vstd::prelude::*;
use crate::recurrence::begins_with;
use crate::text::{chars_of, message, push_str, string_of};
use crate::today::{insert_key, keys_sorted};

verus! {

/// Whether automatic backups run, and where.
pub struct CloudBackupSettings {
    pub enabled: bool,
    /// Absolute path of the folder that receives timestamped snapshots.
    pub folder: Option<String>,
}

/// The folder inside iCloud Drive suggested for backups.
pub open spec fn icloud_suffix() -> Seq<char> {
    "Library/Mobile Documents/com~apple~CloudDocs/TaskTimer Backups"@
}

/// `home` joined with the suffix as `PathBuf::join` does on Unix: a
/// separator goes between them unless `home` is empty or already ends in one.
pub open spec fn joined(home: Seq<char>, rest: Seq<char>) -> Seq<char> {
    if home.len() == 0 || home.last() == '/' {
        home + rest
    } else {
        home + seq!['/'] + rest
    }
}

/// The suggested backup folder inside iCloud Drive's storage under the
/// home directory `home`, offered only when iCloud Drive's container is
/// present there (`container_present`, which the caller reads from disk);
/// none without a home directory or without the container.
pub fn default_icloud_folder(home: Option<&str>, container_present: bool) -> (r: Option<String>)
    ensures
        home is None || !container_present ==> r is None,
        container_present ==> (home matches Some(h) ==> (r matches Some(f) && f@ == joined(h@, icloud_suffix()))),
{
    if !container_present {
        return None;
    }
    match home {
        None => None,
        Some(h) => {
            let hv = chars_of(h);
            let mut v: Vec<char> = Vec::new();
            push_str(&mut v, h);
            if hv.len() > 0 && hv[hv.len() - 1] != '/' {
                v.push('/');
            }
            push_str(&mut v, "Library/Mobile Documents/com~apple~CloudDocs/TaskTimer Backups");
            let r = string_of(v.as_slice());
            assert(r@ =~= joined(h@, icloud_suffix()));
            Some(r)
        },
    }
}

/// The defaults: backups off, with the suggested folder when there is one.
pub fn default_backup_settings(home: Option<&str>, container_present: bool) -> (r: CloudBackupSettings)
    ensures
        !r.enabled,
        home is None || !container_present ==> r.folder is None,
        container_present ==> (home matches Some(h) ==> (r.folder matches Some(f) && f@ == joined(h@, icloud_suffix()))),
{
    CloudBackupSettings { enabled: false, folder: default_icloud_folder(home, container_present) }
}

/// The refusal when no folder is chosen.
pub open spec fn no_folder_message() -> Seq<char> {
    "Choose a backup folder first."@
}

/// Backups can only be enabled with a folder chosen.
pub fn check_backup_settings(s: &CloudBackupSettings) -> (r: Result<(), String>)
    ensures
        r is Ok <==> !s.enabled || (s.folder matches Some(f) && f@.len() > 0),
        r matches Err(m) ==> m@ == no_folder_message(),
{
    if s.enabled {
        let empty = match &s.folder {
            Some(f) => f.as_str().is_empty(),
            None => true,
        };
        if empty {
            return Err(message("Choose a backup folder first."));
        }
    }
    Ok(())
}

/// The folder to back up to on demand.
pub fn backup_folder(s: &CloudBackupSettings) -> (r: Result<String, String>)
    ensures
        s.folder matches Some(f) ==> (r matches Ok(g) && g == f),
        s.folder is None ==> (r matches Err(m) && m@ == no_folder_message()),
{
    match &s.folder {
        Some(f) => Ok(f.clone()),
        None => Err(message("Choose a backup folder first.")),
    }
}

/// The folder of today's automatic backup, when one is due: backups
/// enabled, a folder chosen, and none made today yet.
pub fn backup_due(s: &CloudBackupSettings, already_ran_today: bool) -> (r: Option<String>)
    ensures
        r is Some <==> s.enabled && s.folder is Some && !already_ran_today,
        r matches Some(f) ==> s.folder == Some(f),
{
    if !s.enabled || already_ran_today {
        return None;
    }
    match &s.folder {
        Some(f) => Some(f.clone()),
        None => None,
    }
}

/// The setting that records today's automatic backup.
pub fn backup_run_key(today: &str) -> (r: String)
    ensures
        r@ == "cloud_backup_last_run_"@ + today@,
{
    let mut v: Vec<char> = Vec::new();
    push_str(&mut v, "cloud_backup_last_run_");
    push_str(&mut v, today);
    string_of(v.as_slice())
}

/// A snapshot's file name for a timestamp.
pub fn backup_file_name(stamp: &str) -> (r: String)
    ensures
        r@ == "task-timer-"@ + stamp@ + ".json"@,
{
    let mut v: Vec<char> = Vec::new();
    push_str(&mut v, "task-timer-");
    push_str(&mut v, stamp);
    push_str(&mut v, ".json");
    string_of(v.as_slice())
}

/// How many snapshots are kept.
pub open spec fn keep_count() -> int {
    30
}

/// A snapshot file name (it begins with "task-timer-").
pub open spec fn is_snapshot(name: Seq<char>) -> bool {
    begins_with(name, "task-timer-"@)
}

/// The snapshots in ascending name order, each with its position in the
/// listing: the listing's snapshots, each once, sorted by name (then
/// position).
pub open spec fn sorted_snapshots(names: Seq<String>, keys: Seq<(String, i64)>) -> bool {
    &&& keys_sorted(keys)
    &&& forall|j: int| 0 <= j < keys.len() ==> {
        let k = #[trigger] keys[j];
        0 <= k.1 < names.len() && k.0 == names[k.1 as int] && is_snapshot(k.0@)
    }
    &&& forall|i: int| 0 <= i < names.len() && is_snapshot(names[i]@)
        ==> exists|j: int| 0 <= j < keys.len() && #[trigger] keys[j].1 == i
}

/// The snapshots to delete so that the newest thirty (by name) remain: the
/// oldest ones, beyond thirty, in ascending order.
pub fn backups_to_remove(names: &Vec<String>) -> (r: Vec<String>)
    requires
        names.len() <= i64::MAX,
    ensures
        exists|keys: Seq<(String, i64)>| {
            &&& sorted_snapshots(names@, keys)
            &&& r.len() == (if keys.len() > keep_count() { keys.len() - keep_count() } else { 0 })
            &&& forall|j: int| 0 <= j < r.len() ==> #[trigger] r@[j] == keys[j].0
        },
{
    let mut keys: Vec<(String, i64)> = Vec::new();
    let mut i: usize = 0;
    while i < names.len()
        invariant
            names.len() <= i64::MAX,
            i <= names.len(),
            keys_sorted(keys@),
            forall|j: int| 0 <= j < keys.len() ==> {
                let k = #[trigger] keys@[j];
                0 <= k.1 < i && k.0 == names@[k.1 as int] && is_snapshot(k.0@)
            },
            forall|q: int| 0 <= q < i && is_snapshot(names@[q]@)
                ==> exists|j: int| 0 <= j < keys.len() && #[trigger] keys@[j].1 == q,
        decreases names.len() - i,
    {
        let name = &names[i];
        let snapshot = crate::recurrence::begins_with_text(name.as_str(), "task-timer-");
        if snapshot {
            let ghost before = keys@;
            let ghost entry = (names@[i as int], i as i64);
            insert_key(&mut keys, name.clone(), i as i64);
            proof {
                let p = choose|p: int| 0 <= p <= before.len() && keys@ == before.insert(p, entry);
                assert forall|j: int| 0 <= j < keys.len() implies {
                    let k = #[trigger] keys@[j];
                    0 <= k.1 < i + 1 && k.0 == names@[k.1 as int] && is_snapshot(k.0@)
                } by {
                    if j < p {
                        assert(keys@[j] == before[j]);
                    } else if j > p {
                        assert(keys@[j] == before[j - 1]);
                    }
                }
                assert forall|q: int| 0 <= q < i + 1 && is_snapshot(names@[q]@)
                    implies exists|j: int| 0 <= j < keys.len() && #[trigger] keys@[j].1 == q by {
                    if q == i {
                        assert(keys@[p].1 == q);
                    } else {
                        let j = choose|j: int| 0 <= j < before.len() && before[j].1 == q;
                        if j < p {
                            assert(keys@[j] == before[j]);
                        } else {
                            assert(keys@[j + 1] == before[j]);
                        }
                    }
                }
            }
        }
        i += 1;
    }
    assert(sorted_snapshots(names@, keys@));
    let mut out: Vec<String> = Vec::new();
    if keys.len() > 30 {
        let drop = keys.len() - 30;
        let mut j: usize = 0;
        while j < drop
            invariant
                drop == keys.len() - 30,
                j <= drop,
                out.len() == j,
                forall|q: int| 0 <= q < j ==> #[trigger] out@[q] == keys@[q].0,
            decreases drop - j,
        {
            out.push(keys[j].0.clone());
            j += 1;
        }
    }
    assert(out.len() == (if keys@.len() > keep_count() { keys@.len() - keep_count() } else { 0 }));
    assert(forall|j: int| 0 <= j < out.len() ==> #[trigger] out@[j] == keys@[j].0);
    out
}

} // verus!
