//! Configuration file management: paths, backups and tuner block updates.
//!
//! Paths are strings joined with `/` the way `PathBuf::push` joins a
//! relative component. Reading and writing files is left to the caller;
//! the decisions around those operations are made here.

use vstd::prelude::*;
use crate::error::{WezzteError, ErrorView};
use crate::markers::{TUNER_START, TUNER_END};
use crate::parser::tuner_block;
use crate::text::{
    chars_of, push_str, push_char, push_range, push_decimal, decimal, to_owned_string, trim,
    trim_bounds, vec_find, find, starts_with, ends_with, vec_starts_with, vec_ends_with,
    lemma_find, occurs_at,
};

verus! {

/// `base` joined with the relative path component `comp`.
pub open spec fn path_join(base: Seq<char>, comp: Seq<char>) -> Seq<char> {
    if base.len() == 0 {
        comp
    } else if base.last() == '/' {
        base + comp
    } else {
        base + "/"@ + comp
    }
}

/// Joins a relative path component to a path.
pub fn join_path(base: &str, comp: &str) -> (r: String)
    ensures
        r@ == path_join(base@, comp@),
{
    let b = chars_of(base);
    let mut out = String::new();
    push_range(&mut out, &b, 0, b.len());
    assert(b@.subrange(0, b@.len() as int) =~= base@);
    if b.len() > 0 && b[b.len() - 1] != '/' {
        push_char(&mut out, '/');
        proof { reveal_strlit("/"); }
    }
    push_str(&mut out, comp);
    assert(out@ =~= path_join(base@, comp@));
    out
}

/// The default WezTerm configuration path: `$XDG_CONFIG_HOME/wezterm/wezterm.lua`,
/// or `~/.config/wezterm/wezterm.lua`; an error when there is no home directory.
pub open spec fn default_config_path(
    home: Option<Seq<char>>,
    xdg_config_home: Option<Seq<char>>,
) -> Result<Seq<char>, ErrorView> {
    match home {
        None => Err(ErrorView::Config { message: "Could not determine home directory"@ }),
        Some(h) => {
            let dir = match xdg_config_home {
                Some(x) => x,
                None => path_join(h, ".config"@),
            };
            Ok(path_join(path_join(dir, "wezterm"@), "wezterm.lua"@))
        },
    }
}

/// Configuration file manager.
pub struct ConfigManager {
    config_path: String,
}

impl ConfigManager {
    /// The path of the managed file.
    pub closed spec fn path_spec(&self) -> Seq<char> {
        self.config_path@
    }

    /// Create a new config manager with the given path.
    pub fn new(config_path: String) -> (m: ConfigManager)
        ensures
            m.path_spec() == config_path@,
    {
        ConfigManager { config_path }
    }

    /// Create a config manager with the default WezTerm config path, given
    /// the home directory and the value of `XDG_CONFIG_HOME`, if set.
    pub fn with_default_path(home: Option<&str>, xdg_config_home: Option<&str>) -> (r: Result<
        ConfigManager,
        WezzteError,
    >)
        ensures
            match default_config_path(opt_view(home), opt_view(xdg_config_home)) {
                Ok(p) => r matches Ok(m) && m.path_spec() == p,
                Err(e) => r matches Err(x) && x@ == e,
            },
    {
        match Self::get_default_config_path(home, xdg_config_home) {
            Ok(p) => Ok(Self::new(p)),
            Err(e) => Err(e),
        }
    }

    /// Get the default WezTerm configuration path.
    pub fn get_default_config_path(home: Option<&str>, xdg_config_home: Option<&str>) -> (r: Result<
        String,
        WezzteError,
    >)
        ensures
            match default_config_path(opt_view(home), opt_view(xdg_config_home)) {
                Ok(p) => r matches Ok(s) && s@ == p,
                Err(e) => r matches Err(x) && x@ == e,
            },
    {
        let h = match home {
            Some(h) => h,
            None => {
                return Err(WezzteError::config(to_owned_string("Could not determine home directory")));
            },
        };
        let dir = match xdg_config_home {
            Some(x) => to_owned_string(x),
            None => join_path(h, ".config"),
        };
        let d = join_path(dir.as_str(), "wezterm");
        Ok(join_path(d.as_str(), "wezterm.lua"))
    }

    /// Get the path to the config file.
    pub fn config_path(&self) -> (r: &str)
        ensures
            r@ == self.path_spec(),
    {
        self.config_path.as_str()
    }
}

/// The view of an optional string.
pub open spec fn opt_view(o: Option<&str>) -> Option<Seq<char>> {
    match o {
        Some(s) => Some(s@),
        None => None,
    }
}

/// The default backup directory: `~/.local/share/wezzte/backups`, relative
/// to `.` when there is no home directory.
pub open spec fn default_backup_dir(home: Option<Seq<char>>) -> Seq<char> {
    let h = match home {
        Some(h) => h,
        None => "."@,
    };
    path_join(path_join(path_join(path_join(h, ".local"@), "share"@), "wezzte"@), "backups"@)
}

/// The file name of a backup made at `timestamp` (seconds) with `suffix`.
pub open spec fn backup_name(timestamp: nat, suffix: Seq<char>) -> Seq<char> {
    "wezterm-"@ + decimal(timestamp) + "-"@ + suffix + ".lua"@
}

/// A file name that the backup listing counts: `wezterm-*.lua`.
pub open spec fn is_backup_name(name: Seq<char>) -> bool {
    starts_with(name, "wezterm-"@) && ends_with(name, ".lua"@)
}

/// Backup manager for configuration files.
pub struct BackupManager {
    backup_dir: String,
    config_path: String,
    max_backups: usize,
}

impl BackupManager {
    pub closed spec fn dir_spec(&self) -> Seq<char> {
        self.backup_dir@
    }

    pub closed spec fn config_path_spec(&self) -> Seq<char> {
        self.config_path@
    }

    pub closed spec fn max_spec(&self) -> usize {
        self.max_backups
    }

    /// Create a new backup manager; without a backup directory the default
    /// one under `home_dir` is used.
    pub fn new(
        config_path: String,
        backup_dir: Option<String>,
        max_backups: usize,
        home_dir: Option<&str>,
    ) -> (r: Result<BackupManager, WezzteError>)
        ensures
            r matches Ok(m) && m.config_path_spec() == config_path@ && m.max_spec() == max_backups
                && m.dir_spec() == match backup_dir {
                Some(d) => d@,
                None => default_backup_dir(opt_view(home_dir)),
            },
    {
        let backup_dir = match backup_dir {
            Some(d) => d,
            None => Self::get_default_backup_dir(home_dir),
        };
        Ok(BackupManager { config_path, backup_dir, max_backups })
    }

    /// Get the default backup directory.
    pub fn get_default_backup_dir(home_dir: Option<&str>) -> (r: String)
        ensures
            r@ == default_backup_dir(opt_view(home_dir)),
    {
        let h = match home_dir {
            Some(h) => to_owned_string(h),
            None => to_owned_string("."),
        };
        let a = join_path(h.as_str(), ".local");
        let b = join_path(a.as_str(), "share");
        let c = join_path(b.as_str(), "wezzte");
        join_path(c.as_str(), "backups")
    }

    /// Get backup directory path.
    pub fn backup_dir(&self) -> (r: &str)
        ensures
            r@ == self.dir_spec(),
    {
        self.backup_dir.as_str()
    }

    /// The path of the managed configuration file.
    pub fn config_path(&self) -> (r: &str)
        ensures
            r@ == self.config_path_spec(),
    {
        self.config_path.as_str()
    }

    /// How many backups are kept.
    pub fn max_backups(&self) -> (r: usize)
        ensures
            r == self.max_spec(),
    {
        self.max_backups
    }

    /// The file name of a backup made at `timestamp` with `suffix`.
    pub fn backup_file_name(timestamp: u64, suffix: &str) -> (r: String)
        ensures
            r@ == backup_name(timestamp as nat, suffix@),
    {
        let mut out = String::new();
        push_str(&mut out, "wezterm-");
        push_decimal(&mut out, timestamp);
        push_str(&mut out, "-");
        push_str(&mut out, suffix);
        push_str(&mut out, ".lua");
        assert(out@ =~= backup_name(timestamp as nat, suffix@));
        out
    }

    /// Where a backup made at `timestamp` with `suffix` goes.
    pub fn backup_path(&self, timestamp: u64, suffix: &str) -> (r: String)
        ensures
            r@ == path_join(self.dir_spec(), backup_name(timestamp as nat, suffix@)),
    {
        let name = Self::backup_file_name(timestamp, suffix);
        join_path(self.backup_dir.as_str(), name.as_str())
    }

    /// Whether a file with this name is one of the backups.
    pub fn is_backup_file_name(name: &str) -> (r: bool)
        ensures
            r == is_backup_name(name@),
    {
        let v = chars_of(name);
        let p = chars_of("wezterm-");
        let s = chars_of(".lua");
        vec_starts_with(&v, &p) && vec_ends_with(&v, &s)
    }

    /// The backups that cleanup removes from a list ordered newest first:
    /// all but the first `max_backups`.
    pub fn excess_backups(&self, ordered: &Vec<String>) -> (r: Vec<String>)
        ensures
            ordered@.len() <= self.max_spec() ==> r@.len() == 0,
            ordered@.len() > self.max_spec() ==> r@.len() == ordered@.len() - self.max_spec() && forall|
                i: int,
            |
                0 <= i < r@.len() ==> #[trigger] r@[i]@ == ordered@[i + self.max_spec()]@,
    {
        let mut r: Vec<String> = Vec::new();
        if ordered.len() <= self.max_backups {
            return r;
        }
        let mut i = self.max_backups;
        while i < ordered.len()
            invariant
                self.max_spec() <= i <= ordered@.len(),
                r@.len() == i - self.max_spec(),
                forall|k: int| 0 <= k < r@.len() ==> #[trigger] r@[k]@ == ordered@[k + self.max_spec()]@,
            decreases ordered.len() - i,
        {
            r.push(ordered[i].clone());
            i = i + 1;
        }
        r
    }

    /// The backup to restore from: the first of a list ordered newest first.
    pub fn latest_backup<'a>(ordered: &'a Vec<String>) -> (r: Result<&'a String, WezzteError>)
        ensures
            ordered@.len() > 0 ==> (r matches Ok(s) && s == ordered@[0]),
            ordered@.len() == 0 ==> (r matches Err(e) && e@ == (ErrorView::Config {
                message: "No backups found to restore from"@,
            })),
    {
        if ordered.len() == 0 {
            return Err(WezzteError::config(to_owned_string("No backups found to restore from")));
        }
        Ok(&ordered[0])
    }

    /// The error for a missing configuration file.
    pub fn missing_config_error(&self) -> (r: WezzteError)
        ensures
            r@ == (ErrorView::FileNotFound { path: self.config_path_spec() }),
    {
        WezzteError::FileNotFound { path: self.config_path.clone() }
    }
}

/// Backups ordered newest first: a stable sort by modification time,
/// descending (equal times keep their listing order).
pub open spec fn insert_by_time_desc(sorted: Seq<(Seq<char>, i128)>, x: (Seq<char>, i128)) -> Seq<
    (Seq<char>, i128),
>
    decreases sorted.len(),
{
    if sorted.len() == 0 {
        seq![x]
    } else if sorted.last().1 >= x.1 {
        sorted.push(x)
    } else {
        insert_by_time_desc(sorted.drop_last(), x).push(sorted.last())
    }
}

pub open spec fn sort_by_time_desc(s: Seq<(Seq<char>, i128)>) -> Seq<(Seq<char>, i128)>
    decreases s.len(),
{
    if s.len() == 0 {
        Seq::empty()
    } else {
        insert_by_time_desc(sort_by_time_desc(s.drop_last()), s.last())
    }
}

/// The views of backup entries.
pub open spec fn entry_views(es: Seq<(String, i128)>) -> Seq<(Seq<char>, i128)> {
    es.map_values(|e: (String, i128)| (e.0@, e.1))
}

/// Inserts `x` into a list sorted newest first, after every entry at least as new.
fn insert_newest_first(sorted: &mut Vec<(String, i128)>, x: (String, i128))
    ensures
        entry_views(final(sorted)@) == insert_by_time_desc(entry_views(old(sorted)@), (x.0@, x.1)),
{
    let ghost s = entry_views(sorted@);
    let ghost xv = (x.0@, x.1);
    let mut j: usize = sorted.len();
    assert(s.take(j as int) =~= s);
    assert(s.skip(j as int) =~= Seq::<(Seq<char>, i128)>::empty());
    while j > 0 && sorted[j - 1].1 < x.1
        invariant
            j <= sorted@.len(),
            s == entry_views(sorted@),
            xv == (x.0@, x.1),
            insert_by_time_desc(s, xv) == insert_by_time_desc(s.take(j as int), xv) + s.skip(j as int),
        decreases j,
    {
        let ghost t = s.take(j as int);
        assert(s[j - 1].1 == sorted@[j - 1].1);
        assert(t.drop_last() =~= s.take(j - 1));
        assert(t.last() == s[j - 1]);
        assert(s.skip(j - 1) =~= seq![s[j - 1]] + s.skip(j as int));
        assert(insert_by_time_desc(t, xv) == insert_by_time_desc(s.take(j - 1), xv).push(s[j - 1]));
        assert(insert_by_time_desc(s.take(j - 1), xv).push(s[j - 1]) + s.skip(j as int)
            =~= insert_by_time_desc(s.take(j - 1), xv) + s.skip(j - 1));
        j = j - 1;
    }
    proof {
        if j == 0 {
            assert(s.take(0) =~= Seq::<(Seq<char>, i128)>::empty());
        } else {
            assert(s.take(j as int).last() == s[j - 1]);
        }
    }
    let ghost before = sorted@;
    sorted.insert(j, x);
    assert(entry_views(sorted@) =~= s.take(j as int).push(xv) + s.skip(j as int));
    assert(insert_by_time_desc(s.take(j as int), xv) =~= s.take(j as int).push(xv));
}

impl BackupManager {
    /// Backups `(name, modification time)` ordered newest first; entries
    /// with equal times keep their order.
    pub fn sort_newest_first(entries: &Vec<(String, i128)>) -> (r: Vec<(String, i128)>)
        ensures
            entry_views(r@) == sort_by_time_desc(entry_views(entries@)),
    {
        let ghost es = entry_views(entries@);
        let mut sorted: Vec<(String, i128)> = Vec::new();
        assert(es.take(0) =~= Seq::<(Seq<char>, i128)>::empty());
        assert(entry_views(sorted@) =~= Seq::<(Seq<char>, i128)>::empty());
        let mut k: usize = 0;
        while k < entries.len()
            invariant
                k <= entries@.len(),
                es == entry_views(entries@),
                entry_views(sorted@) == sort_by_time_desc(es.take(k as int)),
            decreases entries.len() - k,
        {
            assert(es.take(k + 1).drop_last() =~= es.take(k as int));
            assert(es.take(k + 1).last() == es[k as int]);
            let x = (entries[k].0.clone(), entries[k].1);
            insert_newest_first(&mut sorted, x);
            k = k + 1;
        }
        assert(es.take(k as int) =~= es);
        sorted
    }
}


/// The first occurrence is the one with no occurrence before it.
proof fn lemma_find_is(s: Seq<char>, p: Seq<char>, k: int)
    requires
        occurs_at(s, p, k),
        forall|j: int| 0 <= j < k ==> !occurs_at(s, p, j),
    ensures
        find(s, p) == Some(k),
{
    lemma_find(s, p);
    match find(s, p) {
        Some(i) => {
            if i < k {
                assert(!occurs_at(s, p, i));
            } else if i > k {
                assert(occurs_at(s, p, k));
            }
        },
        None => {
            assert(!occurs_at(s, p, k));
        },
    }
}

/// Writing a tuner block and reading it back gives the written block (on
/// lines of its own), writing the same block again changes nothing, and a
/// later write replaces it entirely: it gives what writing the later block
/// into the first content gives, so the text outside the markers is kept —
/// provided the written block does not itself hold the end marker.
pub proof fn law_tuner_block_read_back(c: Seq<char>, block: Seq<char>)
    requires
        tuner_block(c) is Ok,
        find(trim(block), TUNER_END@) is None,
    ensures
        updated_content(c, block) matches Ok(u) && tuner_block(u) == Ok::<Seq<char>, ErrorView>(
            "\n"@ + trim(block) + "\n"@,
        ) && updated_content(u, block) == Ok::<Seq<char>, ErrorView>(u) && forall|later: Seq<char>|
            #[trigger] updated_content(u, later) == updated_content(c, later),
{
    reveal_strlit("-- <<TUNER-START>>");
    reveal_strlit("-- <<TUNER-END>>");
    reveal_strlit("\n");
    let sm = TUNER_START@;
    let em = TUNER_END@;
    assert(sm.len() == 18 && em.len() == 16);
    let tb = trim(block);
    lemma_find(c, sm);
    lemma_find(c, em);
    lemma_find(tb, em);
    let s = find(c, sm)->0;
    let e = find(c, em)->0;
    let pre = c.take(s + 18);
    let mid = "\n"@ + tb + "\n"@;
    let post = c.skip(e);
    let u = pre + mid + post;
    let q = s + 18 + mid.len();
    assert(u =~= c.take(s + 18) + "\n"@ + tb + "\n"@ + c.skip(e));
    assert(updated_content(c, block) == Ok::<Seq<char>, ErrorView>(u));
    assert(u.len() == q + post.len());
    assert forall|k: int| 0 <= k < pre.len() implies u[k] == c[k] by {}
    assert forall|k: int| 0 <= k < post.len() implies #[trigger] post[k] == u[q + k] && post[k] == c[e + k] by {}
    assert(u[s + 18] == '\n');
    assert(u[q - 1] == '\n');
    assert forall|k: int| 0 <= k < tb.len() implies #[trigger] tb[k] == u[s + 19 + k] by {}
    // The start marker is still first found where it was.
    assert(u.subrange(s, s + 18) =~= c.subrange(s, s + 18));
    assert forall|j: int| 0 <= j < s implies !occurs_at(u, sm, j) by {
        assert(!occurs_at(c, sm, j));
        assert(u.subrange(j, j + 18) =~= c.subrange(j, j + 18));
    }
    lemma_find_is(u, sm, s);
    // The end marker is first found right after the written block.
    assert(u.subrange(q, q + 16) =~= c.subrange(e, e + 16));
    assert forall|j: int| 0 <= j < q implies !occurs_at(u, em, j) by {
        if occurs_at(u, em, j) {
            let w = u.subrange(j, j + 16);
            if j + 16 <= s + 18 {
                assert(w =~= c.subrange(j, j + 16));
                assert(occurs_at(c, em, j));
                assert(j >= e);
                if j == s + 1 {
                    assert(c[s + 2] == sm[2]);
                    assert(w[1] == c[s + 2]);
                } else {
                    assert(c[j] == sm[j - s]);
                    assert(w[0] == c[j]);
                }
            } else if j <= s + 18 {
                assert(w[s + 18 - j] == u[s + 18]);
            } else if j + 16 > q - 1 {
                assert(w[q - 1 - j] == u[q - 1]);
            } else {
                assert(w =~= tb.subrange(j - s - 19, j - s - 19 + 16));
                assert(occurs_at(tb, em, j - s - 19));
            }
        }
    }
    lemma_find_is(u, em, q);
    assert(u.subrange(s + 18, q) =~= mid);
    assert(u.take(s + 18) =~= pre);
    assert(u.skip(q) =~= post);
    assert(pre + mid + post =~= u);
    assert forall|later: Seq<char>| #[trigger] updated_content(u, later) == updated_content(c, later) by {
        assert(u.take(s + 18) =~= c.take(s + 18));
        assert(u.skip(q) =~= c.skip(e));
    }
}


/// Entries ordered newest first.
pub open spec fn newest_first(s: Seq<(Seq<char>, i128)>) -> bool {
    forall|i: int, j: int| 0 <= i < j < s.len() ==> (#[trigger] s[i]).1 >= (#[trigger] s[j]).1
}

proof fn lemma_insert_by_time(t: Seq<(Seq<char>, i128)>, x: (Seq<char>, i128))
    requires
        newest_first(t),
    ensures
        newest_first(insert_by_time_desc(t, x)),
        insert_by_time_desc(t, x).to_multiset() =~= t.to_multiset().insert(x),
        forall|i: int|
            0 <= i < insert_by_time_desc(t, x).len() ==> #[trigger] insert_by_time_desc(t, x)[i] == x
                || t.contains(insert_by_time_desc(t, x)[i]),
    decreases t.len(),
{
    broadcast use vstd::seq_lib::to_multiset_build;
    let r = insert_by_time_desc(t, x);
    if t.len() == 0 {
        assert(r =~= Seq::<(Seq<char>, i128)>::empty().push(x));
        assert(t =~= Seq::<(Seq<char>, i128)>::empty());
    } else if t.last().1 >= x.1 {
        assert forall|i: int| 0 <= i < r.len() implies #[trigger] r[i] == x || t.contains(r[i]) by {
            if i < t.len() {
                assert(r[i] == t[i]);
            }
        }
    } else {
        let d = t.drop_last();
        assert(newest_first(d)) by {
            assert forall|i: int, j: int| 0 <= i < j < d.len() implies (#[trigger] d[i]).1 >= (
            #[trigger] d[j]).1 by {
                assert(d[i] == t[i] && d[j] == t[j]);
            }
        }
        lemma_insert_by_time(d, x);
        let m = insert_by_time_desc(d, x);
        assert(t =~= d.push(t.last()));
        assert forall|i: int| 0 <= i < m.len() implies (#[trigger] m[i]).1 >= t.last().1 by {
            if m[i] != x {
                assert(d.contains(m[i]));
                let j = choose|j: int| 0 <= j < d.len() && d[j] == m[i];
                assert(t[j] == d[j]);
                assert(t[t.len() - 1] == t.last());
            }
        }
        assert forall|i: int, j: int| 0 <= i < j < r.len() implies (#[trigger] r[i]).1 >= (#[trigger] r[j]).1 by {
            if j == m.len() {
                assert(r[i] == m[i]);
            } else {
                assert(r[i] == m[i] && r[j] == m[j]);
            }
        }
        assert forall|i: int| 0 <= i < r.len() implies #[trigger] r[i] == x || t.contains(r[i]) by {
            if i < m.len() {
                assert(r[i] == m[i]);
                if m[i] != x {
                    let j = choose|j: int| 0 <= j < d.len() && d[j] == m[i];
                    assert(t[j] == d[j]);
                }
            } else {
                assert(r[i] == t[t.len() - 1]);
            }
        }
    }
}

/// Ordering backups newest first keeps exactly the same backups, and
/// every backup comes before the older ones.
pub proof fn law_backups_sorted(s: Seq<(Seq<char>, i128)>)
    ensures
        newest_first(sort_by_time_desc(s)),
        sort_by_time_desc(s).to_multiset() =~= s.to_multiset(),
    decreases s.len(),
{
    broadcast use vstd::seq_lib::to_multiset_build;
    if s.len() == 0 {
        assert(s =~= Seq::<(Seq<char>, i128)>::empty());
    } else {
        law_backups_sorted(s.drop_last());
        lemma_insert_by_time(sort_by_time_desc(s.drop_last()), s.last());
        assert(s =~= s.drop_last().push(s.last()));
    }
}

/// Configuration update manager: replaces the tuner block of a configuration.
pub struct ConfigUpdater {
    original_content: String,
}

/// The configuration `c` with the text between its markers replaced by the
/// trimmed `block`, on lines of its own.
pub open spec fn updated_content(c: Seq<char>, block: Seq<char>) -> Result<Seq<char>, ErrorView> {
    match tuner_block(c) {
        Err(e) => Err(e),
        Ok(_) => {
            let s = find(c, TUNER_START@)->0;
            let e = find(c, TUNER_END@)->0;
            Ok(c.take(s + TUNER_START@.len()) + "\n"@ + trim(block) + "\n"@ + c.skip(e))
        },
    }
}

impl ConfigUpdater {
    pub closed spec fn content(&self) -> Seq<char> {
        self.original_content@
    }

    /// Create a new config updater with the original content.
    pub fn new(content: String) -> (u: ConfigUpdater)
        ensures
            u.content() == content@,
    {
        ConfigUpdater { original_content: content }
    }

    /// Update the tuner block with new content.
    pub fn update_tuner_block(&self, new_tuner_block: &str) -> (r: Result<String, WezzteError>)
        ensures
            match updated_content(self.content(), new_tuner_block@) {
                Ok(s) => r matches Ok(x) && x@ == s,
                Err(e) => r matches Err(x) && x@ == e,
            },
    {
        let v = chars_of(self.original_content.as_str());
        let start_marker = chars_of(TUNER_START);
        let end_marker = chars_of(TUNER_END);
        let start_pos = match vec_find(&v, &start_marker) {
            Some(p) => p,
            None => {
                return Err(WezzteError::config(to_owned_string("No tuner start marker found in configuration")));
            },
        };
        let end_pos = match vec_find(&v, &end_marker) {
            Some(p) => p,
            None => {
                return Err(WezzteError::config(to_owned_string("No tuner end marker found in configuration")));
            },
        };
        if end_pos <= start_pos {
            return Err(WezzteError::config(to_owned_string("Invalid tuner marker positions")));
        }
        proof {
            lemma_find(v@, TUNER_START@);
            lemma_find(v@, TUNER_END@);
            assert(find(v@, TUNER_START@) == Some(start_pos as int));
            assert(start_pos + TUNER_START@.len() <= v@.len());
        }
        let vlen = v.len();
        assert(start_pos + start_marker@.len() <= vlen);
        let nb = chars_of(new_tuner_block);
        let (a, b) = trim_bounds(&nb, 0, nb.len());
        assert(nb@.subrange(0, nb@.len() as int) =~= new_tuner_block@);
        let mut out = String::new();
        push_range(&mut out, &v, 0, start_pos + start_marker.len());
        push_str(&mut out, "\n");
        push_range(&mut out, &nb, a, b);
        push_str(&mut out, "\n");
        push_range(&mut out, &v, end_pos, v.len());
        assert(out@ =~= v@.take(start_pos + TUNER_START@.len()) + "\n"@ + trim(new_tuner_block@)
            + "\n"@ + v@.skip(end_pos as int));
        Ok(out)
    }

    /// Get the original content.
    pub fn original_content(&self) -> (r: &str)
        ensures
            r@ == self.content(),
    {
        self.original_content.as_str()
    }
}

} // verus!
