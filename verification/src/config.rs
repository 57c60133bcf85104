//! The configuration of the program.

use crate::error::{ErrorView, SyncError};
use crate::keyed::TextSet;
use crate::sync::config::{default_config, ConfigView, ListSyncConfig};
use crate::sync::release::configs_view;
use crate::text::{has_prefix, opt_text, text_after, texts};
use crate::undo::{below, path_below};
use vstd::prelude::*;

verus! {

// ---------------------------------------------------------------------------
// Settings
// ---------------------------------------------------------------------------

/// The settings of the program.
#[derive(Debug)]
pub struct AppConfig {
    /// The path of the todo.txt file.
    pub output: String,
    /// Whether completed reminders count on the first run.
    pub include_completed: bool,
    /// The seconds between two runs of the agent.
    pub poll_interval_secs: u64,
    /// The percentage of the tracked reminders of a list that a run may delete;
    /// one hundred switches the guard off.
    pub max_delete_percent: u8,
    /// The seconds by which the file has to be newer than a reminder to win.
    pub timestamp_tolerance_secs: u64,
    pub lists: Vec<ListSyncConfig>,
}

/// What an [`AppConfig`] holds.
#[verifier::ext_equal]
pub struct AppView {
    pub output: Seq<char>,
    pub include_completed: bool,
    pub poll_interval_secs: u64,
    pub max_delete_percent: u8,
    pub timestamp_tolerance_secs: u64,
    pub lists: Seq<ConfigView>,
}

impl View for AppConfig {
    type V = AppView;

    open spec fn view(&self) -> AppView {
        AppView {
            output: self.output@,
            include_completed: self.include_completed,
            poll_interval_secs: self.poll_interval_secs,
            max_delete_percent: self.max_delete_percent,
            timestamp_tolerance_secs: self.timestamp_tolerance_secs,
            lists: configs_view(self.lists@),
        }
    }
}

/// The seconds between two runs of the agent, where nothing is set.
pub fn default_poll_interval() -> (r: u64)
    ensures
        r == 60,
{
    60
}

/// The percentage of reminders that a run may delete, where nothing is set.
pub fn default_max_delete_percent() -> (r: u8)
    ensures
        r == 50,
{
    50
}

/// The tolerance in seconds, where nothing is set.
pub fn default_timestamp_tolerance_secs() -> (r: u64)
    ensures
        r == 0,
{
    0
}

/// The settings without a configuration file: the list `Tasks` and the file
/// `todo.txt`.
pub open spec fn default_app() -> AppView {
    AppView {
        output: "todo.txt"@,
        include_completed: false,
        poll_interval_secs: 60,
        max_delete_percent: 50,
        timestamp_tolerance_secs: 0,
        lists: seq![default_config("Tasks"@)],
    }
}

impl Default for AppConfig {
    fn default() -> (r: Self)
        ensures
            r@ == default_app(),
    {
        let mut lists: Vec<ListSyncConfig> = Vec::new();
        lists.push(ListSyncConfig::new("Tasks"));
        assert(configs_view(lists@) =~= seq![default_config("Tasks"@)]);
        AppConfig {
            output: "todo.txt".to_owned(),
            include_completed: false,
            poll_interval_secs: default_poll_interval(),
            max_delete_percent: default_max_delete_percent(),
            timestamp_tolerance_secs: default_timestamp_tolerance_secs(),
            lists,
        }
    }
}

/// Where the settings come from.
#[derive(Debug)]
pub enum ConfigSource {
    /// A file has to be read.
    File(String),
    /// There is no file; the settings are the default ones.
    Default(AppConfig),
}

/// Decides where the settings come from: from the file that was asked for, or
/// else from the file at the usual place, where it exists. A file that was asked
/// for is read in any case.
pub fn load_or_default_config(asked: Option<&str>, usual: &str, usual_exists: bool) -> (r:
    ConfigSource)
    ensures
        match asked {
            Some(p) => r matches ConfigSource::File(f) && f@ == p@,
            None => if usual_exists {
                r matches ConfigSource::File(f) && f@ == usual@
            } else {
                r matches ConfigSource::Default(c) && c@ == default_app()
            },
        },
{
    match asked {
        Some(p) => ConfigSource::File(p.to_owned()),
        None => if usual_exists {
            ConfigSource::File(usual.to_owned())
        } else {
            ConfigSource::Default(AppConfig::default())
        },
    }
}

/// The error of a configuration file that cannot be read.
pub fn unreadable_config(path: &str, cause: &str) -> (e: SyncError)
    ensures
        e@ == ErrorView::Config("Cannot read "@ + path@ + ": "@ + cause@),
{
    SyncError::Config("Cannot read ".to_owned().concat(path).concat(": ").concat(cause))
}

/// The error of a configuration file that is not understood.
pub fn unparsable_config(path: &str, cause: &str) -> (e: SyncError)
    ensures
        e@ == ErrorView::Config("Parse error in "@ + path@ + ": "@ + cause@),
{
    SyncError::Config("Parse error in ".to_owned().concat(path).concat(": ").concat(cause))
}

// ---------------------------------------------------------------------------
// Paths
// ---------------------------------------------------------------------------

/// What decides where a file of the program is looked for.
#[derive(Debug)]
pub struct PathSearch {
    /// The path, or the directory, that an environment variable of the program
    /// gives.
    pub asked: Option<String>,
    /// The directory that an XDG environment variable gives.
    pub xdg: Option<String>,
    /// The home directory.
    pub home: String,
    /// The directory for settings that is usual on the system.
    pub native: Option<String>,
}

/// The first of `paths` that exists, or else the path for a new file.
pub open spec fn first_existing(
    paths: Seq<Seq<char>>,
    existing: Set<Seq<char>>,
    fresh: Seq<char>,
) -> Seq<char>
    decreases paths.len(),
{
    if paths.len() == 0 {
        fresh
    } else if existing.contains(paths[0]) {
        paths[0]
    } else {
        first_existing(paths.skip(1), existing, fresh)
    }
}

/// The first of `paths` that exists, or else the path for a new file.
pub(crate) fn choose_existing(paths: &Vec<String>, existing: &TextSet, fresh: &String) -> (r:
    String)
    ensures
        r@ == first_existing(texts(paths@), existing@, fresh@),
{
    let ghost ps = texts(paths@);
    assert(ps.skip(0) =~= ps);
    for i in 0..paths.len()
        invariant
            ps == texts(paths@),
            first_existing(ps.skip(i as int), existing@, fresh@) == first_existing(
                ps,
                existing@,
                fresh@,
            ),
    {
        assert(ps.skip(i as int)[0] == paths@[i as int]@);
        assert(ps.skip(i as int).skip(1) =~= ps.skip(i + 1));
        if existing.contains(paths[i].as_str()) {
            return paths[i].clone();
        }
    }
    fresh.clone()
}

/// A path with the places below two optional directories put around it: below the
/// first one before it, below the second one behind it.
pub open spec fn around(
    before: Option<Seq<char>>,
    middle: Seq<char>,
    after: Option<Seq<char>>,
    name: Seq<char>,
) -> Seq<Seq<char>> {
    let front = match before {
        Some(d) => seq![below(d, name)],
        None => Seq::empty(),
    };
    let back = match after {
        Some(d) => seq![below(d, name)],
        None => Seq::empty(),
    };
    front.push(middle) + back
}

/// The places where a file of the program may be, in order.
pub(crate) fn places(search: &PathSearch, middle: &String, last: &String, name: &str) -> (r: Vec<
    String,
>)
    ensures
        texts(r@) == around(
            opt_text(search.xdg),
            middle@,
            opt_text(search.native),
            name@,
        ).push(last@),
{
    let mut out: Vec<String> = Vec::new();
    if let Some(d) = &search.xdg {
        out.push(path_below(d.as_str(), name));
    }
    out.push(middle.clone());
    if let Some(d) = &search.native {
        out.push(path_below(d.as_str(), name));
    }
    out.push(last.clone());
    assert(texts(out@) =~= around(
        opt_text(search.xdg),
        middle@,
        opt_text(search.native),
        name@,
    ).push(last@));
    out
}

/// The path for a new configuration file.
pub open spec fn new_config_path(home: Seq<char>) -> Seq<char> {
    below(home, ".config/remtodo/config.toml"@)
}

/// The places where the configuration file may be, in order: below
/// `$XDG_CONFIG_HOME`, below `~/.config`, below the usual directory of the
/// system, and where it was under the program's former name.
pub open spec fn config_places(
    xdg: Option<Seq<char>>,
    home: Seq<char>,
    native: Option<Seq<char>>,
) -> Seq<Seq<char>> {
    around(xdg, new_config_path(home), native, "remtodo/config.toml"@).push(
        below(home, ".config/ttdlsync/config.toml"@),
    )
}

/// The places where the configuration file may be, in order.
pub fn config_candidates(search: &PathSearch) -> (r: Vec<String>)
    ensures
        texts(r@) == config_places(
            opt_text(search.xdg),
            search.home@,
            opt_text(search.native),
        ),
{
    let usual = path_below(search.home.as_str(), ".config/remtodo/config.toml");
    let former = path_below(search.home.as_str(), ".config/ttdlsync/config.toml");
    places(search, &usual, &former, "remtodo/config.toml")
}

/// The path of the configuration file: the one that `$REMTODO_CONFIG` gives,
/// whether it exists or not; or else the first of the usual places where there is
/// a file; or else the path for a new one.
pub fn resolve_config_path(search: &PathSearch, existing: &TextSet) -> (r: String)
    ensures
        r@ == match search.asked {
            Some(p) => p@,
            None => first_existing(
                config_places(
                    opt_text(search.xdg),
                    search.home@,
                    opt_text(search.native),
                ),
                existing@,
                new_config_path(search.home@),
            ),
        },
{
    match &search.asked {
        Some(p) => p.clone(),
        None => {
            let paths = config_candidates(search);
            let fresh = path_below(search.home.as_str(), ".config/remtodo/config.toml");
            choose_existing(&paths, existing, &fresh)
        },
    }
}

/// Calls `dirs::home_dir`, which gives the home directory, where there is one.
/// The directory depends on the environment, so nothing is claimed of it.
#[verifier::external_body]
pub(crate) fn home_dir() -> (r: Option<String>) {
    dirs::home_dir().map(|p| p.display().to_string())
}

/// A path in which a leading tilde stands for the home directory.
pub open spec fn tilde_expanded(s: Seq<char>, home: Option<Seq<char>>) -> Seq<char> {
    match home {
        Some(h) => if "~/"@.is_prefix_of(s) {
            h + "/"@ + s.skip(2)
        } else {
            s
        },
        None => s,
    }
}

/// Replaces a leading `~/` by the given home directory.
pub fn expand_tilde_in(s: &str, home: &Option<String>) -> (r: String)
    ensures
        r@ == tilde_expanded(s@, opt_text(*home)),
{
    proof {
        reveal_strlit("~/");
    }
    match home {
        Some(h) => if has_prefix(s, "~/") {
            let rest = text_after(s, 2);
            h.clone().concat("/").concat(rest.as_str())
        } else {
            s.to_owned()
        },
        None => s.to_owned(),
    }
}

/// Replaces a leading `~/` by the home directory. Where there is none, the path
/// stays as it is.
pub fn expand_tilde(s: &str) -> (r: String)
    ensures
        exists|home: Option<Seq<char>>| r@ == #[trigger] tilde_expanded(s@, home),
{
    let home = home_dir();
    expand_tilde_in(s, &home)
}

/// Of several places the first one with a file counts; where there is none, the path for
/// a new file does.
pub proof fn first_place_counts(
    paths: Seq<Seq<char>>,
    existing: Set<Seq<char>>,
    fresh: Seq<char>,
    k: int,
)
    ensures
        0 <= k < paths.len() && existing.contains(paths[k]) && (forall|m: int|
            0 <= m < k ==> !existing.contains(#[trigger] paths[m])) ==> first_existing(
            paths,
            existing,
            fresh,
        ) == paths[k],
        (forall|m: int| 0 <= m < paths.len() ==> !existing.contains(#[trigger] paths[m]))
            ==> first_existing(paths, existing, fresh) == fresh,
    decreases paths.len(),
{
    if paths.len() > 0 {
        let rest = paths.skip(1);
        first_place_counts(rest, existing, fresh, k - 1);
        if (0 < k < paths.len() && existing.contains(paths[k]) && (forall|m: int|
            0 <= m < k ==> !existing.contains(#[trigger] paths[m]))) {
            assert(!existing.contains(paths[0]));
            assert(rest[k - 1] == paths[k]);
            assert forall|m: int| 0 <= m < k - 1 implies !existing.contains(
                #[trigger] rest[m],
            ) by {
                assert(rest[m] == paths[m + 1]);
            }
        }
        if forall|m: int| 0 <= m < paths.len() ==> !existing.contains(#[trigger] paths[m]) {
            assert(!existing.contains(paths[0]));
            assert forall|m: int| 0 <= m < rest.len() implies !existing.contains(
                #[trigger] rest[m],
            ) by {
                assert(rest[m] == paths[m + 1]);
            }
        }
    }
}

/// The configuration file is looked for below the XDG directory, then below `~/.config`,
/// then below the directory of the system, and last under the former name. A new one
/// belongs below `~/.config`.
pub proof fn config_is_looked_for_in_order(
    xdg: Option<Seq<char>>,
    home: Seq<char>,
    native: Option<Seq<char>>,
    existing: Set<Seq<char>>,
)
    ensures
        ({
            let found = first_existing(
                config_places(xdg, home, native),
                existing,
                new_config_path(home),
            );
            let usual = below(home, ".config/remtodo/config.toml"@);
            let former = below(home, ".config/ttdlsync/config.toml"@);
            let in_xdg = xdg matches Some(d) && existing.contains(below(d, "remtodo/config.toml"@));
            let in_native = native matches Some(d) && existing.contains(
                below(d, "remtodo/config.toml"@),
            );
            &&& in_xdg ==> found == below(xdg->0, "remtodo/config.toml"@)
            &&& !in_xdg && existing.contains(usual) ==> found == usual
            &&& !in_xdg && !existing.contains(usual) && in_native ==> found == below(
                native->0,
                "remtodo/config.toml"@,
            )
            &&& !in_xdg && !existing.contains(usual) && !in_native ==> found == (
            if existing.contains(former) {
                former
            } else {
                usual
            })
        }),
{
    let fresh = new_config_path(home);
    let paths = config_places(xdg, home, native);
    first_place_counts(paths, existing, fresh, 0);
    first_place_counts(paths, existing, fresh, 1);
    first_place_counts(paths, existing, fresh, 2);
    first_place_counts(paths, existing, fresh, 3);
}

/// A leading `~/` stands for the home directory, where there is one; every other text
/// stays as it is.
pub proof fn tilde_is_home(rest: Seq<char>, home: Seq<char>, s: Seq<char>)
    ensures
        tilde_expanded("~/"@ + rest, Some(home)) == home + "/"@ + rest,
        tilde_expanded(s, None) == s,
        !"~/"@.is_prefix_of(s) ==> tilde_expanded(s, Some(home)) == s,
{
    reveal_strlit("~/");
    assert(("~/"@ + rest).take(2) =~= "~/"@);
    assert(("~/"@ + rest).skip(2) =~= rest);
}

} // verus!
