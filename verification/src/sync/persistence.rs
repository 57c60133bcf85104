//! Where the state is kept.

use crate::config::{
    around, choose_existing, first_existing, first_place_counts, places, PathSearch,
};
use crate::keyed::TextSet;
use crate::text::{opt_text, texts};
use crate::undo::{below, path_below};
use vstd::prelude::*;

verus! {

/// The path for a new state file.
pub open spec fn new_state_path(home: Seq<char>) -> Seq<char> {
    below(home, ".local/state/remtodo/state.json"@)
}

/// The places where the state file may be, in order: below `$XDG_STATE_HOME`,
/// below `~/.local/state`, below the usual directory of the system, and where it
/// was under the program's former name.
pub open spec fn state_places(
    xdg: Option<Seq<char>>,
    home: Seq<char>,
    native: Option<Seq<char>>,
) -> Seq<Seq<char>> {
    around(xdg, new_state_path(home), native, "remtodo/state.json"@).push(
        below(home, ".local/state/ttdlsync/state.json"@),
    )
}

/// The places where the state file may be, in order.
pub fn state_candidates(search: &PathSearch) -> (r: Vec<String>)
    ensures
        texts(r@) == state_places(
            opt_text(search.xdg),
            search.home@,
            opt_text(search.native),
        ),
{
    let usual = path_below(search.home.as_str(), ".local/state/remtodo/state.json");
    let former = path_below(search.home.as_str(), ".local/state/ttdlsync/state.json");
    places(search, &usual, &former, "remtodo/state.json")
}

/// The path of the state file.
pub open spec fn state_path(search: PathSearch, existing: Set<Seq<char>>) -> Seq<char> {
    match search.asked {
        Some(d) => below(d@, "state.json"@),
        None => first_existing(
            state_places(opt_text(search.xdg), search.home@, opt_text(search.native)),
            existing,
            new_state_path(search.home@),
        ),
    }
}

/// The path of the state file: in the directory that `$REMTODO_STATE_DIR` gives,
/// whether it exists or not; or else the first of the usual places where there is
/// a file; or else the path for a new one.
pub fn resolve_state_path(search: &PathSearch, existing: &TextSet) -> (r: String)
    ensures
        r@ == state_path(*search, existing@),
{
    match &search.asked {
        Some(d) => path_below(d.as_str(), "state.json"),
        None => {
            let paths = state_candidates(search);
            let fresh = path_below(search.home.as_str(), ".local/state/remtodo/state.json");
            choose_existing(&paths, existing, &fresh)
        },
    }
}

/// The path of the state file; another name of [`resolve_state_path`].
pub fn default_state_path(search: &PathSearch, existing: &TextSet) -> (r: String)
    ensures
        r@ == state_path(*search, existing@),
{
    resolve_state_path(search, existing)
}

/// A path without the slashes, and the dots between them, at its end.
pub open spec fn bare(path: Seq<char>) -> Seq<char>
    decreases path.len(),
{
    if path.len() > 0 && path.last() == '/' {
        bare(path.drop_last())
    } else if path.len() > 1 && path.last() == '.' && path[path.len() - 2] == '/' {
        bare(path.drop_last())
    } else {
        path
    }
}

/// Whether a bare path ends in the name of a file.
pub open spec fn ends_in_name(path: Seq<char>) -> bool {
    let n = path.len() as int;
    &&& n > 0
    &&& !(n == 1 && path[0] == '.')
    &&& !(n >= 2 && path[n - 1] == '.' && path[n - 2] == '.' && (n == 2 || path[n - 3] == '/'))
}

/// The path of the file that is written before it takes the place of `path`.
pub open spec fn temporary(path: Seq<char>) -> Seq<char> {
    if ends_in_name(bare(path)) {
        bare(path) + ".tmp"@
    } else {
        path
    }
}

/// The path of the file that is written before it takes the place of `path`: the
/// file name gets another extension. A path that ends in no file name stays.
pub fn tmp_path(path: &str) -> (r: String)
    ensures
        r@ == temporary(path@),
{
    let mut n: usize = path.unicode_len();
    assert(path@.take(n as int) =~= path@);
    while n > 0 && (path.get_char(n - 1) == '/' || (n > 1 && path.get_char(n - 1) == '.'
        && path.get_char(n - 2) == '/'))
        invariant
            n <= path@.len(),
            bare(path@.take(n as int)) == bare(path@),
        decreases n,
    {
        assert(path@.take(n as int).drop_last() =~= path@.take(n - 1));
        n = n - 1;
    }
    let ghost b = path@.take(n as int);
    assert(bare(path@) == b);
    let is_dot: bool = n == 1 && path.get_char(0) == '.';
    let is_up: bool = n >= 2 && path.get_char(n - 1) == '.' && path.get_char(n - 2) == '.' && (n
        == 2 || path.get_char(n - 3) == '/');
    if n > 0 && !is_dot && !is_up {
        let head = path.substring_char(0, n).to_owned();
        assert(head@ =~= b);
        head.concat(".tmp")
    } else {
        path.to_owned()
    }
}

/// The state file is the one in the directory that was asked for. Else it is looked for
/// below the XDG directory, then below `~/.local/state`, then below the directory of the
/// system, and last under the former name; a new one belongs below `~/.local/state`.
pub proof fn state_is_looked_for_in_order(search: PathSearch, existing: Set<Seq<char>>)
    ensures
        ({
            let found = state_path(search, existing);
            let home = search.home@;
            let name = "remtodo/state.json"@;
            let usual = below(home, ".local/state/remtodo/state.json"@);
            let former = below(home, ".local/state/ttdlsync/state.json"@);
            let in_xdg = search.xdg matches Some(d) && existing.contains(below(d@, name));
            let in_native = search.native matches Some(d) && existing.contains(below(d@, name));
            &&& search.asked matches Some(d) ==> found == below(d@, "state.json"@)
            &&& search.asked is None ==> {
                &&& in_xdg ==> found == below((search.xdg->0)@, name)
                &&& !in_xdg && existing.contains(usual) ==> found == usual
                &&& !in_xdg && !existing.contains(usual) && in_native ==> found == below(
                    (search.native->0)@,
                    name,
                )
                &&& !in_xdg && !existing.contains(usual) && !in_native ==> found == (
                if existing.contains(former) {
                    former
                } else {
                    usual
                })
            }
        }),
{
    let fresh = new_state_path(search.home@);
    let paths = state_places(opt_text(search.xdg), search.home@, opt_text(search.native));
    first_place_counts(paths, existing, fresh, 0);
    first_place_counts(paths, existing, fresh, 1);
    first_place_counts(paths, existing, fresh, 2);
    first_place_counts(paths, existing, fresh, 3);
}

/// What is written first stands beside the file itself: the path with one more ending.
/// Slashes behind the name do not count.
pub proof fn temporary_stands_beside(dir: Seq<char>, name: Seq<char>)
    requires
        name.len() > 0,
        !name.contains('/'),
        name.last() != '.',
    ensures
        temporary(dir.push('/') + name) == dir.push('/') + name + ".tmp"@,
        temporary((dir.push('/') + name).push('/')) == dir.push('/') + name + ".tmp"@,
        temporary(dir.push('/') + name) != dir.push('/') + name,
{
    reveal_strlit(".tmp");
    let path = dir.push('/') + name;
    assert(path.last() == name[name.len() - 1]);
    assert(name.contains(name[name.len() - 1]));
    assert(bare(path) == path);
    assert(path.push('/').drop_last() =~= path);
    assert(bare(path.push('/')) == path);
    assert((path + ".tmp"@).len() == path.len() + 4);
}

} // verus!
