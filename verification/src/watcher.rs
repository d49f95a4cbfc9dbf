//! When the plugins are read again because their files changed.

use vstd::prelude::*;

use crate::text::str_eq;

verus! {

/// Milliseconds between two looks at whether files have changed.
pub const SETTLE_MILLIS: u64 = 300;

/// What happened to a file.
#[derive(Clone, Copy, PartialEq, Eq, Structural, Debug)]
pub enum ChangeKind {
    Created,
    Modified,
    Removed,
    /// It was looked at, or something else that leaves its contents alone.
    Other,
}

/// The position of the last `c` at or before `i`, or -1.
pub open spec fn last_index(s: Seq<char>, c: char, i: int) -> int
    decreases i + 1,
{
    if i < 0 || i >= s.len() {
        -1
    } else if s[i] == c {
        i
    } else {
        last_index(s, c, i - 1)
    }
}

/// What follows the last slash of a path.
pub open spec fn file_name(path: Seq<char>) -> Seq<char> {
    path.skip(last_index(path, '/', path.len() - 1) + 1)
}

/// The extension of a file name: what follows its last dot, unless that is its
/// first character or the name is `..`.
pub open spec fn extension_of(name: Seq<char>) -> Option<Seq<char>> {
    let dot = last_index(name, '.', name.len() - 1);
    if dot <= 0 || name == seq!['.', '.'] {
        None
    } else {
        Some(name.skip(dot + 1))
    }
}

/// A path that every platform takes apart at its slashes and nowhere else, and
/// that ends in the name of a file.
pub open spec fn portable(path: Seq<char>) -> bool {
    &&& forall|i: int| 0 <= i < path.len() ==> #[trigger] path[i] != '\\' && path[i] != ':'
    &&& !(path.len() >= 2 && path[0] == '/' && path[1] == '/')
    &&& file_name(path).len() > 0
    &&& file_name(path) != seq!['.']
}

/// Calls [`std::path::Path::extension`]. Of a portable path it is the extension
/// of what follows the last slash. Of other paths nothing is promised: how they
/// are taken apart is up to the platform.
#[verifier::external_body]
fn path_extension(path: &str) -> (r: Option<String>)
    ensures
        portable(path@) ==> (r is Some <==> extension_of(file_name(path@)) is Some),
        portable(path@) ==> (r matches Some(e) ==> e@ == extension_of(file_name(path@))->0),
{
    std::path::Path::new(path).extension().map(|e| e.to_string_lossy().into_owned())
}

/// Whether a portable path is that of a plugin.
pub open spec fn is_plugin_path(path: Seq<char>) -> bool {
    extension_of(file_name(path)) == Some("lua"@)
}

/// Tells whether a path is that of a plugin.
pub fn names_plugin(path: &str) -> (r: bool)
    ensures
        portable(path@) ==> r == is_plugin_path(path@),
{
    match path_extension(path) {
        Some(e) => str_eq(e.as_str(), "lua"),
        None => false,
    }
}

/// One of some paths is portable and that of a plugin.
pub open spec fn has_plugin(paths: Seq<String>) -> bool {
    exists|i: int|
        0 <= i < paths.len() && portable((#[trigger] paths[i])@) && is_plugin_path(paths[i]@)
}

/// One of some paths is that of a plugin, or is not portable and so may be.
pub open spec fn may_have_plugin(paths: Seq<String>) -> bool {
    exists|i: int|
        0 <= i < paths.len() && (portable((#[trigger] paths[i])@) ==> is_plugin_path(paths[i]@))
}

/// Tells whether any of some paths is that of a plugin.
pub fn any_plugin(paths: &Vec<String>) -> (r: bool)
    ensures
        has_plugin(paths@) ==> r,
        r ==> may_have_plugin(paths@),
{
    let mut i: usize = 0;
    while i < paths.len()
        invariant
            i <= paths.len(),
            forall|j: int|
                0 <= j < i ==> (portable((#[trigger] paths@[j])@) ==> !is_plugin_path(
                    paths@[j]@,
                )),
        decreases paths.len() - i,
    {
        if names_plugin(paths[i].as_str()) {
            assert(portable(paths@[i as int]@) ==> is_plugin_path(paths@[i as int]@));
            return true;
        }
        i += 1;
    }
    false
}

/// Whether a change to files calls for the plugins to be read again.
pub open spec fn calls_for_reload(kind: ChangeKind, plugin: bool) -> bool {
    kind != ChangeKind::Other && plugin
}

/// Gathers changes, so that a burst of them has the plugins read again once.
pub struct Debouncer {
    pub pending: bool,
}

impl Debouncer {
    /// Nothing has changed yet.
    pub fn new() -> (r: Debouncer)
        ensures
            !r.pending,
    {
        Debouncer { pending: false }
    }

    /// Takes note of a change, given whether it is to a plugin.
    pub fn note(&mut self, kind: ChangeKind, plugin: bool)
        ensures
            final(self).pending == (old(self).pending || calls_for_reload(kind, plugin)),
            plugin && (kind == ChangeKind::Created || kind == ChangeKind::Modified || kind
                == ChangeKind::Removed) ==> final(self).pending,
            kind == ChangeKind::Other || !plugin ==> final(self).pending == old(self).pending,
    {
        if kind != ChangeKind::Other && plugin {
            self.pending = true;
        }
    }

    /// Takes note of a change to the files at some paths.
    pub fn note_paths(&mut self, kind: ChangeKind, paths: &Vec<String>)
        ensures
            old(self).pending || calls_for_reload(kind, has_plugin(paths@)) ==> final(self).pending,
            final(self).pending ==> old(self).pending || calls_for_reload(
                kind,
                may_have_plugin(paths@),
            ),
    {
        self.note(kind, any_plugin(paths));
    }

    /// Tells whether the plugins are to be read again now, and starts over.
    pub fn tick(&mut self) -> (r: bool)
        ensures
            r == old(self).pending,
            !final(self).pending,
    {
        let due = self.pending;
        self.pending = false;
        due
    }
}

/// Whether a reading is due after changes, each with its kind and whether it was
/// to a plugin.
pub open spec fn due_after(pending: bool, changes: Seq<(ChangeKind, bool)>) -> bool
    decreases changes.len(),
{
    if changes.len() == 0 {
        pending
    } else {
        due_after(pending, changes.drop_last()) || calls_for_reload(
            changes.last().0,
            changes.last().1,
        )
    }
}

/// However many changes come before a tick, the tick has the plugins read again
/// exactly if one of them calls for it; and so two ticks with nothing between
/// them read at most once.
pub proof fn law_burst_reloads_once(changes: Seq<(ChangeKind, bool)>)
    ensures
        due_after(false, changes) <==> exists|i: int|
            0 <= i < changes.len() && calls_for_reload(
                (#[trigger] changes[i]).0,
                changes[i].1,
            ),
        !due_after(false, seq![]),
    decreases changes.len(),
{
    if changes.len() > 0 {
        let rest = changes.drop_last();
        law_burst_reloads_once(rest);
        if due_after(false, rest) {
            let i = choose|i: int|
                0 <= i < rest.len() && calls_for_reload((#[trigger] rest[i]).0, rest[i].1);
            assert(calls_for_reload(changes[i].0, changes[i].1));
        }
        if calls_for_reload(changes.last().0, changes.last().1) {
            assert(calls_for_reload(changes[changes.len() - 1].0, changes[changes.len() - 1].1));
        }
        if exists|i: int|
            0 <= i < changes.len() && calls_for_reload((#[trigger] changes[i]).0, changes[i].1) {
            let i = choose|i: int|
                0 <= i < changes.len() && calls_for_reload(
                    (#[trigger] changes[i]).0,
                    changes[i].1,
                );
            if i < rest.len() {
                assert(calls_for_reload(rest[i].0, rest[i].1));
            }
        }
    }
}

/// A change to a plugin's file makes the next tick due, whether the file was
/// created, modified or removed; a change of any other kind, or to another file,
/// does not.
pub proof fn law_every_change_counts(
    pending: bool,
    changes: Seq<(ChangeKind, bool)>,
    kind: ChangeKind,
    plugin: bool,
)
    ensures
        due_after(pending, changes.push((ChangeKind::Created, true))),
        due_after(pending, changes.push((ChangeKind::Modified, true))),
        due_after(pending, changes.push((ChangeKind::Removed, true))),
        due_after(pending, changes.push((ChangeKind::Other, plugin))) == due_after(
            pending,
            changes,
        ),
        due_after(pending, changes.push((kind, false))) == due_after(pending, changes),
        due_after(pending, seq![]) == pending,
        calls_for_reload(ChangeKind::Created, true),
        calls_for_reload(ChangeKind::Modified, true),
        calls_for_reload(ChangeKind::Removed, true),
        !calls_for_reload(ChangeKind::Other, plugin),
        !calls_for_reload(kind, false),
{
    assert(changes.push((ChangeKind::Created, true)).drop_last() =~= changes);
    assert(changes.push((ChangeKind::Modified, true)).drop_last() =~= changes);
    assert(changes.push((ChangeKind::Removed, true)).drop_last() =~= changes);
    assert(changes.push((ChangeKind::Other, plugin)).drop_last() =~= changes);
    assert(changes.push((kind, false)).drop_last() =~= changes);
}

proof fn lemma_last_index(s: Seq<char>, c: char, i: int)
    requires
        i < s.len(),
    ensures
        -1 <= last_index(s, c, i) <= i || i < -1,
        last_index(s, c, i) >= 0 ==> last_index(s, c, i) <= i && s[last_index(s, c, i)] == c,
        last_index(s, c, i) >= -1,
        forall|j: int| last_index(s, c, i) < j <= i && 0 <= j ==> #[trigger] s[j] != c,
    decreases i + 1,
{
    if i >= 0 && s[i] != c {
        lemma_last_index(s, c, i - 1);
    }
}

/// The name of a file is the end of its path, from the last slash on: there is no
/// slash in it, and a slash before it unless it is the whole path.
pub proof fn law_file_name(path: Seq<char>) -> (k: int)
    ensures
        0 <= k <= path.len(),
        file_name(path) == path.skip(k),
        forall|i: int| k <= i < path.len() ==> #[trigger] path[i] != '/',
        k > 0 ==> path[k - 1] == '/',
{
    lemma_last_index(path, '/', path.len() - 1);
    last_index(path, '/', path.len() - 1) + 1
}

/// The extension of a file name follows its last dot, before which there is
/// something; a name without such a dot has none.
pub proof fn law_extension(name: Seq<char>)
    ensures
        extension_of(name) matches Some(e) ==> {
            &&& e.len() + 1 < name.len()
            &&& name == name.take(name.len() - e.len() - 1) + seq!['.'] + e
            &&& !e.contains('.')
        },
        extension_of(name) is None <==> name == seq!['.', '.'] || forall|i: int|
            0 < i < name.len() ==> #[trigger] name[i] != '.',
{
    let dot = last_index(name, '.', name.len() - 1);
    lemma_last_index(name, '.', name.len() - 1);
    if let Some(e) = extension_of(name) {
        assert(name =~= name.take(name.len() - e.len() - 1) + seq!['.'] + e);
        if e.contains('.') {
            let j = choose|j: int| 0 <= j < e.len() && e[j] == '.';
            assert(name[dot + 1 + j] == '.');
        }
        assert(name[dot] == '.');
    } else if name != seq!['.', '.'] {
        assert forall|i: int| 0 < i < name.len() implies #[trigger] name[i] != '.' by {
        }
    }
}

/// The path of a plugin is one that ends in `.lua`, with a name before that.
pub proof fn law_plugin_path(path: Seq<char>)
    ensures
        is_plugin_path(path) <==> {
            &&& path.len() > 4
            &&& path.skip(path.len() - 4) == seq!['.', 'l', 'u', 'a']
            &&& path[path.len() - 5] != '/'
        },
{
    if is_plugin_path(path) {
        lemma_plugin_path_ends(path);
    }
    if path.len() > 4 && path.skip(path.len() - 4) == seq!['.', 'l', 'u', 'a'] && path[path.len()
        - 5] != '/' {
        lemma_ending_makes_plugin(path);
    }
}

#[verifier::spinoff_prover]
proof fn lemma_plugin_path_ends(path: Seq<char>)
    requires
        is_plugin_path(path),
    ensures
        path.len() > 4,
        path.skip(path.len() - 4) == seq!['.', 'l', 'u', 'a'],
        path[path.len() - 5] != '/',
{
    reveal_strlit("lua");
    let e = extension_of(file_name(path))->0;
    assert(e.len() == 3 && e[0] == 'l' && e[1] == 'u' && e[2] == 'a');
    let k = law_file_name(path);
    let name = file_name(path);
    let n = path.len() as int;
    let m = name.len() as int;
    law_extension(name);
    let whole = name.take(m - 4) + seq!['.'] + e;
    assert(name == whole);
    assert(whole[m - 4] == '.' && whole[m - 3] == 'l' && whole[m - 2] == 'u' && whole[m - 1] == 'a');
    assert(n == k + m);
    assert(path[n - 4] == name[m - 4] && path[n - 3] == name[m - 3] && path[n - 2] == name[m - 2]
        && path[n - 1] == name[m - 1]);
    assert(path.skip(n - 4) =~= seq!['.', 'l', 'u', 'a']);
}

#[verifier::spinoff_prover]
proof fn lemma_ending_makes_plugin(path: Seq<char>)
    requires
        path.len() > 4,
        path.skip(path.len() - 4) == seq!['.', 'l', 'u', 'a'],
        path[path.len() - 5] != '/',
    ensures
        is_plugin_path(path),
{
    reveal_strlit("lua");
    let n = path.len() as int;
    let end = path.skip(n - 4);
    assert(path[n - 4] == end[0] && path[n - 3] == end[1] && path[n - 2] == end[2] && path[n - 1]
        == end[3]);
    let k = law_file_name(path);
    if k > 0 {
        assert(path[k - 1] == '/');
    }
    let name = file_name(path);
    let m = name.len() as int;
    assert(name[m - 4] == path[n - 4] && name[m - 3] == path[n - 3] && name[m - 2] == path[n - 2]
        && name[m - 1] == path[n - 1]);
    lemma_last_index(name, '.', m - 1);
    let dot = last_index(name, '.', m - 1);
    assert(dot == m - 4);
    assert(name.skip(dot + 1) =~= "lua"@);
}

/// A path is portable if it has neither backslashes nor colons, does not start
/// with two slashes, and ends in something that is neither a slash nor a single
/// dot behind a slash.
pub proof fn law_portable(path: Seq<char>)
    requires
        path.len() > 0,
        forall|i: int| 0 <= i < path.len() ==> #[trigger] path[i] != '\\' && path[i] != ':',
        !(path.len() >= 2 && path[0] == '/' && path[1] == '/'),
        path.last() != '/',
        path.last() != '.' || (path.len() >= 2 && path[path.len() - 2] != '/'),
    ensures
        portable(path),
{
    let k = law_file_name(path);
    let name = file_name(path);
    assert(name.len() > 0) by {
        if k == path.len() {
            assert(path[k - 1] == '/');
        }
    }
    if name == seq!['.'] {
        assert(name.len() == 1);
        assert(path[k] == name[0]);
        if k > 0 {
            assert(path[k - 1] == '/');
        }
    }
}

/// Paths hold a plugin exactly if one of them ends in `.lua` with a name before
/// that, as far as they are portable.
pub proof fn law_paths_hold_plugin(paths: Seq<String>)
    requires
        forall|i: int| 0 <= i < paths.len() ==> portable((#[trigger] paths[i])@),
    ensures
        has_plugin(paths) == may_have_plugin(paths),
        has_plugin(paths) <==> exists|i: int|
            0 <= i < paths.len() && (#[trigger] paths[i])@.len() > 4 && paths[i]@.skip(
                paths[i]@.len() - 4,
            ) == seq!['.', 'l', 'u', 'a'] && paths[i]@[paths[i]@.len() - 5] != '/',
{
    assert forall|i: int| 0 <= i < paths.len() implies is_plugin_path((#[trigger] paths[i])@) == (
    paths[i]@.len() > 4 && paths[i]@.skip(paths[i]@.len() - 4) == seq!['.', 'l', 'u', 'a']
        && paths[i]@[paths[i]@.len() - 5] != '/') by {
        law_plugin_path(paths[i]@);
    }
}

} // verus!
