//! Turning raw filesystem notifications into debounced `ResourceChange`s.
use vstd::prelude::*;
use crate::protocol::{ChangeType, ResourceChange};
use crate::text::str_eq;

verus! {

/// The debounce window in nanoseconds: one second.
pub const WINDOW_NANOS: u64 = 1_000_000_000;

/// The kind of a raw filesystem notification.
#[derive(Clone, Copy, Debug, PartialEq, Eq, Structural)]
pub enum RawKind {
    Create,
    Modify,
    Remove,
    Other,
}

/// A path named by a raw notification: its full text, and its normal
/// components (directory names, then the file name).
#[derive(Clone, Debug)]
pub struct EventPath {
    pub full: String,
    pub parts: Vec<String>,
}

/// A raw filesystem notification.
#[derive(Clone, Debug)]
pub struct RawEvent {
    pub kind: RawKind,
    pub paths: Vec<EventPath>,
}

impl EventPath {
    pub open spec fn view(&self) -> (Seq<char>, Seq<Seq<char>>) {
        (self.full@, self.parts.deep_view())
    }
}

/// The paths of a notification, as (full text, components).
pub open spec fn paths_view(paths: Seq<EventPath>) -> Seq<(Seq<char>, Seq<Seq<char>>)> {
    paths.map_values(|p: EventPath| p@)
}

/// A change as (resource name, change type, file path).
pub open spec fn change_view(c: ResourceChange) -> (Seq<char>, ChangeType, Seq<char>) {
    (c.resource_name@, c.change_type, c.file_path@)
}

/// `name` ends in `.ext` with at least one character before the dot, which is
/// when `Path::extension` yields `ext` for an `ext` without dots.
pub open spec fn has_extension(name: Seq<char>, ext: Seq<char>) -> bool {
    name.len() > ext.len() + 1 && name[name.len() - ext.len() - 1] == '.' && name.subrange(
        name.len() - ext.len(),
        name.len() as int,
    ) == ext
}

/// The file name carries one of the recognised script extensions.
pub open spec fn is_script_name(name: Seq<char>) -> bool {
    has_extension(name, "lua"@) || has_extension(name, "js"@) || has_extension(name, "dll"@)
}

/// The path's file name carries a recognised extension.
pub open spec fn is_script_path(p: (Seq<char>, Seq<Seq<char>>)) -> bool {
    p.1.len() > 0 && is_script_name(p.1.last())
}

/// The index of the first path with a recognised extension, if any.
pub open spec fn first_script_path(paths: Seq<(Seq<char>, Seq<Seq<char>>)>) -> Option<int> {
    if exists|i: int| 0 <= i < paths.len() && is_script_path(#[trigger] paths[i]) {
        Some(
            choose|i: int|
                0 <= i < paths.len() && is_script_path(#[trigger] paths[i]) && forall|j: int|
                    0 <= j < i ==> !is_script_path(#[trigger] paths[j]),
        )
    } else {
        None
    }
}

/// An event at `now` falls inside the window of one accepted at `last`.
/// A clock reading before `last` counts as no time elapsed.
pub open spec fn within_window(last: Option<u64>, now: u64) -> bool {
    match last {
        Some(t) => (now as int) < t + WINDOW_NANOS,
        None => false,
    }
}

/// The change type of a raw kind; other kinds yield none.
pub open spec fn change_type_of(kind: RawKind) -> Option<ChangeType> {
    match kind {
        RawKind::Create => Some(ChangeType::FileAdded),
        RawKind::Modify => Some(ChangeType::FileModified),
        RawKind::Remove => Some(ChangeType::FileRemoved),
        RawKind::Other => None,
    }
}

/// The last time accepted for `key` in a table.
pub open spec fn last_of(table: Map<Seq<char>, u64>, key: Seq<char>) -> Option<u64> {
    if table.contains_key(key) {
        Some(table[key])
    } else {
        None
    }
}

/// What one notification does: the table afterwards, and the change emitted as
/// (resource name, change type, file path).
pub open spec fn detect(
    table: Map<Seq<char>, u64>,
    kind: RawKind,
    paths: Seq<(Seq<char>, Seq<Seq<char>>)>,
    now: u64,
) -> (Map<Seq<char>, u64>, Option<(Seq<char>, ChangeType, Seq<char>)>) {
    match first_script_path(paths) {
        None => (table, None),
        Some(i) => {
            let p = paths[i];
            if within_window(last_of(table, p.0), now) {
                (table, None)
            } else {
                let t2 = table.insert(p.0, now);
                match change_type_of(kind) {
                    None => (t2, None),
                    Some(ct) => if p.1.len() >= 2 {
                        (t2, Some((p.1[p.1.len() - 2], ct, p.0)))
                    } else {
                        (t2, None)
                    },
                }
            }
        },
    }
}

/// The notification is one that yields a change when the table lets it through:
/// a path with a recognised extension inside a directory, and a change kind.
pub open spec fn is_change_notification(kind: RawKind, paths: Seq<(Seq<char>, Seq<Seq<char>>)>) -> bool {
    &&& change_type_of(kind) is Some
    &&& first_script_path(paths) matches Some(i) && paths[i].1.len() >= 2
}

/// The path that the table is consulted for.
pub open spec fn debounce_key(paths: Seq<(Seq<char>, Seq<Seq<char>>)>) -> Seq<char> {
    paths[first_script_path(paths)->0].0
}

/// Two notifications on the same path, the second less than the debounce window
/// after the first (which the table lets through), yield exactly one change.
pub proof fn lemma_burst_yields_one_change(
    table: Map<Seq<char>, u64>,
    kind: RawKind,
    paths: Seq<(Seq<char>, Seq<Seq<char>>)>,
    t1: u64,
    t2: u64,
)
    requires
        is_change_notification(kind, paths),
        !within_window(last_of(table, debounce_key(paths)), t1),
        t1 <= t2,
        t2 < t1 + WINDOW_NANOS,
    ensures
        detect(table, kind, paths, t1).1 is Some,
        detect(detect(table, kind, paths, t1).0, kind, paths, t2).1 is None,
{
}

/// Two notifications on the same path at least the debounce window apart (the
/// first let through by the table) yield two changes.
pub proof fn lemma_spaced_events_yield_two_changes(
    table: Map<Seq<char>, u64>,
    kind: RawKind,
    paths: Seq<(Seq<char>, Seq<Seq<char>>)>,
    t1: u64,
    t2: u64,
)
    requires
        is_change_notification(kind, paths),
        !within_window(last_of(table, debounce_key(paths)), t1),
        t2 >= t1 + WINDOW_NANOS,
    ensures
        detect(table, kind, paths, t1).1 is Some,
        detect(detect(table, kind, paths, t1).0, kind, paths, t2).1 is Some,
{
}

/// For each path, the time of its last accepted notification.
pub struct DebounceTable {
    paths: Vec<String>,
    times: Vec<u64>,
}

impl DebounceTable {
    pub closed spec fn wf(&self) -> bool {
        &&& self.paths.len() == self.times.len()
        &&& forall|i: int, j: int|
            0 <= i < j < self.paths.len() ==> #[trigger] self.paths[i]@ != #[trigger] self.paths[j]@
    }

    pub closed spec fn index_of(&self, k: Seq<char>) -> int {
        choose|i: int| 0 <= i < self.paths.len() && #[trigger] self.paths[i]@ == k
    }

    pub closed spec fn view(&self) -> Map<Seq<char>, u64> {
        Map::new(
            |k: Seq<char>| exists|i: int| 0 <= i < self.paths.len() && #[trigger] self.paths[i]@ == k,
            |k: Seq<char>| self.times[self.index_of(k)],
        )
    }

    /// An empty table.
    pub fn new() -> (r: Self)
        ensures
            r.wf(),
            r@ == Map::<Seq<char>, u64>::empty(),
    {
        let r = DebounceTable { paths: Vec::new(), times: Vec::new() };
        assert(r@ =~= Map::<Seq<char>, u64>::empty());
        r
    }

    fn find(&self, key: &str) -> (r: Option<usize>)
        requires
            self.wf(),
        ensures
            match r {
                Some(i) => i < self.paths.len() && self.paths[i as int]@ == key@,
                None => !self@.contains_key(key@),
            },
    {
        let mut i: usize = 0;
        while i < self.paths.len()
            invariant
                i <= self.paths.len(),
                forall|j: int| 0 <= j < i ==> self.paths[j]@ != key@,
            decreases self.paths.len() - i,
        {
            if str_eq(self.paths[i].as_str(), key) {
                return Some(i);
            }
            i = i + 1;
        }
        None
    }

    /// The last accepted time for `key`.
    pub fn last_accepted(&self, key: &str) -> (r: Option<u64>)
        requires
            self.wf(),
        ensures
            r == last_of(self@, key@),
    {
        match self.find(key) {
            Some(i) => {
                assert(self@.contains_key(key@));
                assert(self.index_of(key@) == i);
                Some(self.times[i])
            },
            None => None,
        }
    }

    /// Records `now` as the last accepted time for `key`.
    pub fn record(&mut self, key: &str, now: u64)
        requires
            old(self).wf(),
        ensures
            final(self).wf(),
            final(self)@ == old(self)@.insert(key@, now),
    {
        match self.find(key) {
            Some(i) => {
                let ghost before = *self;
                self.times.set(i, now);
                assert forall|k: Seq<char>| #[trigger] self@.contains_key(k) implies self@[k] == before@.insert(key@, now)[k] by {
                    if k == key@ {
                        assert(self.index_of(k) == i);
                    } else {
                        assert(before@.contains_key(k));
                        assert(self.index_of(k) == before.index_of(k));
                    }
                }
                assert(self@ =~= before@.insert(key@, now));
            },
            None => {
                let ghost before = *self;
                self.paths.push(key.to_owned());
                self.times.push(now);
                let ghost n = before.paths.len() as int;
                assert(self.paths[n]@ == key@);
                assert forall|k: Seq<char>| #[trigger] before@.insert(key@, now).contains_key(k) implies self@.contains_key(k) by {
                    if k != key@ {
                        let j = before.index_of(k);
                        assert(self.paths[j]@ == k);
                    }
                }
                assert forall|k: Seq<char>| #[trigger] self@.contains_key(k) implies self@[k] == before@.insert(key@, now)[k] by {
                    if k == key@ {
                        assert(self.index_of(k) == n);
                    } else {
                        let j = self.index_of(k);
                        assert(j != n);
                        assert(before.paths[j]@ == k);
                        assert(before.index_of(k) == j);
                    }
                }
                assert(self@ =~= before@.insert(key@, now));
            },
        }
    }
}

/// Whether `name` ends in `.ext` after at least one character.
fn has_extension_exec(name: &str, ext: &str) -> (r: bool)
    ensures
        r == has_extension(name@, ext@),
{
    let ln = name.unicode_len();
    let le = ext.unicode_len();
    if le >= ln || ln - le - 1 == 0 {
        return false;
    }
    if name.get_char(ln - le - 1) != '.' {
        return false;
    }
    str_eq(name.substring_char(ln - le, ln), ext)
}

/// Whether a file name carries one of the recognised script extensions.
pub fn is_script_file_name(name: &str) -> (r: bool)
    ensures
        r == is_script_name(name@),
{
    has_extension_exec(name, "lua") || has_extension_exec(name, "js") || has_extension_exec(name, "dll")
}

fn is_script_event_path(p: &EventPath) -> (r: bool)
    ensures
        r == is_script_path(p@),
{
    let n = p.parts.len();
    if n == 0 {
        false
    } else {
        is_script_file_name(p.parts[n - 1].as_str())
    }
}

/// The index of the first path of the event with a recognised extension.
pub fn first_script_index(paths: &Vec<EventPath>) -> (r: Option<usize>)
    ensures
        r matches Some(i) ==> i < paths.len(),
        match r {
            Some(i) => first_script_path(paths_view(paths@)) == Some(i as int),
            None => first_script_path(paths_view(paths@)) is None,
        },
{
    let ghost v = paths_view(paths@);
    let mut i: usize = 0;
    while i < paths.len()
        invariant
            i <= paths.len(),
            v == paths_view(paths@),
            forall|j: int| 0 <= j < i ==> !is_script_path(#[trigger] v[j]),
        decreases paths.len() - i,
    {
        if is_script_event_path(&paths[i]) {
            assert(v[i as int] == paths[i as int]@);
            let ghost c = choose|k: int|
                0 <= k < v.len() && is_script_path(#[trigger] v[k]) && forall|j: int|
                    0 <= j < k ==> !is_script_path(#[trigger] v[j]);
            assert(0 <= i < v.len() && is_script_path(v[i as int]) && forall|j: int|
                0 <= j < i ==> !is_script_path(#[trigger] v[j]));
            assert(c == i) by {
                if c < i {
                } else if c > i {
                }
            }
            return Some(i);
        }
        i = i + 1;
    }
    None
}

/// Converts raw notifications into debounced changes. It owns the table of
/// last accepted times; callers that share it guard it with one lock.
pub struct ChangeDetector {
    table: DebounceTable,
}

impl ChangeDetector {
    pub closed spec fn wf(&self) -> bool {
        self.table.wf()
    }

    /// The last accepted time of each path.
    pub closed spec fn view(&self) -> Map<Seq<char>, u64> {
        self.table@
    }

    /// A detector that has accepted nothing yet.
    pub fn new() -> (r: Self)
        ensures
            r.wf(),
            r@ == Map::<Seq<char>, u64>::empty(),
    {
        ChangeDetector { table: DebounceTable::new() }
    }

    /// Handles one raw notification received at `now` (nanoseconds on a
    /// monotonic clock): takes the first path with a recognised extension,
    /// drops it inside the debounce window of that path, else records `now`
    /// for it and returns the change. The resource is named after the file's
    /// parent directory exactly as it stands: a category folder such as
    /// `[core]` keeps its brackets.
    pub fn process(&mut self, event: &RawEvent, now: u64) -> (r: Option<ResourceChange>)
        requires
            old(self).wf(),
        ensures
            final(self).wf(),
            (final(self)@, match r {
                Some(c) => Some(change_view(c)),
                None => None,
            }) == detect(old(self)@, event.kind, paths_view(event.paths@), now),
    {
        let ghost pv = paths_view(event.paths@);
        let ghost res = detect(self@, event.kind, pv, now);
        let idx = first_script_index(&event.paths);
        match idx {
            None => None,
            Some(i) => {
                let p = &event.paths[i];
                assert(first_script_path(pv) == Some(i as int));
                assert(pv[i as int] == p@);
                let last = self.table.last_accepted(p.full.as_str());
                let within = match last {
                    Some(t) => now < t || now - t < WINDOW_NANOS,
                    None => false,
                };
                if within {
                    assert(res == (self@, None::<(Seq<char>, ChangeType, Seq<char>)>));
                    return None;
                }
                self.table.record(p.full.as_str(), now);
                let ct = match event.kind {
                    RawKind::Create => ChangeType::FileAdded,
                    RawKind::Modify => ChangeType::FileModified,
                    RawKind::Remove => ChangeType::FileRemoved,
                    RawKind::Other => {
                        return None;
                    },
                };
                let n = p.parts.len();
                if n < 2 {
                    return None;
                }
                Some(
                    ResourceChange {
                        resource_name: p.parts[n - 2].clone(),
                        change_type: ct,
                        file_path: p.full.clone(),
                    },
                )
            },
        }
    }
}

} // verus!
