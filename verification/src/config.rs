//! Podium configuration model: `projects.toml` and `kb_sources.toml`.
//!
//! The two global config files live in the Podium config directory and are
//! the source of truth for all registered projects and knowledge base
//! sources. This module holds their data model and the logic on it; reading
//! and writing the files is done by the application around the library.
//!
//! Credentials (PATs, API keys) are never part of this model — they live in
//! the operating system's credential store.

use vstd::prelude::*;

use crate::text::{lemma_position_of, position_of, str_eq};

verus! {

// ---------------------------------------------------------------------------
// Directory helpers
// ---------------------------------------------------------------------------

/// Whether `c` separates path components on some platform Podium runs on.
pub open spec fn is_path_separator(c: char) -> bool {
    c == '/' || c == '\\'
}

/// Whether `s` is a Windows verbatim path (`\\?\...`), which `Path::join`
/// normalizes.
pub open spec fn is_verbatim_path(s: Seq<char>) -> bool {
    s.len() >= 4 && s[0] == '\\' && s[1] == '\\' && s[2] == '?' && s[3] == '\\'
}

/// A single plain path component: not empty, no separator, no drive colon.
pub open spec fn is_plain_component(s: Seq<char>) -> bool {
    s.len() > 0 && forall|i: int| 0 <= i < s.len() ==> !is_path_separator(#[trigger] s[i]) && s[i] != ':'
}

/// `base` joined with the plain component `name` by `Path::join`. An empty
/// base gives `name`. A base without a backslash and `:` (a path that reads the same
/// on every platform) gets `name` appended directly when it ends in `/`, and
/// otherwise after exactly one separator, the platform's. For other bases
/// (Windows forms: backslashes, drives) the separator choice is the
/// platform's own: `name` appended directly (after a separator or a bare
/// drive) or after one separator.
pub open spec fn joined_with(res: Seq<char>, base: Seq<char>, name: Seq<char>) -> bool {
    if base.len() == 0 {
        res == name
    } else if !base.contains('\\') && !base.contains(':') {
        if base.last() == '/' {
            res == base + name
        } else {
            exists|c: char| is_path_separator(c) && res == base + seq![c] + name
        }
    } else {
        res == base + name || exists|c: char| is_path_separator(c) && res == base + seq![c] + name
    }
}

/// `std::path::Path::join` with a plain relative component. Its documentation
/// states that the component is appended to the path after a separator when
/// the path does not already end in one (an empty path gets none); the
/// separator is the platform's, and on Windows a bare drive (`C:`) gets none.
/// A verbatim Windows base path is normalized by `join`, so the clause is
/// stated only for other bases.
#[verifier::external_body]
pub(crate) fn join_path(base: &str, name: &str) -> (res: String)
    requires
        is_plain_component(name@),
    ensures
        !is_verbatim_path(base@) ==> joined_with(res@, base@, name@),
{
    std::path::Path::new(base).join(name).to_string_lossy().into_owned()
}

/// The Podium config directory: `podium` under the user's application data
/// directory (`%APPDATA%` on Windows), or under the current directory when
/// that is not known.
pub fn podium_config_dir(appdata: Option<&str>) -> (dir: String)
    ensures
        match appdata {
            Some(a) => !is_verbatim_path(a@) ==> joined_with(dir@, a@, "podium"@),
            None => joined_with(dir@, "."@, "podium"@),
        },
{
    proof {
        reveal_strlit("podium");
        reveal_strlit(".");
    }
    match appdata {
        Some(a) => join_path(a, "podium"),
        None => join_path(".", "podium"),
    }
}

/// The path of `projects.toml` in the config directory `config_dir`.
pub fn projects_toml_path(config_dir: &str) -> (path: String)
    ensures
        !is_verbatim_path(config_dir@) ==> joined_with(path@, config_dir@, "projects.toml"@),
{
    proof {
        reveal_strlit("projects.toml");
    }
    join_path(config_dir, "projects.toml")
}

/// The path of `kb_sources.toml` in the config directory `config_dir`.
pub fn kb_sources_toml_path(config_dir: &str) -> (path: String)
    ensures
        !is_verbatim_path(config_dir@) ==> joined_with(path@, config_dir@, "kb_sources.toml"@),
{
    proof {
        reveal_strlit("kb_sources.toml");
    }
    join_path(config_dir, "kb_sources.toml")
}

// ---------------------------------------------------------------------------
// Timestamps
// ---------------------------------------------------------------------------

/// A UTC instant: whole seconds since the Unix epoch and the nanoseconds since
/// the last second boundary (above 999,999,999 only during a leap second).
#[derive(Clone, Copy, Debug, PartialEq, Eq)]
pub struct Timestamp {
    pub secs: i64,
    pub nanos: u32,
}

/// Rank of an optional instant in recency order: later instants rank higher,
/// ordered by seconds then nanoseconds as `DateTime<Utc>` orders them; no
/// instant ranks below every instant.
pub open spec fn recency(t: Option<Timestamp>) -> int {
    match t {
        Some(t) => t.secs * 4294967296 + t.nanos,
        None => -79228162514264337593543950336,
    }
}

/// Whether `a` is strictly more recent than `b`.
pub fn more_recent(a: Option<Timestamp>, b: Option<Timestamp>) -> (r: bool)
    ensures
        r == (recency(a) > recency(b)),
{
    match (a, b) {
        (Some(x), Some(y)) => x.secs > y.secs || (x.secs == y.secs && x.nanos > y.nanos),
        (Some(_), None) => true,
        (None, _) => false,
    }
}

/// `std::time::SystemTime::now().duration_since(UNIX_EPOCH)`, as whole
/// seconds and the nanoseconds below a second; none when the system clock is
/// set before the Unix epoch. The instant read depends on when the call is
/// made and is not stated; only the form: the nanoseconds are below one
/// second, as `Duration::subsec_nanos` documents.
#[verifier::external_body]
fn clock_since_epoch() -> (r: Option<(u64, u32)>)
    ensures
        r matches Some((_secs, nanos)) ==> nanos < 1_000_000_000,
{
    match std::time::SystemTime::now().duration_since(std::time::UNIX_EPOCH) {
        Ok(d) => Some((d.as_secs(), d.subsec_nanos())),
        Err(_) => None,
    }
}

/// Whether chrono can hold the UTC instant `secs` seconds and `nanos`
/// nanoseconds after the Unix epoch as a `DateTime<Utc>`.
pub uninterp spec fn utc_representable(secs: i64, nanos: u32) -> bool;

/// `chrono::DateTime::from_timestamp(secs, nanos)`: the instant as chrono's
/// `DateTime<Utc>` when chrono can hold it, read back as seconds and
/// nanoseconds. chrono documents that it returns none on an out-of-range
/// number of seconds or an invalid nanosecond count, and otherwise the
/// instant those numbers give, which its `timestamp` and
/// `timestamp_subsec_nanos` give back.
#[verifier::external_body]
fn utc_instant(secs: i64, nanos: u32) -> (r: Option<Timestamp>)
    ensures
        r is Some <==> utc_representable(secs, nanos),
        r matches Some(t) ==> t == (Timestamp { secs, nanos }),
{
    match chrono::DateTime::from_timestamp(secs, nanos) {
        Some(t) => Some(Timestamp { secs: t.timestamp(), nanos: t.timestamp_subsec_nanos() }),
        None => None,
    }
}

/// A UTC instant that a `DateTime<Utc>` holds: whole seconds since the
/// epoch and fewer than a billion nanoseconds.
pub open spec fn is_clock_instant(t: Timestamp) -> bool {
    t.nanos < 1_000_000_000 && utc_representable(t.secs, t.nanos)
}

/// The current UTC instant, as the system clock gives it; none when the clock
/// reads before the Unix epoch or beyond what chrono can hold.
fn utc_now() -> (t: Option<Timestamp>)
    ensures
        t matches Some(t) ==> is_clock_instant(t),
{
    match clock_since_epoch() {
        Some((secs, nanos)) => if secs <= 9_223_372_036_854_775_807u64 {
            utc_instant(secs as i64, nanos)
        } else {
            None
        },
        None => None,
    }
}

// ---------------------------------------------------------------------------
// projects.toml
// ---------------------------------------------------------------------------

/// Root of `projects.toml`: all registered projects.
#[derive(Clone, Debug, PartialEq, Eq)]
pub struct ProjectsConfig {
    pub projects: Vec<ProjectEntry>,
}

/// A single registered project.
#[derive(Clone, Debug, PartialEq, Eq)]
pub struct ProjectEntry {
    /// Unique project identifier, the key for credentials, dock state and all
    /// per-project lookups.
    pub id: String,
    /// Display name in the project switcher and title bar.
    pub name: String,
    /// Absolute path to the project root.
    pub path: String,
    /// Time of the last project load; `None` for a project never loaded.
    pub last_opened: Option<Timestamp>,
    /// Git authentication; `None` when onboarding skipped it.
    pub git: Option<GitConfig>,
    /// Knowledge base sources connected to this project.
    pub kb_connections: Vec<KbConnection>,
    /// The project's agent roster.
    pub agents: Vec<AgentEntry>,
    /// External service connections for the Health tab.
    pub services: Vec<ServiceEntry>,
}

/// Git authentication for a project: `auth` is `"ssh"` or `"https"`;
/// `account` is the SSH host alias or the HTTPS user name.
#[derive(Clone, Debug, PartialEq, Eq)]
pub struct GitConfig {
    pub auth: String,
    pub account: Option<String>,
    pub remote: Option<String>,
}

/// A knowledge base source connected to a project, by its id in
/// `kb_sources.toml`, with an optional provider namespace (a MemPalace wing).
#[derive(Clone, Debug, PartialEq, Eq)]
pub struct KbConnection {
    pub source_id: String,
    pub wing: Option<String>,
}

/// A configured agent in a project's roster.
#[derive(Clone, Debug, PartialEq, Eq)]
pub struct AgentEntry {
    pub id: String,
    pub name: String,
    pub purpose: Option<String>,
    pub provider: String,
    pub model: Option<String>,
    pub endpoint: Option<String>,
    pub kb_sources: Vec<String>,
}

/// An external service connection for the Health tab.
#[derive(Clone, Debug, PartialEq, Eq)]
pub struct ServiceEntry {
    pub service_type: String,
    pub name: String,
    pub url: Option<String>,
    pub project_id: Option<String>,
}

/// The ids of `projects`, in order.
pub open spec fn project_ids(projects: Seq<ProjectEntry>) -> Seq<Seq<char>> {
    projects.map_values(|p: ProjectEntry| p.id@)
}

/// `p` with `last_opened` set to `when`.
pub open spec fn touched(p: ProjectEntry, when: Timestamp) -> ProjectEntry {
    ProjectEntry {
        id: p.id,
        name: p.name,
        path: p.path,
        last_opened: Some(when),
        git: p.git,
        kb_connections: p.kb_connections,
        agents: p.agents,
        services: p.services,
    }
}

/// `projects` after touching the first project with id `id` at `when`: that
/// project gets `last_opened == Some(when)`; nothing else changes, and nothing
/// at all when no project has that id.
pub open spec fn touched_projects(projects: Seq<ProjectEntry>, id: Seq<char>, when: Timestamp) -> Seq<
    ProjectEntry,
> {
    let k = position_of(project_ids(projects), id);
    if k < projects.len() {
        projects.update(k as int, touched(projects[k as int], when))
    } else {
        projects
    }
}

impl Default for ProjectsConfig {
    /// An empty config: no projects registered.
    fn default() -> (c: Self)
        ensures
            c.projects@ == Seq::<ProjectEntry>::empty(),
    {
        ProjectsConfig { projects: Vec::new() }
    }
}

impl ProjectsConfig {
    /// Index of the first project whose id is `id`, or the number of projects.
    fn index_of(&self, id: &str) -> (i: usize)
        ensures
            i == position_of(project_ids(self.projects@), id@),
            i <= self.projects.len(),
    {
        let ghost ids = project_ids(self.projects@);
        let mut i: usize = 0;
        while i < self.projects.len()
            invariant
                i <= self.projects.len(),
                ids == project_ids(self.projects@),
                forall|j: int| 0 <= j < i ==> ids[j] != id@,
            decreases self.projects.len() - i,
        {
            if str_eq(self.projects[i].id.as_str(), id) {
                proof {
                    lemma_position_of(ids, id@, i as int);
                }
                return i;
            }
            i += 1;
        }
        proof {
            lemma_position_of(ids, id@, i as int);
        }
        i
    }

    /// Find a project by id: the first one with that id.
    pub fn find_project(&self, id: &str) -> (r: Option<&ProjectEntry>)
        ensures
            ({
                let k = position_of(project_ids(self.projects@), id@);
                match r {
                    Some(p) => k < self.projects.len() && *p == self.projects@[k as int],
                    None => k == self.projects.len(),
                }
            }),
    {
        let i = self.index_of(id);
        if i < self.projects.len() {
            Some(&self.projects[i])
        } else {
            None
        }
    }

    /// Find a project by id, for update in place: the first one with that id.
    pub fn find_project_mut(&mut self, id: &str) -> (r: Option<&mut ProjectEntry>)
        ensures
            ({
                let k = position_of(project_ids(old(self).projects@), id@);
                match r {
                    Some(p) => k < old(self).projects.len() && *p == old(self).projects@[k as int]
                        && final(self).projects@ == old(self).projects@.update(k as int, *final(p)),
                    None => k == old(self).projects.len() && *final(self) == *old(self),
                }
            }),
    {
        let i = self.index_of(id);
        if i < self.projects.len() {
            Some(&mut self.projects[i])
        } else {
            None
        }
    }

    /// Add a new project entry after the existing ones. The file is not
    /// written here.
    pub fn add_project(&mut self, project: ProjectEntry)
        ensures
            final(self).projects@ == old(self).projects@.push(project),
    {
        self.projects.push(project);
    }

    /// Set `last_opened` of the first project with id `id` to `when`; other
    /// projects, and all when none has that id, are unchanged.
    pub fn touch_project_at(&mut self, id: &str, when: Timestamp)
        ensures
            final(self).projects@ == touched_projects(old(self).projects@, id@, when),
    {
        let i = self.index_of(id);
        if i < self.projects.len() {
            let mut p = self.projects.remove(i);
            p.last_opened = Some(when);
            self.projects.insert(i, p);
            proof {
                assert(self.projects@ =~= old(self).projects@.update(
                    i as int,
                    touched(old(self).projects@[i as int], when),
                ));
            }
        }
    }

    /// Update `last_opened` of the project with `id` to the current time,
    /// when the system clock can be read as a UTC instant (not before 1970);
    /// returns whether it could. The file is not written here.
    pub fn touch_project(&mut self, id: &str) -> (read: bool)
        ensures
            read ==> exists|when: Timestamp|
                is_clock_instant(when) && final(self).projects@ == #[trigger] touched_projects(
                    old(self).projects@,
                    id@,
                    when,
                ),
            !read ==> final(self).projects@ == old(self).projects@,
    {
        match utc_now() {
            Some(now) => {
                self.touch_project_at(id, now);
                true
            },
            None => false,
        }
    }
}


// ---------------------------------------------------------------------------
// Most-recently-used order
// ---------------------------------------------------------------------------

/// In MRU order, project `i` of `ps` comes before project `j`: it was opened
/// more recently, or as recently (both never) and it is stored first.
pub open spec fn mru_before(ps: Seq<ProjectEntry>, i: int, j: int) -> bool {
    recency(ps[i].last_opened) > recency(ps[j].last_opened) || (recency(ps[i].last_opened)
        == recency(ps[j].last_opened) && i < j)
}

/// `idx` lists every index of `ps` once, in MRU order: most recent first,
/// never-opened projects last, ties in stored order.
pub open spec fn is_mru_order(ps: Seq<ProjectEntry>, idx: Seq<int>) -> bool {
    &&& idx.len() == ps.len()
    &&& forall|k: int| 0 <= k < idx.len() ==> 0 <= #[trigger] idx[k] < ps.len()
    &&& forall|a: int, b: int|
        0 <= a < b < idx.len() ==> mru_before(ps, #[trigger] idx[a], #[trigger] idx[b])
}

/// Each position of `ps` occurs in `idx` exactly once: `idx` is a permutation.
pub proof fn lemma_mru_order_is_permutation(ps: Seq<ProjectEntry>, idx: Seq<int>)
    requires
        is_mru_order(ps, idx),
    ensures
        forall|a: int, b: int|
            0 <= a < idx.len() && 0 <= b < idx.len() && a != b ==> idx[a] != idx[b],
        forall|i: int| 0 <= i < ps.len() ==> idx.contains(i),
{
    assert forall|a: int, b: int|
        0 <= a < idx.len() && 0 <= b < idx.len() && a != b implies idx[a] != idx[b] by {
        if a < b {
            assert(mru_before(ps, idx[a], idx[b]));
        } else {
            assert(mru_before(ps, idx[b], idx[a]));
        }
    }
    assert forall|i: int| 0 <= i < ps.len() implies idx.contains(i) by {
        lemma_injective_covers(idx, ps.len() as int, i);
    }
}

/// An injective sequence of `n` values in `0..n` holds every value in `0..n`.
proof fn lemma_injective_covers(idx: Seq<int>, n: int, v: int)
    requires
        idx.len() == n,
        0 <= v < n,
        forall|k: int| 0 <= k < n ==> 0 <= #[trigger] idx[k] < n,
        forall|a: int, b: int| 0 <= a < n && 0 <= b < n && a != b ==> idx[a] != idx[b],
    ensures
        idx.contains(v),
    decreases n,
{
    if idx.contains(v) {
    } else if n == 1 {
        assert(idx[0] == v);
    } else if idx.contains(n - 1) {
        // Remove the value n - 1; the rest is injective into 0..n-1 and lacks v.
        let p = choose|p: int| 0 <= p < n && #[trigger] idx[p] == n - 1;
        let rest = idx.remove(p);
        assert forall|k: int| 0 <= k < n - 1 implies 0 <= #[trigger] rest[k] < n - 1 by {
            if k < p {
                assert(rest[k] == idx[k]);
                assert(idx[k] != idx[p]);
            } else {
                assert(rest[k] == idx[k + 1]);
                assert(idx[k + 1] != idx[p]);
            }
        }
        assert forall|a: int, b: int|
            0 <= a < n - 1 && 0 <= b < n - 1 && a != b implies rest[a] != rest[b] by {
            let a2 = if a < p { a } else { a + 1 };
            let b2 = if b < p { b } else { b + 1 };
            assert(rest[a] == idx[a2] && rest[b] == idx[b2]);
        }
        assert(v != n - 1);
        lemma_injective_covers(rest, n - 1, v);
        let q = choose|q: int| 0 <= q < n - 1 && #[trigger] rest[q] == v;
        if q < p {
            assert(idx[q] == v);
        } else {
            assert(idx[q + 1] == v);
        }
    } else {
        // All n values lie in 0..n-1: dropping the last leaves n-1 values
        // injective into 0..n-1 that miss the last one.
        let rest = idx.drop_last();
        let last = idx[n - 1];
        assert forall|k: int| 0 <= k < n - 1 implies 0 <= #[trigger] rest[k] < n - 1 by {
            assert(rest[k] == idx[k]);
            if idx[k] == n - 1 {
                assert(idx.contains(n - 1));
            }
        }
        assert(0 <= last < n - 1) by {
            if last == n - 1 {
                assert(idx.contains(n - 1));
            }
        }
        assert forall|a: int, b: int|
            0 <= a < n - 1 && 0 <= b < n - 1 && a != b implies rest[a] != rest[b] by {
            assert(rest[a] == idx[a] && rest[b] == idx[b]);
        }
        lemma_injective_covers(rest, n - 1, last);
        let q = choose|q: int| 0 <= q < n - 1 && #[trigger] rest[q] == last;
        assert(idx[q] == idx[n - 1]);
    }
}

/// The MRU order of a project list is unique.
pub proof fn lemma_mru_order_unique(ps: Seq<ProjectEntry>, a: Seq<int>, b: Seq<int>)
    requires
        is_mru_order(ps, a),
        is_mru_order(ps, b),
    ensures
        a == b,
{
    lemma_mru_order_is_permutation(ps, a);
    lemma_mru_order_is_permutation(ps, b);
    assert forall|k: int| 0 <= k < a.len() implies a[k] == b[k] by {
        lemma_sorted_same_elements_agree(ps, a, b, k);
    }
    assert(a =~= b);
}

/// Two MRU-sorted permutations agree at each position: by strong induction
/// on the position, the earliest remaining index is the unique least one.
proof fn lemma_sorted_same_elements_agree(ps: Seq<ProjectEntry>, a: Seq<int>, b: Seq<int>, k: int)
    requires
        is_mru_order(ps, a),
        is_mru_order(ps, b),
        forall|i: int| 0 <= i < ps.len() ==> a.contains(i),
        forall|i: int| 0 <= i < ps.len() ==> b.contains(i),
        0 <= k < a.len(),
    ensures
        a[k] == b[k],
    decreases k,
{
    let x = a[k];
    let y = b[k];
    assert(b.contains(x));
    let q = choose|q: int| 0 <= q < b.len() && #[trigger] b[q] == x;
    assert(a.contains(y));
    let r = choose|r: int| 0 <= r < a.len() && #[trigger] a[r] == y;
    if q < k {
        lemma_sorted_same_elements_agree(ps, a, b, q);
        assert(mru_before(ps, a[q], a[k]));
    }
    if r < k {
        lemma_sorted_same_elements_agree(ps, a, b, r);
        assert(mru_before(ps, b[r], b[k]));
    }
    if x != y {
        if q > k {
            assert(mru_before(ps, y, x));
        }
        if r > k {
            assert(mru_before(ps, x, y));
        }
    }
}


impl ProjectsConfig {
    /// Projects sorted by `last_opened`, most recent first. Projects that
    /// were never opened come last; projects opened at the same instant keep
    /// their stored order.
    pub fn projects_mru(&self) -> (sorted: Vec<&ProjectEntry>)
        ensures
            sorted.len() == self.projects.len(),
            exists|idx: Seq<int>|
                is_mru_order(self.projects@, idx) && forall|k: int|
                    0 <= k < sorted.len() ==> *sorted@[k] == self.projects@[#[trigger] idx[k]],
    {
        let ghost ps = self.projects@;
        let n = self.projects.len();
        let mut order: Vec<usize> = Vec::new();
        let mut i: usize = 0;
        while i < n
            invariant
                i <= n == self.projects.len(),
                ps == self.projects@,
                order.len() == i,
                forall|k: int| 0 <= k < i ==> #[trigger] order@[k] < i,
                forall|a: int, b: int|
                    0 <= a < b < i ==> mru_before(
                        ps,
                        #[trigger] order@[a] as int,
                        #[trigger] order@[b] as int,
                    ),
            decreases n - i,
        {
            // Insert i before the first entry that it is more recent than.
            let mut p: usize = 0;
            while p < order.len() && !more_recent(
                self.projects[i].last_opened,
                self.projects[order[p]].last_opened,
            )
                invariant
                    p <= order.len() == i,
                    i < n == self.projects.len(),
                    ps == self.projects@,
                    forall|k: int| 0 <= k < i ==> #[trigger] order@[k] < i,
                    forall|k: int| 0 <= k < p ==> mru_before(ps, #[trigger] order@[k] as int, i as int),
                decreases i - p,
            {
                p += 1;
            }
            let ghost old_order = order@;
            proof {
                if p < i {
                    assert forall|k: int| p <= k < i implies mru_before(
                        ps,
                        i as int,
                        #[trigger] old_order[k] as int,
                    ) by {
                        if k > p {
                            assert(mru_before(ps, old_order[p as int] as int, old_order[k] as int));
                        }
                    }
                }
            }
            order.insert(p, i);
            proof {
                assert(order@ =~= old_order.insert(p as int, i));
                assert forall|a: int, b: int| 0 <= a < b < i + 1 implies mru_before(
                    ps,
                    #[trigger] order@[a] as int,
                    #[trigger] order@[b] as int,
                ) by {
                    if b < p {
                        assert(order@[a] == old_order[a] && order@[b] == old_order[b]);
                    } else if a < p && b == p {
                        assert(order@[a] == old_order[a]);
                    } else if a < p && b > p {
                        assert(order@[a] == old_order[a] && order@[b] == old_order[b - 1]);
                    } else if a == p {
                        assert(order@[b] == old_order[b - 1]);
                    } else {
                        assert(order@[a] == old_order[a - 1] && order@[b] == old_order[b - 1]);
                    }
                }
                assert forall|k: int| 0 <= k < i + 1 implies #[trigger] order@[k] < i + 1 by {
                    if k < p {
                        assert(order@[k] == old_order[k]);
                    } else if k > p {
                        assert(order@[k] == old_order[k - 1]);
                    }
                }
            }
            i += 1;
        }
        let mut sorted: Vec<&ProjectEntry> = Vec::new();
        let mut k: usize = 0;
        while k < n
            invariant
                k <= n == self.projects.len() == order.len(),
                ps == self.projects@,
                sorted.len() == k,
                forall|j: int| 0 <= j < n ==> #[trigger] order@[j] < n,
                forall|j: int| 0 <= j < k ==> *sorted@[j] == ps[#[trigger] order@[j] as int],
            decreases n - k,
        {
            sorted.push(&self.projects[order[k]]);
            k += 1;
        }
        let ghost idx = order@.map_values(|x: usize| x as int);
        assert(is_mru_order(ps, idx)) by {
            assert forall|a: int, b: int| 0 <= a < b < idx.len() implies mru_before(
                ps,
                #[trigger] idx[a],
                #[trigger] idx[b],
            ) by {
                assert(mru_before(ps, order@[a] as int, order@[b] as int));
            }
        }
        assert forall|j: int| 0 <= j < sorted.len() implies *sorted@[j] == ps[#[trigger] idx[j]] by {
            assert(*sorted@[j] == ps[order@[j] as int]);
        }
        sorted
    }
}

// ---------------------------------------------------------------------------
// Laws
// ---------------------------------------------------------------------------

/// In MRU order, recency never increases along the list; projects never
/// opened come after every opened one; projects opened at the same instant
/// keep their stored order.
pub proof fn lemma_mru_order_properties(ps: Seq<ProjectEntry>, idx: Seq<int>, a: int, b: int)
    requires
        is_mru_order(ps, idx),
        0 <= a < b < idx.len(),
    ensures
        recency(ps[idx[a]].last_opened) >= recency(ps[idx[b]].last_opened),
        ps[idx[a]].last_opened is None ==> ps[idx[b]].last_opened is None,
        recency(ps[idx[a]].last_opened) == recency(ps[idx[b]].last_opened) ==> idx[a] < idx[b],
{
    assert(mru_before(ps, idx[a], idx[b]));
    if ps[idx[a]].last_opened is None && ps[idx[b]].last_opened is Some {
        let t = ps[idx[b]].last_opened->0;
        assert(t.secs * 4294967296 + t.nanos > -79228162514264337593543950336) by (nonlinear_arith)
            requires
                t.secs >= -9223372036854775808,
                t.nanos >= 0,
        ;
    }
}

/// A project added under an id that no registered project has is the one
/// `find_project` finds under that id.
pub proof fn lemma_find_after_add(projects: Seq<ProjectEntry>, p: ProjectEntry)
    requires
        !project_ids(projects).contains(p.id@),
    ensures
        position_of(project_ids(projects.push(p)), p.id@) == projects.len(),
{
    let ids = project_ids(projects.push(p));
    assert forall|j: int| 0 <= j < projects.len() implies ids[j] != p.id@ by {
        assert(ids[j] == project_ids(projects)[j]);
    }
    lemma_position_of(ids, p.id@, projects.len() as int);
}

/// Touching a project at an instant more recent than every other project's
/// last opening puts it first in MRU order.
pub proof fn lemma_touched_project_first(
    projects: Seq<ProjectEntry>,
    id: Seq<char>,
    when: Timestamp,
    idx: Seq<int>,
)
    requires
        position_of(project_ids(projects), id) < projects.len(),
        forall|j: int|
            0 <= j < projects.len() && j != position_of(project_ids(projects), id) ==> recency(
                Some(when),
            ) > recency(#[trigger] projects[j].last_opened),
        is_mru_order(touched_projects(projects, id, when), idx),
    ensures
        idx[0] == position_of(project_ids(projects), id),
{
    let k = position_of(project_ids(projects), id) as int;
    let ps = touched_projects(projects, id, when);
    lemma_mru_order_is_permutation(ps, idx);
    assert(idx.contains(k));
    let q = choose|q: int| 0 <= q < idx.len() && #[trigger] idx[q] == k;
    if q > 0 {
        assert(mru_before(ps, idx[0], idx[q]));
        assert(ps[idx[0]] == projects[idx[0]]);
    }
}

// ---------------------------------------------------------------------------
// kb_sources.toml
// ---------------------------------------------------------------------------

/// Root of `kb_sources.toml`: the global knowledge base source library.
#[derive(Clone, Debug, PartialEq, Eq)]
pub struct KbSourcesConfig {
    pub sources: Vec<KbSourceEntry>,
}

/// A knowledge base source in the global library. `provider` is
/// `"mempalace"`, `"obsidian"`, `"notion"` or `"custom"`.
#[derive(Clone, Debug, PartialEq, Eq)]
pub struct KbSourceEntry {
    pub id: String,
    pub name: String,
    pub provider: String,
    pub endpoint: Option<String>,
}

/// The ids of `sources`, in order.
pub open spec fn source_ids(sources: Seq<KbSourceEntry>) -> Seq<Seq<char>> {
    sources.map_values(|s: KbSourceEntry| s.id@)
}

impl Default for KbSourcesConfig {
    /// An empty library.
    fn default() -> (c: Self)
        ensures
            c.sources@ == Seq::<KbSourceEntry>::empty(),
    {
        KbSourcesConfig { sources: Vec::new() }
    }
}

impl KbSourcesConfig {
    /// Find a source by id: the first one with that id.
    pub fn find_source(&self, id: &str) -> (r: Option<&KbSourceEntry>)
        ensures
            ({
                let k = position_of(source_ids(self.sources@), id@);
                match r {
                    Some(s) => k < self.sources.len() && *s == self.sources@[k as int],
                    None => k == self.sources.len(),
                }
            }),
    {
        let ghost ids = source_ids(self.sources@);
        let mut i: usize = 0;
        while i < self.sources.len()
            invariant
                i <= self.sources.len(),
                ids == source_ids(self.sources@),
                forall|j: int| 0 <= j < i ==> ids[j] != id@,
            decreases self.sources.len() - i,
        {
            if str_eq(self.sources[i].id.as_str(), id) {
                proof {
                    lemma_position_of(ids, id@, i as int);
                }
                return Some(&self.sources[i]);
            }
            i += 1;
        }
        proof {
            lemma_position_of(ids, id@, i as int);
        }
        None
    }
}

impl GitConfig {
    /// True if this config uses HTTPS authentication.
    pub fn is_https(&self) -> (b: bool)
        ensures
            b == (self.auth@ == "https"@),
    {
        str_eq(self.auth.as_str(), "https")
    }

    /// True if this config uses SSH authentication.
    pub fn is_ssh(&self) -> (b: bool)
        ensures
            b == (self.auth@ == "ssh"@),
    {
        str_eq(self.auth.as_str(), "ssh")
    }
}

} // verus!
