//! The repository and Perforce directories saved in a workspace's settings,
//! which of them is selected, and the host tokens.
//!
//! Each operation takes the settings as they are stored and gives back the
//! settings to store; the clock reading and a fresh id come in as arguments.
use vstd::prelude::*;
use crate::paths::path_file_name;
use crate::text::{chars_of, concat, lower, lower_of, owned, string_from, trim, trim_of};

verus! {

/// A directory the user saved for one provider.
#[derive(Debug)]
pub struct SavedWorkspaceLocation {
    pub id: String,
    pub path: String,
    pub label: String,
    pub created_at: i64,
    pub last_used_at: i64,
}

pub struct LocationV {
    pub id: Seq<char>,
    pub path: Seq<char>,
    pub label: Seq<char>,
    pub created_at: int,
    pub last_used_at: int,
}

impl View for SavedWorkspaceLocation {
    type V = LocationV;

    open spec fn view(&self) -> LocationV {
        LocationV {
            id: self.id@,
            path: self.path@,
            label: self.label@,
            created_at: self.created_at as int,
            last_used_at: self.last_used_at as int,
        }
    }
}

impl SavedWorkspaceLocation {
    /// A copy of this location.
    pub fn duplicate(&self) -> (r: Self)
        ensures
            r@ == self@,
    {
        SavedWorkspaceLocation {
            id: self.id.clone(),
            path: self.path.clone(),
            label: self.label.clone(),
            created_at: self.created_at,
            last_used_at: self.last_used_at,
        }
    }
}

pub open spec fn location_views(v: Seq<SavedWorkspaceLocation>) -> Seq<LocationV> {
    v.map_values(|l: SavedWorkspaceLocation| l@)
}

pub open spec fn opt_view(o: Option<String>) -> Option<Seq<char>> {
    match o {
        Some(s) => Some(s@),
        None => None,
    }
}

/// The settings of a workspace.
#[derive(Debug)]
pub struct WorkspaceSettings {
    pub saved_git_directories: Vec<SavedWorkspaceLocation>,
    pub saved_p4_directories: Vec<SavedWorkspaceLocation>,
    pub selected_git_directory_id: Option<String>,
    pub selected_p4_directory_id: Option<String>,
    pub github_pat: Option<String>,
    pub gitlab_pat: Option<String>,
    pub gitlab_host_url: Option<String>,
}

pub struct SettingsV {
    pub git: Seq<LocationV>,
    pub p4: Seq<LocationV>,
    pub selected_git: Option<Seq<char>>,
    pub selected_p4: Option<Seq<char>>,
    pub github_pat: Option<Seq<char>>,
    pub gitlab_pat: Option<Seq<char>>,
    pub gitlab_host_url: Option<Seq<char>>,
}

impl View for WorkspaceSettings {
    type V = SettingsV;

    open spec fn view(&self) -> SettingsV {
        SettingsV {
            git: location_views(self.saved_git_directories@),
            p4: location_views(self.saved_p4_directories@),
            selected_git: opt_view(self.selected_git_directory_id),
            selected_p4: opt_view(self.selected_p4_directory_id),
            github_pat: opt_view(self.github_pat),
            gitlab_pat: opt_view(self.gitlab_pat),
            gitlab_host_url: opt_view(self.gitlab_host_url),
        }
    }
}

impl Default for WorkspaceSettings {
    fn default() -> (r: Self)
        ensures
            r@ == (SettingsV {
                git: seq![],
                p4: seq![],
                selected_git: None,
                selected_p4: None,
                github_pat: None,
                gitlab_pat: None,
                gitlab_host_url: None,
            }),
    {
        let r = WorkspaceSettings {
            saved_git_directories: Vec::new(),
            saved_p4_directories: Vec::new(),
            selected_git_directory_id: None,
            selected_p4_directory_id: None,
            github_pat: None,
            gitlab_pat: None,
            gitlab_host_url: None,
        };
        assert(location_views(r.saved_git_directories@) =~= seq![]);
        assert(location_views(r.saved_p4_directories@) =~= seq![]);
        r
    }
}

/// Which kind of directory a location is: a git repository or a Perforce
/// workspace.
#[derive(Debug, Clone, Copy, PartialEq, Eq, Structural)]
pub enum WorkspaceLocationProvider {
    Git,
    P4,
}

impl WorkspaceLocationProvider {
    /// Reads a provider name, ignoring case and surrounding white space:
    /// `git`, or `p4` / `perforce`.
    pub fn parse(value: &str) -> (r: Result<Self, String>)
        ensures
            ({
                let name = lower(trim(value@));
                match r {
                    Ok(WorkspaceLocationProvider::Git) => name == "git"@,
                    Ok(WorkspaceLocationProvider::P4) => name == "p4"@ || name == "perforce"@,
                    Err(e) => name != "git"@ && name != "p4"@ && name != "perforce"@
                        && e@ == "Unsupported workspace provider: "@ + name,
                }
            }),
    {
        let v = chars_of(value);
        let t = trim_of(&v);
        let l = lower_of(&t);
        let name = string_from(&l);
        if crate::text::str_eq(name.as_str(), "git") {
            Ok(WorkspaceLocationProvider::Git)
        } else if crate::text::str_eq(name.as_str(), "p4") || crate::text::str_eq(
            name.as_str(),
            "perforce",
        ) {
            Ok(WorkspaceLocationProvider::P4)
        } else {
            Err(concat("Unsupported workspace provider: ", name.as_str()))
        }
    }
}

// ---------------------------------------------------------------------------
// Model
// ---------------------------------------------------------------------------

/// `x` placed into `s` after every entry used at least as recently.
pub open spec fn insert_by_recency(s: Seq<LocationV>, x: LocationV) -> Seq<LocationV>
    decreases s.len(),
{
    if s.len() == 0 {
        seq![x]
    } else if s[0].last_used_at < x.last_used_at {
        seq![x] + s
    } else {
        seq![s[0]] + insert_by_recency(s.drop_first(), x)
    }
}

/// `s` ordered from the most recently used to the least, entries used at the
/// same time in their original order (a stable sort).
pub open spec fn by_recency(s: Seq<LocationV>) -> Seq<LocationV>
    decreases s.len(),
{
    if s.len() == 0 {
        seq![]
    } else {
        insert_by_recency(by_recency(s.drop_last()), s.last())
    }
}

/// The most recently used come first.
pub open spec fn recency_ordered(s: Seq<LocationV>) -> bool {
    forall|i: int, j: int| 0 <= i < j < s.len() ==> s[i].last_used_at >= s[j].last_used_at
}

/// Two paths name the same directory when they agree up to ASCII case.
pub open spec fn same_path_spec(a: Seq<char>, b: Seq<char>) -> bool {
    lower(a) == lower(b)
}

/// The index of the first entry whose path is `p` up to case, or -1.
pub open spec fn path_index(s: Seq<LocationV>, p: Seq<char>) -> int
    decreases s.len(),
{
    if s.len() == 0 {
        -1
    } else if same_path_spec(s[0].path, p) {
        0
    } else {
        let r = path_index(s.drop_first(), p);
        if r < 0 {
            -1
        } else {
            r + 1
        }
    }
}

/// The index of the first entry with id `id`, or -1.
pub open spec fn id_index(s: Seq<LocationV>, id: Seq<char>) -> int
    decreases s.len(),
{
    if s.len() == 0 {
        -1
    } else if s[0].id == id {
        0
    } else {
        let r = id_index(s.drop_first(), id);
        if r < 0 {
            -1
        } else {
            r + 1
        }
    }
}

pub open spec fn locations_of(s: SettingsV, p: WorkspaceLocationProvider) -> Seq<LocationV> {
    match p {
        WorkspaceLocationProvider::Git => s.git,
        WorkspaceLocationProvider::P4 => s.p4,
    }
}

pub open spec fn selected_of(s: SettingsV, p: WorkspaceLocationProvider) -> Option<Seq<char>> {
    match p {
        WorkspaceLocationProvider::Git => s.selected_git,
        WorkspaceLocationProvider::P4 => s.selected_p4,
    }
}

/// `s` with the list and the selection of provider `p` replaced.
pub open spec fn with_provider(
    s: SettingsV,
    p: WorkspaceLocationProvider,
    locs: Seq<LocationV>,
    sel: Option<Seq<char>>,
) -> SettingsV {
    match p {
        WorkspaceLocationProvider::Git => SettingsV { git: locs, selected_git: sel, ..s },
        WorkspaceLocationProvider::P4 => SettingsV { p4: locs, selected_p4: sel, ..s },
    }
}

/// The settings after saving the directory `path` (already trimmed) with
/// label `label`: an entry with the same path (up to case) is refreshed and
/// selected, else a new entry with id `new_id` is added and selected; the list
/// is then ordered by recency.
pub open spec fn saved_settings(
    s: SettingsV,
    p: WorkspaceLocationProvider,
    path: Seq<char>,
    label: Seq<char>,
    now: int,
    new_id: Seq<char>,
) -> SettingsV {
    let locs = locations_of(s, p);
    let i = path_index(locs, path);
    if i >= 0 {
        let old = locs[i];
        let entry = LocationV {
            id: old.id,
            path,
            label,
            created_at: old.created_at,
            last_used_at: now,
        };
        with_provider(s, p, by_recency(locs.update(i, entry)), Some(old.id))
    } else {
        let entry = LocationV { id: new_id, path, label, created_at: now, last_used_at: now };
        with_provider(s, p, by_recency(locs.push(entry)), Some(new_id))
    }
}

/// The id a selection request names: the trimmed id, or nothing when it is
/// absent or blank.
pub open spec fn requested_id(id: Option<Seq<char>>) -> Option<Seq<char>> {
    match id {
        Some(x) => if trim(x).len() > 0 {
            Some(trim(x))
        } else {
            None
        },
        None => None,
    }
}

/// The settings after selecting `id` (see `requested_id`) at time `now`.
pub open spec fn selected_settings(
    s: SettingsV,
    p: WorkspaceLocationProvider,
    id: Option<Seq<char>>,
    now: int,
) -> Option<SettingsV> {
    let locs = locations_of(s, p);
    match requested_id(id) {
        Some(x) => {
            let i = id_index(locs, x);
            if i < 0 {
                None
            } else {
                let old = locs[i];
                let entry = LocationV { last_used_at: now, ..old };
                Some(with_provider(s, p, by_recency(locs.update(i, entry)), Some(x)))
            }
        },
        None => Some(with_provider(s, p, locs, None)),
    }
}

/// The entries of `s` whose id is not `id`.
pub open spec fn without_id(s: Seq<LocationV>, id: Seq<char>) -> Seq<LocationV>
    decreases s.len(),
{
    if s.len() == 0 {
        seq![]
    } else if s.last().id == id {
        without_id(s.drop_last(), id)
    } else {
        without_id(s.drop_last(), id).push(s.last())
    }
}

/// The settings after removing the entries with id `id` (already trimmed);
/// the selection is cleared when it was `id`.
pub open spec fn removed_settings(s: SettingsV, p: WorkspaceLocationProvider, id: Seq<char>) -> SettingsV {
    let sel = match selected_of(s, p) {
        Some(x) => if x == id {
            None
        } else {
            Some(x)
        },
        None => None,
    };
    with_provider(s, p, without_id(locations_of(s, p), id), sel)
}

// ---------------------------------------------------------------------------
// Lemmas
// ---------------------------------------------------------------------------

/// `insert_by_recency` puts `x` at the first entry used less recently.
proof fn lemma_insert_at(s: Seq<LocationV>, x: LocationV, k: int)
    requires
        0 <= k <= s.len(),
        forall|j: int| 0 <= j < k ==> s[j].last_used_at >= x.last_used_at,
        k < s.len() ==> s[k].last_used_at < x.last_used_at,
    ensures
        insert_by_recency(s, x) == s.take(k) + seq![x] + s.skip(k),
    decreases s.len(),
{
    if s.len() == 0 {
        assert(s.take(k) + seq![x] + s.skip(k) =~= seq![x]);
    } else if k == 0 {
        assert(s.take(k) + seq![x] + s.skip(k) =~= seq![x] + s);
    } else {
        let t = s.drop_first();
        assert forall|j: int| 0 <= j < k - 1 implies t[j].last_used_at >= x.last_used_at by {
            assert(t[j] == s[j + 1]);
        }
        lemma_insert_at(t, x, k - 1);
        assert(s.take(k) + seq![x] + s.skip(k) =~= seq![s[0]] + (t.take(k - 1) + seq![x] + t.skip(
            k - 1,
        )));
    }
}

proof fn lemma_insert_ordered(s: Seq<LocationV>, x: LocationV)
    requires
        recency_ordered(s),
    ensures
        recency_ordered(insert_by_recency(s, x)),
        insert_by_recency(s, x).to_multiset() == s.to_multiset().insert(x),
        insert_by_recency(s, x).len() == s.len() + 1,
    decreases s.len(),
{
    broadcast use vstd::seq_lib::group_to_multiset_ensures;

    let r = insert_by_recency(s, x);
    if s.len() == 0 {
        assert(seq![x] =~= seq![].push(x));
        assert(s =~= seq![]);
    } else if s[0].last_used_at < x.last_used_at {
        vstd::seq_lib::lemma_multiset_commutative(seq![x], s);
        assert(seq![x] =~= seq![].push(x));
        assert(r =~= seq![x] + s);
    } else {
        let t = s.drop_first();
        assert(recency_ordered(t)) by {
            assert forall|i: int, j: int| 0 <= i < j < t.len() implies t[i].last_used_at
                >= t[j].last_used_at by {
                assert(t[i] == s[i + 1] && t[j] == s[j + 1]);
            }
        }
        lemma_insert_ordered(t, x);
        let rt = insert_by_recency(t, x);
        assert(r =~= seq![s[0]] + rt);
        assert forall|i: int, j: int| 0 <= i < j < r.len() implies r[i].last_used_at
            >= r[j].last_used_at by {
            if i == 0 {
                assert(r[j] == rt[j - 1]);
                assert(rt.to_multiset().count(rt[j - 1]) > 0);
                assert(t.to_multiset().insert(x).count(rt[j - 1]) > 0);
                if rt[j - 1] != x {
                    assert(t.to_multiset().count(rt[j - 1]) > 0);
                    assert(t.contains(rt[j - 1]));
                    let m = choose|m: int| 0 <= m < t.len() && t[m] == rt[j - 1];
                    assert(t[m] == s[m + 1]);
                }
            } else {
                assert(r[i] == rt[i - 1] && r[j] == rt[j - 1]);
            }
        }
        vstd::seq_lib::lemma_multiset_commutative(seq![s[0]], rt);
        vstd::seq_lib::lemma_multiset_commutative(seq![s[0]], t);
        assert(seq![s[0]] + t =~= s);
        assert(seq![s[0]] =~= seq![].push(s[0]));
    }
}

/// Ordering by recency keeps the entries and orders them.
pub proof fn law_by_recency(s: Seq<LocationV>)
    ensures
        recency_ordered(by_recency(s)),
        by_recency(s).to_multiset() == s.to_multiset(),
        by_recency(s).len() == s.len(),
    decreases s.len(),
{
    broadcast use vstd::seq_lib::group_to_multiset_ensures;

    if s.len() == 0 {
        assert(by_recency(s) =~= s);
    } else {
        law_by_recency(s.drop_last());
        lemma_insert_ordered(by_recency(s.drop_last()), s.last());
        assert(s.drop_last().push(s.last()) =~= s);
    }
}

proof fn lemma_path_index(s: Seq<LocationV>, p: Seq<char>)
    ensures
        -1 <= path_index(s, p) < s.len(),
        path_index(s, p) >= 0 ==> same_path_spec(s[path_index(s, p)].path, p),
        forall|j: int| 0 <= j < s.len() && (path_index(s, p) < 0 || j < path_index(s, p))
            ==> !same_path_spec(#[trigger] s[j].path, p),
    decreases s.len(),
{
    if s.len() > 0 {
        lemma_path_index(s.drop_first(), p);
        assert forall|j: int| 0 <= j < s.len() && (path_index(s, p) < 0 || j < path_index(s, p))
            implies !same_path_spec(#[trigger] s[j].path, p) by {
            if j > 0 {
                assert(s[j] == s.drop_first()[j - 1]);
            }
        }
    }
}

proof fn lemma_id_index(s: Seq<LocationV>, id: Seq<char>)
    ensures
        -1 <= id_index(s, id) < s.len(),
        id_index(s, id) >= 0 ==> s[id_index(s, id)].id == id,
        forall|j: int| 0 <= j < s.len() && (id_index(s, id) < 0 || j < id_index(s, id))
            ==> #[trigger] s[j].id != id,
    decreases s.len(),
{
    if s.len() > 0 {
        lemma_id_index(s.drop_first(), id);
        assert forall|j: int| 0 <= j < s.len() && (id_index(s, id) < 0 || j < id_index(s, id))
            implies #[trigger] s[j].id != id by {
            if j > 0 {
                assert(s[j] == s.drop_first()[j - 1]);
            }
        }
    }
}

proof fn lemma_without_id(s: Seq<LocationV>, id: Seq<char>)
    ensures
        forall|k: int| 0 <= k < without_id(s, id).len() ==> #[trigger] without_id(s, id)[k].id != id,
        without_id(s, id).len() == s.len() <==> id_index(s, id) < 0,
        without_id(s, id).len() <= s.len(),
    decreases s.len(),
{
    if s.len() > 0 {
        let t = s.drop_last();
        lemma_without_id(t, id);
        lemma_id_index(s, id);
        lemma_id_index(t, id);
        if id_index(t, id) >= 0 {
            let i = id_index(t, id);
            assert(s[i] == t[i]);
        }
        if id_index(s, id) >= 0 && id_index(t, id) < 0 {
            let i = id_index(s, id);
            if i < t.len() {
                assert(s[i] == t[i]);
            }
        }
        if id_index(s, id) < 0 {
            assert(s[s.len() - 1] == s.last());
            assert forall|j: int| 0 <= j < t.len() implies #[trigger] t[j].id != id by {
                assert(t[j] == s[j]);
            }
            if id_index(t, id) >= 0 {
                let i = id_index(t, id);
                assert(t[i].id == id);
            }
        }
    }
}


pub open spec fn other_provider(p: WorkspaceLocationProvider) -> WorkspaceLocationProvider {
    match p {
        WorkspaceLocationProvider::Git => WorkspaceLocationProvider::P4,
        WorkspaceLocationProvider::P4 => WorkspaceLocationProvider::Git,
    }
}

/// Saving a directory selects an entry that holds that path, used at the time
/// of saving; the list stays ordered by recency, grows by one only when the
/// path was not saved before, and the other provider's list and selection are
/// untouched.
pub proof fn law_save_selects_saved_path(
    s: SettingsV,
    p: WorkspaceLocationProvider,
    path: Seq<char>,
    label: Seq<char>,
    now: int,
    new_id: Seq<char>,
)
    ensures
        ({
            let r = saved_settings(s, p, path, label, now, new_id);
            let locs = locations_of(r, p);
            &&& recency_ordered(locs)
            &&& selected_of(r, p) is Some
            &&& exists|k: int|
                0 <= k < locs.len() && #[trigger] locs[k].id == selected_of(r, p).unwrap()
                    && locs[k].path == path && locs[k].last_used_at == now
            &&& locs.len() == locations_of(s, p).len() + (if path_index(locations_of(s, p), path)
                >= 0 {
                0int
            } else {
                1int
            })
            &&& locations_of(r, other_provider(p)) == locations_of(s, other_provider(p))
            &&& selected_of(r, other_provider(p)) == selected_of(s, other_provider(p))
        }),
{
    broadcast use vstd::seq_lib::group_to_multiset_ensures;

    let locs0 = locations_of(s, p);
    let i = path_index(locs0, path);
    lemma_path_index(locs0, path);
    let (changed, entry) = if i >= 0 {
        let old = locs0[i];
        let entry = LocationV {
            id: old.id,
            path,
            label,
            created_at: old.created_at,
            last_used_at: now,
        };
        (locs0.update(i, entry), entry)
    } else {
        let entry = LocationV { id: new_id, path, label, created_at: now, last_used_at: now };
        (locs0.push(entry), entry)
    };
    law_by_recency(changed);
    let sorted = by_recency(changed);
    if i >= 0 {
        assert(changed[i] == entry);
    } else {
        assert(changed[locs0.len() as int] == entry);
    }
    assert(changed.contains(entry));
    assert(changed.to_multiset().count(entry) > 0);
    assert(sorted.to_multiset().count(entry) > 0);
    assert(sorted.contains(entry));
    let k = choose|k: int| 0 <= k < sorted.len() && sorted[k] == entry;
    assert(locations_of(saved_settings(s, p, path, label, now, new_id), p) == sorted);
    assert(sorted[k].id == entry.id);
}

/// Selecting an entry that exists selects it and keeps the list ordered by
/// recency; other entries and the other provider are untouched.
pub proof fn law_select_keeps_order(
    s: SettingsV,
    p: WorkspaceLocationProvider,
    id: Option<Seq<char>>,
    now: int,
)
    requires
        requested_id(id) is Some,
        id_index(locations_of(s, p), requested_id(id).unwrap()) >= 0,
    ensures
        selected_settings(s, p, id, now) matches Some(r) && {
            &&& recency_ordered(locations_of(r, p))
            &&& selected_of(r, p) == requested_id(id)
            &&& locations_of(r, p).len() == locations_of(s, p).len()
            &&& locations_of(r, other_provider(p)) == locations_of(s, other_provider(p))
            &&& selected_of(r, other_provider(p)) == selected_of(s, other_provider(p))
        },
{
    let locs0 = locations_of(s, p);
    let x = requested_id(id).unwrap();
    let i = id_index(locs0, x);
    lemma_id_index(locs0, x);
    let entry = LocationV { last_used_at: now, ..locs0[i] };
    law_by_recency(locs0.update(i, entry));
}

/// After removing an id no entry has it and it is not selected; the other
/// provider is untouched.
pub proof fn law_remove_forgets_id(s: SettingsV, p: WorkspaceLocationProvider, id: Seq<char>)
    ensures
        ({
            let r = removed_settings(s, p, id);
            &&& forall|k: int|
                0 <= k < locations_of(r, p).len() ==> #[trigger] locations_of(r, p)[k].id != id
            &&& selected_of(r, p) != Some(id)
            &&& locations_of(r, p).len() < locations_of(s, p).len() <==> id_index(
                locations_of(s, p),
                id,
            ) >= 0
            &&& locations_of(r, other_provider(p)) == locations_of(s, other_provider(p))
            &&& selected_of(r, other_provider(p)) == selected_of(s, other_provider(p))
        }),
{
    lemma_without_id(locations_of(s, p), id);
}


/// The selection of provider `p` is empty or names a saved entry.
pub open spec fn selection_valid(s: SettingsV, p: WorkspaceLocationProvider) -> bool {
    match selected_of(s, p) {
        Some(x) => exists|k: int| 0 <= k < locations_of(s, p).len() && #[trigger] locations_of(s, p)[k].id == x,
        None => true,
    }
}

proof fn lemma_without_id_keeps(s: Seq<LocationV>, id: Seq<char>, k: int)
    requires
        0 <= k < s.len(),
        s[k].id != id,
    ensures
        exists|m: int| 0 <= m < without_id(s, id).len() && #[trigger] without_id(s, id)[m] == s[k],
    decreases s.len(),
{
    let t = s.drop_last();
    let w = without_id(s, id);
    if k == s.len() - 1 {
        assert(w == without_id(t, id).push(s.last()));
        assert(w[w.len() - 1] == s[k]);
    } else {
        assert(t[k] == s[k]);
        lemma_without_id_keeps(t, id, k);
        let wt = without_id(t, id);
        let m = choose|m: int| 0 <= m < wt.len() && #[trigger] wt[m] == t[k];
        if s.last().id == id {
            assert(w == wt);
        } else {
            assert(w == wt.push(s.last()));
            assert(w[m] == wt[m]);
        }
    }
}

/// Saving, selecting and removing leave the selection empty or naming a
/// saved entry, for both providers, where it was so before.
pub proof fn law_selection_stays_valid(
    s: SettingsV,
    p: WorkspaceLocationProvider,
    q: WorkspaceLocationProvider,
    path: Seq<char>,
    label: Seq<char>,
    now: int,
    new_id: Seq<char>,
    id: Option<Seq<char>>,
    removed: Seq<char>,
)
    requires
        selection_valid(s, q),
    ensures
        selection_valid(saved_settings(s, p, path, label, now, new_id), q),
        selected_settings(s, p, id, now) matches Some(r) ==> selection_valid(r, q),
        selection_valid(removed_settings(s, p, removed), q),
{
    broadcast use vstd::seq_lib::group_to_multiset_ensures;

    law_save_selects_saved_path(s, p, path, label, now, new_id);
    // selecting
    let locs = locations_of(s, p);
    match requested_id(id) {
        Some(x) => {
            let i = id_index(locs, x);
            lemma_id_index(locs, x);
            if i >= 0 {
                let entry = LocationV { last_used_at: now, ..locs[i] };
                let changed = locs.update(i, entry);
                law_by_recency(changed);
                let sorted = by_recency(changed);
                assert(changed[i] == entry);
                assert(changed.contains(entry));
                assert(changed.to_multiset().count(entry) > 0);
                assert(sorted.to_multiset().count(entry) > 0);
                assert(sorted.contains(entry));
                if q != p {
                    assert(locations_of(selected_settings(s, p, id, now)->0, q) == locations_of(s, q));
                } else {
                    let k = choose|k: int| 0 <= k < sorted.len() && sorted[k] == entry;
                    assert(locations_of(selected_settings(s, p, id, now)->0, q)[k].id == x);
                }
            }
        },
        None => {},
    }
    // removing
    let r = removed_settings(s, p, removed);
    if q == p {
        match selected_of(s, p) {
            Some(x) => {
                if x != removed {
                    let k = choose|k: int| 0 <= k < locs.len() && #[trigger] locs[k].id == x;
                    lemma_without_id_keeps(locs, removed, k);
                    let w = without_id(locs, removed);
                    let m = choose|m: int| 0 <= m < w.len() && #[trigger] w[m] == locs[k];
                    assert(locations_of(r, q)[m].id == x);
                }
            },
            None => {},
        }
    } else {
        assert(locations_of(r, q) == locations_of(s, q));
        assert(selected_of(r, q) == selected_of(s, q));
    }
    // saving, the other provider
    if q != p {
        let sv = saved_settings(s, p, path, label, now, new_id);
        assert(locations_of(sv, q) == locations_of(s, q));
        assert(selected_of(sv, q) == selected_of(s, q));
    }
}

// ---------------------------------------------------------------------------
// Executable operations
// ---------------------------------------------------------------------------

/// Whether two paths are the same up to ASCII case (`eq_ignore_ascii_case`).
pub fn same_path(left: &str, right: &str) -> (r: bool)
    ensures
        r == same_path_spec(left@, right@),
{
    let a = chars_of(left);
    let b = chars_of(right);
    let la = lower_of(&a);
    let lb = lower_of(&b);
    crate::text::chars_eq(&la, &lb)
}

fn find_by_path(locs: &Vec<SavedWorkspaceLocation>, path: &str) -> (r: Option<usize>)
    ensures
        match r {
            Some(i) => i < locs@.len() && i == path_index(location_views(locs@), path@),
            None => path_index(location_views(locs@), path@) < 0,
        },
{
    let ghost s = location_views(locs@);
    proof {
        lemma_path_index(s, path@);
    }
    let mut i: usize = 0;
    while i < locs.len()
        invariant
            i <= locs.len(),
            s == location_views(locs@),
            -1 <= path_index(s, path@) < s.len(),
            path_index(s, path@) >= 0 ==> same_path_spec(s[path_index(s, path@)].path, path@),
            forall|j: int| 0 <= j < s.len() && (path_index(s, path@) < 0 || j < path_index(s, path@))
                ==> !same_path_spec(#[trigger] s[j].path, path@),
            forall|j: int| 0 <= j < i ==> !same_path_spec(#[trigger] s[j].path, path@),
        decreases locs.len() - i,
    {
        assert(s[i as int] == locs@[i as int]@);
        if same_path(locs[i].path.as_str(), path) {
            assert(same_path_spec(s[i as int].path, path@));
            return Some(i);
        }
        i = i + 1;
    }
    None
}

fn find_by_id(locs: &Vec<SavedWorkspaceLocation>, id: &str) -> (r: Option<usize>)
    ensures
        match r {
            Some(i) => i < locs@.len() && i == id_index(location_views(locs@), id@),
            None => id_index(location_views(locs@), id@) < 0,
        },
{
    let ghost s = location_views(locs@);
    proof {
        lemma_id_index(s, id@);
    }
    let mut i: usize = 0;
    while i < locs.len()
        invariant
            i <= locs.len(),
            s == location_views(locs@),
            -1 <= id_index(s, id@) < s.len(),
            id_index(s, id@) >= 0 ==> s[id_index(s, id@)].id == id@,
            forall|j: int| 0 <= j < s.len() && (id_index(s, id@) < 0 || j < id_index(s, id@))
                ==> #[trigger] s[j].id != id@,
            forall|j: int| 0 <= j < i ==> #[trigger] s[j].id != id@,
        decreases locs.len() - i,
    {
        assert(s[i as int] == locs@[i as int]@);
        if crate::text::str_eq(locs[i].id.as_str(), id) {
            assert(s[i as int].id == id@);
            return Some(i);
        }
        i = i + 1;
    }
    None
}

/// The locations ordered by recency (see `by_recency`).
pub fn sort_by_recency(locs: &Vec<SavedWorkspaceLocation>) -> (r: Vec<SavedWorkspaceLocation>)
    ensures
        location_views(r@) == by_recency(location_views(locs@)),
{
    let ghost s = location_views(locs@);
    let mut out: Vec<SavedWorkspaceLocation> = Vec::new();
    let mut i: usize = 0;
    assert(s.take(0) =~= seq![]);
    assert(location_views(out@) =~= seq![]);
    while i < locs.len()
        invariant
            i <= locs.len(),
            s == location_views(locs@),
            location_views(out@) == by_recency(s.take(i as int)),
        decreases locs.len() - i,
    {
        let x = locs[i].duplicate();
        let ghost o = location_views(out@);
        proof {
            law_by_recency(s.take(i as int));
        }
        let mut k: usize = 0;
        while k < out.len() && out[k].last_used_at >= x.last_used_at
            invariant
                k <= out.len(),
                o == location_views(out@),
                forall|j: int| 0 <= j < k ==> #[trigger] o[j].last_used_at >= x@.last_used_at,
            decreases out.len() - k,
        {
            assert(o[k as int] == out@[k as int]@);
            k = k + 1;
        }
        proof {
            if k < out.len() {
                assert(o[k as int] == out@[k as int]@);
            }
            lemma_insert_at(o, x@, k as int);
        }
        out.insert(k, x);
        proof {
            assert(location_views(out@) =~= o.take(k as int) + seq![x@] + o.skip(k as int));
            assert(s.take(i + 1).drop_last() =~= s.take(i as int));
            assert(s.take(i + 1).last() == s[i as int]);
        }
        i = i + 1;
    }
    assert(s.take(locs.len() as int) =~= s);
    out
}

fn take_locations(settings: &mut WorkspaceSettings, provider: WorkspaceLocationProvider) -> (r: Vec<
    SavedWorkspaceLocation,
>)
    ensures
        location_views(r@) == locations_of(old(settings)@, provider),
        final(settings)@ == with_provider(old(settings)@, provider, seq![], selected_of(old(settings)@, provider)),
{
    let mut out: Vec<SavedWorkspaceLocation> = Vec::new();
    match provider {
        WorkspaceLocationProvider::Git => std::mem::swap(&mut out, &mut settings.saved_git_directories),
        WorkspaceLocationProvider::P4 => std::mem::swap(&mut out, &mut settings.saved_p4_directories),
    }
    proof {
        let e: Seq<SavedWorkspaceLocation> = seq![];
        assert(location_views(e) =~= seq![]);
    }
    out
}

fn put_locations(
    settings: &mut WorkspaceSettings,
    provider: WorkspaceLocationProvider,
    locs: Vec<SavedWorkspaceLocation>,
    sel: Option<String>,
)
    ensures
        final(settings)@ == with_provider(old(settings)@, provider, location_views(locs@), opt_view(sel)),
{
    match provider {
        WorkspaceLocationProvider::Git => {
            settings.saved_git_directories = locs;
            settings.selected_git_directory_id = sel;
        },
        WorkspaceLocationProvider::P4 => {
            settings.saved_p4_directories = locs;
            settings.selected_p4_directory_id = sel;
        },
    }
}

fn selected_copy(settings: &WorkspaceSettings, provider: WorkspaceLocationProvider) -> (r: Option<String>)
    ensures
        opt_view(r) == selected_of(settings@, provider),
{
    let s = match provider {
        WorkspaceLocationProvider::Git => &settings.selected_git_directory_id,
        WorkspaceLocationProvider::P4 => &settings.selected_p4_directory_id,
    };
    match s {
        Some(x) => Some(x.clone()),
        None => None,
    }
}

/// Saves the directory `path` (already trimmed, and not blank) under the label
/// `label`, at time `now`; `new_id` is the id a new entry gets.
pub fn save_location_with_label(
    settings: WorkspaceSettings,
    provider: WorkspaceLocationProvider,
    path: &str,
    label: String,
    now: i64,
    new_id: String,
) -> (r: WorkspaceSettings)
    ensures
        r@ == saved_settings(settings@, provider, path@, label@, now as int, new_id@),
{
    let mut settings = settings;
    let ghost s0 = settings@;
    let mut locs = take_locations(&mut settings, provider);
    let ghost l0 = location_views(locs@);
    let selected = match find_by_path(&locs, path) {
        Some(i) => {
            let old = locs[i].duplicate();
            let id = old.id.clone();
            let entry = SavedWorkspaceLocation {
                id: old.id,
                path: owned(path),
                label,
                created_at: old.created_at,
                last_used_at: now,
            };
            locs.set(i, entry);
            assert(location_views(locs@) =~= l0.update(i as int, entry@));
            id
        },
        None => {
            let id = new_id.clone();
            let entry = SavedWorkspaceLocation {
                id: new_id,
                path: owned(path),
                label,
                created_at: now,
                last_used_at: now,
            };
            locs.push(entry);
            assert(location_views(locs@) =~= l0.push(entry@));
            id
        },
    };
    let sorted = sort_by_recency(&locs);
    put_locations(&mut settings, provider, sorted, Some(selected));
    settings
}

/// The label shown for a saved directory: the directory's own name where it
/// has a non-blank one, else the whole path.
pub fn label_from(path: &str, file_name: Option<String>) -> (r: String)
    ensures
        r@ == (match file_name {
            Some(n) => if trim(n@).len() > 0 {
                n@
            } else {
                path@
            },
            None => path@,
        }),
{
    match file_name {
        Some(n) => {
            let v = chars_of(n.as_str());
            let t = trim_of(&v);
            if t.len() > 0 {
                n
            } else {
                owned(path)
            }
        },
        None => owned(path),
    }
}

/// The label for a saved directory (see `label_from`).
pub fn display_label(path: &str) -> (r: String)
    ensures
        r@ == path@ || trim(r@).len() > 0,
{
    label_from(path, path_file_name(path))
}

/// Saves the directory `path` for `provider` at time `now`, refreshing and
/// selecting an entry with the same path (up to case) or adding one with id
/// `new_id`; the list is then ordered by recency. A blank path is refused.
pub fn save_location(
    settings: WorkspaceSettings,
    provider: WorkspaceLocationProvider,
    path: &str,
    now: i64,
    new_id: String,
) -> (r: Result<WorkspaceSettings, String>)
    ensures
        trim(path@).len() == 0 <==> r is Err,
        r matches Err(e) ==> e@ == "Workspace path is required"@,
        r matches Ok(s) ==> exists|label: Seq<char>|
            (label == trim(path@) || trim(label).len() > 0) && s@ == saved_settings(
                settings@,
                provider,
                trim(path@),
                label,
                now as int,
                new_id@,
            ),
{
    let v = chars_of(path);
    let t = trim_of(&v);
    if t.len() == 0 {
        return Err(owned("Workspace path is required"));
    }
    let trimmed = string_from(&t);
    let label = display_label(trimmed.as_str());
    let r = save_location_with_label(settings, provider, trimmed.as_str(), label, now, new_id);
    assert(r@ == saved_settings(settings@, provider, trim(path@), label@, now as int, new_id@));
    Ok(r)
}

/// Selects the saved entry with id `location_id` (trimmed) at time `now`, or
/// clears the selection when the id is absent or blank. An id that names no
/// entry is refused.
pub fn select_location(
    settings: WorkspaceSettings,
    provider: WorkspaceLocationProvider,
    location_id: Option<String>,
    now: i64,
) -> (r: Result<WorkspaceSettings, String>)
    ensures
        match selected_settings(settings@, provider, opt_view(location_id), now as int) {
            Some(s) => r matches Ok(x) && x@ == s,
            None => r matches Err(e) && e@ == "Saved workspace location not found"@,
        },
{
    let mut settings = settings;
    let wanted: Option<String> = match location_id {
        Some(x) => {
            let v = chars_of(x.as_str());
            let t = trim_of(&v);
            if t.len() > 0 {
                Some(string_from(&t))
            } else {
                None
            }
        },
        None => None,
    };
    match wanted {
        Some(id) => {
            let mut locs = take_locations(&mut settings, provider);
            let ghost l0 = location_views(locs@);
            match find_by_id(&locs, id.as_str()) {
                Some(i) => {
                    let old = locs[i].duplicate();
                    let entry = SavedWorkspaceLocation {
                        id: old.id,
                        path: old.path,
                        label: old.label,
                        created_at: old.created_at,
                        last_used_at: now,
                    };
                    locs.set(i, entry);
                    assert(location_views(locs@) =~= l0.update(i as int, entry@));
                    let sorted = sort_by_recency(&locs);
                    put_locations(&mut settings, provider, sorted, Some(id));
                    Ok(settings)
                },
                None => Err(owned("Saved workspace location not found")),
            }
        },
        None => {
            let locs = take_locations(&mut settings, provider);
            put_locations(&mut settings, provider, locs, None);
            Ok(settings)
        },
    }
}

/// Removes the saved entries with id `location_id` (trimmed), clearing the
/// selection when it named them. A blank id, or one that names no entry, is
/// refused.
pub fn remove_location(
    settings: WorkspaceSettings,
    provider: WorkspaceLocationProvider,
    location_id: &str,
) -> (r: Result<WorkspaceSettings, String>)
    ensures
        trim(location_id@).len() == 0 ==> (r matches Err(e) && e@
            == "Saved workspace id is required"@),
        trim(location_id@).len() > 0 && id_index(locations_of(settings@, provider), trim(location_id@))
            < 0 ==> (r matches Err(e) && e@ == "Saved workspace location not found"@),
        trim(location_id@).len() > 0 && id_index(locations_of(settings@, provider), trim(location_id@))
            >= 0 ==> (r matches Ok(s) && s@ == removed_settings(settings@, provider, trim(location_id@))),
{
    let v = chars_of(location_id);
    let t = trim_of(&v);
    if t.len() == 0 {
        return Err(owned("Saved workspace id is required"));
    }
    let id = string_from(&t);
    let mut settings = settings;
    let sel = selected_copy(&settings, provider);
    let locs = take_locations(&mut settings, provider);
    let ghost l0 = location_views(locs@);
    let mut kept: Vec<SavedWorkspaceLocation> = Vec::new();
    let mut i: usize = 0;
    assert(l0.take(0) =~= seq![]);
    assert(location_views(kept@) =~= seq![]);
    while i < locs.len()
        invariant
            i <= locs.len(),
            l0 == location_views(locs@),
            location_views(kept@) == without_id(l0.take(i as int), id@),
        decreases locs.len() - i,
    {
        assert(l0.take(i + 1).drop_last() =~= l0.take(i as int));
        assert(l0.take(i + 1).last() == locs@[i as int]@);
        if !crate::text::str_eq(locs[i].id.as_str(), id.as_str()) {
            let x = locs[i].duplicate();
            kept.push(x);
            assert(location_views(kept@) =~= without_id(l0.take(i as int), id@).push(x@));
        }
        i = i + 1;
    }
    assert(l0.take(locs.len() as int) =~= l0);
    proof {
        lemma_without_id(l0, id@);
    }
    if kept.len() == locs.len() {
        return Err(owned("Saved workspace location not found"));
    }
    let new_sel = match sel {
        Some(x) => if crate::text::str_eq(x.as_str(), id.as_str()) {
            None
        } else {
            Some(x)
        },
        None => None,
    };
    put_locations(&mut settings, provider, kept, new_sel);
    Ok(settings)
}

/// Replaces the host tokens and the GitLab host URL.
pub fn update_scm_settings(
    settings: WorkspaceSettings,
    github_pat: Option<String>,
    gitlab_pat: Option<String>,
    gitlab_host_url: Option<String>,
) -> (r: WorkspaceSettings)
    ensures
        r@ == (SettingsV {
            github_pat: opt_view(github_pat),
            gitlab_pat: opt_view(gitlab_pat),
            gitlab_host_url: opt_view(gitlab_host_url),
            ..settings@
        }),
{
    let mut settings = settings;
    settings.github_pat = github_pat;
    settings.gitlab_pat = gitlab_pat;
    settings.gitlab_host_url = gitlab_host_url;
    settings
}

} // verus!
