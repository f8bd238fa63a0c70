use vstd::prelude::*;

use crate::browser::{spec_kind, spec_label, spec_rank, Browser, Kind};
use crate::json::{nested_text, spec_nested_text};
use crate::path::{path_eq, same_components};
use crate::text::{lemma_text_lt_irreflexive, lemma_text_lt_transitive, str_eq, text_less, text_lt};

verus! {

/// A discovered browser profile.
#[derive(Debug, PartialEq, Eq)]
pub struct Profile {
    browser: Browser,
    id: String,
    name: String,
    is_default: bool,
    path: String,
    cookie_db: String,
}

/// The mathematical content of a profile.
pub struct ProfileView {
    pub browser: Browser,
    pub id: Seq<char>,
    pub name: Seq<char>,
    pub is_default: bool,
    pub path: Seq<char>,
    pub cookie_db: Seq<char>,
}

impl View for Profile {
    type V = ProfileView;

    closed spec fn view(&self) -> ProfileView {
        ProfileView {
            browser: self.browser,
            id: self.id@,
            name: self.name@,
            is_default: self.is_default,
            path: self.path@,
            cookie_db: self.cookie_db@,
        }
    }
}

/// The views of a sequence of profiles.
pub open spec fn profile_views(s: Seq<Profile>) -> Seq<ProfileView> {
    s.map_values(|p: Profile| p@)
}

impl Clone for Profile {
    fn clone(&self) -> (r: Self)
        ensures
            r@ == self@,
    {
        Profile {
            browser: self.browser,
            id: self.id.clone(),
            name: self.name.clone(),
            is_default: self.is_default,
            path: self.path.clone(),
            cookie_db: self.cookie_db.clone(),
        }
    }
}

impl Profile {
    /// The browser this profile belongs to.
    pub fn browser(&self) -> (b: Browser)
        ensures
            b == self@.browser,
    {
        self.browser
    }

    /// The profile's local ID: the name of its directory.
    pub fn id(&self) -> (s: &str)
        ensures
            s@ == self@.id,
    {
        self.id.as_str()
    }

    /// The profile's display name.
    pub fn name(&self) -> (s: &str)
        ensures
            s@ == self@.name,
    {
        self.name.as_str()
    }

    /// The profile directory.
    pub fn path(&self) -> (s: &str)
        ensures
            s@ == self@.path,
    {
        self.path.as_str()
    }

    /// The profile's cookie database.
    pub fn cookie_db(&self) -> (s: &str)
        ensures
            s@ == self@.cookie_db,
    {
        self.cookie_db.as_str()
    }

    /// Whether this profile is the one its browser selects by default.
    pub fn is_default(&self) -> (b: bool)
        ensures
            b == self@.is_default,
    {
        self.is_default
    }
}

/// A path together with whether it was found: the caller's existence test
/// (an existing regular file for cookie databases) succeeded for it.
#[derive(Debug)]
pub struct PathProbe {
    pub path: String,
    pub present: bool,
}

impl Clone for PathProbe {
    fn clone(&self) -> (r: Self)
        ensures
            r == *self,
    {
        PathProbe { path: self.path.clone(), present: self.present }
    }
}

/// The first probed path that was found, if any.
pub open spec fn spec_first_existing(c: Seq<PathProbe>) -> Option<Seq<char>>
    decreases c.len(),
{
    if c.len() == 0 {
        None
    } else if c[0].present {
        Some(c[0].path@)
    } else {
        spec_first_existing(c.drop_first())
    }
}

/// The first path found is that of the earliest candidate that is present,
/// and there is none exactly when no candidate is present.
pub proof fn lemma_first_existing_is_earliest(c: Seq<PathProbe>)
    ensures
        spec_first_existing(c) is None <==> forall|j: int| 0 <= j < c.len() ==> !(#[trigger] c[j]).present,
        spec_first_existing(c) is Some ==> exists|k: int|
            0 <= k < c.len() && (#[trigger] c[k]).present && spec_first_existing(c) == Some(c[k].path@)
                && forall|j: int| 0 <= j < k ==> !(#[trigger] c[j]).present,
    decreases c.len(),
{
    if c.len() > 0 {
        let t = c.drop_first();
        lemma_first_existing_is_earliest(t);
        if c[0].present {
            assert(c[0].present && spec_first_existing(c) == Some(c[0].path@));
        } else {
            assert forall|j: int| 0 <= j < t.len() implies (#[trigger] t[j]) == c[j + 1] by {}
            if spec_first_existing(t) is Some {
                let k = choose|k: int|
                    0 <= k < t.len() && (#[trigger] t[k]).present && spec_first_existing(t) == Some(t[k].path@)
                        && forall|j: int| 0 <= j < k ==> !(#[trigger] t[j]).present;
                assert(c[k + 1] == t[k]);
                assert forall|j: int| 0 <= j < k + 1 implies !(#[trigger] c[j]).present by {
                    if j > 0 {
                        assert(c[j] == t[j - 1]);
                    }
                }
            } else {
                assert forall|j: int| 0 <= j < c.len() implies !(#[trigger] c[j]).present by {
                    if j > 0 {
                        assert(c[j] == t[j - 1]);
                    }
                }
            }
        }
    }
}

/// Returns the first path in `candidates` that was found.
pub fn first_existing(candidates: &[PathProbe]) -> (r: Option<String>)
    ensures
        match spec_first_existing(candidates@) {
            Some(p) => r is Some && r->0@ == p,
            None => r is None,
        },
{
    let mut i: usize = 0;
    assert(candidates@.skip(0) == candidates@);
    while i < candidates.len()
        invariant
            i <= candidates@.len(),
            spec_first_existing(candidates@) == spec_first_existing(candidates@.skip(i as int)),
        decreases candidates@.len() - i,
    {
        assert(candidates@.skip(i as int).drop_first() == candidates@.skip(i + 1));
        if candidates[i].present {
            return Some(candidates[i].path.clone());
        }
        i = i + 1;
    }
    None
}

/// The cookie database of a profile directory: `Network/Cookies` is preferred to `Cookies`.
pub open spec fn spec_profile_cookie_db(network: PathProbe, plain: PathProbe) -> Option<Seq<char>> {
    if network.present {
        Some(network.path@)
    } else if plain.present {
        Some(plain.path@)
    } else {
        None
    }
}

/// A profile directory's database is the first present of `Network/Cookies`
/// and `Cookies`, in that order: `Network/Cookies` wins when both are there.
pub proof fn lemma_network_cookies_first(network: PathProbe, plain: PathProbe)
    ensures
        spec_profile_cookie_db(network, plain) == spec_first_existing(seq![network, plain]),
        network.present ==> spec_profile_cookie_db(network, plain) == Some(network.path@),
        !network.present && plain.present ==> spec_profile_cookie_db(network, plain) == Some(plain.path@),
        !network.present && !plain.present ==> spec_profile_cookie_db(network, plain) is None,
{
    let c = seq![network, plain];
    assert(c[0] == network);
    assert(c.drop_first() =~= seq![plain]);
    assert(seq![plain].drop_first() =~= Seq::<PathProbe>::empty());
    assert(spec_first_existing(Seq::<PathProbe>::empty()) is None);
    assert(spec_first_existing(seq![plain]) == if plain.present { Some(plain.path@) } else { None::<Seq<char>> });
}

/// The cookie database of a profile directory, from its `Network/Cookies` and
/// `Cookies` paths.
pub fn profile_cookie_db(network: &PathProbe, plain: &PathProbe) -> (r: Option<String>)
    ensures
        match spec_profile_cookie_db(*network, *plain) {
            Some(p) => r is Some && r->0@ == p,
            None => r is None,
        },
{
    let candidates = [network.clone(), plain.clone()];
    proof {
        let c = candidates@;
        assert(c.len() == 2 && c[0] == *network && c[1] == *plain);
        assert(c.drop_first().drop_first() =~= Seq::<PathProbe>::empty());
        assert(c.drop_first()[0] == *plain);
        assert(spec_first_existing(c.drop_first().drop_first()) is None);
        assert(spec_first_existing(c.drop_first()) == (if plain.present { Some(plain.path@) } else { None::<Seq<char>> }));
    }
    first_existing(candidates.as_slice())
}

} // verus!

verus! {

/// What the file system shows of one entry of a browser's user-data directory.
#[derive(Debug)]
pub struct ProfileDirEntry {
    /// The entry's file name.
    pub directory: String,
    /// The entry's full path.
    pub path: String,
    pub is_dir: bool,
    pub is_symlink: bool,
    /// `<path>/Network/Cookies`.
    pub network_cookies: PathProbe,
    /// `<path>/Cookies`.
    pub plain_cookies: PathProbe,
    /// The text of `<path>/Preferences`, when it can be read.
    pub preferences: Option<String>,
}

/// The display name stored in a profile's `Preferences` (`profile.name`), when not empty.
pub open spec fn spec_profile_name(preferences: Option<String>) -> Option<Seq<char>> {
    match preferences {
        Some(t) => spec_nested_text(t@, "profile"@, "name"@),
        None => None,
    }
}

/// Reads the display name stored in a profile's `Preferences`.
pub fn profile_name(preferences: &Option<String>) -> (r: Option<String>)
    ensures
        match spec_profile_name(*preferences) {
            Some(n) => r is Some && r->0@ == n,
            None => r is None,
        },
{
    match preferences {
        Some(t) => nested_text(t.as_str(), "profile", "name"),
        None => None,
    }
}

/// The ID of the last used profile stored in a browser's `Local State`
/// (`profile.last_used`), when not empty.
pub open spec fn spec_last_used(local_state: Option<String>) -> Option<Seq<char>> {
    match local_state {
        Some(t) => spec_nested_text(t@, "profile"@, "last_used"@),
        None => None,
    }
}

/// Reads the ID of the last used profile from a browser's `Local State`.
pub fn chromium_default_profile_id(local_state: &Option<String>) -> (r: Option<String>)
    ensures
        match spec_last_used(*local_state) {
            Some(n) => r is Some && r->0@ == n,
            None => r is None,
        },
{
    match local_state {
        Some(t) => nested_text(t.as_str(), "profile", "last_used"),
        None => None,
    }
}

/// The profile a directory entry holds: a real directory (not a symlink) with
/// a cookie database; its ID is the directory name, its name the one in
/// `Preferences` or else the directory name.
pub open spec fn spec_entry_profile(browser: Browser, e: ProfileDirEntry) -> Option<ProfileView> {
    if !e.is_dir || e.is_symlink {
        None
    } else {
        match spec_profile_cookie_db(e.network_cookies, e.plain_cookies) {
            None => None,
            Some(db) => Some(
                ProfileView {
                    browser: browser,
                    id: e.directory@,
                    name: match spec_profile_name(e.preferences) {
                        Some(n) => n,
                        None => e.directory@,
                    },
                    is_default: false,
                    path: e.path@,
                    cookie_db: db,
                },
            ),
        }
    }
}

/// The profiles that a list of directory entries holds, in entry order.
pub open spec fn spec_listed(browser: Browser, es: Seq<ProfileDirEntry>) -> Seq<ProfileView>
    decreases es.len(),
{
    if es.len() == 0 {
        Seq::empty()
    } else {
        let prev = spec_listed(browser, es.drop_last());
        match spec_entry_profile(browser, es.last()) {
            Some(p) => prev.push(p),
            None => prev,
        }
    }
}

/// Whether some profile has the given ID.
pub open spec fn has_id(ps: Seq<ProfileView>, id: Seq<char>) -> bool {
    exists|i: int| 0 <= i < ps.len() && #[trigger] ps[i].id == id
}

/// The ID of the default profile among `ps`: the last used one when it is
/// listed, else `Default` when listed, else the only profile.
pub open spec fn spec_default_id(ps: Seq<ProfileView>, last_used: Option<Seq<char>>) -> Option<Seq<char>> {
    if last_used is Some && has_id(ps, last_used->0) {
        last_used
    } else if has_id(ps, "Default"@) {
        Some("Default"@)
    } else if ps.len() == 1 {
        Some(ps[0].id)
    } else {
        None
    }
}

/// Whether `ps[i]` is the first profile with its ID.
pub open spec fn first_with_id(ps: Seq<ProfileView>, i: int) -> bool {
    forall|j: int| 0 <= j < i ==> #[trigger] ps[j].id != ps[i].id
}

/// `ps` with the first profile whose ID is `d` marked default, and no other.
pub open spec fn spec_mark_default(ps: Seq<ProfileView>, d: Option<Seq<char>>) -> Seq<ProfileView> {
    Seq::new(
        ps.len(),
        |i: int|
            ProfileView {
                browser: ps[i].browser,
                id: ps[i].id,
                name: ps[i].name,
                is_default: d == Some(ps[i].id) && first_with_id(ps, i),
                path: ps[i].path,
                cookie_db: ps[i].cookie_db,
            },
    )
}

/// The profiles of one browser's user-data directory, with the default one marked.
pub open spec fn spec_profiles_in_root(
    browser: Browser,
    entries: Seq<ProfileDirEntry>,
    local_state: Option<String>,
) -> Seq<ProfileView> {
    let ps = spec_listed(browser, entries);
    spec_mark_default(ps, spec_default_id(ps, spec_last_used(local_state)))
}

/// The profile a directory entry holds, if any.
fn entry_profile(browser: Browser, e: &ProfileDirEntry) -> (r: Option<Profile>)
    ensures
        match spec_entry_profile(browser, *e) {
            Some(p) => r is Some && r->0@ == p,
            None => r is None,
        },
{
    if !e.is_dir || e.is_symlink {
        return None;
    }
    let cookie_db = profile_cookie_db(&e.network_cookies, &e.plain_cookies)?;
    let name = match profile_name(&e.preferences) {
        Some(n) => n,
        None => e.directory.clone(),
    };
    Some(
        Profile {
            browser,
            id: e.directory.clone(),
            name,
            is_default: false,
            path: e.path.clone(),
            cookie_db,
        },
    )
}

/// Whether some profile has the ID `id`.
fn any_has_id(ps: &Vec<Profile>, id: &str) -> (r: bool)
    ensures
        r == has_id(profile_views(ps@), id@),
{
    let mut i: usize = 0;
    while i < ps.len()
        invariant
            i <= ps@.len(),
            forall|j: int| 0 <= j < i ==> ps@[j]@.id != id@,
        decreases ps@.len() - i,
    {
        if str_eq(ps[i].id.as_str(), id) {
            assert(profile_views(ps@)[i as int].id == id@);
            return true;
        }
        i = i + 1;
    }
    assert forall|j: int| 0 <= j < profile_views(ps@).len() implies #[trigger] profile_views(ps@)[j].id != id@ by {
        assert(ps@[j]@.id != id@);
    }
    false
}

/// Discovers the profiles of one browser's user-data directory from its
/// entries and the text of its `Local State`, marking the default profile.
pub fn profiles_in_root(
    browser: Browser,
    entries: &Vec<ProfileDirEntry>,
    local_state: &Option<String>,
) -> (r: Vec<Profile>)
    ensures
        profile_views(r@) == spec_profiles_in_root(browser, entries@, *local_state),
{
    let mut profiles: Vec<Profile> = Vec::new();
    let mut i: usize = 0;
    assert(entries@.take(0) =~= Seq::<ProfileDirEntry>::empty());
    while i < entries.len()
        invariant
            i <= entries@.len(),
            profile_views(profiles@) == spec_listed(browser, entries@.take(i as int)),
            forall|j: int| 0 <= j < profiles@.len() ==> !(#[trigger] profiles@[j]@).is_default,
        decreases entries@.len() - i,
    {
        assert(entries@.take(i + 1).drop_last() == entries@.take(i as int));
        match entry_profile(browser, &entries[i]) {
            Some(p) => {
                let ghost prev = profiles@;
                profiles.push(p);
                assert(profile_views(profiles@) =~= profile_views(prev).push(p@));
            },
            None => {},
        }
        i = i + 1;
    }
    assert(entries@.take(entries@.len() as int) == entries@);
    let ghost ps = profile_views(profiles@);
    let default_id: Option<String> = match chromium_default_profile_id(local_state) {
        Some(id) => {
            if any_has_id(&profiles, id.as_str()) {
                Some(id)
            } else if any_has_id(&profiles, "Default") {
                Some(String::from_str("Default"))
            } else if profiles.len() == 1 {
                Some(profiles[0].id.clone())
            } else {
                None
            }
        },
        None => {
            if any_has_id(&profiles, "Default") {
                Some(String::from_str("Default"))
            } else if profiles.len() == 1 {
                Some(profiles[0].id.clone())
            } else {
                None
            }
        },
    };
    assert(match default_id {
        Some(d) => spec_default_id(ps, spec_last_used(*local_state)) == Some(d@),
        None => spec_default_id(ps, spec_last_used(*local_state)) is None,
    });
    let ghost dd = spec_default_id(ps, spec_last_used(*local_state));
    if let Some(d) = default_id {
        let mut k: usize = 0;
        while k < profiles.len() && !str_eq(profiles[k].id.as_str(), d.as_str())
            invariant
                k <= profiles@.len(),
                ps == profile_views(profiles@),
                forall|j: int| 0 <= j < k ==> ps[j].id != d@,
            decreases profiles@.len() - k,
        {
            k = k + 1;
        }
        if k < profiles.len() {
            assert(ps[k as int].id == d@);
            let mut p = profiles[k].clone();
            p.is_default = true;
            profiles.set(k, p);
            proof {
                let target = spec_mark_default(ps, dd);
                assert forall|i: int| 0 <= i < ps.len() implies #[trigger] profile_views(profiles@)[i] == target[i] by {
                    if i == k {
                        assert(first_with_id(ps, i));
                    } else if ps[i].id == d@ && i > k {
                        assert(ps[k as int].id == ps[i].id);
                        assert(!first_with_id(ps, i));
                    }
                }
                assert(profile_views(profiles@) =~= target);
            }
        } else {
            proof {
                let target = spec_mark_default(ps, dd);
                assert forall|i: int| 0 <= i < ps.len() implies #[trigger] profile_views(profiles@)[i] == target[i] by {
                    assert(ps[i].id != d@);
                }
                assert(profile_views(profiles@) =~= target);
            }
        }
    } else {
        proof {
            let target = spec_mark_default(ps, dd);
            assert forall|i: int| 0 <= i < ps.len() implies #[trigger] profile_views(profiles@)[i] == target[i] by {
                assert(!profiles@[i]@.is_default);
            }
            assert(profile_views(profiles@) =~= target);
        }
    }
    profiles
}

} // verus!

verus! {

/// The profiles of `ps` that satisfy `pred`, in order.
pub open spec fn keep(ps: Seq<ProfileView>, pred: spec_fn(ProfileView) -> bool) -> Seq<ProfileView>
    decreases ps.len(),
{
    if ps.len() == 0 {
        Seq::empty()
    } else {
        let prev = keep(ps.drop_last(), pred);
        if pred(ps.last()) {
            prev.push(ps.last())
        } else {
            prev
        }
    }
}

/// Profiles whose ID is `sel`.
pub open spec fn with_id(ps: Seq<ProfileView>, sel: Seq<char>) -> Seq<ProfileView> {
    keep(ps, |p: ProfileView| p.id == sel)
}

/// Profiles whose display name is `sel`.
pub open spec fn with_name(ps: Seq<ProfileView>, sel: Seq<char>) -> Seq<ProfileView> {
    keep(ps, |p: ProfileView| p.name == sel)
}

/// Profiles of browser `b`.
pub open spec fn of_browser(ps: Seq<ProfileView>, b: Browser) -> Seq<ProfileView> {
    keep(ps, |p: ProfileView| p.browser == b)
}

/// Which property of a profile a selector is compared with.
#[derive(Debug, Clone, Copy, PartialEq, Eq, Structural)]
enum Field {
    Id,
    Name,
}

/// The predicate a selector stands for when compared with `field`.
spec fn field_matches(field: Field, sel: Seq<char>) -> spec_fn(ProfileView) -> bool {
    match field {
        Field::Id => |p: ProfileView| p.id == sel,
        Field::Name => |p: ProfileView| p.name == sel,
    }
}

/// Copies of the profiles whose `field` equals `sel`, in order.
fn matching(ps: &[Profile], field: Field, sel: &str) -> (r: Vec<Profile>)
    ensures
        profile_views(r@) == keep(profile_views(ps@), field_matches(field, sel@)),
{
    let ghost pred = field_matches(field, sel@);
    let ghost all = profile_views(ps@);
    let mut out: Vec<Profile> = Vec::new();
    let mut i: usize = 0;
    assert(all.take(0) =~= Seq::<ProfileView>::empty());
    while i < ps.len()
        invariant
            i <= ps@.len(),
            all == profile_views(ps@),
            pred == field_matches(field, sel@),
            profile_views(out@) == keep(all.take(i as int), pred),
        decreases ps@.len() - i,
    {
        assert(all.take(i + 1).drop_last() == all.take(i as int));
        assert(all.take(i + 1).last() == ps@[i as int]@);
        let hit = match field {
            Field::Id => str_eq(ps[i].id.as_str(), sel),
            Field::Name => str_eq(ps[i].name.as_str(), sel),
        };
        if hit {
            let p = ps[i].clone();
            let ghost prev = out@;
            out.push(p);
            assert(profile_views(out@) =~= profile_views(prev).push(p@));
        }
        i = i + 1;
    }
    assert(all.take(ps@.len() as int) == all);
    out
}

/// Copies of the profiles of browser `b`, in order.
pub fn profiles_of(ps: &[Profile], b: Browser) -> (r: Vec<Profile>)
    ensures
        profile_views(r@) == of_browser(profile_views(ps@), b),
{
    let ghost pred = |p: ProfileView| p.browser == b;
    let ghost all = profile_views(ps@);
    let mut out: Vec<Profile> = Vec::new();
    let mut i: usize = 0;
    assert(all.take(0) =~= Seq::<ProfileView>::empty());
    while i < ps.len()
        invariant
            i <= ps@.len(),
            all == profile_views(ps@),
            pred == (|p: ProfileView| p.browser == b),
            profile_views(out@) == keep(all.take(i as int), pred),
        decreases ps@.len() - i,
    {
        assert(all.take(i + 1).drop_last() == all.take(i as int));
        assert(all.take(i + 1).last() == ps@[i as int]@);
        if ps[i].browser == b {
            let p = ps[i].clone();
            let ghost prev = out@;
            out.push(p);
            assert(profile_views(out@) =~= profile_views(prev).push(p@));
        }
        i = i + 1;
    }
    assert(all.take(ps@.len() as int) == all);
    out
}

/// How one candidate is listed in an ambiguity error: `browser / id`.
pub open spec fn choice_text(p: ProfileView) -> Seq<char> {
    spec_label(p.browser) + " / "@ + p.id
}

/// The candidates of an ambiguity error, separated by `, `.
pub open spec fn choices_text(ps: Seq<ProfileView>) -> Seq<char>
    decreases ps.len(),
{
    if ps.len() == 0 {
        Seq::empty()
    } else if ps.len() == 1 {
        choice_text(ps[0])
    } else {
        choices_text(ps.drop_last()) + ", "@ + choice_text(ps.last())
    }
}

/// Whether all of `ps` (at least one) belong to one browser.
pub open spec fn one_browser(ps: Seq<ProfileView>) -> bool {
    ps.len() > 0 && forall|i: int| 0 <= i < ps.len() ==> #[trigger] ps[i].browser == ps[0].browser
}

/// The message for a selector that matches several profiles.
pub open spec fn spec_ambiguous_error(sel: Seq<char>, ps: Seq<ProfileView>) -> Seq<char> {
    "profile '"@ + sel + "' is ambiguous ("@ + choices_text(ps) + "); "@ + if one_browser(ps) {
        "use a profile ID or path"@
    } else {
        "pass --browser or use a path"@
    }
}

/// The message for a selector that matches several profiles.
pub fn ambiguous_error(selector: &str, profiles: &[Profile]) -> (r: String)
    ensures
        r@ == spec_ambiguous_error(selector@, profile_views(profiles@)),
{
    let ghost all = profile_views(profiles@);
    let mut choices = String::new();
    let mut i: usize = 0;
    assert(all.take(0) =~= Seq::<ProfileView>::empty());
    while i < profiles.len()
        invariant
            i <= profiles@.len(),
            all == profile_views(profiles@),
            choices@ == choices_text(all.take(i as int)),
        decreases profiles@.len() - i,
    {
        assert(all.take(i + 1).drop_last() == all.take(i as int));
        assert(all.take(i + 1).last() == profiles@[i as int]@);
        if i > 0 {
            choices.append(", ");
        }
        choices.append(profiles[i].browser.label());
        choices.append(" / ");
        choices.append(profiles[i].id.as_str());
        proof {
            if i == 0 {
                assert(all.take(1)[0] == profiles@[0]@);
            }
        }
        i = i + 1;
    }
    assert(all.take(profiles@.len() as int) == all);
    let mut one = profiles.len() > 0;
    let mut j: usize = 1;
    while one && j < profiles.len()
        invariant
            1 <= j,
            j <= profiles@.len() || profiles@.len() == 0,
            all == profile_views(profiles@),
            one ==> profiles@.len() > 0,
            one ==> forall|k: int| 0 <= k < j ==> #[trigger] all[k].browser == all[0].browser,
            !one ==> !one_browser(all),
        decreases profiles@.len() - j,
    {
        if profiles[j].browser != profiles[0].browser {
            assert(all[j as int].browser != all[0].browser);
            one = false;
        }
        j = j + 1;
    }
    let mut msg = String::from_str("profile '");
    msg.append(selector);
    msg.append("' is ambiguous (");
    msg.append(choices.as_str());
    msg.append("); ");
    if one {
        msg.append("use a profile ID or path");
    } else {
        msg.append("pass --browser or use a path");
    }
    msg
}

/// Which discovered profile a selector names: a unique ID, else a unique
/// display name; several matches are an error.
pub open spec fn spec_select(ps: Seq<ProfileView>, sel: Seq<char>) -> Result<Option<ProfileView>, Seq<char>> {
    let by_id = with_id(ps, sel);
    let by_name = with_name(ps, sel);
    if by_id.len() == 1 {
        Ok(Some(by_id[0]))
    } else if by_id.len() > 1 {
        Err(spec_ambiguous_error(sel, by_id))
    } else if by_name.len() == 1 {
        Ok(Some(by_name[0]))
    } else if by_name.len() > 1 {
        Err(spec_ambiguous_error(sel, by_name))
    } else {
        Ok(None)
    }
}

/// Selects a discovered profile by ID, else by unique display name.
pub fn select_discovered(candidates: &[Profile], selector: &str) -> (r: Result<Option<Profile>, String>)
    ensures
        match spec_select(profile_views(candidates@), selector@) {
            Ok(Some(p)) => r matches Ok(Some(q)) && q@ == p,
            Ok(None) => r matches Ok(None),
            Err(m) => r is Err && r->Err_0@ == m,
        },
{
    let by_id = matching(candidates, Field::Id, selector);
    assert(field_matches(Field::Id, selector@) == (|p: ProfileView| p.id == selector@));
    if by_id.len() == 1 {
        return Ok(Some(by_id[0].clone()));
    } else if by_id.len() > 1 {
        return Err(ambiguous_error(selector, by_id.as_slice()));
    }
    let by_name = matching(candidates, Field::Name, selector);
    assert(field_matches(Field::Name, selector@) == (|p: ProfileView| p.name == selector@));
    if by_name.len() == 1 {
        Ok(Some(by_name[0].clone()))
    } else if by_name.len() > 1 {
        Err(ambiguous_error(selector, by_name.as_slice()))
    } else {
        Ok(None)
    }
}

} // verus!

verus! {

/// The first profile of `ps` that is marked default, if any.
pub open spec fn spec_first_default(ps: Seq<ProfileView>) -> Option<ProfileView>
    decreases ps.len(),
{
    if ps.len() == 0 {
        None
    } else if ps[0].is_default {
        Some(ps[0])
    } else {
        spec_first_default(ps.drop_first())
    }
}

/// The profile a browser uses when none is selected: its default profile,
/// else its only profile.
pub open spec fn spec_default_profile(ps: Seq<ProfileView>, b: Browser) -> Result<ProfileView, Seq<char>> {
    let c = of_browser(ps, b);
    match spec_first_default(c) {
        Some(p) => Ok(p),
        None => if c.len() == 1 {
            Ok(c[0])
        } else if c.len() == 0 {
            Err(spec_label(b) + ": cookie database not found"@)
        } else {
            Err(spec_label(b) + ": multiple profiles found; select one by name or ID"@)
        },
    }
}

/// The profile `browser` uses when none is selected, among the discovered ones.
pub fn default_profile(browser: Browser, discovered: &[Profile]) -> (r: Result<Profile, String>)
    ensures
        match spec_default_profile(profile_views(discovered@), browser) {
            Ok(p) => r is Ok && r->Ok_0@ == p,
            Err(m) => r is Err && r->Err_0@ == m,
        },
{
    let candidates = profiles_of(discovered, browser);
    let ghost c = profile_views(candidates@);
    let mut i: usize = 0;
    assert(c.skip(0) == c);
    while i < candidates.len()
        invariant
            i <= candidates@.len(),
            c == profile_views(candidates@),
            c == of_browser(profile_views(discovered@), browser),
            spec_first_default(c) == spec_first_default(c.skip(i as int)),
        decreases candidates@.len() - i,
    {
        assert(c.skip(i as int).drop_first() == c.skip(i + 1));
        assert(c.skip(i as int)[0] == candidates@[i as int]@);
        if candidates[i].is_default {
            assert(spec_first_default(c.skip(i as int)) == Some(c.skip(i as int)[0]));
            return Ok(candidates[i].clone());
        }
        i = i + 1;
    }
    if candidates.len() == 1 {
        Ok(candidates[0].clone())
    } else if candidates.len() == 0 {
        let mut m = String::from_str(browser.label());
        m.append(": cookie database not found");
        Err(m)
    } else {
        let mut m = String::from_str(browser.label());
        m.append(": multiple profiles found; select one by name or ID");
        Err(m)
    }
}

/// The cookie database a browser reads when no profile is selected: that of
/// its default profile for chromium browsers, else the database found for it.
pub open spec fn spec_browser_cookie_db(
    b: Browser,
    ps: Seq<ProfileView>,
    firefox_db: Option<String>,
    safari_db: Option<String>,
) -> Option<Seq<char>> {
    match spec_kind(b) {
        Kind::Chromium => match spec_default_profile(ps, b) {
            Ok(p) => Some(p.cookie_db),
            Err(_) => None,
        },
        Kind::Firefox => match firefox_db {
            Some(p) => Some(p@),
            None => None,
        },
        Kind::Safari => match safari_db {
            Some(p) => Some(p@),
            None => None,
        },
    }
}

impl Browser {
    /// The cookie database this browser reads when no profile is selected,
    /// given the discovered profiles and the Firefox and Safari databases found.
    pub fn cookie_db(
        &self,
        discovered: &[Profile],
        firefox_db: &Option<String>,
        safari_db: &Option<String>,
    ) -> (r: Option<String>)
        ensures
            match spec_browser_cookie_db(*self, profile_views(discovered@), *firefox_db, *safari_db) {
                Some(p) => r is Some && r->0@ == p,
                None => r is None,
            },
    {
        match self.kind() {
            Kind::Chromium => match default_profile(*self, discovered) {
                Ok(p) => Some(p.cookie_db),
                Err(_) => None,
            },
            Kind::Firefox => firefox_db.clone(),
            Kind::Safari => safari_db.clone(),
        }
    }
}

} // verus!

verus! {

/// What the file system shows of a directory that may hold a profile.
#[derive(Debug)]
pub struct DirInfo {
    pub path: String,
    /// The last component of the path, when there is one and it is valid UTF-8.
    pub file_name: Option<String>,
    /// The text of `<path>/Preferences`, when it can be read.
    pub preferences: Option<String>,
}

/// What the file system shows of an explicit profile path.
#[derive(Debug)]
pub struct PathInfo {
    /// The path itself.
    pub target: DirInfo,
    /// Whether the path is a regular file.
    pub is_file: bool,
    /// The path's parent, when it has one.
    pub parent: Option<DirInfo>,
    /// The parent of the path's parent, when there is one.
    pub grandparent: Option<DirInfo>,
    /// `<path>/Network/Cookies`.
    pub network_cookies: PathProbe,
    /// `<path>/Cookies`.
    pub plain_cookies: PathProbe,
}

/// Whether a directory's last component is `n`.
pub open spec fn is_named(d: DirInfo, n: Seq<char>) -> bool {
    d.file_name matches Some(f) && f@ == n
}

/// The profile directory of a cookie database file: its parent, or the parent
/// of that when the parent is `Network`.
pub open spec fn spec_profile_dir(info: PathInfo) -> DirInfo {
    match info.parent {
        None => info.target,
        Some(p) => if is_named(p, "Network"@) {
            match info.grandparent {
                Some(g) => g,
                None => p,
            }
        } else {
            p
        },
    }
}

/// The profile kept in directory `dir` with database `cookie_db`: its ID is the
/// directory name (`custom` without one), its name the one in `Preferences` or
/// else the ID; it is not a default profile.
pub open spec fn spec_profile_in_dir(b: Browser, dir: DirInfo, cookie_db: Seq<char>) -> ProfileView {
    let id = match dir.file_name {
        Some(f) => f@,
        None => "custom"@,
    };
    ProfileView {
        browser: b,
        id: id,
        name: match spec_profile_name(dir.preferences) {
            Some(n) => n,
            None => id,
        },
        is_default: false,
        path: dir.path@,
        cookie_db: cookie_db,
    }
}

/// The profile that an explicit path names, or why it names none.
pub open spec fn spec_from_path(b: Browser, info: PathInfo) -> Result<ProfileView, Seq<char>> {
    if spec_kind(b) != Kind::Chromium {
        Err(spec_label(b) + ": explicit profile paths are not supported yet"@)
    } else if info.is_file {
        if !is_named(info.target, "Cookies"@) {
            Err(info.target.path@ + ": expected a Cookies database"@)
        } else {
            Ok(spec_profile_in_dir(b, spec_profile_dir(info), info.target.path@))
        }
    } else {
        match spec_profile_cookie_db(info.network_cookies, info.plain_cookies) {
            None => Err(info.target.path@ + ": Cookies not found (expected Cookies or Network/Cookies)"@),
            Some(db) => Ok(spec_profile_in_dir(b, info.target, db)),
        }
    }
}

/// Whether a directory's last component is `n`.
fn dir_named(d: &DirInfo, n: &str) -> (r: bool)
    ensures
        r == is_named(*d, n@),
{
    match &d.file_name {
        Some(f) => str_eq(f.as_str(), n),
        None => false,
    }
}

/// Builds the profile kept in `dir`.
fn profile_in_dir(browser: Browser, dir: &DirInfo, cookie_db: String) -> (p: Profile)
    ensures
        p@ == spec_profile_in_dir(browser, *dir, cookie_db@),
{
    let id = match &dir.file_name {
        Some(f) => f.clone(),
        None => String::from_str("custom"),
    };
    let name = match profile_name(&dir.preferences) {
        Some(n) => n,
        None => id.clone(),
    };
    Profile { browser, id, name, is_default: false, path: dir.path.clone(), cookie_db }
}

impl Profile {
    /// Builds a profile from a profile directory or a cookie database.
    pub fn from_path(browser: Browser, info: &PathInfo) -> (r: Result<Profile, String>)
        ensures
            match spec_from_path(browser, *info) {
                Ok(p) => r is Ok && r->Ok_0@ == p,
                Err(m) => r is Err && r->Err_0@ == m,
            },
    {
        if browser.kind() != Kind::Chromium {
            let mut m = String::from_str(browser.label());
            m.append(": explicit profile paths are not supported yet");
            return Err(m);
        }
        if info.is_file {
            if !dir_named(&info.target, "Cookies") {
                let mut m = info.target.path.clone();
                m.append(": expected a Cookies database");
                return Err(m);
            }
            let dir = match &info.parent {
                None => &info.target,
                Some(p) => if dir_named(p, "Network") {
                    match &info.grandparent {
                        Some(g) => g,
                        None => p,
                    }
                } else {
                    p
                },
            };
            Ok(profile_in_dir(browser, dir, info.target.path.clone()))
        } else {
            match profile_cookie_db(&info.network_cookies, &info.plain_cookies) {
                None => {
                    let mut m = info.target.path.clone();
                    m.append(": Cookies not found (expected Cookies or Network/Cookies)");
                    Err(m)
                },
                Some(db) => Ok(profile_in_dir(browser, &info.target, db)),
            }
        }
    }
}

} // verus!

verus! {

/// What the file system shows of a profile selector taken as a path.
#[derive(Debug)]
pub struct SelectorInfo {
    /// Whether the selector is an absolute path, has more than one component,
    /// or names something that exists.
    pub looks_like_path: bool,
    /// Whether the selector names something that exists.
    pub exists: bool,
    /// The canonical form of the selector, when it can be canonicalized.
    pub canonical: Option<String>,
    /// The selector taken as an explicit profile path.
    pub path: PathInfo,
}

/// Whether a selector should be taken as a path: it is absolute, has more
/// than one component, or names something that exists.
pub fn looks_like_path(is_absolute: bool, components: usize, exists: bool) -> (r: bool)
    ensures
        r == (is_absolute || components > 1 || exists),
{
    is_absolute || components > 1 || exists
}

/// The canonical forms of a discovered profile's directory and cookie database,
/// when they can be canonicalized.
#[derive(Debug)]
pub struct CanonicalPaths {
    pub path: Option<String>,
    pub cookie_db: Option<String>,
}

/// Whether two paths name the same file: they are equal as paths (component
/// by component), or both have canonical forms that are equal as paths.
pub open spec fn spec_same_path(a: Seq<char>, b: Seq<char>, ca: Option<String>, cb: Option<String>) -> bool {
    same_components(a, b) || (ca matches Some(x) && cb matches Some(y) && same_components(x@, y@))
}

/// Whether two paths name the same file, given their canonical forms.
pub fn same_path(a: &str, b: &str, ca: &Option<String>, cb: &Option<String>) -> (r: bool)
    ensures
        r == spec_same_path(a@, b@, *ca, *cb),
{
    if path_eq(a, b) {
        return true;
    }
    match (ca, cb) {
        (Some(x), Some(y)) => path_eq(x.as_str(), y.as_str()),
        _ => false,
    }
}

/// Whether a discovered profile lives at the path `sel`: its directory or its
/// cookie database is that path.
pub open spec fn at_path(p: ProfileView, c: CanonicalPaths, sel: Seq<char>, csel: Option<String>) -> bool {
    spec_same_path(sel, p.path, csel, c.path) || spec_same_path(sel, p.cookie_db, csel, c.cookie_db)
}

/// The discovered profiles that live at the path `sel`, in order.
pub open spec fn at_path_all(
    ps: Seq<ProfileView>,
    cs: Seq<CanonicalPaths>,
    sel: Seq<char>,
    csel: Option<String>,
) -> Seq<ProfileView>
    decreases ps.len(),
{
    if ps.len() == 0 || cs.len() == 0 {
        Seq::empty()
    } else {
        let prev = at_path_all(ps.drop_last(), cs.drop_last(), sel, csel);
        if at_path(ps.last(), cs.last(), sel, csel) {
            prev.push(ps.last())
        } else {
            prev
        }
    }
}

/// The profile a selector names among all discovered profiles, or why it names none.
pub open spec fn spec_find_profile(
    ps: Seq<ProfileView>,
    cs: Seq<CanonicalPaths>,
    sel: Seq<char>,
    info: SelectorInfo,
) -> Result<ProfileView, Seq<char>> {
    match spec_select(ps, sel) {
        Err(m) => Err(m),
        Ok(Some(p)) => Ok(p),
        Ok(None) => if info.looks_like_path {
            let found = at_path_all(ps, cs, sel, info.canonical);
            if found.len() == 1 {
                Ok(found[0])
            } else if found.len() == 0 {
                if info.exists {
                    Err("cannot determine the browser for '"@ + sel + "'; pass --browser"@)
                } else {
                    Err(sel + ": path does not exist"@)
                }
            } else {
                Err(spec_ambiguous_error(sel, found))
            }
        } else {
            Err("profile '"@ + sel + "' not found; run `unjar list`"@)
        },
    }
}

/// Selects a discovered profile by ID, unique display name, or known path.
///
/// `canonical[i]` holds the canonical paths of `discovered[i]`.
pub fn find_profile(
    discovered: &Vec<Profile>,
    canonical: &Vec<CanonicalPaths>,
    selector: &str,
    info: &SelectorInfo,
) -> (r: Result<Profile, String>)
    requires
        canonical@.len() == discovered@.len(),
    ensures
        match spec_find_profile(profile_views(discovered@), canonical@, selector@, *info) {
            Ok(p) => r is Ok && r->Ok_0@ == p,
            Err(m) => r is Err && r->Err_0@ == m,
        },
{
    match select_discovered(discovered.as_slice(), selector)? {
        Some(p) => return Ok(p),
        None => {},
    }
    if !info.looks_like_path {
        let mut m = String::from_str("profile '");
        m.append(selector);
        m.append("' not found; run `unjar list`");
        return Err(m);
    }
    let ghost ps = profile_views(discovered@);
    let ghost cs = canonical@;
    let mut found: Vec<Profile> = Vec::new();
    let mut i: usize = 0;
    assert(ps.take(0) =~= Seq::<ProfileView>::empty());
    while i < discovered.len()
        invariant
            i <= discovered@.len(),
            canonical@.len() == discovered@.len(),
            ps == profile_views(discovered@),
            cs == canonical@,
            profile_views(found@) == at_path_all(ps.take(i as int), cs.take(i as int), selector@, info.canonical),
        decreases discovered@.len() - i,
    {
        assert(ps.take(i + 1).drop_last() == ps.take(i as int));
        assert(cs.take(i + 1).drop_last() == cs.take(i as int));
        assert(ps.take(i + 1).last() == discovered@[i as int]@);
        assert(cs.take(i + 1).last() == canonical@[i as int]);
        let p = &discovered[i];
        let c = &canonical[i];
        if same_path(selector, p.path.as_str(), &info.canonical, &c.path) || same_path(
            selector,
            p.cookie_db.as_str(),
            &info.canonical,
            &c.cookie_db,
        ) {
            let q = p.clone();
            let ghost prev = found@;
            found.push(q);
            assert(profile_views(found@) =~= profile_views(prev).push(q@));
        }
        i = i + 1;
    }
    assert(ps.take(discovered@.len() as int) == ps);
    assert(cs.take(discovered@.len() as int) == cs);
    if found.len() == 1 {
        Ok(found[0].clone())
    } else if found.len() == 0 {
        if info.exists {
            let mut m = String::from_str("cannot determine the browser for '");
            m.append(selector);
            m.append("'; pass --browser");
            Err(m)
        } else {
            let mut m = String::from_str(selector);
            m.append(": path does not exist");
            Err(m)
        }
    } else {
        Err(ambiguous_error(selector, found.as_slice()))
    }
}

/// The profile a selector names among one browser's discovered profiles, or
/// why it names none.
pub open spec fn spec_browser_find_profile(
    b: Browser,
    ps: Seq<ProfileView>,
    sel: Seq<char>,
    info: SelectorInfo,
) -> Result<ProfileView, Seq<char>> {
    match spec_select(of_browser(ps, b), sel) {
        Err(m) => Err(m),
        Ok(Some(p)) => Ok(p),
        Ok(None) => if info.looks_like_path {
            spec_from_path(b, info.path)
        } else {
            Err(spec_label(b) + ": profile '"@ + sel + "' not found; run `unjar list`"@)
        },
    }
}

impl Browser {
    /// Selects a profile of this browser by ID, unique display name, or path.
    pub fn find_profile(&self, discovered: &[Profile], selector: &str, info: &SelectorInfo) -> (r: Result<Profile, String>)
        ensures
            match spec_browser_find_profile(*self, profile_views(discovered@), selector@, *info) {
                Ok(p) => r is Ok && r->Ok_0@ == p,
                Err(m) => r is Err && r->Err_0@ == m,
            },
    {
        let candidates = profiles_of(discovered, *self);
        match select_discovered(candidates.as_slice(), selector)? {
            Some(p) => Ok(p),
            None => if info.looks_like_path {
                Profile::from_path(*self, &info.path)
            } else {
                let mut m = String::from_str(self.label());
                m.append(": profile '");
                m.append(selector);
                m.append("' not found; run `unjar list`");
                Err(m)
            },
        }
    }
}

} // verus!

verus! {

/// One chromium-family browser's user-data directory as the file system shows it.
#[derive(Debug)]
pub struct RootListing {
    pub browser: Browser,
    /// The entries of the directory.
    pub entries: Vec<ProfileDirEntry>,
    /// The text of the directory's `Local State`, when it can be read.
    pub local_state: Option<String>,
}

/// Whether `p` is listed before `q`: by browser, then by ID.
pub open spec fn profile_lt(p: ProfileView, q: ProfileView) -> bool {
    spec_rank(p.browser) < spec_rank(q.browser) || (p.browser == q.browser && text_lt(p.id, q.id))
}

/// Whether profiles are listed in order: by browser, then by ID.
pub open spec fn listed_in_order(ps: Seq<ProfileView>) -> bool {
    forall|i: int, j: int| 0 <= i < j < ps.len() ==> !profile_lt(#[trigger] ps[j], #[trigger] ps[i])
}

/// The profiles of all listed directories, one directory after the other.
pub open spec fn spec_gathered(ls: Seq<RootListing>) -> Seq<ProfileView>
    decreases ls.len(),
{
    if ls.len() == 0 {
        Seq::empty()
    } else {
        spec_gathered(ls.drop_last()) + spec_profiles_in_root(ls.last().browser, ls.last().entries@, ls.last().local_state)
    }
}

/// The listing order is transitive.
proof fn lemma_profile_lt_transitive(p: ProfileView, q: ProfileView, s: ProfileView)
    requires
        profile_lt(p, q),
        profile_lt(q, s),
    ensures
        profile_lt(p, s),
{
    if p.browser == q.browser && q.browser == s.browser {
        lemma_text_lt_transitive(p.id, q.id, s.id);
    }
}

/// Whether `p` is listed before `q` (by browser, then by ID).
fn listed_before(p: &Profile, q: &Profile) -> (r: bool)
    ensures
        r == profile_lt(p@, q@),
{
    let rp = p.browser.rank();
    let rq = q.browser.rank();
    if rp < rq {
        return true;
    }
    if rp > rq {
        return false;
    }
    assert(p.browser == q.browser) by {
        assert(spec_rank(p.browser) == spec_rank(q.browser));
    }
    text_less(p.id.as_str(), q.id.as_str())
}

/// Where `p` goes in a listing: before the first profile it is listed
/// before, so after every profile it is not listed before.
pub open spec fn insert_index(s: Seq<ProfileView>, p: ProfileView) -> int
    decreases s.len(),
{
    if s.len() == 0 {
        0
    } else if profile_lt(p, s[0]) {
        0
    } else {
        1 + insert_index(s.drop_first(), p)
    }
}

/// A listing with `p` put in its place.
pub open spec fn insert_listed(s: Seq<ProfileView>, p: ProfileView) -> Seq<ProfileView> {
    s.insert(insert_index(s, p), p)
}

/// Profiles listed by browser, then by ID: each is put, in the order given,
/// after every profile it is not listed before, so that profiles with the same
/// browser and ID keep the order they were given in (a stable sort).
pub open spec fn sort_listed(s: Seq<ProfileView>) -> Seq<ProfileView>
    decreases s.len(),
{
    if s.len() == 0 {
        Seq::empty()
    } else {
        insert_listed(sort_listed(s.drop_last()), s.last())
    }
}

/// The place found by a scan that stops at the first profile `p` is listed
/// before is `insert_index`.
proof fn lemma_insert_index(s: Seq<ProfileView>, p: ProfileView, k: int)
    requires
        0 <= k <= s.len(),
        forall|j: int| 0 <= j < k ==> !profile_lt(p, #[trigger] s[j]),
        k == s.len() || profile_lt(p, s[k]),
    ensures
        insert_index(s, p) == k,
    decreases k,
{
    if k > 0 {
        assert(!profile_lt(p, s[0]));
        assert forall|j: int| 0 <= j < k - 1 implies !profile_lt(p, #[trigger] s.drop_first()[j]) by {
            assert(s.drop_first()[j] == s[j + 1]);
        }
        lemma_insert_index(s.drop_first(), p, k - 1);
    }
}

/// Inserts `p` into listed-in-order `out` after every profile it is not listed before.
fn insert_in_order(out: &mut Vec<Profile>, p: Profile)
    requires
        listed_in_order(profile_views(old(out)@)),
    ensures
        listed_in_order(profile_views(final(out)@)),
        profile_views(final(out)@).to_multiset() == profile_views(old(out)@).to_multiset().insert(p@),
        profile_views(final(out)@) == insert_listed(profile_views(old(out)@), p@),
{
    let ghost before = profile_views(out@);
    let mut k: usize = 0;
    while k < out.len() && !listed_before(&p, &out[k])
        invariant
            k <= out@.len(),
            before == profile_views(out@),
            forall|j: int| 0 <= j < k ==> !profile_lt(p@, #[trigger] before[j]),
        decreases out@.len() - k,
    {
        k = k + 1;
    }
    let ghost pv = p@;
    proof {
        lemma_insert_index(before, pv, k as int);
    }
    out.insert(k, p);
    proof {
        let after = profile_views(out@);
        assert(after =~= before.insert(k as int, pv));
        assert forall|i: int, j: int| 0 <= i < j < after.len() implies !profile_lt(#[trigger] after[j], #[trigger] after[i]) by {
            if j == k {
                assert(!profile_lt(pv, before[i]));
            } else if i == k {
                // pv is listed before before[k], which is not after before[j - 1]
                assert(k < before.len());
                assert(profile_lt(pv, before[k as int]));
                if profile_lt(before[j - 1], pv) {
                    lemma_profile_lt_transitive(before[j - 1], pv, before[k as int]);
                    if k < j - 1 {
                        assert(!profile_lt(before[j - 1], before[k as int]));
                    } else {
                        lemma_text_lt_irreflexive(before[k as int].id);
                    }
                }
            } else {
                let bi = if i < k { i } else { i - 1 };
                let bj = if j < k { j } else { j - 1 };
                assert(after[i] == before[bi] && after[j] == before[bj]);
            }
        }
        assert(after.remove(k as int) =~= before);
        assert(after[k as int] == pv);
        after.to_multiset_ensures();
        assert(before.to_multiset() =~= after.to_multiset().remove(pv));
        assert(after.to_multiset().count(pv) > 0) by {
            assert(after.contains(pv));
        }
        assert(after.to_multiset() =~= before.to_multiset().insert(pv));
    }
}

/// Whether each browser's user-data directory is listed at most once.
pub open spec fn distinct_browsers(ls: Seq<RootListing>) -> bool {
    forall|i: int, j: int| 0 <= i < j < ls.len() ==> (#[trigger] ls[i]).browser != (#[trigger] ls[j]).browser
}

/// Whether no two profiles of one browser are both marked default.
pub open spec fn one_default_per_browser(ps: Seq<ProfileView>) -> bool {
    forall|i: int, j: int|
        0 <= i < ps.len() && 0 <= j < ps.len() && i != j && (#[trigger] ps[i]).is_default && (#[trigger] ps[j]).is_default
            ==> ps[i].browser != ps[j].browser
}

/// Inserting a profile that is not a second default of its browser keeps at
/// most one default per browser.
proof fn lemma_insert_keeps_one_default(before: Seq<ProfileView>, k: int, p: ProfileView)
    requires
        0 <= k <= before.len(),
        one_default_per_browser(before),
        p.is_default ==> forall|m: int| 0 <= m < before.len() && (#[trigger] before[m]).is_default ==> before[m].browser != p.browser,
    ensures
        one_default_per_browser(before.insert(k, p)),
{
    let after = before.insert(k, p);
    assert forall|i: int, j: int|
        0 <= i < after.len() && 0 <= j < after.len() && i != j && (#[trigger] after[i]).is_default && (#[trigger] after[j]).is_default
        implies after[i].browser != after[j].browser by {
        let bi = if i < k { i } else { i - 1 };
        let bj = if j < k { j } else { j - 1 };
        if i == k {
            assert(after[j] == before[bj]);
        } else if j == k {
            assert(after[i] == before[bi]);
        } else {
            assert(after[i] == before[bi] && after[j] == before[bj]);
        }
    }
}

/// A profile is put at a place within the listing.
proof fn lemma_insert_index_bounds(s: Seq<ProfileView>, p: ProfileView)
    ensures
        0 <= insert_index(s, p) <= s.len(),
    decreases s.len(),
{
    if s.len() > 0 && !profile_lt(p, s[0]) {
        lemma_insert_index_bounds(s.drop_first(), p);
    }
}

/// Sorting keeps each profile of the listing, adds none, and keeps at most one
/// default per browser.
proof fn lemma_sort_keeps_one_default(s: Seq<ProfileView>)
    requires
        one_default_per_browser(s),
    ensures
        one_default_per_browser(sort_listed(s)),
        forall|x: ProfileView| sort_listed(s).contains(x) ==> s.contains(x),
    decreases s.len(),
{
    if s.len() > 0 {
        let t = s.drop_last();
        let p = s.last();
        assert(one_default_per_browser(t)) by {
            assert forall|i: int, j: int|
                0 <= i < t.len() && 0 <= j < t.len() && i != j && (#[trigger] t[i]).is_default && (#[trigger] t[j]).is_default
                implies t[i].browser != t[j].browser by {
                assert(t[i] == s[i] && t[j] == s[j]);
            }
        }
        lemma_sort_keeps_one_default(t);
        let st = sort_listed(t);
        let k = insert_index(st, p);
        lemma_insert_index_bounds(st, p);
        assert(sort_listed(s) == st.insert(k, p));
        assert forall|m: int| 0 <= m < st.len() && (#[trigger] st[m]).is_default && p.is_default implies st[m].browser != p.browser by {
            assert(st.contains(st[m]));
            assert(t.contains(st[m]));
            let a = choose|a: int| 0 <= a < t.len() && t[a] == st[m];
            assert(s[a] == t[a]);
            assert(s[s.len() - 1] == p);
        }
        lemma_insert_keeps_one_default(st, k, p);
        assert forall|x: ProfileView| sort_listed(s).contains(x) implies s.contains(x) by {
            let q = choose|q: int| 0 <= q < sort_listed(s).len() && sort_listed(s)[q] == x;
            if q == k {
                assert(s[s.len() - 1] == x);
            } else {
                let b = if q < k { q } else { q - 1 };
                assert(st[b] == x);
                assert(st.contains(x));
                assert(t.contains(x));
                let a = choose|a: int| 0 <= a < t.len() && t[a] == x;
                assert(s[a] == x);
            }
        }
    }
}

/// Every profile gathered from the listings belongs to the browser of one of them.
proof fn lemma_gathered_browsers(ls: Seq<RootListing>)
    ensures
        forall|i: int| 0 <= i < spec_gathered(ls).len()
            ==> exists|m: int| 0 <= m < ls.len() && #[trigger] ls[m].browser == (#[trigger] spec_gathered(ls)[i]).browser,
    decreases ls.len(),
{
    if ls.len() > 0 {
        let t = ls.drop_last();
        let l = ls.last();
        lemma_gathered_browsers(t);
        lemma_root_profiles_belong_to_browser(l.browser, l.entries@, l.local_state);
        let g = spec_gathered(t);
        let fv = spec_profiles_in_root(l.browser, l.entries@, l.local_state);
        assert forall|i: int| 0 <= i < spec_gathered(ls).len()
            implies exists|m: int| 0 <= m < ls.len() && #[trigger] ls[m].browser == (#[trigger] spec_gathered(ls)[i]).browser by {
            if i < g.len() {
                assert(spec_gathered(ls)[i] == g[i]);
                let m = choose|m: int| 0 <= m < t.len() && #[trigger] t[m].browser == g[i].browser;
                assert(ls[m] == t[m]);
            } else {
                assert(spec_gathered(ls)[i] == fv[i - g.len()]);
                assert(ls[ls.len() - 1] == l);
            }
        }
    }
}

/// Profiles gathered from user-data directories of distinct browsers have at
/// most one default per browser.
proof fn lemma_gathered_one_default(ls: Seq<RootListing>)
    requires
        distinct_browsers(ls),
    ensures
        one_default_per_browser(spec_gathered(ls)),
    decreases ls.len(),
{
    if ls.len() > 0 {
        let t = ls.drop_last();
        let l = ls.last();
        assert(distinct_browsers(t)) by {
            assert forall|i: int, j: int| 0 <= i < j < t.len() implies (#[trigger] t[i]).browser != (#[trigger] t[j]).browser by {
                assert(t[i] == ls[i] && t[j] == ls[j]);
            }
        }
        lemma_gathered_one_default(t);
        lemma_gathered_browsers(t);
        lemma_root_profiles_belong_to_browser(l.browser, l.entries@, l.local_state);
        lemma_one_default_per_root(l.browser, l.entries@, l.local_state);
        let g = spec_gathered(t);
        let fv = spec_profiles_in_root(l.browser, l.entries@, l.local_state);
        let all = spec_gathered(ls);
        assert(all == g + fv);
        assert forall|i: int, j: int|
            0 <= i < all.len() && 0 <= j < all.len() && i != j && (#[trigger] all[i]).is_default && (#[trigger] all[j]).is_default
            implies all[i].browser != all[j].browser by {
            if i < g.len() && j < g.len() {
                assert(all[i] == g[i] && all[j] == g[j]);
            } else if i >= g.len() && j >= g.len() {
                assert(all[i] == fv[i - g.len()] && all[j] == fv[j - g.len()]);
                if i < j {
                    assert(!fv[j - g.len()].is_default);
                } else {
                    assert(!fv[i - g.len()].is_default);
                }
            } else {
                let a = if i < g.len() { i } else { j };
                let b = if i < g.len() { j } else { i };
                assert(all[a] == g[a] && all[b] == fv[b - g.len()]);
                let m = choose|m: int| 0 <= m < t.len() && #[trigger] t[m].browser == g[a].browser;
                assert(t[m] == ls[m]);
                assert(ls[ls.len() - 1] == l);
                assert(ls[m].browser != ls[ls.len() - 1].browser);
            }
        }
    }
}

/// Profiles discovered in user-data directories of distinct browsers have at
/// most one default per browser.
pub proof fn lemma_listed_one_default(ls: Seq<RootListing>)
    requires
        distinct_browsers(ls),
    ensures
        one_default_per_browser(sort_listed(spec_gathered(ls))),
{
    lemma_gathered_one_default(ls);
    lemma_sort_keeps_one_default(spec_gathered(ls));
}

/// Discovers browser profiles from the listed user-data directories, listed
/// by browser, then by ID.
pub fn profiles(listings: &Vec<RootListing>) -> (r: Vec<Profile>)
    ensures
        listed_in_order(profile_views(r@)),
        profile_views(r@).to_multiset() == spec_gathered(listings@).to_multiset(),
        profile_views(r@) == sort_listed(spec_gathered(listings@)),
        distinct_browsers(listings@) ==> one_default_per_browser(profile_views(r@)),
{
    let mut out: Vec<Profile> = Vec::new();
    let mut i: usize = 0;
    assert(listings@.take(0) =~= Seq::<RootListing>::empty());
    assert(profile_views(out@) =~= Seq::<ProfileView>::empty());
    while i < listings.len()
        invariant
            i <= listings@.len(),
            listed_in_order(profile_views(out@)),
            profile_views(out@).to_multiset() == spec_gathered(listings@.take(i as int)).to_multiset(),
            profile_views(out@) == sort_listed(spec_gathered(listings@.take(i as int))),
        decreases listings@.len() - i,
    {
        let l = &listings[i];
        let found = profiles_in_root(l.browser, &l.entries, &l.local_state);
        let ghost base = profile_views(out@).to_multiset();
        let ghost g = spec_gathered(listings@.take(i as int));
        let ghost fv = profile_views(found@);
        let mut j: usize = 0;
        assert(fv.take(0) =~= Seq::<ProfileView>::empty());
        assert(g + fv.take(0) =~= g);
        assert(base.add(fv.take(0).to_multiset()) =~= base) by {
            fv.take(0).to_multiset_ensures();
        }
        while j < found.len()
            invariant
                j <= found@.len(),
                fv == profile_views(found@),
                listed_in_order(profile_views(out@)),
                profile_views(out@).to_multiset() == base.add(fv.take(j as int).to_multiset()),
                profile_views(out@) == sort_listed(g + fv.take(j as int)),
            decreases found@.len() - j,
        {
            let p = found[j].clone();
            insert_in_order(&mut out, p);
            proof {
                assert(fv.take(j + 1) =~= fv.take(j as int).push(fv[j as int]));
                fv.take(j as int).to_multiset_ensures();
                assert(fv.take(j + 1).to_multiset() =~= fv.take(j as int).to_multiset().insert(fv[j as int]));
                assert(profile_views(out@).to_multiset() =~= base.add(fv.take(j + 1).to_multiset()));
                assert((g + fv.take(j + 1)).drop_last() =~= g + fv.take(j as int));
                assert((g + fv.take(j + 1)).last() == fv[j as int]);
            }
            j = j + 1;
        }
        proof {
            assert(fv.take(fv.len() as int) == fv);
            assert(listings@.take(i + 1).drop_last() == listings@.take(i as int));
            assert(listings@.take(i + 1).last() == listings@[i as int]);
            vstd::seq_lib::lemma_multiset_commutative(spec_gathered(listings@.take(i as int)), fv);
            assert(spec_gathered(listings@.take(i + 1)) == g + fv);
        }
        i = i + 1;
    }
    assert(listings@.take(listings@.len() as int) == listings@);
    proof {
        if distinct_browsers(listings@) {
            lemma_listed_one_default(listings@);
        }
    }
    out
}

} // verus!

verus! {

/// Every profile that `keep` retains satisfies the predicate and comes from the input.
pub proof fn lemma_keep_members(ps: Seq<ProfileView>, pred: spec_fn(ProfileView) -> bool)
    ensures
        forall|i: int| 0 <= i < keep(ps, pred).len() ==> pred(#[trigger] keep(ps, pred)[i]),
        forall|i: int| 0 <= i < keep(ps, pred).len() ==> ps.contains(#[trigger] keep(ps, pred)[i]),
        keep(ps, pred).len() <= ps.len(),
    decreases ps.len(),
{
    if ps.len() > 0 {
        lemma_keep_members(ps.drop_last(), pred);
        let prev = keep(ps.drop_last(), pred);
        assert forall|i: int| 0 <= i < keep(ps, pred).len() implies ps.contains(#[trigger] keep(ps, pred)[i]) by {
            if i < prev.len() {
                let k = choose|k: int| 0 <= k < ps.drop_last().len() && ps.drop_last()[k] == prev[i];
                assert(ps[k] == prev[i]);
            } else {
                assert(ps[ps.len() - 1] == ps.last());
            }
        }
    }
}

/// Every profile listed in a browser's user-data directory belongs to that
/// browser, is named after a directory entry, and at most one is marked default.
pub proof fn lemma_root_profiles_belong_to_browser(
    browser: Browser,
    entries: Seq<ProfileDirEntry>,
    local_state: Option<String>,
)
    ensures
        forall|i: int|
            0 <= i < spec_profiles_in_root(browser, entries, local_state).len()
                ==> (#[trigger] spec_profiles_in_root(browser, entries, local_state)[i]).browser == browser,
{
    lemma_listed_browser(browser, entries);
}

/// A discovered profile's ID is the name of the directory it was found in
/// (not its display name), and its path is that directory's path.
pub proof fn lemma_profile_id_is_directory_name(
    browser: Browser,
    entries: Seq<ProfileDirEntry>,
    local_state: Option<String>,
)
    ensures
        forall|i: int|
            0 <= i < spec_profiles_in_root(browser, entries, local_state).len() ==> exists|m: int|
                0 <= m < entries.len()
                    && (#[trigger] spec_profiles_in_root(browser, entries, local_state)[i]).id == entries[m].directory@
                    && spec_profiles_in_root(browser, entries, local_state)[i].path == entries[m].path@
                    && spec_entry_profile(browser, entries[m]) is Some,
{
    lemma_listed_from_entries(browser, entries);
    let ps = spec_listed(browser, entries);
    assert forall|i: int| 0 <= i < spec_profiles_in_root(browser, entries, local_state).len() implies exists|m: int|
        0 <= m < entries.len()
            && (#[trigger] spec_profiles_in_root(browser, entries, local_state)[i]).id == entries[m].directory@
            && spec_profiles_in_root(browser, entries, local_state)[i].path == entries[m].path@
            && spec_entry_profile(browser, entries[m]) is Some by {
        assert(ps[i].id == spec_profiles_in_root(browser, entries, local_state)[i].id);
    }
}

/// Every profile listed from directory entries is named after one of them.
proof fn lemma_listed_from_entries(browser: Browser, es: Seq<ProfileDirEntry>)
    ensures
        forall|i: int|
            0 <= i < spec_listed(browser, es).len() ==> exists|m: int|
                0 <= m < es.len() && (#[trigger] spec_listed(browser, es)[i]).id == es[m].directory@
                    && spec_listed(browser, es)[i].path == es[m].path@ && spec_entry_profile(browser, es[m]) is Some,
    decreases es.len(),
{
    if es.len() > 0 {
        let t = es.drop_last();
        lemma_listed_from_entries(browser, t);
        let prev = spec_listed(browser, t);
        assert forall|i: int| 0 <= i < spec_listed(browser, es).len() implies exists|m: int|
            0 <= m < es.len() && (#[trigger] spec_listed(browser, es)[i]).id == es[m].directory@
                && spec_listed(browser, es)[i].path == es[m].path@ && spec_entry_profile(browser, es[m]) is Some by {
            if i < prev.len() {
                assert(spec_listed(browser, es)[i] == prev[i]);
                let m = choose|m: int| 0 <= m < t.len() && (#[trigger] prev[i]).id == t[m].directory@
                    && prev[i].path == t[m].path@ && spec_entry_profile(browser, t[m]) is Some;
                assert(es[m] == t[m]);
            } else {
                assert(es[es.len() - 1] == es.last());
            }
        }
    }
}

/// Every profile listed from directory entries belongs to the given browser.
proof fn lemma_listed_browser(browser: Browser, es: Seq<ProfileDirEntry>)
    ensures
        forall|i: int| 0 <= i < spec_listed(browser, es).len() ==> (#[trigger] spec_listed(browser, es)[i]).browser == browser,
    decreases es.len(),
{
    if es.len() > 0 {
        lemma_listed_browser(browser, es.drop_last());
    }
}

/// At most one profile of a browser's user-data directory is marked default;
/// the last used profile is the default when it is listed; else `Default`
/// when it is listed; else the only profile.
pub proof fn lemma_one_default_per_root(
    browser: Browser,
    entries: Seq<ProfileDirEntry>,
    local_state: Option<String>,
)
    ensures
        ({
            let ps = spec_profiles_in_root(browser, entries, local_state);
            let listed = spec_listed(browser, entries);
            let last = spec_last_used(local_state);
            &&& forall|i: int, j: int|
                0 <= i < j < ps.len() && (#[trigger] ps[i]).is_default ==> !(#[trigger] ps[j]).is_default
            &&& (last is Some && has_id(listed, last->0)) ==> exists|i: int|
                0 <= i < ps.len() && (#[trigger] ps[i]).is_default && ps[i].id == last->0
            &&& (!(last is Some && has_id(listed, last->0)) && has_id(listed, "Default"@)) ==> exists|i: int|
                0 <= i < ps.len() && (#[trigger] ps[i]).is_default && ps[i].id == "Default"@
            &&& ps.len() == 1 ==> ps[0].is_default
            &&& forall|i: int| 0 <= i < ps.len() && (#[trigger] ps[i]).is_default ==> spec_default_id(listed, last) == Some(ps[i].id)
        }),
{
    let ps = spec_profiles_in_root(browser, entries, local_state);
    let listed = spec_listed(browser, entries);
    let d = spec_default_id(listed, spec_last_used(local_state));
    assert forall|i: int, j: int| 0 <= i < j < ps.len() && (#[trigger] ps[i]).is_default implies !(#[trigger] ps[j]).is_default by {
        if ps[j].is_default {
            assert(listed[i].id == listed[j].id);
            assert(!first_with_id(listed, j));
        }
    }
    if d is Some {
        let id = d->0;
        assert(has_id(listed, id)) by {
            if listed.len() == 1 && !has_id(listed, "Default"@) && !(spec_last_used(local_state) matches Some(l) && has_id(listed, l)) {
                assert(listed[0].id == id);
            }
        }
        let k = choose|k: int| 0 <= k < listed.len() && #[trigger] listed[k].id == id;
        lemma_first_index(listed, k);
        let f = choose|f: int| 0 <= f <= k && listed[f].id == listed[k].id && first_with_id(listed, f);
        assert(ps[f].is_default && ps[f].id == id);
    }
}

/// Some profile with the ID of `ps[k]` is the first with that ID.
proof fn lemma_first_index(ps: Seq<ProfileView>, k: int)
    requires
        0 <= k < ps.len(),
    ensures
        exists|f: int| 0 <= f <= k && ps[f].id == ps[k].id && first_with_id(ps, f),
    decreases k,
{
    if first_with_id(ps, k) {
        assert(ps[k].id == ps[k].id);
    } else {
        let j = choose|j: int| 0 <= j < k && #[trigger] ps[j].id == ps[k].id;
        lemma_first_index(ps, j);
    }
}

/// A selected profile matches the selector: by ID, or by display name when no
/// profile has that ID; an ID shared by no other profile always wins.
pub proof fn lemma_selection_matches(ps: Seq<ProfileView>, sel: Seq<char>)
    ensures
        spec_select(ps, sel) matches Ok(Some(p)) ==> ps.contains(p) && (p.id == sel || (p.name == sel
            && with_id(ps, sel).len() == 0)),
        with_id(ps, sel).len() == 1 ==> spec_select(ps, sel) == Ok::<Option<ProfileView>, Seq<char>>(
            Some(with_id(ps, sel)[0]),
        ),
{
    lemma_keep_members(ps, |p: ProfileView| p.id == sel);
    lemma_keep_members(ps, |p: ProfileView| p.name == sel);
    if with_id(ps, sel).len() == 1 {
        assert(with_id(ps, sel)[0].id == sel);
    } else if with_id(ps, sel).len() == 0 && with_name(ps, sel).len() == 1 {
        assert(with_name(ps, sel)[0].name == sel);
    }
}

/// A profile directory and its cookie database, given as explicit paths, give
/// the same profile: for a directory whose `Network/Cookies` is a file, naming
/// that file instead of the directory changes nothing.
pub proof fn lemma_directory_and_database_agree(b: Browser, dir: PathInfo, db: PathInfo)
    requires
        !dir.is_file,
        dir.network_cookies.present,
        db.is_file,
        db.target.path@ == dir.network_cookies.path@,
        is_named(db.target, "Cookies"@),
        db.parent matches Some(p) && is_named(p, "Network"@),
        db.grandparent == Some(dir.target),
    ensures
        spec_from_path(b, dir) == spec_from_path(b, db),
        spec_kind(b) == Kind::Chromium ==> spec_from_path(b, dir) is Ok,
{
}

/// A profile directory that keeps its database directly as `Cookies` (no
/// `Network/Cookies`) and that database, given as explicit paths, give the
/// same profile, unless the directory itself is named `Network`.
pub proof fn lemma_plain_directory_and_database_agree(b: Browser, dir: PathInfo, db: PathInfo)
    requires
        !dir.is_file,
        !dir.network_cookies.present,
        dir.plain_cookies.present,
        !is_named(dir.target, "Network"@),
        db.is_file,
        db.target.path@ == dir.plain_cookies.path@,
        is_named(db.target, "Cookies"@),
        db.parent == Some(dir.target),
    ensures
        spec_from_path(b, dir) == spec_from_path(b, db),
        spec_kind(b) == Kind::Chromium ==> spec_from_path(b, dir) is Ok,
{
}

/// A profile built from an explicit path is built again, unchanged, from its
/// own cookie database, in both layouts (`Network/Cookies` and `Cookies`).
pub proof fn lemma_rebuilt_from_own_database(b: Browser, dir: PathInfo, db: PathInfo)
    requires
        !dir.is_file,
        spec_from_path(b, dir) is Ok,
        !is_named(dir.target, "Network"@),
        db.is_file,
        db.target.path@ == spec_from_path(b, dir)->Ok_0.cookie_db,
        is_named(db.target, "Cookies"@),
        dir.network_cookies.present ==> (db.parent matches Some(p) && is_named(p, "Network"@) && db.grandparent
            == Some(dir.target)),
        !dir.network_cookies.present ==> db.parent == Some(dir.target),
    ensures
        spec_from_path(b, db) == spec_from_path(b, dir),
{
}

/// A profile that a browser's selection returns belongs to that browser.
pub proof fn lemma_browser_selection_stays_in_browser(b: Browser, ps: Seq<ProfileView>, sel: Seq<char>, info: SelectorInfo)
    ensures
        spec_browser_find_profile(b, ps, sel, info) matches Ok(p) ==> p.browser == b,
{
    let c = of_browser(ps, b);
    lemma_keep_members(ps, |p: ProfileView| p.browser == b);
    lemma_selection_matches(c, sel);
    if let Ok(Some(p)) = spec_select(c, sel) {
        let k = choose|k: int| 0 <= k < c.len() && c[k] == p;
        assert(c[k].browser == b);
    }
}

/// The profile a browser uses by default belongs to that browser.
pub proof fn lemma_default_profile_of_browser(ps: Seq<ProfileView>, b: Browser)
    ensures
        spec_default_profile(ps, b) matches Ok(p) ==> p.browser == b && ps.contains(p),
{
    let c = of_browser(ps, b);
    lemma_keep_members(ps, |p: ProfileView| p.browser == b);
    lemma_first_default_member(c);
    if let Some(p) = spec_first_default(c) {
        let k = choose|k: int| 0 <= k < c.len() && c[k] == p;
        assert(c[k].browser == b);
        assert(ps.contains(c[k]));
    } else if c.len() == 1 {
        assert(c[0].browser == b);
        assert(ps.contains(c[0]));
    }
}

/// A profile that satisfies the predicate is kept.
proof fn lemma_keep_contains(ps: Seq<ProfileView>, pred: spec_fn(ProfileView) -> bool, k: int)
    requires
        0 <= k < ps.len(),
        pred(ps[k]),
    ensures
        keep(ps, pred).contains(ps[k]),
    decreases ps.len(),
{
    let prev = keep(ps.drop_last(), pred);
    if k == ps.len() - 1 {
        assert(keep(ps, pred) == prev.push(ps.last()));
        assert(keep(ps, pred)[prev.len() as int] == ps[k]);
    } else {
        assert(ps.drop_last()[k] == ps[k]);
        lemma_keep_contains(ps.drop_last(), pred, k);
        let i = choose|i: int| 0 <= i < prev.len() && prev[i] == ps[k];
        if pred(ps.last()) {
            assert(keep(ps, pred)[i] == prev[i]);
        }
    }
}

/// Where some profile is marked default, a first default profile is found.
proof fn lemma_first_default_found(s: Seq<ProfileView>, k: int)
    requires
        0 <= k < s.len(),
        s[k].is_default,
    ensures
        spec_first_default(s) is Some,
    decreases k,
{
    if !s[0].is_default {
        assert(s.drop_first()[k - 1] == s[k]);
        lemma_first_default_found(s.drop_first(), k - 1);
    }
}

/// Where no two profiles of one browser are both marked default, a profile
/// marked default is the one its browser uses by default.
proof fn lemma_default_is_selected(ps: Seq<ProfileView>, k: int)
    requires
        one_default_per_browser(ps),
        0 <= k < ps.len(),
        ps[k].is_default,
    ensures
        spec_default_profile(ps, ps[k].browser) == Ok::<ProfileView, Seq<char>>(ps[k]),
{
    let b = ps[k].browser;
    let pred = |p: ProfileView| p.browser == b;
    let c = of_browser(ps, b);
    assert(c == keep(ps, pred));
    lemma_keep_contains(ps, pred, k);
    lemma_keep_members(ps, pred);
    let i = choose|i: int| 0 <= i < c.len() && c[i] == ps[k];
    lemma_first_default_found(c, i);
    lemma_first_default_member(c);
    let q = spec_first_default(c)->0;
    let m = choose|m: int| 0 <= m < c.len() && c[m] == q;
    assert(pred(c[m]));
    assert(ps.contains(c[m]));
    let a = choose|a: int| 0 <= a < ps.len() && ps[a] == c[m];
    if a != k {
        assert(ps[a].browser != ps[k].browser);
    }
}

/// The profile that discovery lists as a browser's default is the profile
/// that browser uses when none is selected (each browser's user-data
/// directory listed once).
pub proof fn lemma_listed_default_is_selected(ls: Seq<RootListing>, k: int)
    requires
        distinct_browsers(ls),
        0 <= k < sort_listed(spec_gathered(ls)).len(),
        sort_listed(spec_gathered(ls))[k].is_default,
    ensures
        ({
            let ps = sort_listed(spec_gathered(ls));
            spec_default_profile(ps, ps[k].browser) == Ok::<ProfileView, Seq<char>>(ps[k])
        }),
{
    lemma_listed_one_default(ls);
    lemma_default_is_selected(sort_listed(spec_gathered(ls)), k);
}

/// The first default profile is one of the profiles, and is marked default.
proof fn lemma_first_default_member(ps: Seq<ProfileView>)
    ensures
        spec_first_default(ps) matches Some(p) ==> p.is_default && exists|k: int| 0 <= k < ps.len() && ps[k] == p,
    decreases ps.len(),
{
    if ps.len() > 0 && !ps[0].is_default {
        lemma_first_default_member(ps.drop_first());
        if let Some(p) = spec_first_default(ps.drop_first()) {
            let k = choose|k: int| 0 <= k < ps.drop_first().len() && ps.drop_first()[k] == p;
            assert(ps[k + 1] == p);
        }
    } else if ps.len() > 0 {
        assert(ps[0] == ps[0]);
    }
}

} // verus!

verus! {

/// A profile ID that no other discovered profile shares selects that profile
/// without `--browser`, whatever the selector looks like.
pub proof fn lemma_unique_id_selects(ps: Seq<ProfileView>, cs: Seq<CanonicalPaths>, sel: Seq<char>, info: SelectorInfo)
    requires
        with_id(ps, sel).len() == 1,
    ensures
        spec_find_profile(ps, cs, sel, info) == Ok::<ProfileView, Seq<char>>(with_id(ps, sel)[0]),
{
    lemma_selection_matches(ps, sel);
}

/// Naming the browser disambiguates: an ID that only one profile of that
/// browser has selects that profile, even when other browsers have profiles
/// with the same ID.
pub proof fn lemma_browser_disambiguates(b: Browser, ps: Seq<ProfileView>, sel: Seq<char>, info: SelectorInfo)
    requires
        with_id(of_browser(ps, b), sel).len() == 1,
    ensures
        spec_browser_find_profile(b, ps, sel, info) == Ok::<ProfileView, Seq<char>>(with_id(of_browser(ps, b), sel)[0]),
{
    lemma_selection_matches(of_browser(ps, b), sel);
}

} // verus!
