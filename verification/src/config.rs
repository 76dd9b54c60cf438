//! The profile registry: an ordered collection of server profiles with
//! first-match lookup by name.
//!
//! Lookup scans from the front and uses the first entry whose `name`
//! matches. Names are not required to be unique; when duplicates exist,
//! every operation deliberately acts on the first match only. When no
//! entry matches, `del_server` and `edit_server` leave the registry
//! unchanged (the documented not-found policy), and `get_server` returns
//! a profile with all four fields empty.

use crate::text::str_eq;
use vstd::prelude::*;

verus! {

/// One server installation: its name, version, install path and launch
/// arguments. A plain value: copies are independent.
#[derive(Debug, PartialEq, Eq)]
pub struct ServerConfig {
    pub name: String,
    pub version: String,
    pub path: String,
    pub args: String,
}

/// The mathematical value of a `ServerConfig`: its four fields as
/// character sequences.
#[verifier::ext_equal]
pub struct ProfileView {
    pub name: Seq<char>,
    pub version: Seq<char>,
    pub path: Seq<char>,
    pub args: Seq<char>,
}

impl View for ServerConfig {
    type V = ProfileView;

    open spec fn view(&self) -> ProfileView {
        ProfileView {
            name: self.name@,
            version: self.version@,
            path: self.path@,
            args: self.args@,
        }
    }
}

impl Clone for ServerConfig {
    fn clone(&self) -> (r: Self)
        ensures
            r@ == self@,
    {
        ServerConfig {
            name: self.name.clone(),
            version: self.version.clone(),
            path: self.path.clone(),
            args: self.args.clone(),
        }
    }
}

/// The profile whose four fields are all empty: what `get_server` hands
/// back when no entry matches.
pub open spec fn empty_profile() -> ProfileView {
    ProfileView {
        name: Seq::<char>::empty(),
        version: Seq::<char>::empty(),
        path: Seq::<char>::empty(),
        args: Seq::<char>::empty(),
    }
}

/// Entry `i` of `ps` exists and is named `name`.
pub open spec fn matches_at(ps: Seq<ProfileView>, name: Seq<char>, i: int) -> bool {
    0 <= i < ps.len() && ps[i].name == name
}

/// Some entry of `ps` is named `name`.
pub open spec fn has_profile(ps: Seq<ProfileView>, name: Seq<char>) -> bool {
    exists|i: int| matches_at(ps, name, i)
}

/// Entry `i` is the first entry of `ps` named `name`.
pub open spec fn is_first_match(ps: Seq<ProfileView>, name: Seq<char>, i: int) -> bool {
    matches_at(ps, name, i) && (forall|j: int| 0 <= j < i ==> ps[j].name != name)
}

/// At most one index is the first match for a given name.
pub proof fn lemma_first_match_unique(ps: Seq<ProfileView>, name: Seq<char>, i: int, j: int)
    requires
        is_first_match(ps, name, i),
        is_first_match(ps, name, j),
    ensures
        i == j,
{
}

/// The values of a sequence of stored profiles.
pub open spec fn views_of(v: Seq<ServerConfig>) -> Seq<ProfileView> {
    v.map_values(|s: ServerConfig| s@)
}

/// The ordered registry of server profiles. Insertion order is kept by
/// every operation except removal and in-place replacement.
pub struct Config {
    pub servers: Vec<ServerConfig>,
}

impl View for Config {
    type V = Seq<ProfileView>;

    open spec fn view(&self) -> Seq<ProfileView> {
        views_of(self.servers@)
    }
}

impl Config {
    /// A new, empty registry.
    pub fn new() -> (r: Config)
        ensures
            r@ == Seq::<ProfileView>::empty(),
    {
        let r = Config { servers: Vec::new() };
        proof {
            assert(r@ =~= Seq::<ProfileView>::empty());
        }
        r
    }

    /// Appends `server` at the end. No duplicate check: a name already
    /// present simply gains a later, shadowed entry.
    pub fn add_server(&mut self, server: ServerConfig)
        ensures
            final(self)@ == old(self)@.push(server@),
    {
        let ghost v = server@;
        self.servers.push(server);
        proof {
            assert(self@ =~= old(self)@.push(v));
        }
    }

    /// The index of the first entry named `name`, if any.
    pub fn find_index(&self, name: &str) -> (r: Option<usize>)
        ensures
            match r {
                Some(i) => is_first_match(self@, name@, i as int),
                None => !has_profile(self@, name@),
            },
    {
        let n = self.servers.len();
        let mut i: usize = 0;
        while i < n
            invariant
                n == self.servers@.len(),
                i <= n,
                forall|j: int| 0 <= j < i ==> self@[j].name != name@,
            decreases n - i,
        {
            if str_eq(self.servers[i].name.as_str(), name) {
                return Some(i);
            }
            i = i + 1;
        }
        None
    }

    /// Removes the first entry named `name`; leaves the registry
    /// unchanged when no entry matches.
    pub fn del_server(&mut self, name: String)
        ensures
            !has_profile(old(self)@, name@) ==> final(self)@ == old(self)@,
            forall|i: int|
                is_first_match(old(self)@, name@, i) ==> final(self)@ == old(self)@.remove(i),
    {
        match self.find_index(name.as_str()) {
            Some(i) => {
                self.servers.remove(i);
                proof {
                    assert(self@ =~= old(self)@.remove(i as int));
                }
            },
            None => {},
        }
    }

    /// Replaces the first entry named `server.name` with `server`,
    /// keeping its position; leaves the registry unchanged when no entry
    /// matches.
    pub fn edit_server(&mut self, server: ServerConfig)
        ensures
            !has_profile(old(self)@, server@.name) ==> final(self)@ == old(self)@,
            forall|i: int|
                is_first_match(old(self)@, server@.name, i) ==> final(self)@ == old(self)@.update(
                    i,
                    server@,
                ),
    {
        let ghost v = server@;
        match self.find_index(server.name.as_str()) {
            Some(i) => {
                self.servers[i] = server;
                proof {
                    assert(self@ =~= old(self)@.update(i as int, v));
                }
            },
            None => {},
        }
    }

    /// A copy of the first entry named `name`, or the all-empty profile
    /// when no entry matches. The sentinel is indistinguishable from a
    /// stored all-empty profile; callers that need the difference use
    /// `find_server`, which reports not-found explicitly.
    pub fn get_server(&self, name: String) -> (r: ServerConfig)
        ensures
            forall|i: int| is_first_match(self@, name@, i) ==> r@ == self@[i],
            !has_profile(self@, name@) ==> r@ == empty_profile(),
    {
        match self.find_index(name.as_str()) {
            Some(i) => self.servers[i].clone(),
            None => {
                let r = ServerConfig {
                    name: String::new(),
                    version: String::new(),
                    path: String::new(),
                    args: String::new(),
                };
                proof {
                    assert(r@ =~= empty_profile());
                }
                r
            },
        }
    }

    /// A borrowed view of the first entry named `name`, or `None` when
    /// no entry matches.
    pub fn find_server(&self, name: &str) -> (r: Option<&ServerConfig>)
        ensures
            match r {
                Some(p) => exists|i: int| is_first_match(self@, name@, i) && p@ == self@[i],
                None => !has_profile(self@, name@),
            },
    {
        match self.find_index(name) {
            Some(i) => Some(&self.servers[i]),
            None => None,
        }
    }

    /// The entries, in insertion order, open to mutation: changes made
    /// through the result are the registry's own.
    pub fn get_servers_mut(&mut self) -> (r: &mut Vec<ServerConfig>)
        ensures
            *r == old(self).servers,
            final(self).servers == *final(r),
    {
        &mut self.servers
    }

    /// The entries, in insertion order.
    pub fn get_servers(&self) -> (r: &Vec<ServerConfig>)
        ensures
            views_of(r@) == self@,
            r@.len() == self@.len(),
            forall|i: int| 0 <= i < r@.len() ==> r@[i]@ == self@[i],
    {
        &self.servers
    }
}

/// Appending never disturbs earlier entries, and removal or in-place
/// replacement of a later entry never disturbs an earlier one: iteration
/// order is insertion order, stable under all three.
pub proof fn lemma_iteration_order_stable(ps: Seq<ProfileView>, v: ProfileView, i: int, k: int)
    requires
        0 <= k < i < ps.len(),
    ensures
        ps.push(v)[k] == ps[k],
        ps.remove(i)[k] == ps[k],
        ps.update(i, v)[k] == ps[k],
{
}

/// Adding a profile whose name is absent makes it the first (and only)
/// match for that name: a following `get_server` returns it.
pub proof fn lemma_add_get(ps: Seq<ProfileView>, p: ProfileView)
    requires
        !has_profile(ps, p.name),
    ensures
        is_first_match(ps.push(p), p.name, ps.len() as int),
        forall|i: int| is_first_match(ps.push(p), p.name, i) ==> ps.push(p)[i] == p,
{
    assert(matches_at(ps.push(p), p.name, ps.len() as int));
    assert forall|j: int| 0 <= j < ps.len() implies ps.push(p)[j].name != p.name by {
        assert(!matches_at(ps, p.name, j));
    }
    assert forall|i: int| is_first_match(ps.push(p), p.name, i) implies ps.push(p)[i] == p by {
        lemma_first_match_unique(ps.push(p), p.name, i, ps.len() as int);
    }
}

/// Removing by a name that two entries share, the earlier at `i` and a
/// later one at `j`, removes the entry at `i` only: the one at `j`
/// survives (at `j - 1`) and the name is still present.
pub proof fn lemma_remove_first_match(ps: Seq<ProfileView>, name: Seq<char>, i: int, j: int)
    requires
        is_first_match(ps, name, i),
        matches_at(ps, name, j),
        i < j,
    ensures
        ps.remove(i)[j - 1] == ps[j],
        has_profile(ps.remove(i), name),
{
    assert(matches_at(ps.remove(i), name, j - 1));
}

} // verus!
