//! The profile store's bookkeeping: profiles kept by name in two parallel
//! lists, as the configuration file holds them. Reading and writing the file
//! is the application's part; here are the lookups and changes between a read
//! and a write.

use vstd::prelude::*;
use crate::display::Layout;

verus! {

/// The configuration file's content. `profiles[i]` is the profile named
/// `profile_names[i]`; `P` is the profile record and `S` the application
/// settings, which this library carries without reading.
pub struct KaiserConfig<P, S> {
    pub profiles: Vec<P>,
    pub profile_names: Vec<String>,
    pub settings: S,
    pub last_known_good_layout: Option<Layout>,
    pub last_restorable_layout: Option<Layout>,
}

/// Where the configuration file lives.
pub struct KaiserConfigStore {
    pub path: String,
}

/// The first position of `name` among the names.
pub open spec fn name_position(names: Seq<Seq<char>>, name: Seq<char>) -> Option<int>
    decreases names.len(),
{
    if names.len() == 0 {
        None
    } else if names[0] == name {
        Some(0)
    } else {
        match name_position(names.drop_first(), name) {
            Some(i) => Some(i + 1),
            None => None,
        }
    }
}

/// The index of the profile that a lookup by `name` finds, if any.
pub open spec fn profile_slot<P, S>(config: KaiserConfig<P, S>, name: Seq<char>) -> Option<int> {
    match name_position(names_view(config.profile_names@), name) {
        Some(i) => if i < config.profiles@.len() { Some(i) } else { None },
        None => None,
    }
}

/// The profile stored under `name`, if any.
pub open spec fn spec_lookup<P, S>(config: KaiserConfig<P, S>, name: Seq<char>) -> Option<P> {
    match profile_slot(config, name) {
        Some(i) => Some(config.profiles@[i]),
        None => None,
    }
}

/// A name found among the names has a profile beside it, so that replacing or
/// removing that profile stays within the list.
pub open spec fn can_change<P, S>(config: KaiserConfig<P, S>, name: Seq<char>) -> bool {
    match name_position(names_view(config.profile_names@), name) {
        Some(i) => i < config.profiles@.len(),
        None => true,
    }
}

/// The two lists have the same length.
pub open spec fn aligned<P, S>(config: KaiserConfig<P, S>) -> bool {
    config.profile_names@.len() == config.profiles@.len()
}

pub open spec fn names_view(names: Seq<String>) -> Seq<Seq<char>> {
    names.map_values(|s: String| s@)
}


/// How a save changes the configuration: the profile replaces the one of the
/// first entry named `name`, or is appended together with the name.
pub open spec fn save_result<P, S>(before: KaiserConfig<P, S>, after: KaiserConfig<P, S>, name: Seq<char>, profile: P) -> bool {
    &&& match name_position(names_view(before.profile_names@), name) {
        Some(i) => {
            &&& after.profiles@ == before.profiles@.update(i, profile)
            &&& after.profile_names@ == before.profile_names@
        },
        None => {
            &&& after.profiles@ == before.profiles@.push(profile)
            &&& names_view(after.profile_names@) == names_view(before.profile_names@).push(name)
        },
    }
    &&& after.settings == before.settings
    &&& after.last_known_good_layout == before.last_known_good_layout
    &&& after.last_restorable_layout == before.last_restorable_layout
}

/// How a delete changes the configuration: the first entry named `name` goes,
/// name and profile together; nothing changes when there is none.
pub open spec fn delete_result<P, S>(before: KaiserConfig<P, S>, after: KaiserConfig<P, S>, name: Seq<char>) -> bool {
    &&& match name_position(names_view(before.profile_names@), name) {
        Some(i) => {
            &&& after.profiles@ == before.profiles@.remove(i)
            &&& after.profile_names@ == before.profile_names@.remove(i)
        },
        None => {
            &&& after.profiles@ == before.profiles@
            &&& after.profile_names@ == before.profile_names@
        },
    }
    &&& after.settings == before.settings
    &&& after.last_known_good_layout == before.last_known_good_layout
    &&& after.last_restorable_layout == before.last_restorable_layout
}

proof fn lemma_name_position(names: Seq<Seq<char>>, name: Seq<char>)
    ensures
        match name_position(names, name) {
            Some(i) => 0 <= i < names.len() && names[i] == name
                && forall|j: int| 0 <= j < i ==> #[trigger] names[j] != name,
            None => forall|j: int| 0 <= j < names.len() ==> #[trigger] names[j] != name,
        },
    decreases names.len(),
{
    if names.len() > 0 {
        lemma_name_position(names.drop_first(), name);
        assert forall|j: int| 1 <= j < names.len() implies #[trigger] names[j] == names.drop_first()[j - 1] by {}
    }
}

impl<P, S> KaiserConfig<P, S> {
    /// A configuration without profiles or remembered layouts.
    pub fn empty(settings: S) -> (r: Self)
        ensures
            r.profiles@.len() == 0,
            r.profile_names@.len() == 0,
            r.settings == settings,
            r.last_known_good_layout.is_none(),
            r.last_restorable_layout.is_none(),
    {
        KaiserConfig {
            profiles: Vec::new(),
            profile_names: Vec::new(),
            settings,
            last_known_good_layout: None,
            last_restorable_layout: None,
        }
    }
}

/// The position of the first name equal to `name`.
pub fn profile_index<P, S>(config: &KaiserConfig<P, S>, name: &str) -> (r: Option<usize>)
    ensures
        match r {
            Some(i) => name_position(names_view(config.profile_names@), name@) == Some(i as int),
            None => name_position(names_view(config.profile_names@), name@).is_none(),
        },
{
    proof { lemma_name_position(names_view(config.profile_names@), name@); }
    let wanted = name.to_owned();
    let mut i: usize = 0;
    while i < config.profile_names.len()
        invariant
            0 <= i <= config.profile_names@.len(),
            wanted@ == name@,
            forall|j: int| 0 <= j < i ==> #[trigger] config.profile_names@[j]@ != name@,
        decreases config.profile_names@.len() - i,
    {
        if config.profile_names[i] == wanted {
            proof {
                let nv = names_view(config.profile_names@);
                lemma_name_position(nv, name@);
                assert(nv[i as int] == name@);
                match name_position(nv, name@) {
                    Some(k) => {
                        if k < i {
                            assert(nv[k] == config.profile_names@[k]@);
                        }
                    },
                    None => {},
                }
            }
            return Some(i);
        }
        i = i + 1;
    }
    proof {
        let nv = names_view(config.profile_names@);
        match name_position(nv, name@) {
            Some(k) => {
                assert(nv[k] == config.profile_names@[k]@);
            },
            None => {},
        }
    }
    None
}

impl KaiserConfigStore {
    pub fn new(path: String) -> (r: Self)
        ensures
            r.path@ == path@,
    {
        KaiserConfigStore { path }
    }

    /// The profile stored under `name` in the configuration read from this
    /// store (a clone of it).
    pub fn load_kaiser_profile<P: Clone, S>(&self, config: &KaiserConfig<P, S>, name: &str) -> (r: Option<P>)
        ensures
            r.is_some() == profile_slot(*config, name@).is_some(),
            match (r, profile_slot(*config, name@)) {
                (Some(p), Some(i)) => cloned(config.profiles@[i], p),
                _ => true,
            },
    {
        match profile_index(config, name) {
            Some(i) => {
                if i < config.profiles.len() {
                    Some(config.profiles[i].clone())
                } else {
                    None
                }
            },
            None => None,
        }
    }

    /// Stores `profile` under `name`: it replaces the profile of the first
    /// entry of that name, or is appended together with the name.
    pub fn save_kaiser_profile<P, S>(&self, config: &mut KaiserConfig<P, S>, name: &str, profile: P)
        requires
            can_change(*old(config), name@),
        ensures
            save_result(*old(config), *final(config), name@, profile),
    {
        match profile_index(config, name) {
            Some(i) => {
                config.profiles.set(i, profile);
            },
            None => {
                let ghost before = config.profile_names@;
                config.profile_names.push(name.to_owned());
                config.profiles.push(profile);
                assert(names_view(config.profile_names@) =~= names_view(before).push(name@));
            },
        }
    }

    /// Removes the first entry named `name`, name and profile together; the
    /// configuration stays as it was when there is none.
    pub fn delete_kaiser_profile<P, S>(&self, config: &mut KaiserConfig<P, S>, name: &str)
        requires
            can_change(*old(config), name@),
        ensures
            delete_result(*old(config), *final(config), name@),
    {
        proof { lemma_name_position(names_view(config.profile_names@), name@); }
        match profile_index(config, name) {
            Some(i) => {
                config.profile_names.remove(i);
                config.profiles.remove(i);
            },
            None => {},
        }
    }

    /// The names of the stored profiles, in stored order.
    pub fn list_profile_names<P, S>(&self, config: &KaiserConfig<P, S>) -> (r: Vec<String>)
        ensures
            r@ == config.profile_names@,
    {
        let r = config.profile_names.clone();
        assert(r@ =~= config.profile_names@);
        r
    }
}


proof fn lemma_position_is(names: Seq<Seq<char>>, name: Seq<char>, k: int)
    requires
        0 <= k < names.len(),
        names[k] == name,
        forall|j: int| 0 <= j < k ==> #[trigger] names[j] != name,
    ensures
        name_position(names, name) == Some(k),
{
    lemma_name_position(names, name);
    match name_position(names, name) {
        Some(i) => {
            if i < k {
                assert(names[i] != name);
            } else if i > k {
                assert(names[k] != name);
            }
        },
        None => {
            assert(names[k] != name);
        },
    }
}

proof fn lemma_position_absent(names: Seq<Seq<char>>, name: Seq<char>)
    requires
        forall|j: int| 0 <= j < names.len() ==> #[trigger] names[j] != name,
    ensures
        name_position(names, name).is_none(),
{
    lemma_name_position(names, name);
    match name_position(names, name) {
        Some(i) => {
            assert(names[i] != name);
        },
        None => {},
    }
}

proof fn lemma_position_push(names: Seq<Seq<char>>, x: Seq<char>, n: Seq<char>)
    ensures
        name_position(names.push(x), n) == (match name_position(names, n) {
            Some(k) => Some(k),
            None => if x == n { Some(names.len() as int) } else { None },
        }),
{
    let t = names.push(x);
    lemma_name_position(names, n);
    match name_position(names, n) {
        Some(k) => {
            assert forall|j: int| 0 <= j < k implies #[trigger] t[j] != n by {
                assert(t[j] == names[j]);
            }
            lemma_position_is(t, n, k);
        },
        None => {
            if x == n {
                assert forall|j: int| 0 <= j < names.len() implies #[trigger] t[j] != n by {
                    assert(t[j] == names[j]);
                }
                lemma_position_is(t, n, names.len() as int);
            } else {
                assert forall|j: int| 0 <= j < t.len() implies #[trigger] t[j] != n by {
                    if j < names.len() {
                        assert(t[j] == names[j]);
                    }
                }
                lemma_position_absent(t, n);
            }
        },
    }
}

/// A name occurs at most once.
pub open spec fn at_most_once(names: Seq<Seq<char>>, name: Seq<char>) -> bool {
    forall|i: int, j: int| #![trigger names[i], names[j]] 0 <= i < j < names.len() && names[i] == name ==> names[j] != name
}

/// A saved profile is what a later lookup of its name finds, and a save
/// changes no other name's profile (for a configuration whose two lists are
/// aligned; both stay aligned).
pub proof fn lemma_save_then_load<P, S>(
    before: KaiserConfig<P, S>,
    after: KaiserConfig<P, S>,
    name: Seq<char>,
    profile: P,
    other: Seq<char>,
)
    requires
        aligned(before),
        save_result(before, after, name, profile),
    ensures
        aligned(after),
        spec_lookup(after, name) == Some(profile),
        other != name ==> spec_lookup(after, other) == spec_lookup(before, other),
{
    let nb = names_view(before.profile_names@);
    let na = names_view(after.profile_names@);
    lemma_name_position(nb, name);
    lemma_name_position(nb, other);
    match name_position(nb, name) {
        Some(i) => {
            assert(na =~= nb);
            assert(after.profiles@[i] == profile);
            if other != name {
                match name_position(nb, other) {
                    Some(k) => {
                        assert(k != i);
                    },
                    None => {},
                }
            }
        },
        None => {
            assert(after.profile_names@.len() == na.len());
            lemma_position_push(nb, name, name);
            lemma_position_push(nb, name, other);
            assert(na == nb.push(name));
            assert(after.profiles@[before.profiles@.len() as int] == profile);
        },
    }
}

proof fn lemma_position_remove(names: Seq<Seq<char>>, i: int, n: Seq<char>)
    requires
        0 <= i < names.len(),
        names[i] != n,
    ensures
        name_position(names.remove(i), n) == (match name_position(names, n) {
            Some(k) => if k < i { Some(k) } else { Some(k - 1) },
            None => None,
        }),
{
    let t = names.remove(i);
    lemma_name_position(names, n);
    match name_position(names, n) {
        Some(k) => {
            if k < i {
                assert forall|j: int| 0 <= j < k implies #[trigger] t[j] != n by {
                    assert(t[j] == names[j]);
                }
                assert(t[k] == names[k]);
                lemma_position_is(t, n, k);
            } else {
                assert(k > i);
                assert forall|j: int| 0 <= j < k - 1 implies #[trigger] t[j] != n by {
                    if j < i {
                        assert(t[j] == names[j]);
                    } else {
                        assert(t[j] == names[j + 1]);
                    }
                }
                assert(t[k - 1] == names[k]);
                lemma_position_is(t, n, k - 1);
            }
        },
        None => {
            assert forall|j: int| 0 <= j < t.len() implies #[trigger] t[j] != n by {
                if j < i {
                    assert(t[j] == names[j]);
                } else {
                    assert(t[j] == names[j + 1]);
                }
            }
            lemma_position_absent(t, n);
        },
    }
}

/// A delete removes the profile of the name when the name occurs once, and
/// leaves every other name's profile as it was (for a configuration whose two
/// lists are aligned; both stay aligned).
pub proof fn lemma_delete_then_load<P, S>(
    before: KaiserConfig<P, S>,
    after: KaiserConfig<P, S>,
    name: Seq<char>,
    other: Seq<char>,
)
    requires
        aligned(before),
        delete_result(before, after, name),
    ensures
        aligned(after),
        at_most_once(names_view(before.profile_names@), name) ==> spec_lookup(after, name).is_none(),
        other != name ==> spec_lookup(after, other) == spec_lookup(before, other),
{
    let nb = names_view(before.profile_names@);
    let na = names_view(after.profile_names@);
    lemma_name_position(nb, name);
    match name_position(nb, name) {
        Some(i) => {
            assert(na =~= nb.remove(i));
            if at_most_once(nb, name) {
                assert forall|j: int| 0 <= j < na.len() implies #[trigger] na[j] != name by {
                    if j < i {
                        assert(na[j] == nb[j]);
                    } else {
                        assert(na[j] == nb[j + 1]);
                        assert(nb[i] == name);
                    }
                }
                lemma_position_absent(na, name);
            }
            if other != name {
                lemma_position_remove(nb, i, other);
                lemma_name_position(nb, other);
                match name_position(nb, other) {
                    Some(k) => {
                        if k < i {
                            assert(after.profiles@[k] == before.profiles@[k]);
                        } else {
                            assert(after.profiles@[k - 1] == before.profiles@[k]);
                        }
                    },
                    None => {},
                }
            }
        },
        None => {
            assert(na =~= nb);
        },
    }
}

} // verus!
