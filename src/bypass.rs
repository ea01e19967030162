use ahash::{AHashSet, RandomState};
use vstd::prelude::*;

verus! {

#[verifier::external_type_specification]
#[verifier::external_body]
#[verifier::reject_recursive_types(T)]
#[verifier::reject_recursive_types(S)]
pub struct ExAHashSet<T, S>(AHashSet<T, S>);

#[verifier::external_type_specification]
#[verifier::external_body]
pub struct ExAHashRandomState(RandomState);

/// The names that an `AHashSet<String>` holds.
pub uninterp spec fn name_set_contents(s: AHashSet<String>) -> Set<Seq<char>>;

/// Relies on ahash's `AHashSet::new`: the new set is empty.
#[verifier::external_body]
fn empty_name_set() -> (r: AHashSet<String>)
    ensures
        name_set_contents(r) == Set::<Seq<char>>::empty(),
{
    AHashSet::new()
}

/// Relies on `HashSet::insert`, reached through `AHashSet`'s `DerefMut`: the
/// name is added.
#[verifier::external_body]
fn add_to_name_set(s: &mut AHashSet<String>, name: String)
    ensures
        name_set_contents(*final(s)) == name_set_contents(*old(s)).insert(name@),
{
    s.insert(name);
}

/// Relies on `HashSet::contains`, reached through `AHashSet`'s `Deref`: true
/// exactly when a `String` equal to `name` is in the set.
#[verifier::external_body]
fn name_set_has(s: &AHashSet<String>, name: &str) -> (r: bool)
    ensures
        r == name_set_contents(*s).contains(name@),
{
    s.contains(name)
}

/// The names that a list of strings holds.
pub open spec fn names_of(names: Seq<String>) -> Set<Seq<char>>
    decreases names.len(),
{
    if names.len() == 0 {
        Set::empty()
    } else {
        names_of(names.drop_last()).insert(names.last()@)
    }
}

/// A process name is in `names_of(names)` exactly when one of the strings is
/// that name.
proof fn lemma_names_of_contains(names: Seq<String>, name: Seq<char>)
    ensures
        names_of(names).contains(name) <==> exists|i: int|
            0 <= i < names.len() && (#[trigger] names[i])@ == name,
    decreases names.len(),
{
    if names.len() > 0 {
        lemma_names_of_contains(names.drop_last(), name);
        if names_of(names.drop_last()).contains(name) {
            let i = choose|i: int| 0 <= i < names.len() - 1 && (#[trigger] names.drop_last()[i])@ == name;
            assert(names[i] == names.drop_last()[i]);
        }
        if exists|i: int| 0 <= i < names.len() && (#[trigger] names[i])@ == name {
            let i = choose|i: int| 0 <= i < names.len() && (#[trigger] names[i])@ == name;
            if i < names.len() - 1 {
                assert(names.drop_last()[i] == names[i]);
            }
        }
    }
}

/// A set of process image names, matched exactly.
///
/// The bypass policy (processes that are never touched) and the blacklist of
/// the new-process filter are both name sets. Each is filled once, before any
/// decision reads it.
pub struct NameSet {
    names: AHashSet<String>,
}

impl View for NameSet {
    type V = Set<Seq<char>>;

    closed spec fn view(&self) -> Set<Seq<char>> {
        name_set_contents(self.names)
    }
}

impl NameSet {
    /// A set that holds no name.
    pub fn new() -> (r: NameSet)
        ensures
            r@ == Set::<Seq<char>>::empty(),
    {
        NameSet { names: empty_name_set() }
    }

    /// The set of the given names.
    pub fn from_names(names: &Vec<String>) -> (r: NameSet)
        ensures
            r@ == names_of(names@),
            forall|name: Seq<char>|
                #![trigger r@.contains(name)]
                r@.contains(name) <==> exists|i: int|
                    0 <= i < names@.len() && (#[trigger] names@[i])@ == name,
    {
        let mut set = NameSet::new();
        let mut i: usize = 0;
        while i < names.len()
            invariant
                i <= names.len(),
                set@ == names_of(names@.take(i as int)),
            decreases names.len() - i,
        {
            set.insert(names[i].clone());
            assert(names@.take(i + 1).drop_last() == names@.take(i as int));
            i += 1;
        }
        assert(names@.take(names.len() as int) == names@);
        assert forall|name: Seq<char>|
            #![trigger set@.contains(name)]
            set@.contains(name) <==> exists|i: int|
                0 <= i < names@.len() && (#[trigger] names@[i])@ == name by {
            lemma_names_of_contains(names@, name);
        }
        set
    }

    /// Adds a name.
    pub fn insert(&mut self, name: String)
        ensures
            final(self)@ == old(self)@.insert(name@),
    {
        add_to_name_set(&mut self.names, name);
    }

    /// Whether the set holds exactly this name.
    pub fn contains(&self, name: &str) -> (r: bool)
        ensures
            r == self@.contains(name@),
    {
        name_set_has(&self.names, name)
    }
}

/// Whether the bypass policy exempts a process of this name from every
/// power-mode change.
pub fn should_bypass(policy: &NameSet, proc_name: &str) -> (r: bool)
    ensures
        r == policy@.contains(proc_name@),
{
    policy.contains(proc_name)
}

/// The bypass test under the name of the configuration's `whitelist`: a
/// whitelisted process is never touched.
pub fn whitelisted(whitelist: &NameSet, proc_name: &str) -> (r: bool)
    ensures
        r == whitelist@.contains(proc_name@),
{
    should_bypass(whitelist, proc_name)
}

} // verus!
