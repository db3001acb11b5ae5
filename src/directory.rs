//! Users and the directory of users that a transcript's speakers are looked up in.

use vstd::prelude::*;

use crate::text::owned;

verus! {

/// The entry stored last under `k`, if any: storing a key again replaces what it held.
pub open spec fn lookup<V>(entries: Seq<(Seq<char>, V)>, k: Seq<char>) -> Option<V>
    decreases entries.len(),
{
    if entries.len() == 0 {
        None
    } else if entries.last().0 == k {
        Some(entries.last().1)
    } else {
        lookup(entries.drop_last(), k)
    }
}

/// What a user is: its fields, name to value.
pub type UserModel = Seq<(Seq<char>, Seq<char>)>;

/// What a directory is: speaker keys and the user each names.
pub type DirectoryModel = Seq<(Seq<char>, UserModel)>;

/// The user that a speaker token stands for when the directory does not list it.
pub open spec fn fallback_user(token: Seq<char>) -> UserModel {
    seq![("key"@, token), ("name"@, token)]
}

/// What a directory entry listed under `key` with the fields `fields` holds: the fields,
/// then `key` set to the key and `name` defaulting to it.
pub open spec fn entry_user(u: UserModel, key: Seq<char>, fields: UserModel) -> bool {
    &&& lookup(u, "key"@) == Some(key)
    &&& lookup(u, "name"@) == match lookup(fields, "name"@) {
        Some(n) => Some(n),
        None => Some(key),
    }
    &&& forall|n: Seq<char>| n != "key"@ && n != "name"@ ==> #[trigger] lookup(u, n) == lookup(fields, n)
}

/// The user a speaker token resolves to.
pub open spec fn resolve(d: DirectoryModel, token: Seq<char>) -> UserModel {
    match lookup(d, token) {
        Some(u) => u,
        None => fallback_user(token),
    }
}

pub proof fn lemma_lookup_update<V>(s: Seq<(Seq<char>, V)>, i: int, k: Seq<char>, v: V)
    requires
        0 <= i < s.len(),
        s[i].0 == k,
        forall|j: int| i < j < s.len() ==> s[j].0 != k,
    ensures
        lookup(s.update(i, (k, v)), k) == Some(v),
        forall|k2: Seq<char>|
            k2 != k ==> #[trigger] lookup(s.update(i, (k, v)), k2) == lookup(s, k2),
    decreases s.len(),
{
    let t = s.update(i, (k, v));
    if i < s.len() - 1 {
        lemma_lookup_update(s.drop_last(), i, k, v);
        assert(t.drop_last() =~= s.drop_last().update(i, (k, v)));
    }
    assert forall|k2: Seq<char>| k2 != k implies #[trigger] lookup(t, k2) == lookup(s, k2) by {
        if i == s.len() - 1 {
            assert(t.drop_last() =~= s.drop_last());
        } else {
            assert(t.drop_last() =~= s.drop_last().update(i, (k, v)));
            assert(lookup(s.drop_last().update(i, (k, v)), k2) == lookup(s.drop_last(), k2));
        }
    }
}

pub proof fn lemma_lookup_push<V>(s: Seq<(Seq<char>, V)>, k: Seq<char>, v: V)
    ensures
        lookup(s.push((k, v)), k) == Some(v),
        forall|k2: Seq<char>| k2 != k ==> #[trigger] lookup(s.push((k, v)), k2) == lookup(s, k2),
{
    assert(s.push((k, v)).drop_last() =~= s);
}

/// The model of a list of fields.
pub open spec fn fields_model(s: Seq<(String, String)>) -> UserModel {
    s.map_values(|p: (String, String)| (p.0@, p.1@))
}

/// The model of a list of directory entries.
pub open spec fn people_model(s: Seq<(String, User)>) -> DirectoryModel {
    s.map_values(|p: (String, User)| (p.0@, p.1@))
}

/// A user: an open set of named string fields (`key`, `name`, `handle`, `color`, ...).
#[derive(Clone, Debug)]
pub struct User {
    fields: Vec<(String, String)>,
}

impl View for User {
    type V = UserModel;

    closed spec fn view(&self) -> UserModel {
        fields_model(self.fields@)
    }
}

impl User {
    /// A user with no fields.
    pub fn new() -> (r: User)
        ensures
            r@ == Seq::<(Seq<char>, Seq<char>)>::empty(),
    {
        let r = User { fields: Vec::new() };
        assert(r@ =~= Seq::<(Seq<char>, Seq<char>)>::empty());
        r
    }

    /// The user that `token` stands for when no directory entry describes it:
    /// `key` and `name` both equal to the token.
    pub fn for_speaker(token: &str) -> (r: User)
        ensures
            r@ == fallback_user(token@),
    {
        let mut fields: Vec<(String, String)> = Vec::new();
        fields.push((owned("key"), owned(token)));
        fields.push((owned("name"), owned(token)));
        let r = User { fields };
        assert(r@ =~= fallback_user(token@));
        r
    }

    /// The fields in the order they were first set.
    pub fn fields(&self) -> (r: &Vec<(String, String)>)
        ensures
            fields_model(r@) == self@,
    {
        &self.fields
    }

    /// The value of the field `name`, if the user has it.
    pub fn field(&self, name: &str) -> (r: Option<String>)
        ensures
            r matches Some(v) ==> lookup(self@, name@) == Some(v@),
            r is None ==> lookup(self@, name@) is None,
    {
        let wanted = owned(name);
        let mut i = self.fields.len();
        assert(self@.take(i as int) =~= self@);
        while i > 0
            invariant
                i <= self.fields.len(),
                wanted@ == name@,
                lookup(self@, wanted@) == lookup(self@.take(i as int), wanted@),
            decreases i,
        {
            assert(self@.take(i as int).drop_last() =~= self@.take(i - 1));
            assert(self@.take(i as int).last() == (self.fields@[i - 1].0@, self.fields@[i - 1].1@));
            if self.fields[i - 1].0 == wanted {
                let v = self.fields[i - 1].1.clone();
                assert(lookup(self@.take(i as int), wanted@) == Some(v@));
                return Some(v);
            }
            i = i - 1;
        }
        None
    }

    /// Sets the field `name` to `value`, replacing what it held.
    pub fn set(&mut self, name: String, value: String)
        ensures
            lookup(final(self)@, name@) == Some(value@),
            forall|other: Seq<char>|
                other != name@ ==> #[trigger] lookup(final(self)@, other) == lookup(
                    old(self)@,
                    other,
                ),
    {
        let ghost s = self@;
        let mut i = self.fields.len();
        while i > 0
            invariant
                i <= self.fields.len(),
                self@ == s,
                s == old(self)@,
                forall|j: int| i <= j < s.len() ==> s[j].0 != name@,
            decreases i,
        {
            assert(s[i - 1] == (self.fields@[i - 1].0@, self.fields@[i - 1].1@));
            if self.fields[i - 1].0 == name {
                proof {
                    lemma_lookup_update(s, i - 1, name@, value@);
                }
                let ghost t = s.update(i - 1, (name@, value@));
                self.fields.set(i - 1, (name, value));
                assert(self@ =~= t);
                assert forall|other: Seq<char>| other != name@ implies #[trigger] lookup(
                    self@,
                    other,
                ) == lookup(s, other) by {
                    assert(lookup(t, other) == lookup(s, other));
                }
                return;
            }
            i = i - 1;
        }
        proof {
            lemma_lookup_push(s, name@, value@);
        }
        self.fields.push((name, value));
        assert(self@ =~= s.push((name@, value@)));
    }

    /// A copy of this user, with the same fields in the same order.
    pub fn duplicate(&self) -> (r: User)
        ensures
            r@ == self@,
    {
        let mut fields: Vec<(String, String)> = Vec::new();
        let mut i: usize = 0;
        while i < self.fields.len()
            invariant
                i <= self.fields.len(),
                fields_model(fields@) == self@.take(i as int),
            decreases self.fields.len() - i,
        {
            let n = self.fields[i].0.clone();
            let v = self.fields[i].1.clone();
            let ghost before = fields@;
            fields.push((n, v));
            assert(fields@ == before.push((n, v)));
            assert(fields_model(fields@) =~= fields_model(before).push((n@, v@)));
            assert(self@[i as int] == (self.fields@[i as int].0@, self.fields@[i as int].1@));
            i = i + 1;
            assert(fields_model(fields@) =~= self@.take(i as int));
        }
        assert(self@.take(i as int) =~= self@);
        User { fields }
    }
}

/// No key stands twice.
pub open spec fn unique_keys<V>(s: Seq<(Seq<char>, V)>) -> bool {
    forall|i: int, j: int| 0 <= i < j < s.len() ==> s[i].0 != s[j].0
}

/// Lists `user` under `key` in `people`, replacing the entry of that key, if any.
fn insert_entry(people: &mut Vec<(String, User)>, key: String, user: User)
    ensures
        lookup(people_model(final(people)@), key@) == Some(user@),
        forall|other: Seq<char>|
            other != key@ ==> #[trigger] lookup(people_model(final(people)@), other) == lookup(
                people_model(old(people)@),
                other,
            ),
        unique_keys(people_model(old(people)@)) ==> unique_keys(people_model(final(people)@)),
{
    let ghost s = people_model(people@);
    let ghost u = user@;
    let mut i = people.len();
    while i > 0
        invariant
            i <= people.len(),
            people_model(people@) == s,
            s == people_model(old(people)@),
            u == user@,
            forall|j: int| i <= j < s.len() ==> s[j].0 != key@,
        decreases i,
    {
        assert(s[i - 1] == (people@[i - 1].0@, people@[i - 1].1@));
        if people[i - 1].0 == key {
            proof {
                lemma_lookup_update(s, i - 1, key@, u);
            }
            let ghost t = s.update(i - 1, (key@, u));
            people.set(i - 1, (key, user));
            assert(people_model(people@) =~= t);
            assert forall|other: Seq<char>| other != key@ implies #[trigger] lookup(
                people_model(people@),
                other,
            ) == lookup(s, other) by {
                assert(lookup(t, other) == lookup(s, other));
            }
            assert(forall|j: int| 0 <= j < t.len() ==> t[j].0 == s[j].0);
            return;
        }
        i = i - 1;
    }
    proof {
        lemma_lookup_push(s, key@, u);
    }
    people.push((key, user));
    assert(people_model(people@) =~= s.push((key@, u)));
}

/// The directory: which user each speaker key stands for.
#[derive(Debug)]
pub struct Config {
    people: Vec<(String, User)>,
}

impl View for Config {
    type V = DirectoryModel;

    closed spec fn view(&self) -> DirectoryModel {
        people_model(self.people@)
    }
}

impl Config {
    #[verifier::type_invariant]
    spec fn keys_unique(self) -> bool {
        unique_keys(people_model(self.people@))
    }

    /// A directory that lists nobody.
    pub fn new() -> (r: Config)
        ensures
            r@ == Seq::<(Seq<char>, UserModel)>::empty(),
    {
        let r = Config { people: Vec::new() };
        assert(r@ =~= Seq::<(Seq<char>, UserModel)>::empty());
        r
    }

    /// The entries, in the order their keys were first inserted; no key stands twice.
    pub fn people(&self) -> (r: &Vec<(String, User)>)
        ensures
            people_model(r@) == self@,
            unique_keys(self@),
    {
        proof {
            use_type_invariant(self);
        }
        &self.people
    }

    /// Lists `user` under `key`, replacing the user the key named before.
    pub fn insert(&mut self, key: String, user: User)
        ensures
            lookup(final(self)@, key@) == Some(user@),
            forall|other: Seq<char>|
                other != key@ ==> #[trigger] lookup(final(self)@, other) == lookup(
                    old(self)@,
                    other,
                ),
    {
        proof {
            use_type_invariant(&*self);
        }
        let mut people: Vec<(String, User)> = Vec::new();
        std::mem::swap(&mut people, &mut self.people);
        insert_entry(&mut people, key, user);
        self.people = people;
    }

    /// Lists a directory entry under `key`, with the fields `fields` (set in order), then
    /// `key` set to the key itself and `name`, where the fields do not give one, to the key.
    pub fn add_entry(&mut self, key: String, fields: &Vec<(String, String)>)
        ensures
            lookup(final(self)@, key@) matches Some(u) && entry_user(u, key@, fields_model(fields@)),
            forall|other: Seq<char>|
                other != key@ ==> #[trigger] lookup(final(self)@, other) == lookup(
                    old(self)@,
                    other,
                ),
    {
        let mut user = User::new();
        let mut i: usize = 0;
        while i < fields.len()
            invariant
                i <= fields.len(),
                forall|n: Seq<char>| #[trigger] lookup(user@, n) == lookup(fields_model(fields@).take(i as int), n),
            decreases fields.len() - i,
        {
            let ghost before = user@;
            user.set(fields[i].0.clone(), fields[i].1.clone());
            i = i + 1;
            assert forall|n: Seq<char>| #[trigger] lookup(user@, n) == lookup(fields_model(fields@).take(i as int), n) by {
                assert(fields_model(fields@).take(i as int).drop_last() =~= fields_model(fields@).take(i - 1));
                assert(fields_model(fields@).take(i as int).last() == (fields@[i - 1].0@, fields@[i - 1].1@));
            }
        }
        proof {
            reveal_strlit("key");
            reveal_strlit("name");
        }
        assert(fields_model(fields@).take(i as int) =~= fields_model(fields@));
        let ghost f = fields_model(fields@);
        let ghost u0 = user@;
        assert(lookup(u0, "name"@) == lookup(f, "name"@));
        assert("name"@ != "key"@) by {
            assert("name"@[0] != "key"@[0]);
        }
        user.set(owned("key"), key.clone());
        let ghost u1 = user@;
        if user.field("name").is_none() {
            user.set(owned("name"), key.clone());
        }
        assert(lookup(user@, "key"@) == Some(key@));
        assert(lookup(u1, "name"@) == lookup(f, "name"@));
        assert(lookup(user@, "name"@) == match lookup(f, "name"@) {
            Some(n) => Some(n),
            None => Some(key@),
        });
        assert forall|n: Seq<char>| n != "key"@ && n != "name"@ implies #[trigger] lookup(user@, n) == lookup(f, n) by {
            assert(lookup(u1, n) == lookup(f, n));
        }
        self.insert(key, user);
    }

    /// The user listed under `key`, if any.
    pub fn get(&self, key: &str) -> (r: Option<&User>)
        ensures
            r matches Some(u) ==> lookup(self@, key@) == Some(u@),
            r is None ==> lookup(self@, key@) is None,
    {
        let wanted = owned(key);
        let mut i = self.people.len();
        assert(self@.take(i as int) =~= self@);
        while i > 0
            invariant
                i <= self.people.len(),
                wanted@ == key@,
                lookup(self@, wanted@) == lookup(self@.take(i as int), wanted@),
            decreases i,
        {
            assert(self@.take(i as int).drop_last() =~= self@.take(i - 1));
            assert(self@.take(i as int).last() == (self.people@[i - 1].0@, self.people@[i - 1].1@));
            if self.people[i - 1].0 == wanted {
                return Some(&self.people[i - 1].1);
            }
            i = i - 1;
        }
        None
    }

    /// The user `token` stands for: a copy of its entry, or, for a token the directory
    /// does not list, a user whose `key` and `name` are the token.
    pub fn resolve(&self, token: &str) -> (r: User)
        ensures
            r@ == resolve(self@, token@),
    {
        match self.get(token) {
            Some(u) => u.duplicate(),
            None => User::for_speaker(token),
        }
    }
}

} // verus!
