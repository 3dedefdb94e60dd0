//! The passwords of management accounts, kept in memory by account name.

use vstd::prelude::*;
use crate::order::same_text;

verus! {

/// The password of each account that was set in this process.
pub struct PasswordCache {
    entries: Vec<(String, String)>,
}

/// The passwords as a map from account name to password.
pub open spec fn password_map(es: Seq<(String, String)>) -> Map<Seq<char>, Seq<char>>
    decreases es.len(),
{
    if es.len() == 0 {
        Map::empty()
    } else {
        password_map(es.drop_last()).insert(es.last().0@, es.last().1@)
    }
}

impl PasswordCache {
    /// The passwords, by account name.
    pub closed spec fn view_map(&self) -> Map<Seq<char>, Seq<char>> {
        password_map(self.entries@)
    }

    /// No account name occurs twice.
    pub closed spec fn wf(&self) -> bool {
        forall|i: int, j: int|
            0 <= i < self.entries@.len() && 0 <= j < self.entries@.len() && i != j
                ==> (#[trigger] self.entries@[i]).0@ != (#[trigger] self.entries@[j]).0@
    }

    /// An empty cache.
    pub fn new() -> (r: PasswordCache)
        ensures
            r.wf(),
            r.view_map() == Map::<Seq<char>, Seq<char>>::empty(),
    {
        PasswordCache { entries: Vec::new() }
    }

    /// Sets the password of `account`.
    pub fn update_password(&mut self, account: &str, password: &str)
        requires
            old(self).wf(),
        ensures
            final(self).wf(),
            final(self).view_map() == old(self).view_map().insert(account@, password@),
    {
        let ghost es = self.entries@;
        let mut i: usize = 0;
        while i < self.entries.len()
            invariant
                i <= self.entries@.len(),
                es == self.entries@,
                forall|k: int| 0 <= k < i ==> (#[trigger] es[k]).0@ != account@,
            ensures
                i <= es.len(),
                es == self.entries@,
                forall|k: int| 0 <= k < i ==> (#[trigger] es[k]).0@ != account@,
                i < es.len() ==> es[i as int].0@ == account@,
            decreases self.entries@.len() - i,
        {
            if same_text(self.entries[i].0.as_str(), account) {
                break;
            }
            i = i + 1;
        }
        if i < self.entries.len() {
            let e = (self.entries[i].0.clone(), String::from_str(password));
            self.entries.set(i, e);
            proof {
                lemma_password_map_update(es, i as int, e);
            }
        } else {
            let e = (String::from_str(account), String::from_str(password));
            self.entries.push(e);
            assert(self.entries@.drop_last() =~= es);
        }
    }

    /// The password of `account`, if it was set.
    pub fn get_password(&self, account: &str) -> (r: Option<String>)
        requires
            self.wf(),
        ensures
            self.view_map().contains_key(account@) ==> (r matches Some(p) && p@ == self.view_map()[account@]),
            !self.view_map().contains_key(account@) ==> r is None,
    {
        let ghost es = self.entries@;
        let mut i: usize = 0;
        while i < self.entries.len()
            invariant
                i <= self.entries@.len(),
                es == self.entries@,
                self.wf(),
                forall|k: int| 0 <= k < i ==> (#[trigger] es[k]).0@ != account@,
            decreases self.entries@.len() - i,
        {
            if same_text(self.entries[i].0.as_str(), account) {
                proof {
                    lemma_password_map_at(es, i as int);
                }
                return Some(self.entries[i].1.clone());
            }
            i = i + 1;
        }
        proof {
            lemma_password_map_absent(es, account@);
        }
        None
    }
}

/// With one entry per name, the map gives each entry's password.
proof fn lemma_password_map_at(es: Seq<(String, String)>, i: int)
    requires
        0 <= i < es.len(),
        forall|a: int, b: int|
            0 <= a < es.len() && 0 <= b < es.len() && a != b ==> (#[trigger] es[a]).0@ != (
            #[trigger] es[b]).0@,
    ensures
        password_map(es).contains_key(es[i].0@),
        password_map(es)[es[i].0@] == es[i].1@,
    decreases es.len(),
{
    if i < es.len() - 1 {
        let rest = es.drop_last();
        assert(rest[i] == es[i]);
        assert(es[es.len() - 1].0@ != es[i].0@);
        lemma_password_map_at(rest, i);
    }
}

/// A name no entry has is not in the map.
proof fn lemma_password_map_absent(es: Seq<(String, String)>, name: Seq<char>)
    requires
        forall|k: int| 0 <= k < es.len() ==> (#[trigger] es[k]).0@ != name,
    ensures
        !password_map(es).contains_key(name),
    decreases es.len(),
{
    if es.len() > 0 {
        let rest = es.drop_last();
        assert forall|k: int| 0 <= k < rest.len() implies (#[trigger] rest[k]).0@ != name by {
            assert(rest[k] == es[k]);
        }
        assert(es[es.len() - 1].0@ != name);
        lemma_password_map_absent(rest, name);
    }
}

/// Replacing the entry of a name changes only that name's password.
proof fn lemma_password_map_update(es: Seq<(String, String)>, i: int, e: (String, String))
    requires
        0 <= i < es.len(),
        e.0@ == es[i].0@,
        forall|a: int, b: int|
            0 <= a < es.len() && 0 <= b < es.len() && a != b ==> (#[trigger] es[a]).0@ != (
            #[trigger] es[b]).0@,
    ensures
        password_map(es.update(i, e)) == password_map(es).insert(e.0@, e.1@),
        forall|a: int, b: int|
            0 <= a < es.update(i, e).len() && 0 <= b < es.update(i, e).len() && a != b
                ==> (#[trigger] es.update(i, e)[a]).0@ != (#[trigger] es.update(i, e)[b]).0@,
    decreases es.len(),
{
    let u = es.update(i, e);
    assert forall|a: int, b: int|
        0 <= a < u.len() && 0 <= b < u.len() && a != b implies (#[trigger] u[a]).0@ != (
        #[trigger] u[b]).0@ by {
        assert(u[a].0@ == es[a].0@);
        assert(u[b].0@ == es[b].0@);
    }
    let rest = es.drop_last();
    if i == es.len() - 1 {
        assert(u.drop_last() =~= rest);
        assert(password_map(u) == password_map(rest).insert(e.0@, e.1@));
        assert(password_map(es) == password_map(rest).insert(es[i].0@, es[i].1@));
        assert(password_map(u) =~= password_map(es).insert(e.0@, e.1@));
    } else {
        assert(u.drop_last() =~= rest.update(i, e));
        assert(rest[i] == es[i]);
        lemma_password_map_update(rest, i, e);
        assert(es[es.len() - 1].0@ != e.0@);
        assert(password_map(u) =~= password_map(es).insert(e.0@, e.1@));
    }
}

/// What is read back of an account's password is what was last set.
pub proof fn lemma_password_read_after_write(
    before: Map<Seq<char>, Seq<char>>,
    account: Seq<char>,
    password: Seq<char>,
    other: Seq<char>,
)
    ensures
        before.insert(account, password).contains_key(account),
        before.insert(account, password)[account] == password,
        other != account ==> before.insert(account, password).contains_key(other)
            == before.contains_key(other),
        other != account && before.contains_key(other) ==> before.insert(account, password)[other]
            == before[other],
{
}

} // verus!
