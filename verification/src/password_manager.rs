//! A password manager whose type says whether it is locked.
//!
//! A locked manager can only be unlocked; an unlocked one can list its
//! passwords, take new ones and be locked again. Calling an operation in
//! the wrong state does not compile.
use core::marker::PhantomData;
use vstd::prelude::*;

verus! {

/// The state of a manager that gives no access to its passwords.
#[derive(Debug)]
pub struct Locked;

/// The state of a manager whose passwords can be listed and added to.
#[derive(Debug)]
pub struct Unlocked;

/// A user name with its password.
#[derive(Debug)]
pub struct Credential {
    pub username: String,
    pub password: String,
}

/// True when the credential at position `i` is for `username`.
pub open spec fn is_for(list: Seq<Credential>, i: int, username: Seq<char>) -> bool {
    0 <= i < list.len() && list[i].username@ == username
}

/// No two credentials are for the same user name.
pub open spec fn distinct_usernames(list: Seq<Credential>) -> bool {
    forall|i: int, j: int|
        0 <= i < j < list.len() ==> (#[trigger] list[i]).username@ != (#[trigger] list[j]).username@
}

/// The mapping from user name to password that a list of credentials
/// stands for.
pub open spec fn passwords_of(list: Seq<Credential>) -> Map<Seq<char>, Seq<char>> {
    Map::new(
        |username: Seq<char>| exists|i: int| is_for(list, i, username),
        |username: Seq<char>| list[choose|i: int| is_for(list, i, username)].password@,
    )
}

/// With distinct user names, the mapping holds each credential's password
/// under its user name.
pub proof fn lemma_password_of(list: Seq<Credential>, i: int)
    requires
        distinct_usernames(list),
        0 <= i < list.len(),
    ensures
        passwords_of(list).contains_key(list[i].username@),
        passwords_of(list)[list[i].username@] == list[i].password@,
{
    let username = list[i].username@;
    assert(is_for(list, i, username));
    let j = choose|j: int| is_for(list, j, username);
    assert(j == i);
}

/// The mathematical content of a [`PasswordManager`], in either state.
#[verifier::ext_equal]
pub struct PasswordManagerView {
    pub master_pass: Seq<char>,
    pub passwords: Map<Seq<char>, Seq<char>>,
}

/// A password manager in the state `State`.
#[derive(Debug)]
pub struct PasswordManager<State = Locked> {
    master_pass: String,
    passwords: Vec<Credential>,
    state: PhantomData<State>,
}

impl<State> View for PasswordManager<State> {
    type V = PasswordManagerView;

    closed spec fn view(&self) -> PasswordManagerView {
        PasswordManagerView {
            master_pass: self.master_pass@,
            passwords: passwords_of(self.passwords@),
        }
    }
}

impl<State> PasswordManager<State> {
    #[verifier::type_invariant]
    spec fn well_formed(self) -> bool {
        distinct_usernames(self.passwords@)
    }
}

impl PasswordManager {
    /// A locked manager without passwords.
    pub fn new(master_pass: &String) -> (manager: PasswordManager<Locked>)
        ensures
            manager@.master_pass == master_pass@,
            manager@.passwords == Map::<Seq<char>, Seq<char>>::empty(),
    {
        let manager = PasswordManager {
            master_pass: master_pass.clone(),
            passwords: Vec::new(),
            state: PhantomData,
        };
        assert(manager@.passwords =~= Map::<Seq<char>, Seq<char>>::empty());
        manager
    }
}

impl PasswordManager<Locked> {
    /// Unlocks the manager. The master password becomes `master_pass`; the
    /// stored passwords stay.
    pub fn unlock(self, master_pass: &String) -> (manager: PasswordManager<Unlocked>)
        ensures
            manager@.master_pass == master_pass@,
            manager@.passwords == self@.passwords,
    {
        proof {
            use_type_invariant(&self);
        }
        PasswordManager {
            master_pass: master_pass.clone(),
            passwords: self.passwords,
            state: PhantomData,
        }
    }
}

impl PasswordManager<Unlocked> {
    /// Locks the manager. Nothing of what it holds changes.
    pub fn lock(self) -> (manager: PasswordManager<Locked>)
        ensures
            manager@ == self@,
    {
        proof {
            use_type_invariant(&self);
        }
        PasswordManager {
            master_pass: self.master_pass,
            passwords: self.passwords,
            state: PhantomData,
        }
    }

    /// The stored credentials: one for each user name, in no stated order.
    pub fn list_passwords(&self) -> (list: &Vec<Credential>)
        ensures
            distinct_usernames(list@),
            passwords_of(list@) == self@.passwords,
    {
        proof {
            use_type_invariant(self);
        }
        &self.passwords
    }

    /// Stores `password` for `username`, in place of the password stored
    /// for that user name before, if there was one.
    pub fn add_password(&mut self, username: String, password: String)
        ensures
            final(self)@.master_pass == old(self)@.master_pass,
            final(self)@.passwords == old(self)@.passwords.insert(username@, password@),
    {
        proof {
            use_type_invariant(&*self);
        }
        let mut passwords: Vec<Credential> = Vec::new();
        core::mem::swap(&mut passwords, &mut self.passwords);
        store(&mut passwords, Credential { username, password });
        self.passwords = passwords;
    }
}

/// Puts `credential` in the place of the one for the same user name, or at
/// the end if there is none.
fn store(list: &mut Vec<Credential>, credential: Credential)
    requires
        distinct_usernames(old(list)@),
    ensures
        distinct_usernames(final(list)@),
        passwords_of(final(list)@) == passwords_of(old(list)@).insert(
            credential.username@,
            credential.password@,
        ),
{
    let ghost before = list@;
    let mut i: usize = 0;
    while i < list.len()
        invariant
            list@ == before,
            before == old(list)@,
            distinct_usernames(before),
            i <= before.len(),
            forall|j: int| 0 <= j < i ==> !is_for(before, j, credential.username@),
        decreases before.len() - i,
    {
        if list[i].username == credential.username {
            list.set(i, credential);
            proof {
                lemma_update(before, i as int, credential);
            }
            return ;
        }
        i += 1;
    }
    list.push(credential);
    proof {
        lemma_push(before, credential);
    }
}

/// A credential for a new user name, put at the end, adds that user name
/// to the mapping.
proof fn lemma_push(list: Seq<Credential>, credential: Credential)
    requires
        distinct_usernames(list),
        forall|j: int| !is_for(list, j, credential.username@),
    ensures
        distinct_usernames(list.push(credential)),
        passwords_of(list.push(credential)) == passwords_of(list).insert(
            credential.username@,
            credential.password@,
        ),
{
    let after = list.push(credential);
    let last = list.len() as int;
    let expected = passwords_of(list).insert(credential.username@, credential.password@);
    assert(distinct_usernames(after)) by {
        assert forall|x: int, y: int| 0 <= x < y < after.len() implies (
        #[trigger] after[x]).username@ != (#[trigger] after[y]).username@ by {
            assert(is_for(list, x, list[x].username@));
            if y < last {
                assert(after[y] == list[y]);
            }
        }
    }
    assert forall|k: Seq<char>| #[trigger]
        passwords_of(after).contains_key(k) == expected.contains_key(k) by {
        if passwords_of(after).contains_key(k) {
            let j = choose|j: int| is_for(after, j, k);
            if j < last {
                assert(is_for(list, j, k));
            }
        }
        if passwords_of(list).contains_key(k) {
            let j = choose|j: int| is_for(list, j, k);
            assert(is_for(after, j, k));
        }
        if k == credential.username@ {
            assert(is_for(after, last, k));
        }
    }
    assert forall|k: Seq<char>| #[trigger]
        passwords_of(after).contains_key(k) implies passwords_of(after)[k] == expected[k] by {
        let j = choose|j: int| is_for(after, j, k);
        lemma_password_of(after, j);
        if j < last {
            assert(after[j] == list[j]);
            lemma_password_of(list, j);
        }
    }
    assert(passwords_of(after) =~= expected);
}

/// A credential put in the place of one for the same user name changes
/// the password of that user name, and nothing else.
proof fn lemma_update(list: Seq<Credential>, i: int, credential: Credential)
    requires
        distinct_usernames(list),
        is_for(list, i, credential.username@),
    ensures
        distinct_usernames(list.update(i, credential)),
        passwords_of(list.update(i, credential)) == passwords_of(list).insert(
            credential.username@,
            credential.password@,
        ),
{
    let after = list.update(i, credential);
    let expected = passwords_of(list).insert(credential.username@, credential.password@);
    assert(distinct_usernames(after)) by {
        assert forall|x: int, y: int| 0 <= x < y < after.len() implies (
        #[trigger] after[x]).username@ != (#[trigger] after[y]).username@ by {
            assert(after[x].username@ == list[x].username@);
            assert(after[y].username@ == list[y].username@);
        }
    }
    assert forall|k: Seq<char>| #[trigger]
        passwords_of(after).contains_key(k) == expected.contains_key(k) by {
        if passwords_of(after).contains_key(k) {
            let j = choose|j: int| is_for(after, j, k);
            assert(is_for(list, j, k));
        }
        if passwords_of(list).contains_key(k) {
            let j = choose|j: int| is_for(list, j, k);
            assert(is_for(after, j, k));
        }
        if k == credential.username@ {
            assert(is_for(after, i, k));
        }
    }
    assert forall|k: Seq<char>| #[trigger]
        passwords_of(after).contains_key(k) implies passwords_of(after)[k] == expected[k] by {
        let j = choose|j: int| is_for(after, j, k);
        lemma_password_of(after, j);
        if j != i {
            assert(after[j] == list[j]);
            lemma_password_of(list, j);
        }
    }
    assert(passwords_of(after) =~= expected);
}

} // verus!
