//! Stake books: finite maps from a principal to the amount it has staked,
//! together with the sum of all amounts in a book.

use crate::pubkey::Pubkey;
use vstd::prelude::*;

verus! {

/// The sum of all amounts held in a finite map of stakes.
///
/// Defined by taking entries out one at a time; `lemma_total_remove` shows
/// that the order in which they are taken out does not matter.
pub open spec fn total_staked(m: Map<Pubkey, u64>) -> nat
    decreases m.dom().len(),
{
    if m.dom().finite() && m.dom().len() > 0 {
        let k = m.dom().choose();
        m[k] as nat + total_staked(m.remove(k))
    } else {
        0
    }
}

/// What `user` has staked according to `m`: the recorded amount, or zero when
/// there is no entry.
pub open spec fn stake_of(m: Map<Pubkey, u64>, user: Pubkey) -> nat {
    if m.contains_key(user) {
        m[user] as nat
    } else {
        0
    }
}

/// Any entry can be split off the total.
pub proof fn lemma_total_remove(m: Map<Pubkey, u64>, user: Pubkey)
    requires
        m.dom().finite(),
        m.contains_key(user),
    ensures
        total_staked(m) == m[user] + total_staked(m.remove(user)),
    decreases m.dom().len(),
{
    let k = m.dom().choose();
    if k != user {
        let rest = m.remove(k);
        lemma_total_remove(rest, user);
        lemma_total_remove(m.remove(user), k);
        assert(rest.remove(user) =~= m.remove(user).remove(k));
    }
}

/// Writing an entry changes the total by the difference between the new
/// amount and what the user had before.
pub proof fn lemma_total_insert(m: Map<Pubkey, u64>, user: Pubkey, amount: u64)
    requires
        m.dom().finite(),
    ensures
        total_staked(m.insert(user, amount)) + stake_of(m, user) == total_staked(m) + amount,
{
    let after = m.insert(user, amount);
    lemma_total_remove(after, user);
    if m.contains_key(user) {
        lemma_total_remove(m, user);
        assert(after.remove(user) =~= m.remove(user));
    } else {
        assert(after.remove(user) =~= m);
    }
}

/// No single stake exceeds the total.
pub proof fn lemma_stake_le_total(m: Map<Pubkey, u64>, user: Pubkey)
    requires
        m.dom().finite(),
    ensures
        stake_of(m, user) <= total_staked(m),
{
    if m.contains_key(user) {
        lemma_total_remove(m, user);
    }
}

/// One entry of a stake book.
#[derive(Clone, Copy, Debug)]
pub struct Stake {
    pub user: Pubkey,
    pub amount: u64,
}

/// No two entries of `s` belong to the same user.
pub open spec fn distinct_users(s: Seq<Stake>) -> bool {
    forall|i: int, j: int| 0 <= i < j < s.len() ==> (#[trigger] s[i]).user != (#[trigger] s[j]).user
}

/// `s` lists the entries of `m`: each entry of `m` once, and nothing else.
pub open spec fn lists_entries(s: Seq<Stake>, m: Map<Pubkey, u64>) -> bool {
    &&& distinct_users(s)
    &&& forall|i: int|
        0 <= i < s.len() ==> m.contains_key((#[trigger] s[i]).user) && m[s[i].user] == s[i].amount
    &&& forall|k: Pubkey| #[trigger]
        m.contains_key(k) ==> exists|i: int| 0 <= i < s.len() && (#[trigger] s[i]).user == k
}

/// Whether some entry of `s` belongs to `user`.
spec fn has_user(s: Seq<Stake>, user: Pubkey) -> bool {
    exists|i: int| 0 <= i < s.len() && (#[trigger] s[i]).user == user
}

/// Where in `s` an entry of `user` stands, if there is one.
spec fn position(s: Seq<Stake>, user: Pubkey) -> int {
    choose|i: int| 0 <= i < s.len() && (#[trigger] s[i]).user == user
}

/// The map that the list `s` spells out.
spec fn entries_map(s: Seq<Stake>) -> Map<Pubkey, u64> {
    Map::new(|k: Pubkey| has_user(s, k), |k: Pubkey| s[position(s, k)].amount)
}

/// Each entry of a list without repeated users is an entry of its map.
proof fn lemma_entry(s: Seq<Stake>, i: int)
    requires
        distinct_users(s),
        0 <= i < s.len(),
    ensures
        entries_map(s).contains_key(s[i].user),
        entries_map(s)[s[i].user] == s[i].amount,
{
    let user = s[i].user;
    assert(has_user(s, user));
    let p = position(s, user);
    assert(0 <= p < s.len() && s[p].user == user);
    if p < i {
        assert(s[p].user != s[i].user);
    } else if i < p {
        assert(s[i].user != s[p].user);
    }
}

/// A list without repeated users lists the entries of its map.
proof fn lemma_entries_listed(s: Seq<Stake>)
    requires
        distinct_users(s),
    ensures
        lists_entries(s, entries_map(s)),
{
    assert forall|i: int| 0 <= i < s.len() implies entries_map(s).contains_key(
        (#[trigger] s[i]).user,
    ) && entries_map(s)[s[i].user] == s[i].amount by {
        lemma_entry(s, i);
    }
    assert forall|k: Pubkey| #[trigger] entries_map(s).contains_key(k) implies exists|i: int|
        0 <= i < s.len() && (#[trigger] s[i]).user == k by {
        assert(has_user(s, k));
    }
}

/// A list of entries determines the map that it lists.
proof fn lemma_listing_unique(s: Seq<Stake>, m1: Map<Pubkey, u64>, m2: Map<Pubkey, u64>)
    requires
        lists_entries(s, m1),
        lists_entries(s, m2),
    ensures
        m1 == m2,
{
    assert forall|k: Pubkey| m1.contains_key(k) == m2.contains_key(k) && (m1.contains_key(k)
        ==> m1[k] == m2[k]) by {
        if m1.contains_key(k) {
            let i = choose|i: int| 0 <= i < s.len() && (#[trigger] s[i]).user == k;
            assert(m2.contains_key(s[i].user));
        }
        if m2.contains_key(k) {
            let i = choose|i: int| 0 <= i < s.len() && (#[trigger] s[i]).user == k;
            assert(m1.contains_key(s[i].user));
        }
    }
    assert(m1 =~= m2);
}

/// Adding the entry of a new user to the list inserts it into the map.
proof fn lemma_entries_push(s: Seq<Stake>, e: Stake)
    requires
        distinct_users(s),
        forall|i: int| 0 <= i < s.len() ==> (#[trigger] s[i]).user != e.user,
    ensures
        distinct_users(s.push(e)),
        !entries_map(s).contains_key(e.user),
        entries_map(s.push(e)) == entries_map(s).insert(e.user, e.amount),
{
    let t = s.push(e);
    let m = entries_map(s).insert(e.user, e.amount);
    assert(distinct_users(t));
    lemma_entries_listed(s);
    lemma_entries_listed(t);
    assert(!entries_map(s).contains_key(e.user)) by {
        if has_user(s, e.user) {
            let i = position(s, e.user);
            assert(s[i].user != e.user);
        }
    }
    assert forall|i: int| 0 <= i < t.len() implies m.contains_key((#[trigger] t[i]).user)
        && m[t[i].user] == t[i].amount by {
        if i < s.len() {
            assert(t[i] == s[i]);
        }
    }
    assert forall|k: Pubkey| #[trigger] m.contains_key(k) implies exists|i: int|
        0 <= i < t.len() && (#[trigger] t[i]).user == k by {
        if k == e.user {
            assert(t[s.len() as int].user == k);
        } else {
            let i = choose|i: int| 0 <= i < s.len() && (#[trigger] s[i]).user == k;
            assert(t[i].user == k);
        }
    }
    lemma_listing_unique(t, entries_map(t), m);
}

/// Replacing the entry of a user in the list overwrites it in the map.
proof fn lemma_entries_update(s: Seq<Stake>, i: int, e: Stake)
    requires
        distinct_users(s),
        0 <= i < s.len(),
        e.user == s[i].user,
    ensures
        distinct_users(s.update(i, e)),
        entries_map(s.update(i, e)) == entries_map(s).insert(e.user, e.amount),
{
    let t = s.update(i, e);
    let m = entries_map(s).insert(e.user, e.amount);
    assert forall|a: int, b: int| 0 <= a < b < t.len() implies (#[trigger] t[a]).user != (
    #[trigger] t[b]).user by {
        assert(t[a].user == s[a].user);
        assert(t[b].user == s[b].user);
    }
    lemma_entries_listed(s);
    lemma_entries_listed(t);
    assert forall|j: int| 0 <= j < t.len() implies m.contains_key((#[trigger] t[j]).user)
        && m[t[j].user] == t[j].amount by {
        if j != i {
            assert(t[j] == s[j]);
            if j < i {
                assert(s[j].user != s[i].user);
            } else {
                assert(s[i].user != s[j].user);
            }
        }
    }
    assert forall|k: Pubkey| #[trigger] m.contains_key(k) implies exists|j: int|
        0 <= j < t.len() && (#[trigger] t[j]).user == k by {
        if k == e.user {
            assert(t[i].user == k);
        } else {
            let j = choose|j: int| 0 <= j < s.len() && (#[trigger] s[j]).user == k;
            assert(t[j].user == k);
        }
    }
    lemma_listing_unique(t, entries_map(t), m);
}

/// Taking an entry out of the list removes its user from the map.
proof fn lemma_entries_remove(s: Seq<Stake>, i: int)
    requires
        distinct_users(s),
        0 <= i < s.len(),
    ensures
        distinct_users(s.remove(i)),
        entries_map(s.remove(i)) == entries_map(s).remove(s[i].user),
{
    let t = s.remove(i);
    let m = entries_map(s).remove(s[i].user);
    assert forall|a: int, b: int| 0 <= a < b < t.len() implies (#[trigger] t[a]).user != (
    #[trigger] t[b]).user by {
        let sa = if a < i { a } else { a + 1 };
        let sb = if b < i { b } else { b + 1 };
        assert(t[a] == s[sa]);
        assert(t[b] == s[sb]);
    }
    lemma_entries_listed(s);
    lemma_entries_listed(t);
    assert forall|j: int| 0 <= j < t.len() implies m.contains_key((#[trigger] t[j]).user)
        && m[t[j].user] == t[j].amount by {
        let sj = if j < i { j } else { j + 1 };
        assert(t[j] == s[sj]);
        if sj < i {
            assert(s[sj].user != s[i].user);
        } else {
            assert(s[i].user != s[sj].user);
        }
    }
    assert forall|k: Pubkey| #[trigger] m.contains_key(k) implies exists|j: int|
        0 <= j < t.len() && (#[trigger] t[j]).user == k by {
        let sj = choose|j: int| 0 <= j < s.len() && (#[trigger] s[j]).user == k;
        if sj < i {
            assert(t[sj].user == k);
        } else {
            assert(sj != i);
            assert(t[sj - 1].user == k);
        }
    }
    lemma_listing_unique(t, entries_map(t), m);
}

/// The map of a list has no more keys than the list has entries.
proof fn lemma_entries_finite(s: Seq<Stake>)
    ensures
        entries_map(s).dom().finite(),
    decreases s.len(),
{
    if s.len() == 0 {
        assert(entries_map(s).dom() =~= Set::<Pubkey>::empty());
    } else {
        let front = s.drop_last();
        lemma_entries_finite(front);
        assert forall|k: Pubkey|
            entries_map(s).dom().contains(k) == entries_map(front).dom().insert(
                s.last().user,
            ).contains(k) by {
            if has_user(s, k) {
                let i = choose|i: int| 0 <= i < s.len() && (#[trigger] s[i]).user == k;
                if i < front.len() {
                    assert(front[i].user == k);
                }
            }
            if has_user(front, k) {
                let i = choose|i: int| 0 <= i < front.len() && (#[trigger] front[i]).user == k;
                assert(s[i].user == k);
            }
            if k == s.last().user {
                assert(s[s.len() - 1].user == k);
            }
        }
        assert(entries_map(s).dom() =~= entries_map(front).dom().insert(s.last().user));
    }
}

/// A stake book: for each user that has an entry, the amount staked.
///
/// The book is kept as a list of entries in which no user occurs twice; its
/// view is the finite map that the list spells out.
#[derive(Debug)]
pub struct StakeMap {
    entries: Vec<Stake>,
}

impl View for StakeMap {
    type V = Map<Pubkey, u64>;

    closed spec fn view(&self) -> Map<Pubkey, u64> {
        entries_map(self.entries@)
    }
}

impl StakeMap {
    #[verifier::type_invariant]
    spec fn inv(self) -> bool {
        distinct_users(self.entries@)
    }

    /// Every book is finite.
    pub proof fn lemma_finite(self)
        ensures
            self@.dom().finite(),
    {
        lemma_entries_finite(self.entries@);
    }

    /// The sum of all amounts in the book.
    pub open spec fn total(self) -> nat {
        total_staked(self@)
    }

    /// The empty book.
    pub fn new() -> (book: StakeMap)
        ensures
            book@ == Map::<Pubkey, u64>::empty(),
    {
        let book = StakeMap { entries: Vec::new() };
        assert(book@ =~= Map::<Pubkey, u64>::empty());
        book
    }

    fn find(&self, user: &Pubkey) -> (r: Option<usize>)
        ensures
            match r {
                Some(i) => i < self.entries@.len() && self.entries@[i as int].user == *user,
                None => forall|j: int|
                    0 <= j < self.entries@.len() ==> (#[trigger] self.entries@[j]).user != *user,
            },
    {
        let mut i: usize = 0;
        while i < self.entries.len()
            invariant
                i <= self.entries@.len(),
                forall|j: int| 0 <= j < i ==> (#[trigger] self.entries@[j]).user != *user,
            decreases self.entries@.len() - i,
        {
            if self.entries[i].user == *user {
                return Some(i);
            }
            i += 1;
        }
        None
    }

    /// The amount recorded for `user`, if there is an entry.
    pub fn get(&self, user: &Pubkey) -> (r: Option<u64>)
        ensures
            r == (if self@.contains_key(*user) {
                Some(self@[*user])
            } else {
                None
            }),
    {
        proof {
            use_type_invariant(self);
            lemma_entries_listed(self.entries@);
        }
        match self.find(user) {
            Some(i) => Some(self.entries[i].amount),
            None => None,
        }
    }

    /// Whether `user` has an entry.
    pub fn contains_key(&self, user: &Pubkey) -> (r: bool)
        ensures
            r == self@.contains_key(*user),
    {
        self.get(user).is_some()
    }

    /// Records `amount` for `user`, replacing any earlier entry.
    pub fn set(&mut self, user: Pubkey, amount: u64)
        ensures
            final(self)@ == old(self)@.insert(user, amount),
    {
        proof {
            use_type_invariant(&*self);
        }
        let found = self.find(&user);
        // The list is taken out while it is changed: the book itself is never
        // seen with a change half made.
        let mut entries: Vec<Stake> = Vec::new();
        core::mem::swap(&mut self.entries, &mut entries);
        match found {
            Some(i) => {
                proof {
                    lemma_entries_update(entries@, i as int, Stake { user, amount });
                }
                entries[i] = Stake { user, amount };
            },
            None => {
                proof {
                    lemma_entries_push(entries@, Stake { user, amount });
                }
                entries.push(Stake { user, amount });
            },
        }
        self.entries = entries;
    }

    /// Takes the entry of `user` out of the book and returns its amount, if
    /// there was one.
    pub fn remove(&mut self, user: &Pubkey) -> (r: Option<u64>)
        ensures
            final(self)@ == old(self)@.remove(*user),
            r == (if old(self)@.contains_key(*user) {
                Some(old(self)@[*user])
            } else {
                None
            }),
    {
        proof {
            use_type_invariant(&*self);
            lemma_entries_listed(self.entries@);
        }
        match self.find(user) {
            Some(i) => {
                let mut entries: Vec<Stake> = Vec::new();
                core::mem::swap(&mut self.entries, &mut entries);
                proof {
                    lemma_entries_remove(entries@, i as int);
                }
                let e = entries.remove(i);
                self.entries = entries;
                Some(e.amount)
            },
            None => {
                assert(self@ =~= self@.remove(*user));
                None
            },
        }
    }

    /// Whether no amount in the book exceeds `limit`.
    pub fn all_within(&self, limit: u64) -> (r: bool)
        ensures
            r == (forall|k: Pubkey| #[trigger] self@.contains_key(k) ==> self@[k] <= limit),
    {
        proof {
            use_type_invariant(self);
            lemma_entries_listed(self.entries@);
        }
        let mut i: usize = 0;
        while i < self.entries.len()
            invariant
                i <= self.entries@.len(),
                lists_entries(self.entries@, self@),
                forall|j: int| 0 <= j < i ==> (#[trigger] self.entries@[j]).amount <= limit,
            decreases self.entries@.len() - i,
        {
            if self.entries[i].amount > limit {
                assert(self@.contains_key(self.entries@[i as int].user));
                return false;
            }
            i += 1;
        }
        assert forall|k: Pubkey| #[trigger] self@.contains_key(k) implies self@[k] <= limit by {
            let j = choose|j: int|
                0 <= j < self.entries@.len() && (#[trigger] self.entries@[j]).user == k;
            assert(self.entries@[j].amount <= limit);
        }
        true
    }

    /// The sum of all amounts, or `None` when it does not fit in 64 bits.
    pub fn checked_total(&self) -> (r: Option<u64>)
        ensures
            match r {
                Some(t) => t == self.total(),
                None => self.total() > u64::MAX,
            },
    {
        proof {
            use_type_invariant(self);
        }
        let n = self.entries.len();
        let mut sum: u128 = 0;
        let mut i: usize = 0;
        proof {
            assert(self.entries@.take(0) =~= Seq::<Stake>::empty());
            assert(entries_map(Seq::<Stake>::empty()) =~= Map::<Pubkey, u64>::empty());
        }
        while i < n
            invariant
                n == self.entries@.len(),
                i <= n,
                distinct_users(self.entries@),
                sum == total_staked(entries_map(self.entries@.take(i as int))),
                sum <= i * 0xffff_ffff_ffff_ffff,
            decreases n - i,
        {
            proof {
                let s = self.entries@;
                let front = s.take(i as int);
                assert(s.take(i + 1) =~= front.push(s[i as int]));
                assert(distinct_users(front)) by {
                    assert forall|a: int, b: int| 0 <= a < b < front.len() implies (
                    #[trigger] front[a]).user != (#[trigger] front[b]).user by {
                        assert(front[a] == s[a]);
                        assert(front[b] == s[b]);
                    }
                }
                assert forall|j: int| 0 <= j < front.len() implies (#[trigger] front[j]).user
                    != s[i as int].user by {
                    assert(front[j] == s[j]);
                }
                lemma_entries_push(front, s[i as int]);
                lemma_entries_finite(front);
                lemma_total_insert(entries_map(front), s[i as int].user, s[i as int].amount);
            }
            sum = sum + self.entries[i].amount as u128;
            i += 1;
        }
        proof {
            assert(self.entries@.take(n as int) =~= self.entries@);
        }
        if sum <= u64::MAX as u128 {
            Some(sum as u64)
        } else {
            None
        }
    }

    /// The entries of the book, each user once, in no particular order.
    pub fn entries(&self) -> (list: Vec<Stake>)
        ensures
            lists_entries(list@, self@),
    {
        proof {
            use_type_invariant(self);
            lemma_entries_listed(self.entries@);
        }
        let mut list: Vec<Stake> = Vec::new();
        let mut i: usize = 0;
        while i < self.entries.len()
            invariant
                i <= self.entries@.len(),
                list@ == self.entries@.take(i as int),
            decreases self.entries@.len() - i,
        {
            list.push(self.entries[i]);
            assert(self.entries@.take(i + 1) =~= self.entries@.take(i as int).push(
                self.entries@[i as int],
            ));
            i += 1;
        }
        assert(self.entries@.take(i as int) =~= self.entries@);
        list
    }
}

impl Clone for StakeMap {
    fn clone(&self) -> (copy: StakeMap)
        ensures
            copy@ == self@,
    {
        proof {
            use_type_invariant(self);
        }
        let mut entries: Vec<Stake> = Vec::new();
        let mut i: usize = 0;
        while i < self.entries.len()
            invariant
                i <= self.entries@.len(),
                entries@ == self.entries@.take(i as int),
            decreases self.entries@.len() - i,
        {
            entries.push(self.entries[i]);
            assert(self.entries@.take(i + 1) =~= self.entries@.take(i as int).push(
                self.entries@[i as int],
            ));
            i += 1;
        }
        assert(self.entries@.take(i as int) =~= self.entries@);
        StakeMap { entries }
    }
}

} // verus!
