use vstd::pervasive::{unreached, VecAdditionalExecFns};
use vstd::prelude::*;

verus! {

/// What one invocation sees of an entry in the caller's account list:
/// the account's address and whether its holder signed the request.
pub struct AccountInfo {
    pub key: Vec<u8>,
    pub is_signer: bool,
}

/// One stored account: its funding, the program that owns its
/// storage, and its raw data bytes.
pub struct Account {
    pub lamports: u64,
    pub owner: Vec<u8>,
    pub data: Vec<u8>,
}

/// The mathematical image of one account.
pub ghost struct AccountView {
    pub lamports: u64,
    pub owner: Seq<u8>,
    pub data: Seq<u8>,
}

impl View for Account {
    type V = AccountView;

    open spec fn view(&self) -> AccountView {
        AccountView { lamports: self.lamports, owner: self.owner@, data: self.data@ }
    }
}

struct Entry {
    key: Vec<u8>,
    account: Account,
}

/// The keyed storage the surrounding ledger provides: a finite map
/// from 32-byte addresses to accounts.  Each invocation of the
/// program reads and writes persistent state only through it.
pub struct Ledger {
    entries: Vec<Entry>,
}

impl View for Ledger {
    type V = Map<Seq<u8>, AccountView>;

    closed spec fn view(&self) -> Map<Seq<u8>, AccountView> {
        entries_map(self.entries@)
    }
}

spec fn has_key(s: Seq<Entry>, k: Seq<u8>) -> bool {
    exists|i: int| 0 <= i < s.len() && s[i].key@ == k
}

spec fn entries_map(s: Seq<Entry>) -> Map<Seq<u8>, AccountView>
    decreases s.len(),
{
    if s.len() == 0 {
        Map::empty()
    } else {
        entries_map(s.drop_last()).insert(s.last().key@, s.last().account@)
    }
}

proof fn lemma_entries_map_dom(s: Seq<Entry>, k: Seq<u8>)
    ensures
        entries_map(s).dom().contains(k) <==> has_key(s, k),
    decreases s.len(),
{
    if s.len() == 0 {
    } else {
        lemma_entries_map_dom(s.drop_last(), k);
        if k == s.last().key@ {
            assert(s[s.len() - 1].key@ == k);
            assert(has_key(s, k));
        } else {
            if has_key(s.drop_last(), k) {
                let i = choose|i: int| 0 <= i < s.drop_last().len() && s.drop_last()[i].key@ == k;
                assert(s[i].key@ == k);
                assert(has_key(s, k));
            }
            if has_key(s, k) {
                let i = choose|i: int| 0 <= i < s.len() && s[i].key@ == k;
                assert(i < s.len() - 1);
                assert(s.drop_last()[i].key@ == k);
                assert(has_key(s.drop_last(), k));
            }
        }
    }
}

spec fn distinct_keys(s: Seq<Entry>) -> bool {
    forall|i: int, j: int| 0 <= i < j < s.len() ==> s[i].key@ != s[j].key@
}

proof fn lemma_entries_map_index(s: Seq<Entry>, i: int)
    requires
        distinct_keys(s),
        0 <= i < s.len(),
    ensures
        entries_map(s).dom().contains(s[i].key@),
        entries_map(s)[s[i].key@] == s[i].account@,
    decreases s.len(),
{
    assert(has_key(s, s[i].key@));
    lemma_entries_map_dom(s, s[i].key@);
    if i == s.len() - 1 {
    } else {
        assert(distinct_keys(s.drop_last()));
        assert(s.drop_last()[i].key@ == s[i].key@);
        lemma_entries_map_index(s.drop_last(), i);
        assert(s[i].key@ != s.last().key@);
    }
}

proof fn lemma_entries_map_push(s: Seq<Entry>, e: Entry)
    ensures
        entries_map(s.push(e)) == entries_map(s).insert(e.key@, e.account@),
{
    assert(s.push(e).drop_last() =~= s);
    assert(s.push(e).last() == e);
}

proof fn lemma_entries_map_update(s: Seq<Entry>, i: int, e: Entry)
    requires
        distinct_keys(s),
        0 <= i < s.len(),
        e.key@ == s[i].key@,
    ensures
        entries_map(s.update(i, e)) == entries_map(s).insert(e.key@, e.account@),
    decreases s.len(),
{
    let t = s.update(i, e);
    if i == s.len() - 1 {
        assert(t.drop_last() =~= s.drop_last());
        assert(t.last() == e);
        assert(entries_map(s).insert(e.key@, e.account@) =~= entries_map(t.drop_last()).insert(
            e.key@,
            e.account@,
        ));
    } else {
        assert(t.drop_last() =~= s.drop_last().update(i, e));
        assert(t.last() == s.last());
        assert(distinct_keys(s.drop_last()));
        assert(s.drop_last()[i].key@ == s[i].key@);
        lemma_entries_map_update(s.drop_last(), i, e);
        // the two inserted keys differ, so the inserts commute
        assert(s[i].key@ != s.last().key@);
        assert(entries_map(s.drop_last()).insert(e.key@, e.account@).insert(
            s.last().key@,
            s.last().account@,
        ) =~= entries_map(s.drop_last()).insert(s.last().key@, s.last().account@).insert(
            e.key@,
            e.account@,
        ));
    }
}

pub(crate) fn keys_equal(a: &Vec<u8>, b: &Vec<u8>) -> (r: bool)
    ensures
        r == (a@ == b@),
{
    if a.len() != b.len() {
        return false;
    }
    let n = a.len();
    let mut i: usize = 0;
    while i < n
        invariant
            n == a@.len(),
            n == b@.len(),
            i <= n,
            forall|j: int| 0 <= j < i ==> a@[j] == b@[j],
        decreases n - i,
    {
        if a[i] != b[i] {
            return false;
        }
        i = i + 1;
    }
    proof {
        assert(a@ =~= b@);
    }
    true
}

impl Ledger {
    /// Every address is keyed at most once.
    pub closed spec fn wf(&self) -> bool {
        distinct_keys(self.entries@)
    }

    /// An empty ledger: no account exists yet.
    pub fn new() -> (r: Ledger)
        ensures
            r.wf(),
            r@ == Map::<Seq<u8>, AccountView>::empty(),
    {
        Ledger { entries: Vec::new() }
    }

    fn find_index(&self, key: &Vec<u8>) -> (r: Option<usize>)
        requires
            self.wf(),
        ensures
            match r {
                Some(i) => i < self.entries@.len() && self.entries@[i as int].key@ == key@,
                None => !has_key(self.entries@, key@),
            },
    {
        let n = self.entries.len();
        let mut i: usize = 0;
        while i < n
            invariant
                n == self.entries@.len(),
                i <= n,
                forall|j: int| 0 <= j < i ==> self.entries@[j].key@ != key@,
            decreases n - i,
        {
            if keys_equal(&self.entries[i].key, key) {
                return Some(i);
            }
            i = i + 1;
        }
        None
    }

    /// Whether an account exists at `key`.
    pub fn contains(&self, key: &Vec<u8>) -> (r: bool)
        requires
            self.wf(),
        ensures
            r == self@.dom().contains(key@),
    {
        proof {
            lemma_entries_map_dom(self.entries@, key@);
        }
        match self.find_index(key) {
            Some(i) => {
                proof {
                    assert(has_key(self.entries@, key@));
                }
                true
            },
            None => false,
        }
    }

    /// Allocates a new account at `key`: funded with `lamports`,
    /// owned by `owner`, its `size` data bytes zero-initialized.
    /// The address must be unoccupied.
    pub fn create_account(&mut self, key: &Vec<u8>, lamports: u64, size: usize, owner: &Vec<u8>)
        requires
            old(self).wf(),
            !old(self)@.dom().contains(key@),
        ensures
            final(self).wf(),
            final(self)@ == old(self)@.insert(
                key@,
                AccountView { lamports, owner: owner@, data: Seq::new(size as nat, |i: int| 0u8) },
            ),
    {
        proof {
            lemma_entries_map_dom(self.entries@, key@);
        }
        let data: Vec<u8> = vec![0u8; size];
        proof {
            assert(data@ =~= Seq::new(size as nat, |i: int| 0u8));
        }
        let entry = Entry {
            key: key.clone(),
            account: Account { lamports, owner: owner.clone(), data },
        };
        proof {
            assert(entry.key@ =~= key@);
            assert(entry.account.owner@ =~= owner@);
            lemma_entries_map_push(self.entries@, entry);
            assert forall|i: int, j: int|
                0 <= i < j < self.entries@.push(entry).len() implies self.entries@.push(
                entry,
            )[i].key@ != self.entries@.push(entry)[j].key@ by {
                if j < self.entries@.len() {
                } else {
                    assert(has_key(self.entries@, self.entries@[i].key@));
                    lemma_entries_map_dom(self.entries@, self.entries@[i].key@);
                }
            }
        }
        self.entries.push(entry);
    }

    /// A copy of the data bytes stored at `key`, if an account exists
    /// there.
    pub fn read_data(&self, key: &Vec<u8>) -> (r: Option<Vec<u8>>)
        requires
            self.wf(),
        ensures
            match r {
                Some(d) => self@.dom().contains(key@) && d@ == self@[key@].data,
                None => !self@.dom().contains(key@),
            },
    {
        proof {
            lemma_entries_map_dom(self.entries@, key@);
        }
        match self.find_index(key) {
            Some(i) => {
                proof {
                    lemma_entries_map_index(self.entries@, i as int);
                }
                Some(self.entries[i].account.data.clone())
            },
            None => None,
        }
    }

    /// The funding of the account at `key`, if one exists.
    pub fn lamports_of(&self, key: &Vec<u8>) -> (r: Option<u64>)
        requires
            self.wf(),
        ensures
            match r {
                Some(l) => self@.dom().contains(key@) && l == self@[key@].lamports,
                None => !self@.dom().contains(key@),
            },
    {
        proof {
            lemma_entries_map_dom(self.entries@, key@);
        }
        match self.find_index(key) {
            Some(i) => {
                proof {
                    lemma_entries_map_index(self.entries@, i as int);
                }
                Some(self.entries[i].account.lamports)
            },
            None => None,
        }
    }

    /// The owning program of the account at `key`, if one exists.
    pub fn owner_of(&self, key: &Vec<u8>) -> (r: Option<Vec<u8>>)
        requires
            self.wf(),
        ensures
            match r {
                Some(o) => self@.dom().contains(key@) && o@ == self@[key@].owner,
                None => !self@.dom().contains(key@),
            },
    {
        proof {
            lemma_entries_map_dom(self.entries@, key@);
        }
        match self.find_index(key) {
            Some(i) => {
                proof {
                    lemma_entries_map_index(self.entries@, i as int);
                }
                Some(self.entries[i].account.owner.clone())
            },
            None => None,
        }
    }

    /// Overwrites the leading `bytes.len()` data bytes of the account
    /// at `key`, leaving the bytes beyond them as they were.  The
    /// account's capacity, funding and owner do not change.
    pub fn write_data_prefix(&mut self, key: &Vec<u8>, bytes: &Vec<u8>)
        requires
            old(self).wf(),
            old(self)@.dom().contains(key@),
            bytes@.len() <= old(self)@[key@].data.len(),
        ensures
            final(self).wf(),
            final(self)@ == old(self)@.insert(
                key@,
                AccountView {
                    lamports: old(self)@[key@].lamports,
                    owner: old(self)@[key@].owner,
                    data: bytes@ + old(self)@[key@].data.skip(bytes@.len() as int),
                },
            ),
    {
        proof {
            lemma_entries_map_dom(self.entries@, key@);
        }
        let i = match self.find_index(key) {
            Some(i) => i,
            None => unreached(),
        };
        proof {
            lemma_entries_map_index(self.entries@, i as int);
        }
        let old_entry = &self.entries[i];
        let mut data: Vec<u8> = bytes.clone();
        proof {
            assert(data@ =~= bytes@);
        }
        let total = old_entry.account.data.len();
        let mut j: usize = data.len();
        while j < total
            invariant
                *self == *old(self),
                self.wf(),
                i < self.entries@.len(),
                total == self.entries@[i as int].account.data@.len(),
                bytes@.len() <= j <= total,
                data@ == bytes@ + self.entries@[i as int].account.data@.subrange(
                    bytes@.len() as int,
                    j as int,
                ),
            decreases total - j,
        {
            let b = self.entries[i].account.data[j];
            data.push(b);
            proof {
                assert(data@ =~= bytes@ + self.entries@[i as int].account.data@.subrange(
                    bytes@.len() as int,
                    j + 1,
                ));
            }
            j = j + 1;
        }
        let new_entry = Entry {
            key: self.entries[i].key.clone(),
            account: Account {
                lamports: self.entries[i].account.lamports,
                owner: self.entries[i].account.owner.clone(),
                data,
            },
        };
        proof {
            assert(new_entry.key@ =~= self.entries@[i as int].key@);
            assert(new_entry.account.owner@ =~= self.entries@[i as int].account.owner@);
            lemma_entries_map_update(self.entries@, i as int, new_entry);
            assert forall|p: int, q: int|
                0 <= p < q < self.entries@.update(i as int, new_entry).len() implies self.entries@.update(
                i as int,
                new_entry,
            )[p].key@ != self.entries@.update(i as int, new_entry)[q].key@ by {}
        }
        self.entries.set(i, new_entry);
    }
}

} // verus!
