use vstd::prelude::*;
use vstd::slice::slice_to_vec;

verus! {

/// What is kept for one registered identity.
#[derive(Clone, Debug, PartialEq, Eq)]
pub struct UserInfo {
    /// The shared secret, Base32 text without padding.
    pub secret_key: String,
}

/// One record of the store: an identity and what is registered for it.
struct Entry {
    identity: Vec<u8>,
    info: UserInfo,
}

/// The table of registered secrets, keyed by canonical identity bytes.
///
/// No identity occurs twice: registering again replaces the record.
pub struct SecretStore {
    entries: Vec<Entry>,
}

/// Whether two byte strings are the same.
fn bytes_equal(left: &[u8], right: &[u8]) -> (same: bool)
    ensures
        same == (left@ == right@),
{
    if left.len() != right.len() {
        return false;
    }
    let mut i: usize = 0;
    while i < left.len()
        invariant
            left@.len() == right@.len(),
            i <= left@.len(),
            forall|j: int| 0 <= j < i ==> left@[j] == right@[j],
        decreases left@.len() - i,
    {
        if left[i] != right[i] {
            return false;
        }
        i += 1;
    }
    assert(left@ =~= right@);
    true
}

/// The identity of the record at index `i`.
spec fn key_at(entries: Seq<Entry>, i: int) -> Seq<u8> {
    entries[i].identity@
}

/// Whether some record is for `identity`.
spec fn holds(entries: Seq<Entry>, identity: Seq<u8>) -> bool {
    exists|i: int| 0 <= i < entries.len() && #[trigger] key_at(entries, i) == identity
}

/// The index of a record for `identity`.
spec fn slot(entries: Seq<Entry>, identity: Seq<u8>) -> int {
    choose|i: int| 0 <= i < entries.len() && #[trigger] key_at(entries, i) == identity
}

/// No identity has two records.
spec fn keys_distinct(entries: Seq<Entry>) -> bool {
    forall|i: int, j: int|
        0 <= i < j < entries.len() ==> #[trigger] key_at(entries, i) != #[trigger] key_at(
            entries,
            j,
        )
}

/// The secret text that the records give each identity.
spec fn records(entries: Seq<Entry>) -> Map<Seq<u8>, Seq<char>> {
    Map::new(
        |identity: Seq<u8>| holds(entries, identity),
        |identity: Seq<u8>| entries[slot(entries, identity)].info.secret_key@,
    )
}

/// Where the record of `identity` lies, if there is one.
fn position(entries: &Vec<Entry>, identity: &[u8]) -> (at: Option<usize>)
    ensures
        at matches Some(i) ==> i < entries.len() && key_at(entries@, i as int) == identity@,
        at is None ==> !holds(entries@, identity@),
{
    let mut i: usize = 0;
    while i < entries.len()
        invariant
            i <= entries.len(),
            forall|j: int| 0 <= j < i ==> #[trigger] key_at(entries@, j) != identity@,
        decreases entries.len() - i,
    {
        if bytes_equal(entries[i].identity.as_slice(), identity) {
            return Some(i);
        }
        i += 1;
    }
    None
}

/// Writing a record for `identity` at its own index, or behind the last
/// where it has none, keeps identities distinct and changes the table at
/// `identity` alone.
proof fn lemma_upsert(before: Seq<Entry>, after: Seq<Entry>, entry: Entry, at: Option<usize>)
    requires
        keys_distinct(before),
        at matches Some(i) ==> i < before.len() && key_at(before, i as int) == entry.identity@
            && after == before.update(i as int, entry),
        at is None ==> !holds(before, entry.identity@) && after == before.push(entry),
    ensures
        keys_distinct(after),
        records(after) == records(before).insert(entry.identity@, entry.info.secret_key@),
{
    let identity = entry.identity@;
    assert forall|j: int| 0 <= j < before.len() implies key_at(after, j) == key_at(
        before,
        j,
    ) by {}
    if at is None {
        assert(key_at(after, before.len() as int) == identity);
        assert forall|j: int| 0 <= j < before.len() implies key_at(before, j) != identity by {
            if key_at(before, j) == identity {
                assert(holds(before, identity));
            }
        }
    }
    assert(keys_distinct(after));
    let written: int = match at {
        Some(i) => i as int,
        None => before.len() as int,
    };
    assert(key_at(after, written) == identity);
    assert(holds(after, identity));
    assert(slot(after, identity) == written);
    assert forall|id: Seq<u8>| id != identity implies (holds(after, id) <==> holds(before, id))
        && (holds(before, id) ==> after[slot(after, id)] == before[slot(before, id)]) by {
        if holds(after, id) {
            let j = slot(after, id);
            assert(key_at(before, j) == id);
        }
        if holds(before, id) {
            let j = slot(before, id);
            assert(key_at(after, j) == id);
            assert(slot(after, id) == j);
        }
    }
    assert(records(after) =~= records(before).insert(identity, entry.info.secret_key@));
}

impl View for SecretStore {
    type V = Map<Seq<u8>, Seq<char>>;

    /// The secret text registered for each identity.
    closed spec fn view(&self) -> Map<Seq<u8>, Seq<char>> {
        records(self.entries@)
    }
}

impl SecretStore {
    #[verifier::type_invariant]
    spec fn well_formed(&self) -> bool {
        keys_distinct(self.entries@)
    }

    /// A store with no record.
    pub fn new() -> (store: SecretStore)
        ensures
            store@ == Map::<Seq<u8>, Seq<char>>::empty(),
    {
        let store = SecretStore { entries: Vec::new() };
        assert(store@ =~= Map::<Seq<u8>, Seq<char>>::empty());
        store
    }

    /// The record registered for `identity`, or `None` where there is none.
    pub fn get(&self, identity: &[u8]) -> (found: Option<&UserInfo>)
        ensures
            found is Some <==> self@.contains_key(identity@),
            found matches Some(info) ==> info.secret_key@ == self@[identity@],
    {
        proof {
            use_type_invariant(self);
        }
        match position(&self.entries, identity) {
            None => None,
            Some(i) => {
                assert(holds(self.entries@, identity@));
                assert(slot(self.entries@, identity@) == i);
                Some(&self.entries[i].info)
            },
        }
    }

    /// Stores `info` for `identity`, in place of any record it had.
    pub fn put(&mut self, identity: &[u8], info: UserInfo)
        ensures
            final(self)@ == old(self)@.insert(identity@, info.secret_key@),
    {
        proof {
            use_type_invariant(&*self);
        }
        let ghost before = self.entries@;
        let entry = Entry { identity: slice_to_vec(identity), info };
        let ghost written = entry;
        let mut entries: Vec<Entry> = Vec::new();
        core::mem::swap(&mut self.entries, &mut entries);
        let at = position(&entries, identity);
        match at {
            Some(i) => {
                entries.set(i, entry);
            },
            None => {
                entries.push(entry);
            },
        }
        proof {
            lemma_upsert(before, entries@, written, at);
        }
        core::mem::swap(&mut self.entries, &mut entries);
    }
}

} // verus!
