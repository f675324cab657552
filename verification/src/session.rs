//! The master keys of the vaults unlocked during this run of the app, by
//! vault path. They are never persisted, and are wiped when a vault is
//! locked. Sharing the table between threads happens outside the library.
use vstd::prelude::*;
use crate::crypto::MK_LEN;
use crate::json::{or_default, str_eq, str_field, Json};

verus! {

/// `zeroize::Zeroize::zeroize` on a key: every byte is overwritten with
/// zero, with volatile writes the compiler keeps.
#[verifier::external_body]
fn wipe(key: &mut [u8; MK_LEN])
    ensures
        final(key)@ == Seq::new(MK_LEN as nat, |i: int| 0u8),
{
    zeroize::Zeroize::zeroize(key)
}

/// Unlocked vaults and their master keys. Each path occurs once.
pub struct VaultSessions {
    entries: Vec<(String, [u8; MK_LEN])>,
}

/// The position of `path` in `entries`.
pub open spec fn position_of(entries: Seq<(String, [u8; MK_LEN])>, path: Seq<char>) -> int {
    choose|i: int| 0 <= i < entries.len() && entries[i].0@ == path
}

/// The paths and keys as a map.
pub open spec fn entries_map(entries: Seq<(String, [u8; MK_LEN])>) -> Map<Seq<char>, Seq<u8>> {
    Map::new(
        |path: Seq<char>| exists|i: int| 0 <= i < entries.len() && entries[i].0@ == path,
        |path: Seq<char>| entries[position_of(entries, path)].1@,
    )
}

pub open spec fn paths_distinct(entries: Seq<(String, [u8; MK_LEN])>) -> bool {
    forall|i: int, j: int| 0 <= i < j < entries.len() ==> #[trigger] entries[i].0@ != #[trigger] entries[j].0@
}

impl View for VaultSessions {
    type V = Map<Seq<char>, Seq<u8>>;

    closed spec fn view(&self) -> Map<Seq<char>, Seq<u8>> {
        entries_map(self.entries@)
    }
}

/// With distinct paths, the position of a path is where it is.
proof fn lemma_position(entries: Seq<(String, [u8; MK_LEN])>, i: int)
    requires
        paths_distinct(entries),
        0 <= i < entries.len(),
    ensures
        position_of(entries, entries[i].0@) == i,
{
    let p = position_of(entries, entries[i].0@);
    assert(0 <= p < entries.len() && entries[p].0@ == entries[i].0@);
    if p != i {
        if p < i {
            assert(entries[p].0@ != entries[i].0@);
        } else {
            assert(entries[i].0@ != entries[p].0@);
        }
    }
}

impl VaultSessions {
    #[verifier::type_invariant]
    spec fn well_formed(self) -> bool {
        paths_distinct(self.entries@)
    }

    /// No vault unlocked.
    pub fn new() -> (s: Self)
        ensures
            s@ == Map::<Seq<char>, Seq<u8>>::empty(),
    {
        let s = VaultSessions { entries: Vec::new() };
        assert(s@ =~= Map::<Seq<char>, Seq<u8>>::empty());
        s
    }

    /// Where `path` is in the table.
    fn find(&self, path: &str) -> (res: Option<usize>)
        ensures
            match res {
                Some(i) => i < self.entries@.len() && self.entries@[i as int].0@ == path@,
                None => forall|i: int| 0 <= i < self.entries@.len() ==> #[trigger] self.entries@[i].0@ != path@,
            },
    {
        let n = self.entries.len();
        for i in 0..n
            invariant
                n == self.entries@.len(),
                forall|j: int| 0 <= j < i ==> #[trigger] self.entries@[j].0@ != path@,
        {
            if str_eq(self.entries[i].0.as_str(), path) {
                return Some(i);
            }
        }
        None
    }

    /// Remembers the master key of the vault at `path`, replacing (and
    /// wiping) any key it had.
    pub fn unlock(&mut self, path: &str, mk: [u8; MK_LEN])
        ensures
            final(self)@ == old(self)@.insert(path@, mk@),
    {
        proof {
            use_type_invariant(&*self);
        }
        let ghost before = self.entries@;
        match self.find(path) {
            Some(i) => {
                let mut entries: Vec<(String, [u8; MK_LEN])> = Vec::new();
                std::mem::swap(&mut entries, &mut self.entries);
                let (name, mut previous) = entries.remove(i);
                wipe(&mut previous);
                entries.insert(i, (name, mk));
                proof {
                    assert(entries@ =~= before.update(i as int, (name, mk)));
                    assert forall|a: int, b: int| 0 <= a < b < entries@.len() implies
                        #[trigger] entries@[a].0@ != #[trigger] entries@[b].0@ by {
                        assert(entries@[a].0@ == before[a].0@ && entries@[b].0@ == before[b].0@);
                    }
                    lemma_position(entries@, i as int);
                    assert forall|k: Seq<char>| k != path@ && #[trigger] entries_map(before).dom().contains(k)
                        implies entries_map(entries@).dom().contains(k)
                            && entries_map(entries@)[k] == entries_map(before)[k] by {
                        let j = position_of(before, k);
                        lemma_position(before, j);
                        lemma_position(entries@, j);
                        assert(entries@[j].0@ == k);
                    }
                    assert forall|k: Seq<char>| #[trigger] entries_map(entries@).dom().contains(k)
                        implies k == path@ || entries_map(before).dom().contains(k) by {
                        let j = choose|j: int| 0 <= j < entries@.len() && entries@[j].0@ == k;
                        assert(before[j].0@ == k);
                    }
                    assert(entries_map(entries@) =~= entries_map(before).insert(path@, mk@));
                }
                self.entries = entries;
            },
            None => {
                let mut entries: Vec<(String, [u8; MK_LEN])> = Vec::new();
                std::mem::swap(&mut entries, &mut self.entries);
                entries.push((String::from_str(path), mk));
                proof {
                    assert(entries@ =~= before.push((entries@.last().0, mk)));
                    assert forall|a: int, b: int| 0 <= a < b < entries@.len() implies
                        #[trigger] entries@[a].0@ != #[trigger] entries@[b].0@ by {
                        if b < before.len() {
                            assert(entries@[a] == before[a] && entries@[b] == before[b]);
                        } else {
                            assert(entries@[a] == before[a]);
                        }
                    }
                    lemma_position(entries@, before.len() as int);
                    assert forall|k: Seq<char>| k != path@ && #[trigger] entries_map(before).dom().contains(k)
                        implies entries_map(entries@).dom().contains(k)
                            && entries_map(entries@)[k] == entries_map(before)[k] by {
                        let j = position_of(before, k);
                        lemma_position(before, j);
                        assert(entries@[j] == before[j]);
                        lemma_position(entries@, j);
                    }
                    assert forall|k: Seq<char>| #[trigger] entries_map(entries@).dom().contains(k)
                        implies k == path@ || entries_map(before).dom().contains(k) by {
                        let j = choose|j: int| 0 <= j < entries@.len() && entries@[j].0@ == k;
                        if j < before.len() {
                            assert(entries@[j] == before[j]);
                        }
                    }
                    assert(entries_map(entries@) =~= entries_map(before).insert(path@, mk@));
                }
                self.entries = entries;
            },
        }
    }

    /// Forgets (and wipes) the master key of the vault at `path`.
    pub fn lock_vault(&mut self, path: &str)
        ensures
            final(self)@ == old(self)@.remove(path@),
    {
        proof {
            use_type_invariant(&*self);
        }
        let ghost before = self.entries@;
        match self.find(path) {
            Some(i) => {
                let mut entries: Vec<(String, [u8; MK_LEN])> = Vec::new();
                std::mem::swap(&mut entries, &mut self.entries);
                let (_, mut previous) = entries.remove(i);
                wipe(&mut previous);
                proof {
                    assert(entries@ =~= before.remove(i as int));
                    assert forall|a: int, b: int| 0 <= a < b < entries@.len() implies
                        #[trigger] entries@[a].0@ != #[trigger] entries@[b].0@ by {
                        let a0 = if a < i { a } else { a + 1 };
                        let b0 = if b < i { b } else { b + 1 };
                        assert(entries@[a] == before[a0] && entries@[b] == before[b0]);
                    }
                    assert forall|k: Seq<char>| k != path@ && #[trigger] entries_map(before).dom().contains(k)
                        implies entries_map(entries@).dom().contains(k)
                            && entries_map(entries@)[k] == entries_map(before)[k] by {
                        let j = position_of(before, k);
                        lemma_position(before, j);
                        assert(j != i);
                        let j2 = if j < i { j } else { j - 1 };
                        assert(entries@[j2] == before[j]);
                        lemma_position(entries@, j2);
                    }
                    assert forall|k: Seq<char>| #[trigger] entries_map(entries@).dom().contains(k)
                        implies k != path@ && entries_map(before).dom().contains(k) by {
                        let j = choose|j: int| 0 <= j < entries@.len() && entries@[j].0@ == k;
                        let j0 = if j < i { j } else { j + 1 };
                        assert(before[j0].0@ == k);
                        if k == path@ {
                            if j0 < i {
                                assert(before[j0].0@ != before[i as int].0@);
                            } else {
                                assert(before[i as int].0@ != before[j0].0@);
                            }
                        }
                    }
                    assert(entries_map(entries@) =~= entries_map(before).remove(path@));
                }
                self.entries = entries;
            },
            None => {
                proof {
                    assert(entries_map(before) =~= entries_map(before).remove(path@));
                }
            },
        }
    }

    /// Forgets (and wipes) every key, as when the app exits.
    pub fn lock_all(&mut self)
        ensures
            final(self)@ == Map::<Seq<char>, Seq<u8>>::empty(),
    {
        let mut entries: Vec<(String, [u8; MK_LEN])> = Vec::new();
        std::mem::swap(&mut entries, &mut self.entries);
        while entries.len() > 0
            decreases entries.len(),
        {
            let (_, mut key) = entries.pop().unwrap();
            wipe(&mut key);
        }
        assert(self@ =~= Map::<Seq<char>, Seq<u8>>::empty());
    }

    /// The master key of the vault at `path`, if it is unlocked.
    pub fn get(&self, path: &str) -> (res: Option<[u8; MK_LEN]>)
        ensures
            match res {
                Some(mk) => self@.dom().contains(path@) && self@[path@] == mk@,
                None => !self@.dom().contains(path@),
            },
    {
        proof {
            use_type_invariant(self);
        }
        match self.find(path) {
            Some(i) => {
                proof {
                    lemma_position(self.entries@, i as int);
                }
                Some(self.entries[i].1)
            },
            None => None,
        }
    }

    /// Whether the vault at `path` is unlocked.
    pub fn is_unlocked(&self, path: &str) -> (res: bool)
        ensures
            res == self@.dom().contains(path@),
    {
        self.find(path).is_some()
    }
}

/// What a command needs to know of a vault: its master key when it is
/// encrypted, and its id.
pub struct VaultContext {
    pub key: Option<[u8; MK_LEN]>,
    pub vault_id: String,
}

pub open spec fn locked_msg() -> Seq<char> {
    "vault is locked"@
}

/// The context of the vault at `vault`, whose manifest is `manifest`: a
/// vault whose `encryption` is anything but "none" needs its key from the
/// session table, and fails with "vault is locked" without it.
pub fn resolve_context(sessions: &VaultSessions, vault: &str, manifest: &Json) -> (res: Result<VaultContext, String>)
    ensures
        or_default(str_field(*manifest, "encryption"@), "none"@) == "none"@ ==> (res matches Ok(ctx) && ctx.key is None),
        or_default(str_field(*manifest, "encryption"@), "none"@) != "none"@ ==> match res {
            Ok(ctx) => sessions@.dom().contains(vault@) && (ctx.key matches Some(mk) && mk@ == sessions@[vault@]),
            Err(e) => !sessions@.dom().contains(vault@) && e@ == locked_msg(),
        },
        res matches Ok(ctx) ==> ctx.vault_id@ == or_default(str_field(*manifest, "vaultId"@), Seq::empty()),
{
    let plaintext = match manifest.get("encryption") {
        Some(v) => match v.as_str() {
            Some(e) => str_eq(e, "none"),
            None => true,
        },
        None => true,
    };
    let vault_id = match manifest.get("vaultId") {
        Some(v) => match v.as_str() {
            Some(s) => String::from_str(s),
            None => String::new(),
        },
        None => String::new(),
    };
    let key = if plaintext {
        None
    } else {
        match sessions.get(vault) {
            Some(mk) => Some(mk),
            None => return Err(String::from_str("vault is locked")),
        }
    };
    Ok(VaultContext { key, vault_id })
}

} // verus!
