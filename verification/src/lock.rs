//! The lock file of the database: the vtables the database knows of.
use vstd::prelude::*;
use crate::paths::{join_path, path_join};
use crate::table::VTableId;

verus! {

/// Name of the lock file in the database directory.
pub const DEFAULT_LOCK_FILE: &'static str = "db.lock";

/// The state kept in the lock file.
#[derive(Debug, Clone)]
pub struct DocBufDbLockState {
    /// The vtables of the database.
    pub vtables: Vec<VTableId>,
}

/// No vtable identifier occurs twice in the list.
pub open spec fn ids_unique(s: Seq<VTableId>) -> bool {
    forall|i: int, j: int| 0 <= i < j < s.len() ==> s[i]@ != s[j]@
}

/// The bytes of the identifiers of the list.
pub open spec fn id_bytes_set(s: Seq<VTableId>) -> Set<Seq<u8>> {
    Set::new(|b: Seq<u8>| exists|i: int| 0 <= i < s.len() && s[i]@ == b)
}

/// Whether two identifiers have the same bytes.
fn same_id(a: &VTableId, b: &VTableId) -> (r: bool)
    ensures
        r == (a@ == b@),
{
    let x = a.bytes();
    let y = b.bytes();
    let r = x[0] == y[0] && x[1] == y[1] && x[2] == y[2] && x[3] == y[3] && x[4] == y[4] && x[5]
        == y[5] && x[6] == y[6] && x[7] == y[7];
    proof {
        crate::table::lemma_vtable_id_len(*a);
        crate::table::lemma_vtable_id_len(*b);
        if r {
            assert(x@ =~= y@);
        }
    }
    r
}

impl DocBufDbLockState {
    /// A state without vtables.
    pub fn new() -> (s: Self)
        ensures
            s.vtables@ == Seq::<VTableId>::empty(),
            ids_unique(s.vtables@),
    {
        Self { vtables: Vec::new() }
    }

    /// Whether the state holds a vtable with the bytes of `id`.
    pub fn contains(&self, id: &VTableId) -> (r: bool)
        ensures
            r == id_bytes_set(self.vtables@).contains(id@),
    {
        let n = self.vtables.len();
        for i in 0..n
            invariant
                n == self.vtables@.len(),
                forall|j: int| 0 <= j < i ==> self.vtables@[j]@ != id@,
        {
            if same_id(&self.vtables[i], id) {
                return true;
            }
        }
        false
    }

    /// Adds the vtable `id`, unless one with the same bytes is there: each
    /// identifier stays in the state once.
    pub fn insert(&mut self, id: VTableId) -> (added: bool)
        ensures
            added == !id_bytes_set(old(self).vtables@).contains(id@),
            added ==> final(self).vtables@ == old(self).vtables@.push(id),
            !added ==> final(self).vtables@ == old(self).vtables@,
            id_bytes_set(final(self).vtables@) == id_bytes_set(old(self).vtables@).insert(id@),
            ids_unique(old(self).vtables@) ==> ids_unique(final(self).vtables@),
    {
        if self.contains(&id) {
            proof {
                assert(id_bytes_set(self.vtables@) =~= id_bytes_set(self.vtables@).insert(id@));
            }
            return false;
        }
        let ghost before = self.vtables@;
        self.vtables.push(id);
        proof {
            assert forall|i: int| 0 <= i < before.len() implies #[trigger] self.vtables@[i] == before[i] by {}
            assert forall|b: Seq<u8>| #[trigger] id_bytes_set(self.vtables@).contains(b)
                == id_bytes_set(before).insert(id@).contains(b) by {
                if id_bytes_set(self.vtables@).contains(b) {
                    let i = choose|i: int| 0 <= i < self.vtables@.len() && self.vtables@[i]@ == b;
                    if i < before.len() {
                        assert(before[i]@ == b);
                    }
                }
                if id_bytes_set(before).contains(b) {
                    let i = choose|i: int| 0 <= i < before.len() && before[i]@ == b;
                    assert(self.vtables@[i]@ == b);
                }
                if b == id@ {
                    assert(self.vtables@[before.len() as int]@ == b);
                }
            }
            assert(id_bytes_set(self.vtables@) =~= id_bytes_set(before).insert(id@));
            assert forall|j: int| 0 <= j < before.len() implies before[j]@ != id@ by {
                if before[j]@ == id@ {
                    assert(id_bytes_set(before).contains(id@));
                }
            }
        }
        true
    }
}

/// The lock file of a database directory and its state.
#[derive(Debug, Clone)]
pub struct DocBufDbLock {
    /// Path of the lock file.
    pub file: String,
    pub state: DocBufDbLockState,
}

impl DocBufDbLock {
    /// The lock of the database in `directory`: the file `db.lock` in it,
    /// with an empty state.
    pub fn new(directory: &str) -> (l: Self)
        ensures
            l.file@ == path_join(directory@, DEFAULT_LOCK_FILE@),
            l.state.vtables@ == Seq::<VTableId>::empty(),
            ids_unique(l.state.vtables@),
    {
        Self { file: join_path(directory, DEFAULT_LOCK_FILE), state: DocBufDbLockState::new() }
    }
}

} // verus!
