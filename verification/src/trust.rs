//! Tool identifiers, and the set of identifiers approved for installation.

use vstd::prelude::*;
use crate::error::ToolError;

verus! {

/// The kind of release source that publishes a tool.
#[derive(Clone, Copy, Debug, PartialEq, Eq, Structural)]
pub enum SourceKind {
    GitHub,
}

/// A tool, unique within its source: who publishes it, and its short name.
#[derive(Debug)]
pub struct ToolId {
    pub source: SourceKind,
    pub scope: String,
    pub name: String,
}

/// What a `ToolId` stands for.
pub struct ToolIdView {
    pub source: SourceKind,
    pub scope: Seq<char>,
    pub name: Seq<char>,
}

impl View for ToolId {
    type V = ToolIdView;

    open spec fn view(&self) -> ToolIdView {
        ToolIdView { source: self.source, scope: self.scope@, name: self.name@ }
    }
}

impl Clone for ToolId {
    fn clone(&self) -> (r: ToolId)
        ensures
            r@ == self@,
    {
        ToolId { source: self.source, scope: self.scope.clone(), name: self.name.clone() }
    }
}

impl ToolId {
    /// Whether two identifiers name the same tool.
    pub fn same(&self, other: &ToolId) -> (r: bool)
        ensures
            r == (self@ == other@),
    {
        let r = self.source == other.source && self.scope == other.scope && self.name
            == other.name;
        proof {
            if r {
                assert(self@.scope =~= other@.scope);
                assert(self@.name =~= other@.name);
            }
        }
        r
    }
}

/// The identifiers after one more is trusted: unchanged where it was
/// there, else with it at the end.
pub open spec fn trusted_after(s: Seq<ToolIdView>, id: ToolIdView) -> Seq<ToolIdView> {
    if s.contains(id) {
        s
    } else {
        s.push(id)
    }
}

/// The identifiers that the user has approved, each once.
#[derive(Debug)]
pub struct TrustStore {
    entries: Vec<ToolId>,
}

impl View for TrustStore {
    type V = Seq<ToolIdView>;

    closed spec fn view(&self) -> Seq<ToolIdView> {
        self.entries@.map_values(|t: ToolId| t@)
    }
}

impl TrustStore {
    /// No identifier is recorded twice.
    #[verifier::type_invariant]
    pub open spec fn wf(&self) -> bool {
        self@.no_duplicates()
    }

    /// A store that trusts nothing.
    pub fn new() -> (r: TrustStore)
        ensures
            r@ == Seq::<ToolIdView>::empty(),
            r.wf(),
    {
        let r = TrustStore { entries: Vec::new() };
        assert(r@ =~= Seq::<ToolIdView>::empty());
        r
    }

    /// How many identifiers are trusted.
    pub fn len(&self) -> (r: usize)
        ensures
            r == self@.len(),
    {
        self.entries.len()
    }

    /// The identifier at `i`, in the order of approval.
    pub fn entry(&self, i: usize) -> (r: &ToolId)
        requires
            i < self@.len(),
        ensures
            r@ == self@[i as int],
    {
        &self.entries[i]
    }

    /// Whether the identifier has been approved.
    pub fn is_trusted(&self, id: &ToolId) -> (r: bool)
        ensures
            r == self@.contains(id@),
    {
        let mut i: usize = 0;
        while i < self.entries.len()
            invariant
                i <= self.entries@.len(),
                self@.len() == self.entries@.len(),
                forall|j: int| 0 <= j < i ==> self@[j] != id@,
            decreases self.entries@.len() - i,
        {
            if self.entries[i].same(id) {
                assert(self@[i as int] == id@);
                return true;
            }
            i = i + 1;
        }
        false
    }

    /// Approves an identifier; one that is approved already changes
    /// nothing. Returns whether the identifier is new.
    pub fn trust(&mut self, id: ToolId) -> (r: bool)
        ensures
            final(self).wf(),
            final(self)@ == trusted_after(old(self)@, id@),
            r == !old(self)@.contains(id@),
    {
        proof {
            use_type_invariant(&*self);
        }
        if self.is_trusted(&id) {
            false
        } else {
            let ghost before = self@;
            let mut entries: Vec<ToolId> = Vec::new();
            std::mem::swap(&mut entries, &mut self.entries);
            assert(self@ =~= Seq::<ToolIdView>::empty());
            entries.push(id);
            assert(entries@.map_values(|t: ToolId| t@) =~= before.push(id@));
            self.entries = entries;
            true
        }
    }
}

/// The views of a list of identifiers.
pub open spec fn id_views(ids: Seq<ToolId>) -> Seq<ToolIdView> {
    ids.map_values(|t: ToolId| t@)
}

impl TrustStore {
    /// Makes a store of the identifiers that a trust file lists, in
    /// their order. A file that lists an identifier twice is corrupt.
    pub fn from_entries(entries: &Vec<ToolId>) -> (r: Result<TrustStore, ToolError>)
        ensures
            match r {
                Ok(store) => store.wf() && store@ == id_views(entries@),
                Err(e) => e == ToolError::FileCorrupt && !id_views(entries@).no_duplicates(),
            },
    {
        let ghost ids = id_views(entries@);
        let mut store = TrustStore::new();
        let mut i: usize = 0;
        while i < entries.len()
            invariant
                i <= entries@.len(),
                ids == id_views(entries@),
                store.wf(),
                store@ == ids.take(i as int),
            decreases entries@.len() - i,
        {
            let id = entries[i].clone();
            assert(id@ == ids[i as int]);
            if !store.trust(id) {
                proof {
                    let j = choose|j: int| 0 <= j < i && ids.take(i as int)[j] == ids[i as int];
                    assert(ids[j] == ids[i as int] && j != i);
                }
                return Err(ToolError::FileCorrupt);
            }
            assert(ids.take(i + 1) =~= ids.take(i as int).push(ids[i as int]));
            i = i + 1;
        }
        assert(ids.take(i as int) =~= ids);
        Ok(store)
    }
}

/// Trusting the same identifier twice leaves what trusting it once
/// leaves: a store that holds it, and nothing twice.
pub proof fn law_trust_is_idempotent(s: Seq<ToolIdView>, id: ToolIdView)
    requires
        s.no_duplicates(),
    ensures
        trusted_after(trusted_after(s, id), id) == trusted_after(s, id),
        trusted_after(s, id).contains(id),
        trusted_after(s, id).no_duplicates(),
        trusted_after(s, id).len() == if s.contains(id) {
            s.len()
        } else {
            s.len() + 1
        },
{
    if !s.contains(id) {
        assert(s.push(id)[s.len() as int] == id);
    }
}

} // verus!
