//! The state that outlives one run: the trust store and the index of
//! installed tools.

use vstd::prelude::*;
use crate::error::ToolError;
use crate::trust::{id_views, ToolId, ToolIdView, TrustStore};

verus! {

/// One installed version of a tool.
#[derive(Debug)]
pub struct InstalledTool {
    pub id: ToolId,
    /// The tag of the release that was installed.
    pub version: String,
    /// Where the executable is stored.
    pub path: String,
}

/// What an `InstalledTool` stands for.
pub struct InstalledToolView {
    pub id: ToolIdView,
    pub version: Seq<char>,
    pub path: Seq<char>,
}

impl View for InstalledTool {
    type V = InstalledToolView;

    open spec fn view(&self) -> InstalledToolView {
        InstalledToolView { id: self.id@, version: self.version@, path: self.path@ }
    }
}

impl Clone for InstalledTool {
    fn clone(&self) -> (r: InstalledTool)
        ensures
            r@ == self@,
    {
        InstalledTool {
            id: self.id.clone(),
            version: self.version.clone(),
            path: self.path.clone(),
        }
    }
}

/// Whether the index holds a record for the identifier.
pub open spec fn indexed(s: Seq<InstalledToolView>, id: ToolIdView) -> bool {
    exists|i: int| 0 <= i < s.len() && (#[trigger] s[i]).id == id
}

/// Where the index holds the record for the identifier.
pub open spec fn position_of(s: Seq<InstalledToolView>, id: ToolIdView) -> int {
    choose|i: int| 0 <= i < s.len() && (#[trigger] s[i]).id == id
}

/// No identifier has two records.
pub open spec fn unique_ids(s: Seq<InstalledToolView>) -> bool {
    forall|i: int, j: int|
        0 <= i < j < s.len() ==> (#[trigger] s[i]).id != (#[trigger] s[j]).id
}

/// The index after an install is recorded: the new record in the place
/// of the one for the same identifier, or at the end.
pub open spec fn recorded(s: Seq<InstalledToolView>, t: InstalledToolView) -> Seq<
    InstalledToolView,
> {
    if indexed(s, t.id) {
        s.update(position_of(s, t.id), t)
    } else {
        s.push(t)
    }
}

/// Decides what saving reports, from whether each of the two files was
/// written: success only where both were.
pub fn save_result(trust_written: bool, tools_written: bool) -> (r: Result<(), ToolError>)
    ensures
        r.is_ok() == (trust_written && tools_written),
        r.is_err() ==> r == Err::<(), ToolError>(ToolError::Io),
{
    if trust_written && tools_written {
        Ok(())
    } else {
        Err(ToolError::Io)
    }
}

/// All state of one run.
#[derive(Debug)]
pub struct Home {
    trust: TrustStore,
    tools: Vec<InstalledTool>,
}

impl Home {
    /// The trusted identifiers.
    pub closed spec fn trusted(&self) -> Seq<ToolIdView> {
        self.trust@
    }

    /// The index of installed tools.
    pub closed spec fn index(&self) -> Seq<InstalledToolView> {
        self.tools@.map_values(|t: InstalledTool| t@)
    }

    /// Nothing is trusted twice, and no identifier is installed twice.
    #[verifier::type_invariant]
    pub open spec fn wf(&self) -> bool {
        self.trusted().no_duplicates() && unique_ids(self.index())
    }

    /// The state of a first run: nothing trusted, nothing installed.
    pub fn new() -> (r: Home)
        ensures
            r.wf(),
            r.trusted() == Seq::<ToolIdView>::empty(),
            r.index() == Seq::<InstalledToolView>::empty(),
    {
        let r = Home { trust: TrustStore::new(), tools: Vec::new() };
        assert(r.index() =~= Seq::<InstalledToolView>::empty());
        r
    }

    /// Whether the identifier has been approved.
    pub fn is_trusted(&self, id: &ToolId) -> (r: bool)
        ensures
            r == self.trusted().contains(id@),
    {
        self.trust.is_trusted(id)
    }

    /// Approves an identifier; idempotent. Returns whether it is new.
    pub fn trust(&mut self, id: ToolId) -> (r: bool)
        ensures
            final(self).wf(),
            final(self).trusted() == crate::trust::trusted_after(old(self).trusted(), id@),
            final(self).index() == old(self).index(),
            r == !old(self).trusted().contains(id@),
    {
        proof {
            use_type_invariant(&*self);
        }
        let mut trust = TrustStore::new();
        std::mem::swap(&mut trust, &mut self.trust);
        let r = trust.trust(id);
        self.trust = trust;
        r
    }

    /// How many identifiers are trusted.
    pub fn trusted_len(&self) -> (r: usize)
        ensures
            r == self.trusted().len(),
    {
        self.trust.len()
    }

    /// The trusted identifier at `i`.
    pub fn trusted_entry(&self, i: usize) -> (r: &ToolId)
        requires
            i < self.trusted().len(),
        ensures
            r@ == self.trusted()[i as int],
    {
        self.trust.entry(i)
    }

    /// How many tools are installed.
    pub fn tools_len(&self) -> (r: usize)
        ensures
            r == self.index().len(),
    {
        self.tools.len()
    }

    /// The record at `i` of the index.
    pub fn tool(&self, i: usize) -> (r: &InstalledTool)
        requires
            i < self.index().len(),
        ensures
            r@ == self.index()[i as int],
    {
        &self.tools[i]
    }

    /// Where the index holds the identifier's record.
    pub fn find(&self, id: &ToolId) -> (r: Option<usize>)
        ensures
            match r {
                Some(i) => i < self.index().len() && self.index()[i as int].id == id@,
                None => !indexed(self.index(), id@),
            },
    {
        let mut i: usize = 0;
        while i < self.tools.len()
            invariant
                i <= self.tools@.len(),
                self.index().len() == self.tools@.len(),
                forall|j: int| 0 <= j < i ==> (#[trigger] self.index()[j]).id != id@,
            decreases self.tools@.len() - i,
        {
            if self.tools[i].id.same(id) {
                assert(self.index()[i as int].id == id@);
                return Some(i);
            }
            i = i + 1;
        }
        None
    }

    /// Records an install: the record replaces the one of the same
    /// identifier, so that the latest install wins.
    pub fn record(&mut self, tool: InstalledTool)
        ensures
            final(self).wf(),
            final(self).index() == recorded(old(self).index(), tool@),
            final(self).trusted() == old(self).trusted(),
    {
        proof {
            use_type_invariant(&*self);
        }
        let ghost before = self.index();
        let found = self.find(&tool.id);
        let mut tools: Vec<InstalledTool> = Vec::new();
        std::mem::swap(&mut tools, &mut self.tools);
        assert(self.index() =~= Seq::<InstalledToolView>::empty());
        match found {
            Some(i) => {
                proof {
                    let p = position_of(before, tool@.id);
                    assert(before[i as int].id == tool@.id);
                    assert(p == i);
                }
                tools.set(i, tool);
                assert(tool_views(tools@) =~= before.update(i as int, tool@));
            },
            None => {
                tools.push(tool);
                assert(tool_views(tools@) =~= before.push(tool@));
            },
        }
        proof {
            law_record_keeps_one_per_id(before, tool@);
        }
        self.tools = tools;
    }

    /// Before an install: an identifier that is not trusted is
    /// refused, and nothing has been fetched by then.
    pub fn authorize(&self, id: &ToolId) -> (r: Result<(), ToolError>)
        ensures
            r == if self.trusted().contains(id@) {
                Ok::<(), ToolError>(())
            } else {
                Err(ToolError::Untrusted)
            },
    {
        if self.is_trusted(id) {
            Ok(())
        } else {
            Err(ToolError::Untrusted)
        }
    }
}

/// The views of a list of records.
pub open spec fn tool_views(tools: Seq<InstalledTool>) -> Seq<InstalledToolView> {
    tools.map_values(|t: InstalledTool| t@)
}

/// Whether two lists can be the contents of the two state files:
/// nothing is trusted twice, and no identifier is installed twice.
pub open spec fn loadable(trusted: Seq<ToolIdView>, index: Seq<InstalledToolView>) -> bool {
    trusted.no_duplicates() && unique_ids(index)
}

impl Home {
    /// Makes the state of what the two state files list. Files that list
    /// an identifier twice are corrupt.
    pub fn from_parts(trusted: &Vec<ToolId>, tools: &Vec<InstalledTool>) -> (r: Result<
        Home,
        ToolError,
    >)
        ensures
            r.is_ok() == loadable(id_views(trusted@), tool_views(tools@)),
            match r {
                Ok(home) => home.wf() && home.trusted() == id_views(trusted@) && home.index()
                    == tool_views(tools@),
                Err(e) => e == ToolError::FileCorrupt,
            },
    {
        let trust = match TrustStore::from_entries(trusted) {
            Ok(t) => t,
            Err(e) => { return Err(e); },
        };
        let ghost views = tool_views(tools@);
        let mut home = Home { trust, tools: Vec::new() };
        assert(home.index() =~= views.take(0));
        let mut i: usize = 0;
        while i < tools.len()
            invariant
                i <= tools@.len(),
                views == tool_views(tools@),
                home.wf(),
                home.trusted() == id_views(trusted@),
                home.index() == views.take(i as int),
            decreases tools@.len() - i,
        {
            let t = tools[i].clone();
            assert(t@ == views[i as int]);
            match home.find(&t.id) {
                Some(j) => {
                    assert(views[j as int].id == views[i as int].id);
                    return Err(ToolError::FileCorrupt);
                },
                None => {
                    home.record(t);
                    assert(views.take(i + 1) =~= views.take(i as int).push(views[i as int]));
                },
            }
            i = i + 1;
        }
        assert(views.take(i as int) =~= views);
        Ok(home)
    }
}

/// An identifier has at most one record, whatever is recorded, and the
/// record of the latest install is the one that the index holds.
pub proof fn law_record_keeps_one_per_id(s: Seq<InstalledToolView>, t: InstalledToolView)
    requires
        unique_ids(s),
    ensures
        unique_ids(recorded(s, t)),
        indexed(recorded(s, t), t.id),
        recorded(s, t)[position_of(recorded(s, t), t.id)] == t,
        recorded(s, t).len() == if indexed(s, t.id) {
            s.len()
        } else {
            s.len() + 1
        },
{
    let r = recorded(s, t);
    if indexed(s, t.id) {
        let p = position_of(s, t.id);
        assert(r[p].id == t.id);
    } else {
        assert(r[s.len() as int].id == t.id);
    }
    let q = position_of(r, t.id);
    assert(r[q].id == t.id);
}

} // verus!
