//! The launcher links: which links the index asks for, which of the old
//! ones go, and how one link is made.

use vstd::prelude::*;
use crate::error::ToolError;
use crate::home::{Home, InstalledToolView};
use crate::select::Os;

verus! {

/// A launcher link: its name in the launcher directory, and the
/// executable that it points at.
#[derive(Debug)]
pub struct LinkEntry {
    pub name: String,
    pub target: String,
}

/// What a `LinkEntry` stands for.
pub struct LinkView {
    pub name: Seq<char>,
    pub target: Seq<char>,
}

impl View for LinkEntry {
    type V = LinkView;

    open spec fn view(&self) -> LinkView {
        LinkView { name: self.name@, target: self.target@ }
    }
}

/// The views of a list of links.
pub open spec fn link_views(links: Seq<LinkEntry>) -> Seq<LinkView> {
    links.map_values(|l: LinkEntry| l@)
}

/// The link of an installed tool: named by the tool's short name,
/// pointing at the stored executable.
pub open spec fn link_of(t: InstalledToolView) -> LinkView {
    LinkView { name: t.id.name, target: t.path }
}

/// The links that an index asks for: the program's own, then one for
/// each installed tool.
pub open spec fn links_for(index: Seq<InstalledToolView>, own: LinkView) -> Seq<LinkView> {
    seq![own] + index.map_values(|t: InstalledToolView| link_of(t))
}

/// Whether a list holds a link of that name.
pub open spec fn has_name(links: Seq<LinkView>, name: Seq<char>) -> bool {
    exists|i: int| 0 <= i < links.len() && (#[trigger] links[i]).name == name
}

/// Whether some wanted link is not there yet as it is wanted: under
/// that name, to that target.
pub open spec fn any_changed(existing: Seq<LinkView>, wanted: Seq<LinkView>) -> bool {
    exists|i: int| 0 <= i < wanted.len() && !existing.contains(#[trigger] wanted[i])
}

/// Lists the links that the state asks for.
pub fn wanted_links(home: &Home, own_name: &String, own_path: &String) -> (r: Vec<LinkEntry>)
    ensures
        link_views(r@) == links_for(
            home.index(),
            LinkView { name: own_name@, target: own_path@ },
        ),
{
    let ghost own = LinkView { name: own_name@, target: own_path@ };
    let mut r: Vec<LinkEntry> = Vec::new();
    r.push(LinkEntry { name: own_name.clone(), target: own_path.clone() });
    let n: usize = home.tools_len();
    let mut i: usize = 0;
    while i < n
        invariant
            i <= n,
            n == home.index().len(),
            link_views(r@) =~= links_for(home.index().take(i as int), own),
        decreases n - i,
    {
        let t = home.tool(i);
        let ghost before = link_views(r@);
        r.push(LinkEntry { name: t.id.name.clone(), target: t.path.clone() });
        assert(link_views(r@) =~= before.push(link_of(home.index()[i as int])));
        assert(home.index().take(i + 1) =~= home.index().take(i as int).push(
            home.index()[i as int],
        ));
        i = i + 1;
    }
    assert(home.index().take(n as int) =~= home.index());
    r
}

/// Whether a list holds a link of that name. An old link whose name is
/// not wanted is stale, and goes.
pub fn names_link(links: &Vec<LinkEntry>, name: &String) -> (r: bool)
    ensures
        r == has_name(link_views(links@), name@),
{
    let mut i: usize = 0;
    while i < links.len()
        invariant
            i <= links@.len(),
            forall|j: int| 0 <= j < i ==> (#[trigger] link_views(links@)[j]).name != name@,
        decreases links@.len() - i,
    {
        if links[i].name == *name {
            assert(link_views(links@)[i as int].name == name@);
            return true;
        }
        i = i + 1;
    }
    false
}

/// `stale` lists, in rising order, just the places of the old links
/// whose names are not wanted any more.
pub open spec fn lists_stale(stale: Seq<usize>, existing: Seq<LinkView>, wanted: Seq<LinkView>) -> bool {
    &&& forall|a: int, b: int| 0 <= a < b < stale.len() ==> stale[a] < stale[b]
    &&& forall|a: int|
        0 <= a < stale.len() ==> (#[trigger] stale[a]) < existing.len() && !has_name(
            wanted,
            existing[stale[a] as int].name,
        )
    &&& forall|i: int|
        0 <= i < existing.len() && !has_name(wanted, (#[trigger] existing[i]).name)
            ==> exists|a: int| 0 <= a < stale.len() && stale[a] == i
}

/// Finds the stale links: the old links that are to be removed, so that
/// no launcher outlives its tool.
pub fn stale_links(existing: &Vec<LinkEntry>, wanted: &Vec<LinkEntry>) -> (r: Vec<usize>)
    ensures
        lists_stale(r@, link_views(existing@), link_views(wanted@)),
{
    let ghost old_links = link_views(existing@);
    let ghost new_links = link_views(wanted@);
    let mut stale: Vec<usize> = Vec::new();
    let mut i: usize = 0;
    while i < existing.len()
        invariant
            i <= existing@.len(),
            old_links == link_views(existing@),
            new_links == link_views(wanted@),
            forall|a: int, b: int| 0 <= a < b < stale@.len() ==> stale@[a] < stale@[b],
            forall|a: int|
                0 <= a < stale@.len() ==> (#[trigger] stale@[a]) < i && !has_name(
                    new_links,
                    old_links[stale@[a] as int].name,
                ),
            forall|k: int|
                0 <= k < i && !has_name(new_links, (#[trigger] old_links[k]).name) ==> exists|
                    a: int,
                | 0 <= a < stale@.len() && stale@[a] == k,
        decreases existing@.len() - i,
    {
        assert(old_links[i as int].name == existing@[i as int].name@);
        if !names_link(wanted, &existing[i].name) {
            let ghost before = stale@;
            stale.push(i);
            assert forall|k: int|
                0 <= k < i + 1 && !has_name(new_links, (#[trigger] old_links[k]).name) implies exists|
                a: int,
            | 0 <= a < stale@.len() && stale@[a] == k by {
                if k < i {
                    let a = choose|a: int| 0 <= a < before.len() && before[a] == k;
                    assert(stale@[a] == k);
                } else {
                    assert(stale@[before.len() as int] == k);
                }
            }
        }
        i = i + 1;
    }
    stale
}

fn holds_link(links: &Vec<LinkEntry>, link: &LinkEntry) -> (r: bool)
    ensures
        r == link_views(links@).contains(link@),
{
    let mut i: usize = 0;
    while i < links.len()
        invariant
            i <= links@.len(),
            forall|j: int| 0 <= j < i ==> link_views(links@)[j] != link@,
        decreases links@.len() - i,
    {
        if links[i].name == link.name && links[i].target == link.target {
            assert(links@[i as int]@.name =~= link@.name);
            assert(links@[i as int]@.target =~= link@.target);
            assert(link_views(links@)[i as int] == link@);
            return true;
        }
        i = i + 1;
    }
    false
}

/// What recreating the links amounts to, for the message to the user:
/// whether the program's own launcher was there before, and whether any
/// wanted link is new or points elsewhere than before.
pub fn link_report(existing: &Vec<LinkEntry>, wanted: &Vec<LinkEntry>, own_name: &String) -> (r: (
    bool,
    bool,
))
    ensures
        r.0 == has_name(link_views(existing@), own_name@),
        r.1 == any_changed(link_views(existing@), link_views(wanted@)),
{
    let had: bool = names_link(existing, own_name);
    let mut changed: bool = false;
    let mut i: usize = 0;
    while i < wanted.len()
        invariant
            i <= wanted@.len(),
            changed == (exists|j: int|
                0 <= j < i && !link_views(existing@).contains(
                    #[trigger] link_views(wanted@)[j],
                )),
        decreases wanted@.len() - i,
    {
        let here: bool = holds_link(existing, &wanted[i]);
        proof {
            assert(link_views(wanted@)[i as int] == wanted@[i as int]@);
            if changed && here {
                let j = choose|j: int|
                    0 <= j < i && !link_views(existing@).contains(
                        #[trigger] link_views(wanted@)[j],
                    );
                assert(0 <= j < i + 1);
            }
        }
        if !here {
            changed = true;
        }
        i = i + 1;
    }
    (had, changed)
}

/// One step of making a link.
#[derive(Clone, Copy, Debug, PartialEq, Eq, Structural)]
pub enum LinkStep {
    /// Remove what stands under the link's name.
    RemoveOld,
    /// Create the symbolic link.
    CreateSymlink,
    /// Give the link itself the execute bit.
    MarkLinkExecutable,
}

/// The steps for a system. Only on macOS does a symbolic link carry
/// permission bits of its own; Windows has no native symbolic links.
pub open spec fn link_steps_for(os: Os) -> Result<Seq<LinkStep>, ToolError> {
    match os {
        Os::Linux => Ok(seq![LinkStep::RemoveOld, LinkStep::CreateSymlink]),
        Os::MacOs => Ok(
            seq![LinkStep::RemoveOld, LinkStep::CreateSymlink, LinkStep::MarkLinkExecutable],
        ),
        Os::Windows => Err(ToolError::PlatformUnsupported),
    }
}

/// The steps that make one link, in their order, or the refusal of a
/// system without symbolic links.
pub fn link_steps(os: Os) -> (r: Result<Vec<LinkStep>, ToolError>)
    ensures
        match r {
            Ok(steps) => link_steps_for(os) == Ok::<Seq<LinkStep>, ToolError>(steps@),
            Err(e) => link_steps_for(os) == Err::<Seq<LinkStep>, ToolError>(e),
        },
{
    match os {
        Os::Windows => Err(ToolError::PlatformUnsupported),
        Os::Linux => {
            let mut r: Vec<LinkStep> = Vec::new();
            r.push(LinkStep::RemoveOld);
            r.push(LinkStep::CreateSymlink);
            assert(r@ =~= seq![LinkStep::RemoveOld, LinkStep::CreateSymlink]);
            Ok(r)
        },
        Os::MacOs => {
            let mut r: Vec<LinkStep> = Vec::new();
            r.push(LinkStep::RemoveOld);
            r.push(LinkStep::CreateSymlink);
            r.push(LinkStep::MarkLinkExecutable);
            assert(r@ =~= seq![
                LinkStep::RemoveOld,
                LinkStep::CreateSymlink,
                LinkStep::MarkLinkExecutable,
            ]);
            Ok(r)
        },
    }
}

/// How removing the old link ended.
#[derive(Clone, Copy, Debug, PartialEq, Eq, Structural)]
pub enum RemoveOutcome {
    Removed,
    /// There was nothing under that name.
    NotFound,
    /// The removal failed in another way.
    Failed,
}

/// Whether a link's recreation goes on after the removal: that there
/// was nothing to remove is no failure, anything else is.
pub fn after_remove(outcome: RemoveOutcome) -> (r: Result<(), ToolError>)
    ensures
        r == match outcome {
            RemoveOutcome::Failed => Err::<(), ToolError>(ToolError::Io),
            _ => Ok(()),
        },
{
    match outcome {
        RemoveOutcome::Failed => Err(ToolError::Io),
        _ => Ok(()),
    }
}

/// Whether `stale` lists the place `i`.
pub open spec fn listed(stale: Seq<usize>, i: int) -> bool {
    exists|a: int| 0 <= a < stale.len() && stale[a] == i
}

/// The names in the launcher directory once the listed links are
/// removed and the wanted ones made: those of the old links that are
/// not listed, and those of the wanted links.
pub open spec fn names_after(existing: Seq<LinkView>, stale: Seq<usize>, wanted: Seq<LinkView>) -> Set<
    Seq<char>,
> {
    Set::new(
        |n: Seq<char>|
            has_name(wanted, n) || exists|i: int|
                0 <= i < existing.len() && (#[trigger] existing[i]).name == n && !listed(stale, i),
    )
}

/// The names of the links that an index asks for.
pub open spec fn wanted_names(index: Seq<InstalledToolView>, own: LinkView) -> Set<Seq<char>> {
    Set::new(|n: Seq<char>| has_name(links_for(index, own), n))
}

/// After the links are recreated by the plan, the launcher names are
/// those of the installed tools and the program's own: none more, none
/// fewer, whatever was there before. The plan is the list of stale links
/// and the wanted links of the index.
pub proof fn law_links_mirror_index(
    existing: Seq<LinkView>,
    stale: Seq<usize>,
    index: Seq<InstalledToolView>,
    own: LinkView,
)
    requires
        lists_stale(stale, existing, links_for(index, own)),
    ensures
        names_after(existing, stale, links_for(index, own)) == wanted_names(index, own),
        forall|n: Seq<char>| #[trigger]
            wanted_names(index, own).contains(n) <==> (n == own.name || exists|i: int|
                0 <= i < index.len() && (#[trigger] index[i]).id.name == n),
{
    let wanted = wanted_names(index, own);
    let links = links_for(index, own);
    assert forall|n: Seq<char>| names_after(existing, stale, links).contains(n) implies wanted.contains(
        n,
    ) by {
        if !has_name(links, n) {
            let i = choose|i: int|
                0 <= i < existing.len() && (#[trigger] existing[i]).name == n && !listed(stale, i);
            assert(!has_name(links, existing[i].name));
            assert(listed(stale, i));
        }
    }
    assert(names_after(existing, stale, links) =~= wanted);
    assert forall|n: Seq<char>| #[trigger]
        wanted.contains(n) <==> (n == own.name || exists|i: int|
            0 <= i < index.len() && (#[trigger] index[i]).id.name == n) by {
        if wanted.contains(n) {
            let k = choose|k: int| 0 <= k < links.len() && (#[trigger] links[k]).name == n;
            if k > 0 {
                assert(links[k] == link_of(index[k - 1]));
                assert(index[k - 1].id.name == n);
            }
        }
        if n == own.name {
            assert(links[0].name == n);
        }
        if exists|i: int| 0 <= i < index.len() && (#[trigger] index[i]).id.name == n {
            let i = choose|i: int| 0 <= i < index.len() && (#[trigger] index[i]).id.name == n;
            assert(links[i + 1] == link_of(index[i]));
            assert(links[i + 1].name == n);
        }
    }
}

} // verus!
