//! The commands, as far as they decide: what a command does to the
//! state, what is left to do after it, and what the run reports.

use vstd::prelude::*;
use crate::error::ToolError;
use crate::home::Home;
use crate::links::{
    any_changed, has_name, link_report, link_views, links_for, lists_stale, stale_links,
    wanted_links, LinkEntry, LinkView,
};
use crate::resolve::VersionSpec;
use crate::trust::{id_views, trusted_after, ToolId, ToolIdView};

verus! {

/// Adds a tool: resolves, downloads and installs it.
#[derive(Debug)]
pub struct AddSubcommand {
    pub tool: ToolId,
    pub version: VersionSpec,
}

/// Lists the installed tools.
#[derive(Debug)]
pub struct ListSubcommand {}

/// Approves tools for installation.
#[derive(Debug)]
pub struct TrustSubcommand {
    pub tools: Vec<ToolId>,
}

/// Installs the tools that the project pins.
#[derive(Debug)]
pub struct InstallSubcommand {
    /// The pinned tools.
    pub pinned: Vec<ToolId>,
}

/// Installs or re-installs the program itself, and updates all links.
#[derive(Debug)]
pub struct SelfInstallSubcommand {}

/// The command line.
#[derive(Debug)]
pub struct Cli {
    pub subcommand: Subcommand,
}

/// The commands.
#[derive(Debug)]
pub enum Subcommand {
    Add(AddSubcommand),
    List(ListSubcommand),
    Trust(TrustSubcommand),
    Install(InstallSubcommand),
}

/// What is left to do once a command has made its decisions.
#[derive(Clone, Copy, Debug, PartialEq, Eq, Structural)]
pub enum Followup {
    /// Nothing.
    Nothing,
    /// Print the index of installed tools.
    PrintTools,
    /// Fetch the tool's releases, then download and install.
    FetchAndInstall,
    /// Fetch the releases of each pinned tool, then download and install.
    InstallPinned,
}

/// The trusted identifiers after each of `ids` is trusted in turn.
pub open spec fn trusted_after_all(s: Seq<ToolIdView>, ids: Seq<ToolIdView>) -> Seq<ToolIdView>
    decreases ids.len(),
{
    if ids.len() == 0 {
        s
    } else {
        trusted_after(trusted_after_all(s, ids.drop_last()), ids.last())
    }
}

impl TrustSubcommand {
    /// Approves each of the command's tools.
    pub fn run(&self, home: &mut Home)
        ensures
            final(home).wf(),
            final(home).trusted() == trusted_after_all(old(home).trusted(), id_views(self.tools@)),
            final(home).index() == old(home).index(),
    {
        proof {
            use_type_invariant(&*home);
        }
        let ghost start = home.trusted();
        let ghost ids = id_views(self.tools@);
        let mut i: usize = 0;
        while i < self.tools.len()
            invariant
                i <= self.tools@.len(),
                ids == id_views(self.tools@),
                home.wf(),
                home.trusted() == trusted_after_all(start, ids.take(i as int)),
                home.index() == old(home).index(),
            decreases self.tools@.len() - i,
        {
            let id = self.tools[i].clone();
            home.trust(id);
            proof {
                assert(ids.take(i + 1).drop_last() =~= ids.take(i as int));
                assert(ids.take(i + 1).last() == ids[i as int]);
            }
            i = i + 1;
        }
        assert(ids.take(i as int) =~= ids);
    }
}

/// Whether every one of the identifiers is trusted.
pub open spec fn all_trusted(trusted: Seq<ToolIdView>, ids: Seq<ToolIdView>) -> bool {
    forall|i: int| 0 <= i < ids.len() ==> trusted.contains(#[trigger] ids[i])
}

impl InstallSubcommand {
    /// Before the pinned tools are installed: one that is not trusted
    /// refuses the whole command, before anything is fetched.
    pub fn run(&self, home: &Home) -> (r: Result<Followup, ToolError>)
        ensures
            r == if all_trusted(home.trusted(), id_views(self.pinned@)) {
                Ok::<Followup, ToolError>(Followup::InstallPinned)
            } else {
                Err(ToolError::Untrusted)
            },
    {
        let ghost ids = id_views(self.pinned@);
        let mut i: usize = 0;
        while i < self.pinned.len()
            invariant
                i <= self.pinned@.len(),
                ids == id_views(self.pinned@),
                forall|j: int| 0 <= j < i ==> home.trusted().contains(#[trigger] ids[j]),
            decreases self.pinned@.len() - i,
        {
            assert(ids[i as int] == self.pinned@[i as int]@);
            if !home.is_trusted(&self.pinned[i]) {
                return Err(ToolError::Untrusted);
            }
            i = i + 1;
        }
        Ok(Followup::InstallPinned)
    }
}

impl AddSubcommand {
    /// Before an install: an untrusted tool is refused before
    /// anything is fetched.
    pub fn run(&self, home: &Home) -> (r: Result<Followup, ToolError>)
        ensures
            r == if home.trusted().contains(self.tool@) {
                Ok::<Followup, ToolError>(Followup::FetchAndInstall)
            } else {
                Err(ToolError::Untrusted)
            },
    {
        match home.authorize(&self.tool) {
            Ok(()) => Ok(Followup::FetchAndInstall),
            Err(e) => Err(e),
        }
    }
}

impl Subcommand {
    /// Runs the command on the state, as far as it decides, and says
    /// what is left to do.
    pub fn run(&self, home: &mut Home) -> (r: Result<Followup, ToolError>)
        ensures
            final(home).wf(),
            final(home).index() == old(home).index(),
            match *self {
                Subcommand::Add(cmd) => final(home).trusted() == old(home).trusted() && r == if old(
                    home,
                ).trusted().contains(cmd.tool@) {
                    Ok::<Followup, ToolError>(Followup::FetchAndInstall)
                } else {
                    Err(ToolError::Untrusted)
                },
                Subcommand::List(_) => final(home).trusted() == old(home).trusted() && r == Ok::<
                    Followup,
                    ToolError,
                >(Followup::PrintTools),
                Subcommand::Trust(cmd) => final(home).trusted() == trusted_after_all(
                    old(home).trusted(),
                    id_views(cmd.tools@),
                ) && r == Ok::<Followup, ToolError>(Followup::Nothing),
                Subcommand::Install(cmd) => final(home).trusted() == old(home).trusted() && r
                    == if all_trusted(old(home).trusted(), id_views(cmd.pinned@)) {
                    Ok::<Followup, ToolError>(Followup::InstallPinned)
                } else {
                    Err(ToolError::Untrusted)
                },
            },
    {
        proof {
            use_type_invariant(&*home);
        }
        match self {
            Subcommand::Add(cmd) => cmd.run(home),
            Subcommand::List(_) => Ok(Followup::PrintTools),
            Subcommand::Trust(cmd) => {
                cmd.run(home);
                Ok(Followup::Nothing)
            },
            Subcommand::Install(cmd) => cmd.run(home),
        }
    }
}

impl Cli {
    /// What the run reports, once the command has ended and the state
    /// has been saved: a failed save before anything else, then the
    /// command's own result.
    pub fn conclude<E>(command: Result<(), E>, saved: Result<(), E>) -> (r: Result<(), E>)
        ensures
            r == if saved.is_err() {
                saved
            } else {
                command
            },
    {
        match saved {
            Err(e) => Err(e),
            Ok(()) => command,
        }
    }

    /// The exit code of the process: 0 for success, 1 for any failure.
    pub fn exit_code<E>(outcome: &Result<(), E>) -> (r: u8)
        ensures
            r == if outcome.is_ok() {
                0u8
            } else {
                1u8
            },
    {
        match outcome {
            Ok(_) => 0,
            Err(_) => 1,
        }
    }
}

/// What a self-install does to the launcher directory, and says.
#[derive(Debug)]
pub struct LinkPlan {
    /// The links to make: the program's own, then one for each tool.
    pub links: Vec<LinkEntry>,
    /// The places, among the old links, of those to remove.
    pub stale: Vec<usize>,
    /// Whether the program's own launcher was there before.
    pub had_prior_install: bool,
    /// Whether any wanted link is new or points elsewhere than before.
    pub was_updated: bool,
    /// The message for the user.
    pub message: &'static str,
}

/// The message for the user after the links were recreated.
pub open spec fn message_for(had_prior_install: bool, was_updated: bool) -> Seq<char> {
    if !had_prior_install {
        "Aftman has been installed successfully!"@
    } else if was_updated {
        "Aftman was re-linked successfully!"@
    } else {
        "Aftman is already up-to-date."@
    }
}

impl SelfInstallSubcommand {
    /// Plans the recreation of all links from the state and from the
    /// links that stand in the launcher directory.
    pub fn run(
        &self,
        home: &Home,
        existing: &Vec<LinkEntry>,
        own_name: &String,
        own_path: &String,
    ) -> (r: LinkPlan)
        ensures
            link_views(r.links@) == links_for(
                home.index(),
                LinkView { name: own_name@, target: own_path@ },
            ),
            lists_stale(r.stale@, link_views(existing@), link_views(r.links@)),
            r.had_prior_install == has_name(link_views(existing@), own_name@),
            r.was_updated == any_changed(link_views(existing@), link_views(r.links@)),
            r.message@ == message_for(r.had_prior_install, r.was_updated),
    {
        let links = wanted_links(home, own_name, own_path);
        let stale = stale_links(existing, &links);
        let (had_prior_install, was_updated) = link_report(existing, &links, own_name);
        let message = self.message(had_prior_install, was_updated);
        LinkPlan { links, stale, had_prior_install, was_updated, message }
    }

    /// The message for the user after the links were recreated.
    pub fn message(&self, had_prior_install: bool, was_updated: bool) -> (r: &'static str)
        ensures
            r@ == message_for(had_prior_install, was_updated),
    {
        if !had_prior_install {
            "Aftman has been installed successfully!"
        } else if was_updated {
            "Aftman was re-linked successfully!"
        } else {
            "Aftman is already up-to-date."
        }
    }
}

} // verus!
