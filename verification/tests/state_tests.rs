use aftman::cli::{
    AddSubcommand, Cli, Followup, InstallSubcommand, ListSubcommand, SelfInstallSubcommand,
    Subcommand, TrustSubcommand,
};
use aftman::error::ToolError;
use aftman::home::{save_result, Home, InstalledTool};
use aftman::links::{
    after_remove, link_report, link_steps, names_link, stale_links, wanted_links, LinkEntry,
    LinkStep, RemoveOutcome,
};
use aftman::resolve::VersionSpec;
use aftman::select::Os;
use aftman::trust::{SourceKind, ToolId, TrustStore};

fn id(scope: &str, name: &str) -> ToolId {
    ToolId { source: SourceKind::GitHub, scope: scope.to_string(), name: name.to_string() }
}

fn tool(scope: &str, name: &str, version: &str) -> InstalledTool {
    InstalledTool {
        id: id(scope, name),
        version: version.to_string(),
        path: format!("/store/{}/{}/{}/{}", scope, name, version, name),
    }
}

fn link(name: &str, target: &str) -> LinkEntry {
    LinkEntry { name: name.to_string(), target: target.to_string() }
}

#[test]
fn trust_is_idempotent() {
    let mut store = TrustStore::new();
    assert!(!store.is_trusted(&id("rojo-rbx", "rojo")));
    assert!(store.trust(id("rojo-rbx", "rojo")));
    assert!(!store.trust(id("rojo-rbx", "rojo")));
    assert_eq!(store.len(), 1);
    assert!(store.is_trusted(&id("rojo-rbx", "rojo")));
    assert_eq!(store.entry(0).name, "rojo");
}

#[test]
fn trust_tells_identifiers_apart() {
    let mut store = TrustStore::new();
    store.trust(id("rojo-rbx", "rojo"));
    assert!(!store.is_trusted(&id("other", "rojo")));
    assert!(!store.is_trusted(&id("rojo-rbx", "rojo2")));
    assert!(store.trust(id("other", "rojo")));
    assert_eq!(store.len(), 2);
    assert_eq!(store.entry(1).scope, "other");
}

#[test]
fn identifiers_compare_by_all_parts() {
    assert!(id("a", "b").same(&id("a", "b")));
    assert!(!id("a", "b").same(&id("a", "c")));
    assert!(!id("a", "b").same(&id("c", "b")));
    let c = id("a", "b").clone();
    assert_eq!(c.scope, "a");
    assert_eq!(c.name, "b");
}

#[test]
fn untrusted_install_is_refused() {
    let home = Home::new();
    assert_eq!(home.authorize(&id("rojo-rbx", "rojo")), Err(ToolError::Untrusted));
    let cmd = AddSubcommand { tool: id("rojo-rbx", "rojo"), version: VersionSpec::Latest };
    assert_eq!(cmd.run(&home), Err(ToolError::Untrusted));
}

#[test]
fn trusted_install_goes_on() {
    let mut home = Home::new();
    home.trust(id("rojo-rbx", "rojo"));
    assert_eq!(home.authorize(&id("rojo-rbx", "rojo")), Ok(()));
    let cmd = Subcommand::Add(AddSubcommand {
        tool: id("rojo-rbx", "rojo"),
        version: VersionSpec::Latest,
    });
    assert_eq!(cmd.run(&mut home), Ok(Followup::FetchAndInstall));
    assert_eq!(home.trusted_len(), 1);
}

#[test]
fn latest_install_wins() {
    let mut home = Home::new();
    home.record(tool("rojo-rbx", "rojo", "v7.0.0"));
    home.record(tool("johnnymorganz", "stylua", "v0.20.0"));
    home.record(tool("rojo-rbx", "rojo", "v7.4.1"));
    assert_eq!(home.tools_len(), 2);
    assert_eq!(home.tool(0).version, "v7.4.1");
    assert_eq!(home.tool(0).id.name, "rojo");
    assert_eq!(home.tool(1).version, "v0.20.0");
    assert_eq!(home.find(&id("johnnymorganz", "stylua")), Some(1));
    assert_eq!(home.find(&id("nobody", "stylua")), None);
}

#[test]
fn trust_command_approves_each_tool_once() {
    let mut home = Home::new();
    let cmd = Subcommand::Trust(TrustSubcommand {
        tools: vec![id("a", "x"), id("b", "y"), id("a", "x")],
    });
    assert_eq!(cmd.run(&mut home), Ok(Followup::Nothing));
    assert_eq!(home.trusted_len(), 2);
    assert_eq!(home.trusted_entry(0).name, "x");
    assert_eq!(home.trusted_entry(1).name, "y");
    assert_eq!(home.tools_len(), 0);
}

#[test]
fn other_commands_leave_the_state() {
    let mut home = Home::new();
    assert_eq!(Subcommand::List(ListSubcommand {}).run(&mut home), Ok(Followup::PrintTools));
    assert_eq!(
        Subcommand::Install(InstallSubcommand { pinned: Vec::new() }).run(&mut home),
        Ok(Followup::InstallPinned)
    );
    assert_eq!(home.trusted_len(), 0);
    assert_eq!(home.tools_len(), 0);
}

#[test]
fn failed_command_keeps_what_it_changed() {
    let mut home = Home::new();
    home.trust(id("rojo-rbx", "rojo"));
    let command: Result<(), ToolError> = Err(ToolError::NetworkError);
    let saved = save_result(true, true);
    assert_eq!(saved, Ok(()));
    assert!(home.is_trusted(&id("rojo-rbx", "rojo")));
    assert_eq!(Cli::conclude(command, saved), Err(ToolError::NetworkError));
}

#[test]
fn failed_save_takes_precedence() {
    assert_eq!(Cli::conclude(Ok(()), Err(ToolError::Io)), Err(ToolError::Io));
    assert_eq!(Cli::conclude(Err(ToolError::Untrusted), Err(ToolError::Io)), Err(ToolError::Io));
    assert_eq!(Cli::conclude::<ToolError>(Ok(()), Ok(())), Ok(()));
}

#[test]
fn exit_codes() {
    assert_eq!(Cli::exit_code::<ToolError>(&Ok(())), 0);
    assert_eq!(Cli::exit_code(&Err(ToolError::Io)), 1);
}

#[test]
fn save_needs_both_files() {
    assert_eq!(save_result(true, false), Err(ToolError::Io));
    assert_eq!(save_result(false, true), Err(ToolError::Io));
    assert_eq!(save_result(false, false), Err(ToolError::Io));
}

#[test]
fn links_mirror_the_index() {
    let mut home = Home::new();
    home.record(tool("rojo-rbx", "rojo", "v7.4.1"));
    home.record(tool("johnnymorganz", "stylua", "v0.20.0"));
    let links = wanted_links(&home, &"aftman".to_string(), &"/store/aftman".to_string());
    assert_eq!(links.len(), 3);
    assert_eq!(links[0].name, "aftman");
    assert_eq!(links[0].target, "/store/aftman");
    assert_eq!(links[1].name, "rojo");
    assert_eq!(links[1].target, "/store/rojo-rbx/rojo/v7.4.1/rojo");
    assert_eq!(links[2].name, "stylua");
    assert!(names_link(&links, &"stylua".to_string()));
    assert!(!names_link(&links, &"selene".to_string()));
}

#[test]
fn link_report_first_install() {
    let wanted = vec![link("aftman", "/store/aftman")];
    assert_eq!(link_report(&Vec::new(), &wanted, &"aftman".to_string()), (false, true));
}

#[test]
fn link_report_unchanged() {
    let existing = vec![link("rojo", "/r"), link("aftman", "/store/aftman")];
    let wanted = vec![link("aftman", "/store/aftman"), link("rojo", "/r")];
    assert_eq!(link_report(&existing, &wanted, &"aftman".to_string()), (true, false));
}

#[test]
fn link_report_changed_target() {
    let existing = vec![link("aftman", "/store/aftman"), link("rojo", "/old")];
    let wanted = vec![link("aftman", "/store/aftman"), link("rojo", "/new")];
    assert_eq!(link_report(&existing, &wanted, &"aftman".to_string()), (true, true));
}

#[test]
fn link_steps_by_system() {
    assert_eq!(link_steps(Os::Linux), Ok(vec![LinkStep::RemoveOld, LinkStep::CreateSymlink]));
    assert_eq!(
        link_steps(Os::MacOs),
        Ok(vec![LinkStep::RemoveOld, LinkStep::CreateSymlink, LinkStep::MarkLinkExecutable])
    );
    assert_eq!(link_steps(Os::Windows), Err(ToolError::PlatformUnsupported));
}

#[test]
fn missing_old_link_is_no_failure() {
    assert_eq!(after_remove(RemoveOutcome::NotFound), Ok(()));
    assert_eq!(after_remove(RemoveOutcome::Removed), Ok(()));
    assert_eq!(after_remove(RemoveOutcome::Failed), Err(ToolError::Io));
}

#[test]
fn self_install_messages() {
    let cmd = SelfInstallSubcommand {};
    assert_eq!(cmd.message(false, false), "Aftman has been installed successfully!");
    assert_eq!(cmd.message(false, true), "Aftman has been installed successfully!");
    assert_eq!(cmd.message(true, true), "Aftman was re-linked successfully!");
    assert_eq!(cmd.message(true, false), "Aftman is already up-to-date.");
}

#[test]
fn stale_links_are_found() {
    let existing = vec![link("old", "/o"), link("rojo", "/r"), link("gone", "/g"), link("aftman", "/a")];
    let wanted = vec![link("aftman", "/store/aftman"), link("rojo", "/r")];
    assert_eq!(stale_links(&existing, &wanted), vec![0, 2]);
    assert_eq!(stale_links(&wanted, &wanted), Vec::<usize>::new());
    assert_eq!(stale_links(&existing, &Vec::new()), vec![0, 1, 2, 3]);
}

#[test]
fn self_install_plan() {
    let mut home = Home::new();
    home.record(tool("rojo-rbx", "rojo", "v7.4.1"));
    let existing = vec![link("selene", "/s"), link("aftman", "/store/aftman")];
    let plan = SelfInstallSubcommand {}.run(
        &home,
        &existing,
        &"aftman".to_string(),
        &"/store/aftman".to_string(),
    );
    assert_eq!(plan.links.len(), 2);
    assert_eq!(plan.links[0].name, "aftman");
    assert_eq!(plan.links[1].name, "rojo");
    assert_eq!(plan.links[1].target, "/store/rojo-rbx/rojo/v7.4.1/rojo");
    assert_eq!(plan.stale, vec![0]);
    assert!(plan.had_prior_install);
    assert!(plan.was_updated);
    assert_eq!(plan.message, "Aftman was re-linked successfully!");
}

#[test]
fn pinned_install_needs_every_tool_trusted() {
    let mut home = Home::new();
    home.trust(id("a", "x"));
    let cmd = InstallSubcommand { pinned: vec![id("a", "x"), id("b", "y")] };
    assert_eq!(cmd.run(&home), Err(ToolError::Untrusted));
    assert_eq!(
        Subcommand::Install(InstallSubcommand { pinned: vec![id("b", "y"), id("a", "x")] })
            .run(&mut home),
        Err(ToolError::Untrusted)
    );
    home.trust(id("b", "y"));
    assert_eq!(cmd.run(&home), Ok(Followup::InstallPinned));
    assert_eq!(home.trusted_len(), 2);
}

#[test]
fn conclude_hands_the_chosen_error_on() {
    let command: Result<(), String> = Err("command".to_string());
    let saved: Result<(), String> = Err("save".to_string());
    assert_eq!(Cli::conclude(command.clone(), saved), Err("save".to_string()));
    assert_eq!(Cli::conclude(command, Ok(())), Err("command".to_string()));
}
