use wtf_cli::commands::board::{BoardCommand, BoardListCommand, BoardSubcommand};
use wtf_cli::commands::config::{ConfigCommand, ConfigSubcommand};
use wtf_cli::commands::fetch::{FetchCommand, FetchType};
use wtf_cli::commands::github::{GitHubCommand, GitHubSubcommand};
use wtf_cli::commands::google::{GoogleCommand, GoogleSubcommand};
use wtf_cli::commands::init::{escape_step, offered_sprints, pick_step, InitCommand, PickStep};
use wtf_cli::tasks::SprintState;
use wtf_cli::commands::issue::{IssueCommand, IssueSubcommand};
use wtf_cli::commands::meeting::{MeetingCommand, MeetingSubcommand};
use wtf_cli::commands::sprint::{SprintCommand, SprintSubcommand};
use wtf_cli::commands::tui::TuiCommand;
use wtf_cli::commands::update::{UpdateCommand, UpdateTarget};
use wtf_cli::commands::worklog::{LogCommand, WorklogSubcommand};

#[test]
fn command_names() {
    assert_eq!(BoardCommand.name(), "board");
    assert_eq!(BoardListCommand.name(), "list");
    assert_eq!(ConfigCommand.name(), "config");
    assert_eq!(FetchCommand.name(), "fetch");
    assert_eq!(GitHubCommand.name(), "github");
    assert_eq!(GoogleCommand.name(), "google");
    assert_eq!(InitCommand.name(), "init");
    assert_eq!(IssueCommand.name(), "issue");
    assert_eq!(MeetingCommand.name(), "meeting");
    assert_eq!(SprintCommand.name(), "sprint");
    assert_eq!(TuiCommand.name(), "tui");
    assert_eq!(UpdateCommand.name(), "update");
    assert_eq!(LogCommand.name(), "worklog");
}

#[test]
fn subcommands_are_routed_by_name() {
    assert_eq!(BoardCommand::subcommand("rm"), Some(BoardSubcommand::Remove));
    assert_eq!(BoardCommand::subcommand("delete"), None);
    assert_eq!(ConfigCommand::subcommand("list"), Some(ConfigSubcommand::List));
    assert_eq!(GitHubCommand::subcommand("sessions"), Some(GitHubSubcommand::Sessions));
    assert_eq!(GoogleCommand::subcommand("fetch"), Some(GoogleSubcommand::Fetch));
    assert_eq!(IssueCommand::subcommand("log-time"), Some(IssueSubcommand::LogTime));
    assert_eq!(MeetingCommand::subcommand("clear"), Some(MeetingSubcommand::Clear));
    assert_eq!(SprintCommand::subcommand("clear-worklogs"), Some(SprintSubcommand::ClearWorklogs));
    assert_eq!(LogCommand::subcommand("history"), WorklogSubcommand::History);
    assert_eq!(LogCommand::subcommand("unknown"), WorklogSubcommand::List);
}

#[test]
fn fetch_types_ignore_case() {
    assert_eq!(FetchType::from_str("Board"), Ok(FetchType::Board));
    assert_eq!(FetchType::from_str("GOOGLE"), Ok(FetchType::GoogleMeetings));
    assert_eq!(FetchType::from_str("meetings"), Err("Unknown fetch type: meetings".to_string()));
}

#[test]
fn update_targets_and_tags() {
    assert_eq!(UpdateCommand::version_tag("1.2.3"), "v1.2.3");
    assert_eq!(UpdateCommand::version_tag("v1.2.3"), "v1.2.3");
    assert_eq!(UpdateCommand::target(None), UpdateTarget::Latest);
    assert_eq!(UpdateCommand::target(Some("")), UpdateTarget::Pick);
    assert_eq!(UpdateCommand::target(Some("0.9")), UpdateTarget::Version("v0.9".to_string()));
    assert!(UpdateCommand::is_current("v1.0.0", "1.0.0"));
    assert!(UpdateCommand::is_current("vv1.0.0", "1.0.0"));
    assert!(!UpdateCommand::is_current("v1.0.1", "1.0.0"));
}

#[test]
fn the_setup_wizard_reads_picked_suggestions() {
    let mut chosen: Vec<String> = Vec::new();
    assert_eq!(pick_step(&mut chosen, "   ", 3, true), PickStep::NeedOne);
    assert_eq!(pick_step(&mut chosen, "Team board", 3, true), PickStep::Invalid);
    assert_eq!(pick_step(&mut chosen, "[12] Team board", 3, true), PickStep::Chosen { added: true, all_chosen: false });
    assert_eq!(pick_step(&mut chosen, "[12] Team board", 3, true), PickStep::Chosen { added: false, all_chosen: false });
    assert_eq!(pick_step(&mut chosen, "[7", 2, true), PickStep::Chosen { added: true, all_chosen: true });
    assert_eq!(chosen, vec!["12".to_string(), "7".to_string()]);
    assert_eq!(pick_step(&mut chosen, "", 3, true), PickStep::Finish);
    let mut none: Vec<String> = Vec::new();
    assert_eq!(pick_step(&mut none, "", 3, false), PickStep::Finish);
    assert_eq!(escape_step(0, true), PickStep::Abort);
    assert_eq!(escape_step(0, false), PickStep::Finish);
    assert_eq!(escape_step(2, true), PickStep::Finish);
}

#[test]
fn the_setup_wizard_offers_unfollowed_open_sprints() {
    let sprints = vec![
        (false, SprintState::Active),
        (true, SprintState::Active),
        (false, SprintState::Closed),
        (false, SprintState::Future),
    ];
    assert_eq!(offered_sprints(&sprints), vec![0, 3]);
}
