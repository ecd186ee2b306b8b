use std::sync::Arc;

use skim_integration::command_flow::{select_command, select_command_from, CommandStage, CommandStep, CommandTurn};
use skim_integration::context::{
    chosen_context_paths, select_context_paths_with_skim, selected_context_paths, ContextManager,
};
use skim_integration::errors::SelectorError;
use skim_integration::handlers::{key_command, KeyCommand, PromptSelector, SkimCommandSelector};
use skim_integration::options::{accept_built_options, create_skim_options, selector_options, SelectorOptions};
use skim_integration::prompt_flow::{select_prompt_with_skim, PromptStep, PromptTurn};
use skim_integration::prompts::{Prompt, PromptBundle, PromptQuery, PromptQueryResult};
use skim_integration::selector::{
    accepted_items, launch_skim_selector, select_files_with_skim, selected_items, ItemSource, SelectorOutput,
    FIND_FILES_SCRIPT,
};
use tokio::sync::broadcast;

fn context(profile: &str, paths: &[&str]) -> ContextManager {
    ContextManager {
        current_profile: profile.to_string(),
        paths: strings(paths),
    }
}

fn strings(items: &[&str]) -> Vec<String> {
    items.iter().map(|i| i.to_string()).collect()
}

fn options(prompt: &str, multi: bool) -> SelectorOptions {
    SelectorOptions {
        height: "100%".to_string(),
        prompt: prompt.to_string(),
        reverse: true,
        multi,
        header: None,
    }
}

/// Runs a whole command selection, with the given answers of the selector.
fn run(context: &ContextManager, tools: &[String], answers: Vec<Result<Option<Vec<String>>, SelectorError>>) -> (Result<Option<String>, SelectorError>, usize) {
    let mut answers = answers.into_iter();
    let mut runs = 0;
    let mut turn = CommandTurn::Start;
    loop {
        match select_command(context, tools, turn) {
            CommandStep::Select(_, stage) => {
                runs += 1;
                turn = CommandTurn::Selected(stage, answers.next().unwrap());
            },
            CommandStep::Done(outcome) => return (outcome, runs),
        }
    }
}

fn pick(items: &[&str]) -> Result<Option<Vec<String>>, SelectorError> {
    Ok(Some(strings(items)))
}

fn text(t: &str) -> Result<Option<String>, SelectorError> {
    Ok(Some(t.to_string()))
}

#[test]
fn test_prompt_selector_new() {
    let (sender, _) = broadcast::channel::<PromptQuery>(5);
    let (_, receiver) = broadcast::channel::<PromptQueryResult>(5);

    let _selector = PromptSelector::new(sender, receiver);

    assert!(true);
}

#[test]
fn command_selector_keeps_what_it_is_given() {
    let manager = Arc::new(context("default", &["a.md"]));
    let selector = SkimCommandSelector::new("linux", manager.clone(), strings(&["fs_read"]));
    assert_eq!(selector.os, "linux");
    assert_eq!(selector.context_manager, manager);
    assert_eq!(selector.tool_names, strings(&["fs_read"]));
    match selector.step(CommandTurn::Selected(CommandStage::Command, pick(&["/tools trust"]))) {
        CommandStep::Select(request, stage) => {
            assert_eq!(request.source, ItemSource::Memory("fs_read".to_string()));
            assert_eq!(stage, CommandStage::Tool("/tools trust".to_string()));
        },
        CommandStep::Done(_) => panic!("a tool command takes a second run"),
    }
}

#[test]
fn the_first_run_offers_the_commands() {
    match select_command(&context("p", &[]), &[], CommandTurn::Start) {
        CommandStep::Select(request, stage) => {
            assert_eq!(stage, CommandStage::Command);
            assert_eq!(request.options, options("Select command: ", false));
            assert_eq!(
                request.source,
                ItemSource::TempFile(
                    "/context add\n/context rm\n/tools trust\n/tools untrust\n/agent set\n/agent delete\n/agent rename\n/agent create"
                        .to_string()
                )
            );
        },
        CommandStep::Done(_) => panic!("the selection starts with a run"),
    }
}

#[test]
fn no_command_no_outcome() {
    let manager = context("p", &["x"]);
    assert_eq!(run(&manager, &[], vec![Ok(None)]), (Ok(None), 1));
    assert_eq!(run(&manager, &[], vec![pick(&[])]), (Ok(None), 1));
}

#[test]
fn plain_commands_take_one_run() {
    let manager = context("p", &["x"]);
    for command in ["/agent set", "/agent delete", "/agent rename", "/agent create", "/quit"] {
        assert_eq!(run(&manager, &[], vec![pick(&[command])]), (text(command), 1));
    }
}

#[test]
fn chosen_files_are_added_to_the_command() {
    let manager = context("p", &[]);
    assert_eq!(
        run(&manager, &[], vec![pick(&["/context add"]), pick(&["a.rs", "src/b.rs"])]),
        (text("/context add a.rs src/b.rs"), 2)
    );
    match select_command(&manager, &[], CommandTurn::Selected(CommandStage::Command, pick(&["/context add"]))) {
        CommandStep::Select(request, stage) => {
            assert_eq!(request, select_files_with_skim());
            assert_eq!(stage, CommandStage::Files("/context add".to_string()));
        },
        CommandStep::Done(_) => panic!("a context command takes a second run"),
    }
}

#[test]
fn chosen_context_paths_are_removed() {
    let manager = context("dev", &["README.md", "docs/*.md"]);
    assert_eq!(
        run(
            &manager,
            &[],
            vec![pick(&["/context rm"]), pick(&["(agent: dev) docs/*.md", "(agent: dev) README.md"])]
        ),
        (text("/context rm docs/*.md README.md"), 2)
    );
    assert_eq!(
        run(&manager, &[], vec![pick(&["/context rm"]), pick(&["(global) x", "(agent: dev) y", "bare"])]),
        (text("/context rm --global x y bare"), 2)
    );
}

#[test]
fn without_context_paths_nothing_is_offered_for_removal() {
    assert_eq!(
        run(&context("p", &[]), &[], vec![pick(&["/context rm"])]),
        (text("/context rm"), 1)
    );
    assert_eq!(select_context_paths_with_skim(&context("p", &[])), None);
}

#[test]
fn a_tool_is_added_to_the_command() {
    let tools = strings(&["fs_read", "fs_write"]);
    let manager = context("p", &[]);
    assert_eq!(
        run(&manager, &tools, vec![pick(&["/tools untrust"]), pick(&["fs_write", "fs_read"])]),
        (text("/tools untrust fs_write"), 2)
    );
    match select_command(&manager, &tools, CommandTurn::Selected(CommandStage::Command, pick(&["/tools trust"]))) {
        CommandStep::Select(request, _) => {
            assert_eq!(request.options, options("Select tool: ", false));
            assert_eq!(request.source, ItemSource::Memory("fs_read\nfs_write".to_string()));
        },
        CommandStep::Done(_) => panic!("a tool command takes a second run"),
    }
}

#[test]
fn a_cancelled_second_run_keeps_the_command() {
    let manager = context("p", &["x"]);
    for command in ["/context add", "/context rm", "/tools trust", "/tools untrust"] {
        assert_eq!(run(&manager, &[], vec![pick(&[command]), Ok(None)]), (text(command), 2));
        assert_eq!(run(&manager, &[], vec![pick(&[command]), pick(&[])]), (text(command), 2));
    }
}

#[test]
fn failures_come_out() {
    let manager = context("p", &["x"]);
    let error = || SelectorError::EnterScreen("no tty".to_string());
    assert_eq!(run(&manager, &[], vec![Err(error())]), (Err(error()), 1));
    assert_eq!(run(&manager, &[], vec![pick(&["/context rm"]), Err(error())]), (Err(error()), 2));
}

#[test]
fn context_paths_are_offered_under_their_profile() {
    let request = select_context_paths_with_skim(&context("dev", &["a", "b c"])).unwrap();
    assert_eq!(request.options, options("Select paths to remove: ", true));
    assert_eq!(request.source, ItemSource::Memory("(agent: dev) a\n(agent: dev) b c".to_string()));
}

#[test]
fn paths_come_back_out_of_offered_items() {
    assert_eq!(
        chosen_context_paths(&strings(&["(agent: dev) a) b", "(agent: x)) y", "plain", "(agent: q)"])),
        (strings(&["a) b", "y", "plain", "(agent: q)"]), false)
    );
    assert_eq!(
        chosen_context_paths(&strings(&["(agent: d) a", "(global) b"])),
        (strings(&["a", "b"]), true)
    );
    assert_eq!(chosen_context_paths(&vec![]), (vec![], false));
    // A profile whose name holds the separator hides where the path begins.
    assert_eq!(
        chosen_context_paths(&strings(&["(agent: a) b) path"])),
        (strings(&["b) path"]), false)
    );
}

#[test]
fn selector_requests_join_their_items() {
    let request = launch_skim_selector(&strings(&["one", "two words", ""]), "Pick: ", true);
    assert_eq!(request.options, options("Pick: ", true));
    assert_eq!(request.source, ItemSource::TempFile("one\ntwo words\n".to_string()));
    assert_eq!(launch_skim_selector(&[], "", false).source, ItemSource::TempFile(String::new()));
}

#[test]
fn files_are_listed_by_a_script() {
    let request = select_files_with_skim();
    assert_eq!(request.options, options("Select files: ", true));
    assert_eq!(request.source, ItemSource::Shell(FIND_FILES_SCRIPT.to_string()));
    assert!(FIND_FILES_SCRIPT.contains("{ git ls-files; git ls-files --others --exclude-standard; } | sort | uniq"));
    assert!(FIND_FILES_SCRIPT.contains("find . -type f -not -path '*/\\.*'"));
}

#[test]
fn the_file_script_redirects_as_any_shell_understands() {
    assert!(!FIND_FILES_SCRIPT.contains("&>"));
    assert!(FIND_FILES_SCRIPT.contains(
        "if command -v git >/dev/null 2>&1 && git rev-parse --is-inside-work-tree >/dev/null 2>&1; then"
    ));
}

#[test]
fn aborted_and_empty_runs_select_nothing() {
    let output = |is_abort: bool, items: &[&str]| SelectorOutput {
        is_abort,
        selected_items: strings(items),
    };
    assert_eq!(accepted_items(None), None);
    assert_eq!(accepted_items(Some(output(true, &["a"]))), None);
    assert_eq!(accepted_items(Some(output(false, &["a", "b"]))), Some(strings(&["a", "b"])));
    assert_eq!(accepted_items(Some(output(false, &[]))), Some(vec![]));
    assert_eq!(selected_items(Some(vec![])), None);
    assert_eq!(selected_items(None), None);
    assert_eq!(selected_items(Some(strings(&["a"]))), Some(strings(&["a"])));
}

#[test]
fn options_reach_the_selector() {
    let mut wanted = selector_options("Select prompt: ", false);
    wanted.header = Some("Header line".to_string());
    let built = create_skim_options(&wanted).ok().unwrap();
    assert_eq!(built.height, "100%");
    assert_eq!(built.prompt, "Select prompt: ");
    assert!(built.reverse);
    assert_eq!(built.layout, "reverse");
    assert!(!built.multi);
    assert_eq!(built.header, Some("Header line".to_string()));

    let built = create_skim_options(&selector_options("Select files: ", true)).ok().unwrap();
    assert_eq!(built.prompt, "Select files: ");
    assert!(built.multi);
    assert_eq!(built.header, None);

    let mut wanted = selector_options("", false);
    wanted.reverse = false;
    wanted.height = "40%".to_string();
    let built = create_skim_options(&wanted).ok().unwrap();
    assert_eq!(built.height, "40%");
    assert_eq!(built.prompt, "");
    assert!(!built.reverse);
    assert_eq!(built.layout, "default");
}

#[test]
fn other_commands_can_be_offered() {
    let commands = strings(&["/help", "/context add"]);
    let manager = context("p", &[]);
    match select_command_from(&commands, &manager, &[], CommandTurn::Start) {
        CommandStep::Select(request, stage) => {
            assert_eq!(stage, CommandStage::Command);
            assert_eq!(request, launch_skim_selector(&commands, "Select command: ", false));
        },
        CommandStep::Done(_) => panic!("the selection starts with a run"),
    }
    let chosen = CommandTurn::Selected(CommandStage::Command, pick(&["/help"]));
    assert_eq!(select_command_from(&commands, &manager, &[], chosen), CommandStep::Done(text("/help")));
}

#[test]
fn cancelled_and_empty_runs_select_no_context_paths() {
    assert_eq!(selected_context_paths(None), None);
    assert_eq!(selected_context_paths(Some(vec![])), None);
    assert_eq!(
        selected_context_paths(Some(strings(&["(agent: d) a", "(global) b"]))),
        Some((strings(&["a", "b"]), true))
    );
    assert_eq!(
        selected_context_paths(Some(strings(&["(agent: d) a"]))),
        Some((strings(&["a"]), false))
    );
}

#[test]
fn refused_options_are_an_error() {
    let refused = accept_built_options(Err("`prompt` must be initialized".to_string()));
    assert_eq!(
        refused.err(),
        Some(SelectorError::Options("`prompt` must be initialized".to_string()))
    );
}

#[test]
fn a_key_press_inserts_the_outcome_once() {
    assert_eq!(key_command(text("/quit")), KeyCommand::Insert(1, "/quit".to_string()));
    assert_eq!(key_command(Ok(None)), KeyCommand::Noop);
    assert_eq!(key_command(Err(SelectorError::WrongResponse)), KeyCommand::Noop);
}

#[test]
fn errors_have_messages() {
    let cause = || "cause".to_string();
    let cases = vec![
        (SelectorError::EnterScreen(cause()), "Failed to enter alternate screen: cause"),
        (SelectorError::LeaveScreen(cause()), "Failed to leave alternate screen: cause"),
        (SelectorError::Options(cause()), "Failed to build skim options: cause"),
        (SelectorError::SendQuery(cause()), "Failed to send query: cause"),
        (SelectorError::LockReceiver(cause()), "Failed to lock receiver: cause"),
        (SelectorError::Polling(cause()), "Polling failed: cause"),
        (SelectorError::WrongResponse, "Wrong query response type received"),
        (SelectorError::NoStdout, "Failed to get stdout from command"),
        (SelectorError::Io(cause()), "cause"),
    ];
    for (error, message) in cases {
        assert_eq!(error.message(), message);
    }
}

fn listed(prompts: &[(&str, &str, &str)]) -> PromptTurn {
    let list = prompts
        .iter()
        .map(|(name, server, description)| {
            (
                name.to_string(),
                vec![PromptBundle {
                    server_name: server.to_string(),
                    prompt_get: Prompt {
                        name: name.to_string(),
                        description: Some(description.to_string()),
                        arguments: None,
                    },
                }],
            )
        })
        .collect();
    PromptTurn::Queried(Ok(PromptQueryResult::List(list)))
}

#[test]
fn a_prompt_selection_starts_with_a_query() {
    assert_eq!(select_prompt_with_skim(PromptTurn::Start), PromptStep::Query(PromptQuery::List));
}

#[test]
fn a_chosen_line_gives_its_prompt() {
    let prompts = [("beta", "srv", "B"), ("alpha", "srv", "A")];
    let lines = [
        "@alpha             srv      A                         ",
        "@beta              srv      B                         ",
    ];
    match select_prompt_with_skim(listed(&prompts)) {
        PromptStep::Select(request, menu) => {
            assert_eq!(request.source, ItemSource::Memory(lines.join("\n")));
            assert_eq!(request.options.prompt, "Select prompt: ");
            assert!(!request.options.multi);
            assert_eq!(
                request.options.header,
                Some("Prompt             Server   Description               Arguments (* = required)".to_string())
            );
            assert_eq!(
                select_prompt_with_skim(PromptTurn::Selected(menu, pick(&[lines[1]]))),
                PromptStep::Done(text("@beta"))
            );
        },
        _ => panic!("listed prompts are offered"),
    }
}

#[test]
fn the_last_of_equal_lines_counts() {
    // A trailing space does not show in a padded column.
    match select_prompt_with_skim(listed(&[("a", "s", "d"), ("a ", "s", "d")])) {
        PromptStep::Select(_, menu) => {
            let line = "@a                 s        d                         ";
            assert_eq!(
                select_prompt_with_skim(PromptTurn::Selected(menu, pick(&[line]))),
                PromptStep::Done(text("@a "))
            );
        },
        _ => panic!("listed prompts are offered"),
    }
}

#[test]
fn unknown_lines_and_cancelled_runs_give_no_prompt() {
    for selection in [pick(&["something else"]), pick(&[]), Ok(None)] {
        match select_prompt_with_skim(listed(&[("a", "s", "d")])) {
            PromptStep::Select(_, menu) => assert_eq!(
                select_prompt_with_skim(PromptTurn::Selected(menu, selection)),
                PromptStep::Done(Ok(None))
            ),
            _ => panic!("listed prompts are offered"),
        }
    }
    assert_eq!(select_prompt_with_skim(listed(&[])), PromptStep::Done(Ok(None)));
}

#[test]
fn prompt_failures_come_out() {
    let error = || SelectorError::SendQuery("closed".to_string());
    assert_eq!(
        select_prompt_with_skim(PromptTurn::Queried(Err(error()))),
        PromptStep::Done(Err(error()))
    );
    assert_eq!(
        select_prompt_with_skim(PromptTurn::Queried(Ok(PromptQueryResult::Search(vec![])))),
        PromptStep::Done(Err(SelectorError::WrongResponse))
    );
    match select_prompt_with_skim(listed(&[("a", "s", "d")])) {
        PromptStep::Select(_, menu) => assert_eq!(
            select_prompt_with_skim(PromptTurn::Selected(menu, Err(SelectorError::LeaveScreen("x".to_string())))),
            PromptStep::Done(Err(SelectorError::LeaveScreen("x".to_string())))
        ),
        _ => panic!("listed prompts are offered"),
    }
}

#[test]
fn joined_items_are_the_lines_of_the_text() {
    let items = strings(&["first", "", "third item"]);
    match launch_skim_selector(&items, "Pick: ", false).source {
        ItemSource::TempFile(text) => assert_eq!(strings(&text.split('\n').collect::<Vec<_>>()), items),
        _ => panic!("the items are handed over in a file"),
    }
}

#[test]
fn every_listed_prompt_can_be_chosen() {
    let prompts = [("gamma", "two", "C"), ("alpha", "one", "A"), ("beta", "two", "A")];
    for (name, server, description) in prompts {
        match select_prompt_with_skim(listed(&prompts)) {
            PromptStep::Select(request, menu) => {
                let line = format!("@{:<17} {:<8} {:<25} ", name, server, description);
                match request.source {
                    ItemSource::Memory(text) => assert_eq!(text.split('\n').filter(|l| **l == line).count(), 1),
                    _ => panic!("the lines are handed over in memory"),
                }
                assert_eq!(
                    select_prompt_with_skim(PromptTurn::Selected(menu, pick(&[line.as_str()]))),
                    PromptStep::Done(text(&format!("@{}", name)))
                );
            },
            _ => panic!("listed prompts are offered"),
        }
    }
}
