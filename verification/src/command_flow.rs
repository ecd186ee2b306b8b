//! From a key press to a full command: which selector runs it takes, and what comes of them.
use vstd::prelude::*;
use vstd::string::*;
use crate::commands::available_commands;
use crate::commands::get_available_commands;
use crate::commands::law_command_kinds;
use crate::commands::CommandType;
use crate::commands::CommandTypeView;
use crate::context::context_path;
use crate::context::is_global;
use crate::context::law_chosen_paths_are_offered_paths;
use crate::context::law_offered_items;
use crate::context::law_offered_path_comes_back;
use crate::context::law_offered_path_is_not_global;
use crate::context::select_context_paths_with_skim;
use crate::context::selected_context_paths;
use crate::context::ContextManager;
use crate::context::ContextManagerView;
use crate::errors::SelectorErrorView;
use crate::options::selector_options;
use crate::options::standard_options;
use crate::options::SelectorOptionsView;
use crate::selector::item_lines;
use crate::selector::launch_skim_selector;
use crate::selector::outcome_view;
use crate::selector::select_files_with_skim;
use crate::selector::selected_items;
use crate::selector::selection_view;
use crate::selector::some_items;
use crate::selector::FIND_FILES_SCRIPT;
use crate::selector::ItemSource;
use crate::selector::ItemSourceView;
use crate::selector::Outcome;
use crate::selector::OutcomeView;
use crate::selector::Selection;
use crate::selector::SelectionView;
use crate::selector::SelectorRequest;
use crate::selector::SelectorRequestView;
use crate::text::has_pair;
use crate::text::join;
use crate::text::joined;
use crate::text::law_joined;
use crate::text::pair_at;
use crate::text::Text;

verus! {

/// What the selector run that is under way chooses. From the second run on, the command that
/// was chosen first comes along.
#[derive(Debug, PartialEq, Eq)]
pub enum CommandStage {
    Command,
    Files(String),
    ContextPaths(String),
    Tool(String),
}

/// Where the selection of a command stands: at its start, or at the end of a selector run.
#[derive(Debug, PartialEq, Eq)]
pub enum CommandTurn {
    Start,
    Selected(CommandStage, Selection),
}

/// What the selection of a command takes next: a selector run, or nothing more.
#[derive(Debug, PartialEq, Eq)]
pub enum CommandStep {
    Select(SelectorRequest, CommandStage),
    Done(Outcome),
}

/// The model of a [`CommandStage`].
pub enum CommandStageView {
    Command,
    Files(Text),
    ContextPaths(Text),
    Tool(Text),
}

/// The model of a [`CommandTurn`].
pub enum CommandTurnView {
    Start,
    Selected(CommandStageView, SelectionView),
}

/// The model of a [`CommandStep`].
pub enum CommandStepView {
    Select(SelectorRequestView, CommandStageView),
    Done(OutcomeView),
}

impl View for CommandStage {
    type V = CommandStageView;

    open spec fn view(&self) -> CommandStageView {
        match self {
            CommandStage::Command => CommandStageView::Command,
            CommandStage::Files(command) => CommandStageView::Files(command@),
            CommandStage::ContextPaths(command) => CommandStageView::ContextPaths(command@),
            CommandStage::Tool(command) => CommandStageView::Tool(command@),
        }
    }
}

impl View for CommandTurn {
    type V = CommandTurnView;

    open spec fn view(&self) -> CommandTurnView {
        match self {
            CommandTurn::Start => CommandTurnView::Start,
            CommandTurn::Selected(stage, selection) => CommandTurnView::Selected(
                stage@,
                selection_view(*selection),
            ),
        }
    }
}

impl View for CommandStep {
    type V = CommandStepView;

    open spec fn view(&self) -> CommandStepView {
        match self {
            CommandStep::Select(request, stage) => CommandStepView::Select(request@, stage@),
            CommandStep::Done(outcome) => CommandStepView::Done(outcome_view(*outcome)),
        }
    }
}

/// `command`, then each argument behind a space.
pub open spec fn with_arguments(command: Text, arguments: Seq<Text>) -> Text
    decreases arguments.len(),
{
    if arguments.len() == 0 {
        command
    } else {
        with_arguments(command, arguments.drop_last()) + " "@ + arguments.last()
    }
}

/// The removal command `command` for the chosen items: with the global flag where one of them is
/// marked as global, then the path in each of them.
pub open spec fn removal_command(command: Text, items: Seq<Text>) -> Text {
    with_arguments(
        if exists|k: int| 0 <= k < items.len() && is_global(#[trigger] items[k]) {
            command + " --global"@
        } else {
            command
        },
        items.map_values(|item: Text| context_path(item)),
    )
}

/// What `command` takes next, once it has been chosen.
pub open spec fn step_after_command(
    context_manager: ContextManagerView,
    tools: Seq<Text>,
    command: Text,
) -> CommandStepView {
    match CommandTypeView::of(command) {
        Some(CommandTypeView::ContextAdd(_)) => CommandStepView::Select(
            SelectorRequestView {
                options: standard_options("Select files: "@, true, None),
                source: ItemSourceView::Shell(FIND_FILES_SCRIPT@),
            },
            CommandStageView::Files(command),
        ),
        Some(CommandTypeView::ContextRemove(_)) => match context_manager.request() {
            Some(request) => CommandStepView::Select(
                request,
                CommandStageView::ContextPaths(command),
            ),
            None => CommandStepView::Done(Ok(Some(command))),
        },
        Some(CommandTypeView::Tools(_)) => CommandStepView::Select(
            SelectorRequestView {
                options: standard_options("Select tool: "@, false, None),
                source: ItemSourceView::Memory(item_lines(tools)),
            },
            CommandStageView::Tool(command),
        ),
        _ => CommandStepView::Done(Ok(Some(command))),
    }
}

/// What becomes of the command, once the run at `stage` has ended with `items`.
pub open spec fn step_after_items(
    context_manager: ContextManagerView,
    tools: Seq<Text>,
    stage: CommandStageView,
    items: Option<Seq<Text>>,
) -> CommandStepView {
    match (stage, some_items(items)) {
        (CommandStageView::Command, Some(items)) => step_after_command(
            context_manager,
            tools,
            items[0],
        ),
        (CommandStageView::Command, None) => CommandStepView::Done(Ok(None)),
        (CommandStageView::Files(command), Some(items)) => CommandStepView::Done(
            Ok(Some(with_arguments(command, items))),
        ),
        (CommandStageView::ContextPaths(command), Some(items)) => CommandStepView::Done(
            Ok(Some(removal_command(command, items))),
        ),
        (CommandStageView::Tool(command), Some(items)) => CommandStepView::Done(
            Ok(Some(with_arguments(command, seq![items[0]]))),
        ),
        (CommandStageView::Files(command), None) => CommandStepView::Done(Ok(Some(command))),
        (CommandStageView::ContextPaths(command), None) => CommandStepView::Done(
            Ok(Some(command)),
        ),
        (CommandStageView::Tool(command), None) => CommandStepView::Done(Ok(Some(command))),
    }
}

/// What the selection of a command takes at `turn`, where `commands` are on offer.
pub open spec fn command_step(
    commands: Seq<Text>,
    context_manager: ContextManagerView,
    tools: Seq<Text>,
    turn: CommandTurnView,
) -> CommandStepView {
    match turn {
        CommandTurnView::Start => CommandStepView::Select(
            SelectorRequestView {
                options: standard_options("Select command: "@, false, None),
                source: ItemSourceView::TempFile(item_lines(commands)),
            },
            CommandStageView::Command,
        ),
        CommandTurnView::Selected(_, Err(error)) => CommandStepView::Done(Err(error)),
        CommandTurnView::Selected(stage, Ok(items)) => step_after_items(
            context_manager,
            tools,
            stage,
            items,
        ),
    }
}

/// Appends each argument to the command, behind a space.
fn append_arguments(command: &mut String, arguments: &Vec<String>)
    ensures
        final(command)@ == with_arguments(old(command)@, arguments.deep_view()),
{
    let ghost start = command@;
    let ghost views = arguments.deep_view();
    let mut i: usize = 0;
    while i < arguments.len()
        invariant
            views == arguments.deep_view(),
            i <= arguments.len(),
            command@ == with_arguments(start, views.take(i as int)),
        decreases arguments.len() - i,
    {
        command.append(" ");
        command.append(arguments[i].as_str());
        proof {
            assert(views.take(i + 1).drop_last() =~= views.take(i as int));
            assert(views.take(i + 1).last() == arguments@[i as int]@);
        }
        i = i + 1;
    }
    assert(views.take(views.len() as int) =~= views);
}

/// What `command` takes next, once it has been chosen.
fn after_command(context_manager: &ContextManager, tools: &[String], command: String) -> (step:
    CommandStep)
    ensures
        step@ == step_after_command(context_manager@, tools.deep_view(), command@),
{
    match CommandType::from_str(command.as_str()) {
        Some(CommandType::ContextAdd(_)) => CommandStep::Select(
            select_files_with_skim(),
            CommandStage::Files(command),
        ),
        Some(CommandType::ContextRemove(_)) => {
            match select_context_paths_with_skim(context_manager) {
                Some(request) => CommandStep::Select(request, CommandStage::ContextPaths(command)),
                None => CommandStep::Done(Ok(Some(command))),
            }
        },
        Some(CommandType::Tools(_)) => CommandStep::Select(
            SelectorRequest {
                options: selector_options("Select tool: ", false),
                source: ItemSource::Memory(join(tools, "\n")),
            },
            CommandStage::Tool(command),
        ),
        Some(CommandType::Agent(_)) | None => CommandStep::Done(Ok(Some(command))),
    }
}

/// What becomes of the command, once the run at `stage` has ended with `items`.
fn after_items(
    context_manager: &ContextManager,
    tools: &[String],
    stage: CommandStage,
    items: Option<Vec<String>>,
) -> (step: CommandStep)
    ensures
        step@ == step_after_items(context_manager@, tools.deep_view(), stage@, items.deep_view()),
{
    match stage {
        CommandStage::Command => match selected_items(items) {
            Some(selections) => after_command(context_manager, tools, selections[0].clone()),
            None => CommandStep::Done(Ok(None)),
        },
        CommandStage::Files(command) => {
            let mut command: String = command;
            if let Some(files) = selected_items(items) {
                append_arguments(&mut command, &files);
            }
            CommandStep::Done(Ok(Some(command)))
        },
        CommandStage::ContextPaths(command) => {
            let mut command: String = command;
            if let Some((paths, has_global)) = selected_context_paths(items) {
                if has_global {
                    command.append(" --global");
                }
                append_arguments(&mut command, &paths);
            }
            CommandStep::Done(Ok(Some(command)))
        },
        CommandStage::Tool(command) => {
            let mut command: String = command;
            if let Some(chosen) = selected_items(items) {
                proof {
                    reveal_with_fuel(with_arguments, 2);
                    assert(seq![chosen@[0]@].drop_last() =~= Seq::<Text>::empty());
                }
                command.append(" ");
                command.append(chosen[0].as_str());
            }
            CommandStep::Done(Ok(Some(command)))
        },
    }
}

/// What the selection of a command takes at `turn`, where `commands` are on offer: the next
/// selector run, or what the whole selection comes to. The command is chosen first; a context
/// command or a tool command takes one run more, and stands alone where that run is cancelled.
pub fn select_command_from(
    commands: &[String],
    context_manager: &ContextManager,
    tools: &[String],
    turn: CommandTurn,
) -> (step: CommandStep)
    ensures
        step@ == command_step(commands.deep_view(), context_manager@, tools.deep_view(), turn@),
{
    match turn {
        CommandTurn::Start => CommandStep::Select(
            launch_skim_selector(commands, "Select command: ", false),
            CommandStage::Command,
        ),
        CommandTurn::Selected(stage, selection) => match selection {
            Ok(items) => after_items(context_manager, tools, stage, items),
            Err(error) => CommandStep::Done(Err(error)),
        },
    }
}

/// What the selection of one of the available commands takes at `turn`.
pub fn select_command(context_manager: &ContextManager, tools: &[String], turn: CommandTurn) -> (step:
    CommandStep)
    ensures
        step@ == command_step(available_commands(), context_manager@, tools.deep_view(), turn@),
{
    let commands: Vec<String> = get_available_commands();
    select_command_from(commands.as_slice(), context_manager, tools, turn)
}

/// What the whole selection comes to, where the first selector run ends in `first` and the
/// second, if there is one, in `second`. `commands` are on offer.
pub open spec fn command_outcome(
    commands: Seq<Text>,
    context_manager: ContextManagerView,
    tools: Seq<Text>,
    first: SelectionView,
    second: SelectionView,
) -> OutcomeView {
    match command_step(
        commands,
        context_manager,
        tools,
        CommandTurnView::Selected(CommandStageView::Command, first),
    ) {
        CommandStepView::Done(outcome) => outcome,
        CommandStepView::Select(_, stage) => command_step(
            commands,
            context_manager,
            tools,
            CommandTurnView::Selected(stage, second),
        )->Done_0,
    }
}

/// The selection starts with the choice of a command and is over after two selector runs at most.
pub proof fn law_two_runs_at_most(
    commands: Seq<Text>,
    context_manager: ContextManagerView,
    tools: Seq<Text>,
    first: SelectionView,
    second: SelectionView,
)
    ensures
        command_step(commands, context_manager, tools, CommandTurnView::Start) matches CommandStepView::Select(
            _,
            CommandStageView::Command,
        ),
        command_step(
            commands,
            context_manager,
            tools,
            CommandTurnView::Selected(CommandStageView::Command, first),
        ) matches CommandStepView::Select(_, stage) ==> command_step(
            commands,
            context_manager,
            tools,
            CommandTurnView::Selected(stage, second),
        ) is Done,
{
}

proof fn lemma_with_arguments_extends(command: Text, arguments: Seq<Text>)
    ensures
        command.is_prefix_of(with_arguments(command, arguments)),
    decreases arguments.len(),
{
    if arguments.len() > 0 {
        lemma_with_arguments_extends(command, arguments.drop_last());
        let shorter = with_arguments(command, arguments.drop_last());
        let longer = with_arguments(command, arguments);
        assert(longer.subrange(0, command.len() as int) =~= shorter.subrange(
            0,
            command.len() as int,
        ));
    } else {
        assert(command.subrange(0, command.len() as int) =~= command);
    }
}

/// A text that comes out begins with the command that was chosen first.
pub proof fn law_outcome_begins_with_command(
    commands: Seq<Text>,
    context_manager: ContextManagerView,
    tools: Seq<Text>,
    first: SelectionView,
    second: SelectionView,
)
    ensures
        command_outcome(commands, context_manager, tools, first, second) matches Ok(Some(text)) ==> {
            &&& first matches Ok(Some(items))
            &&& items.len() > 0
            &&& items[0].is_prefix_of(text)
        },
{
    law_two_runs_at_most(commands, context_manager, tools, first, second);
    if let Ok(Some(items)) = first {
        if items.len() > 0 {
            let command = items[0];
            assert(command.subrange(0, command.len() as int) =~= command);
            if let Ok(Some(more)) = second {
                lemma_with_arguments_extends(command, more);
                lemma_with_arguments_extends(command, seq![more[0]]);
                let paths = more.map_values(|item: Text| context_path(item));
                let flagged = command + " --global"@;
                lemma_with_arguments_extends(command, paths);
                lemma_with_arguments_extends(flagged, paths);
                let full = with_arguments(flagged, paths);
                assert(full.subrange(0, command.len() as int) =~= full.subrange(
                    0,
                    flagged.len() as int,
                ).subrange(0, command.len() as int));
                assert(flagged.subrange(0, command.len() as int) =~= command);
            }
        }
    }
}

/// Removing offered paths, the ones at `picks`, is a command with exactly these paths and without
/// the global flag, where the profile's name holds no closing bracket with a space behind it.
pub proof fn law_removal_names_the_chosen_paths(
    context_manager: ContextManagerView,
    command: Text,
    picks: Seq<int>,
)
    requires
        !has_pair(context_manager.current_profile, ')', ' '),
        forall|k: int|
            0 <= k < picks.len() ==> 0 <= #[trigger] picks[k] < context_manager.paths.len(),
    ensures
        removal_command(command, picks.map_values(|pick: int| context_manager.items()[pick]))
            == with_arguments(command, picks.map_values(|pick: int| context_manager.paths[pick])),
{
    let items = picks.map_values(|pick: int| context_manager.items()[pick]);
    law_chosen_paths_are_offered_paths(context_manager, picks);
    assert forall|k: int| 0 <= k < items.len() implies !is_global(#[trigger] items[k]) by {
        assert(0 <= picks[k] < context_manager.paths.len());
        law_offered_path_is_not_global(
            context_manager.current_profile,
            context_manager.paths[picks[k]],
        );
    }
}

/// A cancelled or empty choice of a command comes to nothing, whatever the second run would say.
pub proof fn law_no_command_no_outcome(
    commands: Seq<Text>,
    context_manager: ContextManagerView,
    tools: Seq<Text>,
    first: Option<Seq<Text>>,
    second: SelectionView,
)
    requires
        some_items(first) is None,
    ensures
        command_outcome(commands, context_manager, tools, Ok(first), second) == Ok::<
            Option<Text>,
            SelectorErrorView,
        >(None),
{
}

/// Where the second run is cancelled or chooses nothing, the command stands alone.
pub proof fn law_cancelled_second_run_keeps_command(
    commands: Seq<Text>,
    context_manager: ContextManagerView,
    tools: Seq<Text>,
    first: Seq<Text>,
    second: Option<Seq<Text>>,
)
    requires
        first.len() > 0,
        some_items(second) is None,
    ensures
        command_outcome(commands, context_manager, tools, Ok(Some(first)), Ok(second)) == Ok::<
            Option<Text>,
            SelectorErrorView,
        >(Some(first[0])),
{
}

/// A failure of a run is the failure of the whole selection; a second run counts only where the
/// chosen command takes one.
pub proof fn law_failures_come_out(
    commands: Seq<Text>,
    context_manager: ContextManagerView,
    tools: Seq<Text>,
    first: SelectionView,
    second: SelectionView,
)
    ensures
        first matches Err(error) ==> command_outcome(commands, context_manager, tools, first, second) == Err::<
            Option<Text>,
            _,
        >(error),
        command_outcome(commands, context_manager, tools, first, second) matches Err(error) ==> first == Err::<
            Option<Seq<Text>>,
            _,
        >(error) || second == Err::<Option<Seq<Text>>, _>(error),
        command_step(
            commands,
            context_manager,
            tools,
            CommandTurnView::Selected(CommandStageView::Command, first),
        ) is Select && second is Err ==> command_outcome(commands, context_manager, tools, first, second)
            == Err::<Option<Text>, _>(second->Err_0),
{
    law_two_runs_at_most(commands, context_manager, tools, first, second);
}

proof fn lemma_with_arguments_joined(words: Seq<Text>, arguments: Seq<Text>)
    requires
        words.len() > 0,
    ensures
        with_arguments(joined(words, " "@), arguments) == joined(words + arguments, " "@),
    decreases arguments.len(),
{
    if arguments.len() == 0 {
        assert(words + arguments =~= words);
    } else {
        lemma_with_arguments_joined(words, arguments.drop_last());
        assert((words + arguments).drop_last() =~= words + arguments.drop_last());
    }
}

/// The selection starts by offering the commands, of which one can be chosen.
pub proof fn law_commands_are_offered(
    commands: Seq<Text>,
    context_manager: ContextManagerView,
    tools: Seq<Text>,
)
    ensures
        command_step(commands, context_manager, tools, CommandTurnView::Start)
            == CommandStepView::Select(
            SelectorRequestView {
                options: SelectorOptionsView {
                    height: "100%"@,
                    prompt: "Select command: "@,
                    reverse: true,
                    multi: false,
                    header: None,
                },
                source: ItemSourceView::TempFile(joined(commands, "\n"@)),
            },
            CommandStageView::Command,
        ),
{
}

/// The first chosen item is the command, whatever else was chosen. One that begins like the
/// command that adds to the context lets files be chosen; one that begins like the command that
/// removes from it lets the context's paths be chosen, where there are any; the two tool commands
/// let one tool be chosen; any other is complete.
pub proof fn law_command_decides(
    commands: Seq<Text>,
    context_manager: ContextManagerView,
    tools: Seq<Text>,
    chosen: Seq<Text>,
)
    requires
        chosen.len() > 0,
    ensures
        ({
            let command = chosen[0];
            let step = command_step(
                commands,
                context_manager,
                tools,
                CommandTurnView::Selected(CommandStageView::Command, Ok(Some(chosen))),
            );
            let adds = "/context add"@.is_prefix_of(command);
            let removes = "/context rm"@.is_prefix_of(command);
            let tool = command == "/tools trust"@ || command == "/tools untrust"@;
            let items = context_manager.paths.map_values(
                |path: Text| "(agent: "@ + context_manager.current_profile + ") "@ + path,
            );
            &&& adds ==> step == CommandStepView::Select(
                SelectorRequestView {
                    options: SelectorOptionsView {
                        height: "100%"@,
                        prompt: "Select files: "@,
                        reverse: true,
                        multi: true,
                        header: None,
                    },
                    source: ItemSourceView::Shell(FIND_FILES_SCRIPT@),
                },
                CommandStageView::Files(command),
            )
            &&& removes && context_manager.paths.len() > 0 ==> step == CommandStepView::Select(
                SelectorRequestView {
                    options: SelectorOptionsView {
                        height: "100%"@,
                        prompt: "Select paths to remove: "@,
                        reverse: true,
                        multi: true,
                        header: None,
                    },
                    source: ItemSourceView::Memory(joined(items, "\n"@)),
                },
                CommandStageView::ContextPaths(command),
            )
            &&& tool ==> step == CommandStepView::Select(
                SelectorRequestView {
                    options: SelectorOptionsView {
                        height: "100%"@,
                        prompt: "Select tool: "@,
                        reverse: true,
                        multi: false,
                        header: None,
                    },
                    source: ItemSourceView::Memory(joined(tools, "\n"@)),
                },
                CommandStageView::Tool(command),
            )
            &&& !adds && !tool && (removes ==> context_manager.paths.len() == 0) ==> step
                == CommandStepView::Done(Ok(Some(command)))
        }),
{
    let command = chosen[0];
    let items = context_manager.paths.map_values(
        |path: Text| "(agent: "@ + context_manager.current_profile + ") "@ + path,
    );
    law_command_kinds(command, command);
    law_offered_items(context_manager);
    assert(items =~= context_manager.items());
    reveal_strlit("/context add");
    reveal_strlit("/context rm");
    reveal_strlit("/tools trust");
    reveal_strlit("/tools untrust");
    assert("/tools trust"@[1] == 't' && "/tools untrust"@[1] == 't');
    if "/context add"@.is_prefix_of(command) {
        assert(command.subrange(0, 12)[1] == 'c');
    }
    if "/context rm"@.is_prefix_of(command) {
        assert(command.subrange(0, 11)[1] == 'c');
    }
}

/// The chosen files follow the command, each behind one space, in the order of the choice, and
/// nothing else does: one file comes to the command, a space and the file, and a further file
/// adds a space and itself.
pub proof fn law_files_follow_the_command(
    commands: Seq<Text>,
    context_manager: ContextManagerView,
    tools: Seq<Text>,
    command: Text,
    files: Seq<Text>,
    file: Text,
)
    ensures
        command_step(
            commands,
            context_manager,
            tools,
            CommandTurnView::Selected(
                CommandStageView::Files(command),
                Ok(Some(seq![file])),
            ),
        ) == CommandStepView::Done(Ok(Some(command + " "@ + file))),
        files.len() > 0 ==> command_step(
            commands,
            context_manager,
            tools,
            CommandTurnView::Selected(CommandStageView::Files(command), Ok(Some(files))),
        ) == CommandStepView::Done(Ok(Some(joined(seq![command] + files, " "@)))),
        command_step(
            commands,
            context_manager,
            tools,
            CommandTurnView::Selected(
                CommandStageView::Files(command),
                Ok(Some(files.push(file))),
            ),
        ) == CommandStepView::Done(Ok(Some(joined(seq![command] + files, " "@) + " "@ + file))),
{
    lemma_with_arguments_joined(seq![command], files);
    lemma_with_arguments_joined(seq![command], files.push(file));
    lemma_with_arguments_joined(seq![command], seq![file]);
    law_joined(seq![command], seq![file], command, " "@);
    law_joined(seq![command], seq![file], file, " "@);
    law_joined(seq![command] + files, seq![file], file, " "@);
    assert(seq![command] + files.push(file) =~= (seq![command] + files) + seq![file]);
}

/// A command that adds to the context comes out with the chosen files behind it, each behind one
/// space.
pub proof fn law_files_are_added(
    commands: Seq<Text>,
    context_manager: ContextManagerView,
    tools: Seq<Text>,
    chosen: Seq<Text>,
    files: Seq<Text>,
)
    requires
        chosen.len() > 0,
        "/context add"@.is_prefix_of(chosen[0]),
        files.len() > 0,
    ensures
        command_outcome(commands, context_manager, tools, Ok(Some(chosen)), Ok(Some(files)))
            == Ok::<Option<Text>, SelectorErrorView>(
            Some(joined(seq![chosen[0]] + files, " "@)),
        ),
        files.len() == 1 ==> command_outcome(
            commands,
            context_manager,
            tools,
            Ok(Some(chosen)),
            Ok(Some(files)),
        ) == Ok::<Option<Text>, SelectorErrorView>(Some(chosen[0] + " "@ + files[0])),
{
    law_command_decides(commands, context_manager, tools, chosen);
    law_files_follow_the_command(commands, context_manager, tools, chosen[0], files, files[0]);
    if files.len() == 1 {
        assert(files =~= seq![files[0]]);
    }
}

/// The paths in the chosen items follow the command, each behind one space, in the order of the
/// choice. The global flag stands between the two exactly where one of the items begins with the
/// mark of a global path, and nothing else is added.
pub proof fn law_paths_follow_the_command(
    commands: Seq<Text>,
    context_manager: ContextManagerView,
    tools: Seq<Text>,
    command: Text,
    items: Seq<Text>,
)
    requires
        items.len() > 0,
    ensures
        ({
            let step = command_step(
                commands,
                context_manager,
                tools,
                CommandTurnView::Selected(CommandStageView::ContextPaths(command), Ok(Some(items))),
            );
            let paths = items.map_values(|item: Text| context_path(item));
            let global = exists|k: int|
                0 <= k < items.len() && "(global)"@.is_prefix_of(#[trigger] items[k]);
            &&& global ==> step == CommandStepView::Done(
                Ok(Some(joined(seq![command, "--global"@] + paths, " "@))),
            )
            &&& !global ==> step == CommandStepView::Done(
                Ok(Some(joined(seq![command] + paths, " "@))),
            )
        }),
{
    let paths = items.map_values(|item: Text| context_path(item));
    let flag = "--global"@;
    reveal_strlit(" ");
    reveal_strlit("--global");
    reveal_strlit(" --global");
    law_joined(seq![command], seq![flag], command, " "@);
    law_joined(seq![command], seq![flag], flag, " "@);
    assert(seq![command] + seq![flag] =~= seq![command, flag]);
    assert(command + " "@ + flag =~= command + " --global"@);
    lemma_with_arguments_joined(seq![command, flag], paths);
    lemma_with_arguments_joined(seq![command], paths);
    assert forall|k: int| 0 <= k < items.len() implies is_global(#[trigger] items[k])
        == "(global)"@.is_prefix_of(items[k]) by {}
}

/// Removing offered paths, those at `picks`, comes to the command and these paths, each behind one
/// space, and nothing else, where the profile's name holds no closing bracket with a space behind
/// it. One path comes to the command, a space and the path.
pub proof fn law_picked_paths_are_removed(
    commands: Seq<Text>,
    context_manager: ContextManagerView,
    tools: Seq<Text>,
    command: Text,
    picks: Seq<int>,
)
    requires
        picks.len() > 0,
        forall|k: int|
            0 <= k < picks.len() ==> 0 <= #[trigger] picks[k] < context_manager.paths.len(),
        forall|k: int|
            0 <= k < context_manager.current_profile.len() - 1 ==> !(
            #[trigger] context_manager.current_profile[k] == ')'
                && context_manager.current_profile[k + 1] == ' '),
    ensures
        ({
            let items = picks.map_values(
                |pick: int|
                    "(agent: "@ + context_manager.current_profile + ") "@
                        + context_manager.paths[pick],
            );
            let paths = picks.map_values(|pick: int| context_manager.paths[pick]);
            let step = command_step(
                commands,
                context_manager,
                tools,
                CommandTurnView::Selected(CommandStageView::ContextPaths(command), Ok(Some(items))),
            );
            &&& step == CommandStepView::Done(Ok(Some(joined(seq![command] + paths, " "@))))
            &&& picks.len() == 1 ==> step == CommandStepView::Done(
                Ok(Some(command + " "@ + context_manager.paths[picks[0]])),
            )
        }),
{
    let profile = context_manager.current_profile;
    let items = picks.map_values(
        |pick: int|
            "(agent: "@ + context_manager.current_profile + ") "@ + context_manager.paths[pick],
    );
    let paths = picks.map_values(|pick: int| context_manager.paths[pick]);
    assert(!has_pair(profile, ')', ' ')) by {
        assert forall|k: int| !#[trigger] pair_at(profile, ')', ' ', k) by {
            if 0 <= k < profile.len() - 1 {
                assert(!(profile[k] == ')' && profile[k + 1] == ' '));
            }
        }
    }
    law_paths_follow_the_command(commands, context_manager, tools, command, items);
    assert forall|k: int| 0 <= k < picks.len() implies context_path(#[trigger] items[k]) == paths[k]
        && !"(global)"@.is_prefix_of(items[k]) by {
        assert(0 <= picks[k] < context_manager.paths.len());
        law_offered_path_comes_back(profile, context_manager.paths[picks[k]]);
    }
    assert(items.map_values(|item: Text| context_path(item)) =~= paths);
    if picks.len() == 1 {
        assert(paths =~= seq![paths[0]]);
        law_joined(seq![command], seq![paths[0]], command, " "@);
        law_joined(seq![command], seq![paths[0]], paths[0], " "@);
    }
}

/// A tool command comes out with the first chosen tool behind a space, whatever else was chosen.
pub proof fn law_tool_follows_the_command(
    commands: Seq<Text>,
    context_manager: ContextManagerView,
    tools: Seq<Text>,
    command: Text,
    chosen: Seq<Text>,
)
    requires
        chosen.len() > 0,
    ensures
        command_step(
            commands,
            context_manager,
            tools,
            CommandTurnView::Selected(CommandStageView::Tool(command), Ok(Some(chosen))),
        ) == CommandStepView::Done(Ok(Some(command + " "@ + chosen[0]))),
{
    reveal_with_fuel(with_arguments, 2);
    assert(seq![chosen[0]].drop_last() =~= Seq::<Text>::empty());
}

/// A run that was cancelled, or that chose nothing, leaves the command that was chosen before it as
/// it is, or nothing where it was the first run. A run that failed ends the selection with its
/// failure.
pub proof fn law_runs_without_a_choice(
    commands: Seq<Text>,
    context_manager: ContextManagerView,
    tools: Seq<Text>,
    stage: CommandStageView,
    selection: SelectionView,
)
    requires
        selection matches Ok(Some(items)) ==> items.len() == 0,
    ensures
        ({
            let step = command_step(
                commands,
                context_manager,
                tools,
                CommandTurnView::Selected(stage, selection),
            );
            match selection {
                Ok(_) => step == CommandStepView::Done(
                    match stage {
                        CommandStageView::Command => Ok(None),
                        CommandStageView::Files(command) => Ok(Some(command)),
                        CommandStageView::ContextPaths(command) => Ok(Some(command)),
                        CommandStageView::Tool(command) => Ok(Some(command)),
                    },
                ),
                Err(error) => step == CommandStepView::Done(Err(error)),
            }
        }),
{
}

/// The models of a turn and of a step hold the stage with its command, and the selection, the run
/// or the outcome.
pub proof fn law_command_models(
    command: String,
    stage: CommandStage,
    selection: Selection,
    request: SelectorRequest,
    outcome: Outcome,
)
    ensures
        CommandStage::Command@ == CommandStageView::Command,
        CommandStage::Files(command)@ == CommandStageView::Files(command@),
        CommandStage::ContextPaths(command)@ == CommandStageView::ContextPaths(command@),
        CommandStage::Tool(command)@ == CommandStageView::Tool(command@),
        CommandTurn::Start@ == CommandTurnView::Start,
        CommandTurn::Selected(stage, selection)@ == CommandTurnView::Selected(
            stage@,
            selection_view(selection),
        ),
        CommandStep::Select(request, stage)@ == CommandStepView::Select(request@, stage@),
        CommandStep::Done(outcome)@ == CommandStepView::Done(outcome_view(outcome)),
{
}

} // verus!
