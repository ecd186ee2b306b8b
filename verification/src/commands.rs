//! The commands that can be selected, and what each of them still needs.
use vstd::prelude::*;
use vstd::string::*;
use crate::text::same_text;
use crate::text::starts_with;
use crate::text::Text;

verus! {

/// A command that takes part in the selection beyond its name.
#[derive(Debug, PartialEq, Eq)]
pub enum CommandType {
    /// Adds files to the context.
    ContextAdd(String),
    /// Removes paths from the context.
    ContextRemove(String),
    /// Trusts a tool, or stops trusting it.
    Tools(&'static str),
    /// Works on agents.
    Agent(&'static str),
}

/// The model of a [`CommandType`].
pub enum CommandTypeView {
    ContextAdd(Text),
    ContextRemove(Text),
    Tools(Text),
    Agent(Text),
}

impl View for CommandType {
    type V = CommandTypeView;

    open spec fn view(&self) -> CommandTypeView {
        match self {
            CommandType::ContextAdd(command) => CommandTypeView::ContextAdd(command@),
            CommandType::ContextRemove(command) => CommandTypeView::ContextRemove(command@),
            CommandType::Tools(operation) => CommandTypeView::Tools(operation@),
            CommandType::Agent(operation) => CommandTypeView::Agent(operation@),
        }
    }
}

impl DeepView for CommandType {
    type V = CommandTypeView;

    open spec fn deep_view(&self) -> CommandTypeView {
        self@
    }
}

impl CommandTypeView {
    /// What kind of command `command` is: context commands by how they begin, the others by
    /// their full text.
    pub open spec fn of(command: Text) -> Option<CommandTypeView> {
        if "/context add"@.is_prefix_of(command) {
            Some(CommandTypeView::ContextAdd(command))
        } else if "/context rm"@.is_prefix_of(command) {
            Some(CommandTypeView::ContextRemove(command))
        } else if command == "/tools trust"@ {
            Some(CommandTypeView::Tools("trust"@))
        } else if command == "/tools untrust"@ {
            Some(CommandTypeView::Tools("untrust"@))
        } else if command == "/agent set"@ {
            Some(CommandTypeView::Agent("set"@))
        } else if command == "/agent delete"@ {
            Some(CommandTypeView::Agent("delete"@))
        } else if command == "/agent rename"@ {
            Some(CommandTypeView::Agent("rename"@))
        } else if command == "/agent create"@ {
            Some(CommandTypeView::Agent("create"@))
        } else {
            None
        }
    }

    /// Whether the command works on an agent that exists already.
    pub open spec fn needs_agent_selection(self) -> bool {
        match self {
            CommandTypeView::Agent(operation) => operation == "set"@ || operation == "delete"@
                || operation == "rename"@,
            _ => false,
        }
    }
}

impl CommandType {
    /// Whether the command works on an agent that exists already.
    pub fn needs_agent_selection(&self) -> (needs: bool)
        ensures
            needs == self@.needs_agent_selection(),
    {
        match self {
            CommandType::Agent(operation) => same_text(operation, "set") || same_text(
                operation,
                "delete",
            ) || same_text(operation, "rename"),
            _ => false,
        }
    }

    /// What kind of command `cmd` is; none where nothing more is to be selected for it.
    pub fn from_str(cmd: &str) -> (command_type: Option<CommandType>)
        ensures
            command_type.deep_view() == CommandTypeView::of(cmd@),
    {
        if starts_with(cmd, "/context add") {
            Some(CommandType::ContextAdd(cmd.to_owned()))
        } else if starts_with(cmd, "/context rm") {
            Some(CommandType::ContextRemove(cmd.to_owned()))
        } else if same_text(cmd, "/tools trust") {
            Some(CommandType::Tools("trust"))
        } else if same_text(cmd, "/tools untrust") {
            Some(CommandType::Tools("untrust"))
        } else if same_text(cmd, "/agent set") {
            Some(CommandType::Agent("set"))
        } else if same_text(cmd, "/agent delete") {
            Some(CommandType::Agent("delete"))
        } else if same_text(cmd, "/agent rename") {
            Some(CommandType::Agent("rename"))
        } else if same_text(cmd, "/agent create") {
            Some(CommandType::Agent("create"))
        } else {
            None
        }
    }
}

/// The commands on offer.
pub const COMMANDS: [&'static str; 8] = [
    "/context add",
    "/context rm",
    "/tools trust",
    "/tools untrust",
    "/agent set",
    "/agent delete",
    "/agent rename",
    "/agent create",
];

/// The commands on offer, in their order.
pub open spec fn available_commands() -> Seq<Text> {
    COMMANDS@.map_values(|command: &'static str| command@)
}

/// The commands of a table, in their order.
pub fn commands_of(table: &[&'static str]) -> (commands: Vec<String>)
    ensures
        commands.deep_view() == table@.map_values(|command: &'static str| command@),
{
    let mut commands: Vec<String> = Vec::new();
    let mut i: usize = 0;
    while i < table.len()
        invariant
            i <= table@.len(),
            commands.len() == i,
            forall|k: int| 0 <= k < i ==> #[trigger] commands@[k]@ == table@[k]@,
        decreases table.len() - i,
    {
        commands.push(table[i].to_owned());
        i = i + 1;
    }
    assert(commands.deep_view() =~= table@.map_values(|command: &'static str| command@));
    commands
}

/// The commands on offer, in their order.
pub fn get_available_commands() -> (commands: Vec<String>)
    ensures
        commands.deep_view() == available_commands(),
{
    commands_of(COMMANDS.as_slice())
}

/// Every command that calls for more than its name is on offer: the context commands as they
/// begin, the others in full.
pub proof fn law_recognised_commands_are_offered(command: Text)
    ensures
        match CommandTypeView::of(command) {
            Some(CommandTypeView::ContextAdd(_)) => available_commands().contains("/context add"@)
                && "/context add"@.is_prefix_of(command),
            Some(CommandTypeView::ContextRemove(_)) => available_commands().contains(
                "/context rm"@,
            ) && "/context rm"@.is_prefix_of(command),
            Some(_) => available_commands().contains(command),
            None => true,
        },
{
    let offered = available_commands();
    assert(offered[0] == "/context add"@);
    assert(offered[1] == "/context rm"@);
    assert(offered[2] == "/tools trust"@);
    assert(offered[3] == "/tools untrust"@);
    assert(offered[4] == "/agent set"@);
    assert(offered[5] == "/agent delete"@);
    assert(offered[6] == "/agent rename"@);
    assert(offered[7] == "/agent create"@);
}

/// A command is a context command exactly where it begins like one, and a tool or agent command
/// exactly where it is one in full: its operation is then what follows the group's name. A context
/// command is kept whole. No command is of two kinds.
pub proof fn law_command_kinds(command: Text, operation: Text)
    ensures
        "/context add"@.is_prefix_of(command) <==> CommandTypeView::of(command) == Some(
            CommandTypeView::ContextAdd(command),
        ),
        "/context rm"@.is_prefix_of(command) <==> CommandTypeView::of(command) == Some(
            CommandTypeView::ContextRemove(command),
        ),
        (operation == "trust"@ || operation == "untrust"@) && command == "/tools "@ + operation
            <==> CommandTypeView::of(command) == Some(CommandTypeView::Tools(operation)),
        (operation == "set"@ || operation == "delete"@ || operation == "rename"@ || operation
            == "create"@) && command == "/agent "@ + operation <==> CommandTypeView::of(command)
            == Some(CommandTypeView::Agent(operation)),
        CommandTypeView::of(command) matches Some(CommandTypeView::ContextAdd(kept)) ==> kept
            == command,
        CommandTypeView::of(command) matches Some(CommandTypeView::ContextRemove(kept)) ==> kept
            == command,
{
    reveal_strlit("/context add");
    reveal_strlit("/context rm");
    reveal_strlit("/tools ");
    reveal_strlit("/tools trust");
    reveal_strlit("/tools untrust");
    reveal_strlit("/agent ");
    reveal_strlit("/agent set");
    reveal_strlit("/agent delete");
    reveal_strlit("/agent rename");
    reveal_strlit("/agent create");
    reveal_strlit("trust");
    reveal_strlit("untrust");
    reveal_strlit("set");
    reveal_strlit("delete");
    reveal_strlit("rename");
    reveal_strlit("create");
    assert("/tools "@ + "trust"@ =~= "/tools trust"@);
    assert("/tools "@ + "untrust"@ =~= "/tools untrust"@);
    assert("/agent "@ + "set"@ =~= "/agent set"@);
    assert("/agent "@ + "delete"@ =~= "/agent delete"@);
    assert("/agent "@ + "rename"@ =~= "/agent rename"@);
    assert("/agent "@ + "create"@ =~= "/agent create"@);
    assert("/tools trust"@[1] == 't' && "/tools untrust"@[1] == 't');
    assert("/tools trust"@[7] == 't' && "/tools untrust"@[7] == 'u');
    assert("/agent set"@[1] == 'a' && "/agent delete"@[1] == 'a');
    assert("/agent rename"@[1] == 'a' && "/agent create"@[1] == 'a');
    assert("/agent set"@[7] == 's' && "/agent delete"@[7] == 'd');
    assert("/agent rename"@[7] == 'r' && "/agent create"@[7] == 'c');
    if "/context add"@.is_prefix_of(command) {
        assert(command.subrange(0, 12)[1] == 'c');
        assert(command.subrange(0, 12)[9] == 'a');
    }
    if "/context rm"@.is_prefix_of(command) {
        assert(command.subrange(0, 11)[1] == 'c');
        assert(command.subrange(0, 11)[9] == 'r');
    }
}

/// A command works on an agent that exists already exactly where it sets, deletes or renames one.
pub proof fn law_agent_selection(command: CommandTypeView)
    ensures
        command.needs_agent_selection() <==> command == CommandTypeView::Agent("set"@) || command
            == CommandTypeView::Agent("delete"@) || command == CommandTypeView::Agent("rename"@),
{
}

/// The model of a kind of command holds its text.
pub proof fn law_command_model(command: CommandType)
    ensures
        command matches CommandType::ContextAdd(text) ==> command@
            == CommandTypeView::ContextAdd(text@),
        command matches CommandType::ContextRemove(text) ==> command@
            == CommandTypeView::ContextRemove(text@),
        command matches CommandType::Tools(operation) ==> command@
            == CommandTypeView::Tools(operation@),
        command matches CommandType::Agent(operation) ==> command@
            == CommandTypeView::Agent(operation@),
        command.deep_view() == command@,
{
}

} // verus!
