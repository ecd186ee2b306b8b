//! The prompts as a table: a row for each prompt, a line for each row.
use vstd::prelude::*;
use vstd::string::*;
use crate::errors::SelectorError;
use crate::grouping::bundle_count;
use crate::grouping::entries_of;
use crate::grouping::group_and_sort_prompts;
use crate::grouping::grouped;
use crate::grouping::law_entry_for_each_bundle;
use crate::grouping::law_grouped_contents;
use crate::grouping::law_grouped_order;
use crate::grouping::law_grouping_ignores_list_order;
use crate::grouping::law_listed_bundles_are_entries;
use crate::grouping::names_distinct;
use crate::grouping::ungrouped;
use crate::grouping::PromptEntry;
use crate::order::law_text_order;
use crate::order::lemma_text_le_same_start;
use crate::order::text_le;
use crate::order::text_lt;
use crate::prompts::PromptBundle;
use crate::prompts::PromptBundleView;
use crate::prompts::PromptQueryResult;
use crate::text::pad_right;
use crate::text::padded;
use crate::text::Text;
use crate::truncate::law_truncated;
use crate::truncate::lemma_byte_len_bound;
use crate::truncate::truncate_safe_in_place;
use crate::truncate::truncated;

verus! {

/// The width of the column of server names.
pub const PROMPT_SELECTOR_SERVER_WIDTH: usize = 8;

/// The width of the column of prompt names.
pub const PROMPT_SELECTOR_PROMPT_WIDTH: usize = 18;

/// The width of the column of descriptions.
pub const PROMPT_SELECTOR_DESC_WIDTH: usize = 25;

/// What a text ends in that was cut down to the width of its column.
pub const TRUNCATED_SUFFIX: &'static str = "...";

/// A row of the table: prompt, server, description and arguments.
pub type PromptRow = (Text, Text, Text, Text);

/// The row of a prompt: its name behind an at sign, its server, its description, its arguments.
pub open spec fn row_of(entry: PromptEntry) -> PromptRow {
    (
        "@"@ + entry.0,
        entry.1.server_name,
        entry.1.description_text(),
        entry.1.arguments_text(),
    )
}

/// The rows of the entries, in their order.
pub open spec fn rows_of(entries: Seq<PromptEntry>) -> Seq<PromptRow> {
    entries.map_values(|entry: PromptEntry| row_of(entry))
}

/// The rows for a prompt list: grouped by server and in alphabetical order.
pub open spec fn available_rows(prompts: Seq<(Text, Seq<PromptBundleView>)>) -> Seq<PromptRow> {
    rows_of(ungrouped(grouped(entries_of(prompts))))
}

/// The texts of a row in their columns; the last one is not padded.
pub open spec fn columns(prompt: Text, server: Text, description: Text, arguments: Text) -> Text {
    padded(prompt, PROMPT_SELECTOR_PROMPT_WIDTH as nat) + " "@ + padded(
        server,
        PROMPT_SELECTOR_SERVER_WIDTH as nat,
    ) + " "@ + padded(description, PROMPT_SELECTOR_DESC_WIDTH as nat) + " "@ + arguments
}

/// The line of a row. Server and description are cut down to their columns.
pub open spec fn row_line(row: PromptRow) -> Text {
    columns(
        row.0,
        truncated(row.1, PROMPT_SELECTOR_SERVER_WIDTH as nat, TRUNCATED_SUFFIX@),
        truncated(row.2, PROMPT_SELECTOR_DESC_WIDTH as nat, TRUNCATED_SUFFIX@),
        row.3,
    )
}

/// The line above the table.
pub open spec fn header_line() -> Text {
    columns("Prompt"@, "Server"@, "Description"@, "Arguments (* = required)"@)
}

/// The rows of grouped prompts, group by group.
pub fn format_prompts_for_display(
    servers_with_prompts: Vec<(String, Vec<(String, PromptBundle)>)>,
) -> (rows: Vec<(String, String, String, String)>)
    ensures
        rows.deep_view() == rows_of(ungrouped(servers_with_prompts.deep_view())),
{
    let ghost groups = servers_with_prompts.deep_view();
    let mut rows: Vec<(String, String, String, String)> = Vec::new();
    let mut i: usize = 0;
    assert(rows.deep_view() =~= rows_of(ungrouped(groups.take(0))));
    while i < servers_with_prompts.len()
        invariant
            groups == servers_with_prompts.deep_view(),
            i <= servers_with_prompts.len(),
            rows.deep_view() == rows_of(ungrouped(groups.take(i as int))),
        decreases servers_with_prompts.len() - i,
    {
        let prompts_in_server: &Vec<(String, PromptBundle)> = &servers_with_prompts[i].1;
        let ghost done = ungrouped(groups.take(i as int));
        let ghost own = groups[i as int].1;
        let mut k: usize = 0;
        assert(done + own.take(0) =~= done);
        while k < prompts_in_server.len()
            invariant
                own == prompts_in_server.deep_view(),
                k <= prompts_in_server.len(),
                rows.deep_view() == rows_of(done + own.take(k as int)),
            decreases prompts_in_server.len() - k,
        {
            let prompt_name: &String = &prompts_in_server[k].0;
            let bundle: &PromptBundle = &prompts_in_server[k].1;
            let ghost before = rows.deep_view();
            rows.push(
                (
                    "@".to_owned().concat(prompt_name.as_str()),
                    bundle.server_name.clone(),
                    bundle.description_or_default(),
                    bundle.format_arguments_for_display(),
                ),
            );
            proof {
                assert(own[k as int] == (prompt_name@, bundle@));
                assert(rows.deep_view() =~= before.push(row_of(own[k as int])));
                assert(done + own.take(k + 1) =~= (done + own.take(k as int)).push(own[k as int]));
                assert(rows.deep_view() =~= rows_of(done + own.take(k + 1)));
            }
            k = k + 1;
        }
        proof {
            assert(own.take(own.len() as int) =~= own);
            assert(groups.take(i + 1).drop_last() =~= groups.take(i as int));
        }
        i = i + 1;
    }
    assert(groups.take(groups.len() as int) =~= groups);
    rows
}

/// The prompt list in the answer to a query for all prompts; an answer to another query is an
/// error.
pub fn fetch_prompts_from_servers(reply: Result<PromptQueryResult, SelectorError>) -> (prompts:
    Result<Vec<(String, Vec<PromptBundle>)>, SelectorError>)
    ensures
        match reply {
            Ok(PromptQueryResult::List(list)) => prompts == Ok::<_, SelectorError>(list),
            Ok(PromptQueryResult::Search(_)) => prompts == Err::<
                Vec<(String, Vec<PromptBundle>)>,
                SelectorError,
            >(SelectorError::WrongResponse),
            Err(error) => prompts == Err::<Vec<(String, Vec<PromptBundle>)>, SelectorError>(error),
        },
{
    match reply {
        Ok(PromptQueryResult::List(list)) => Ok(list),
        Ok(PromptQueryResult::Search(_)) => Err(SelectorError::WrongResponse),
        Err(error) => Err(error),
    }
}

/// The rows for the prompts in the answer to a query for all prompts, grouped by server and
/// sorted.
pub fn get_available_prompts(reply: Result<PromptQueryResult, SelectorError>) -> (rows: Result<
    Vec<(String, String, String, String)>,
    SelectorError,
>)
    ensures
        match reply {
            Ok(PromptQueryResult::List(list)) => rows matches Ok(rows) && rows.deep_view()
                == available_rows(list.deep_view()),
            Ok(PromptQueryResult::Search(_)) => rows == Err::<
                Vec<(String, String, String, String)>,
                SelectorError,
            >(SelectorError::WrongResponse),
            Err(error) => rows == Err::<Vec<(String, String, String, String)>, SelectorError>(
                error,
            ),
        },
{
    match fetch_prompts_from_servers(reply) {
        Ok(prompts) => Ok(format_prompts_for_display(group_and_sort_prompts(prompts))),
        Err(error) => Err(error),
    }
}

/// Puts the texts of a row into their columns.
fn format_columns(prompt: &str, server: &str, description: &str, arguments: &str) -> (line: String)
    ensures
        line@ == columns(prompt@, server@, description@, arguments@),
{
    let mut line: String = pad_right(prompt, PROMPT_SELECTOR_PROMPT_WIDTH);
    line.append(" ");
    line.append(pad_right(server, PROMPT_SELECTOR_SERVER_WIDTH).as_str());
    line.append(" ");
    line.append(pad_right(description, PROMPT_SELECTOR_DESC_WIDTH).as_str());
    line.append(" ");
    line.append(arguments);
    line
}

/// The line of a row.
pub fn display_line(row: &(String, String, String, String)) -> (line: String)
    ensures
        line@ == row_line(row.deep_view()),
{
    let mut truncated_desc: String = row.2.clone();
    truncate_safe_in_place(&mut truncated_desc, PROMPT_SELECTOR_DESC_WIDTH, TRUNCATED_SUFFIX);
    let mut truncated_server: String = row.1.clone();
    truncate_safe_in_place(&mut truncated_server, PROMPT_SELECTOR_SERVER_WIDTH, TRUNCATED_SUFFIX);
    format_columns(
        row.0.as_str(),
        truncated_server.as_str(),
        truncated_desc.as_str(),
        row.3.as_str(),
    )
}

/// The line above the table.
pub fn display_header() -> (line: String)
    ensures
        line@ == header_line(),
{
    format_columns("Prompt", "Server", "Description", "Arguments (* = required)")
}

/// The rows are the rows of the listed prompts, each prompt's once and no others.
pub proof fn law_rows_are_the_prompts(list: Seq<(Text, Seq<PromptBundleView>)>)
    ensures
        available_rows(list).len() == entries_of(list).len(),
        forall|k: int|
            0 <= k < entries_of(list).len() ==> available_rows(list).contains(
                row_of(#[trigger] entries_of(list)[k]),
            ),
        forall|row: PromptRow| #[trigger]
            available_rows(list).contains(row) ==> exists|k: int|
                0 <= k < entries_of(list).len() && row == row_of(#[trigger] entries_of(list)[k]),
        ungrouped(grouped(entries_of(list))).to_multiset() == entries_of(list).to_multiset(),
{
    broadcast use vstd::seq_lib::group_to_multiset_ensures;

    let entries = entries_of(list);
    let sorted = ungrouped(grouped(entries));
    law_grouped_contents(entries);
    assert forall|k: int| 0 <= k < entries.len() implies available_rows(list).contains(
        row_of(#[trigger] entries[k]),
    ) by {
        assert(entries.contains(entries[k]));
        assert(entries.to_multiset().count(entries[k]) > 0);
        assert(sorted.contains(entries[k]));
        let m = sorted.index_of(entries[k]);
        assert(available_rows(list)[m] == row_of(entries[k]));
    }
    assert forall|row: PromptRow| #[trigger] available_rows(list).contains(row) implies exists|
        k: int,
    |
        0 <= k < entries.len() && row == row_of(#[trigger] entries[k]) by {
        let m = available_rows(list).index_of(row);
        assert(row == row_of(sorted[m]));
        assert(sorted.contains(sorted[m]));
        assert(sorted.to_multiset().count(sorted[m]) > 0);
        assert(entries.contains(sorted[m]));
        let k = entries.index_of(sorted[m]);
        assert(row == row_of(entries[k]));
    }
}

/// A row shows its prompt's name behind an at sign, its server, its description or a note that it
/// has none, and its arguments; the rows come in the order of the entries.
pub proof fn law_rows_show_their_entries(entries: Seq<PromptEntry>)
    ensures
        rows_of(entries).len() == entries.len(),
        forall|k: int|
            #![trigger rows_of(entries)[k]]
            0 <= k < entries.len() ==> {
                let row = rows_of(entries)[k];
                &&& row.0 == "@"@ + entries[k].0
                &&& row.1 == entries[k].1.server_name
                &&& entries[k].1.prompt_get.description matches Some(description) ==> row.2
                    == description
                &&& entries[k].1.prompt_get.description is None ==> row.2 == "No description"@
                &&& row.3 == entries[k].1.arguments_text()
            },
{
}

/// The rows for a prompt list are those of its grouped entries, group by group, one for each bundle
/// of the list.
pub proof fn law_available_rows(list: Seq<(Text, Seq<PromptBundleView>)>)
    ensures
        available_rows(list) == rows_of(ungrouped(grouped(entries_of(list)))),
        available_rows(list).len() == bundle_count(list),
{
    law_grouped_contents(entries_of(list));
    law_entry_for_each_bundle(list);
}

/// Each bundle of a prompt list has a row, with its own name, server, description and arguments.
pub proof fn law_listed_bundles_have_rows(
    list: Seq<(Text, Seq<PromptBundleView>)>,
    i: int,
    j: int,
)
    requires
        0 <= i < list.len(),
        0 <= j < list[i].1.len(),
    ensures
        ({
            let bundle = list[i].1[j];
            let description = match bundle.prompt_get.description {
                Some(description) => description,
                None => "No description"@,
            };
            available_rows(list).contains(
                ("@"@ + list[i].0, bundle.server_name, description, bundle.arguments_text()),
            )
        }),
{
    law_listed_bundles_are_entries(list, i, j);
    law_rows_are_the_prompts(list);
    let k = entries_of(list).index_of((list[i].0, list[i].1[j]));
    assert(available_rows(list).contains(row_of(entries_of(list)[k])));
}

/// The order in which the prompts of a map are walked does not matter: two lists with the same
/// items, no name twice, have the same rows.
pub proof fn law_rows_ignore_list_order(
    a: Seq<(Text, Seq<PromptBundleView>)>,
    b: Seq<(Text, Seq<PromptBundleView>)>,
)
    requires
        names_distinct(a),
        names_distinct(b),
        a.to_set() == b.to_set(),
    ensures
        available_rows(a) == available_rows(b),
{
    law_grouping_ignores_list_order(a, b);
}

/// Whether the servers are in alphabetical order and, within a server, the prompts.
pub open spec fn rows_ascending(rows: Seq<PromptRow>) -> bool {
    forall|i: int, j: int|
        #![trigger rows[i], rows[j]]
        0 <= i < j < rows.len() ==> {
            ||| text_lt(rows[i].1, rows[j].1)
            ||| rows[i].1 == rows[j].1 && text_le(rows[i].0, rows[j].0)
        }
}

/// The rows come in alphabetical order of servers and, within a server, of prompts.
pub proof fn law_rows_are_sorted(list: Seq<(Text, Seq<PromptBundleView>)>)
    ensures
        rows_ascending(available_rows(list)),
        forall|i: int, j: int|
            #![trigger available_rows(list)[i], available_rows(list)[j]]
            0 <= i < j < available_rows(list).len() ==> {
                let a = available_rows(list)[i];
                let b = available_rows(list)[j];
                text_le(a.1, b.1) && (a.1 == b.1 ==> text_le(a.0, b.0))
            },
{
    let rows = available_rows(list);
    let entries = ungrouped(grouped(entries_of(list)));
    law_grouped_order(entries_of(list));
    assert forall|i: int, j: int|
        #![trigger rows[i], rows[j]]
        0 <= i < j < rows.len() implies {
        ||| text_lt(rows[i].1, rows[j].1)
        ||| rows[i].1 == rows[j].1 && text_le(rows[i].0, rows[j].0)
    } by {
        assert(rows[i] == row_of(entries[i]) && rows[j] == row_of(entries[j]));
        lemma_text_le_same_start("@"@, entries[i].0, entries[j].0);
    }
    assert forall|i: int, j: int|
        #![trigger rows[i], rows[j]]
        0 <= i < j < rows.len() implies text_le(rows[i].1, rows[j].1) && (rows[i].1 == rows[j].1
        ==> text_le(rows[i].0, rows[j].0)) by {
        law_text_order(rows[i].1, rows[j].1, rows[i].1);
        law_text_order(rows[i].1, rows[i].1, rows[i].1);
    }
}

/// Texts that fit their columns stand at fixed places, whatever they are.
proof fn lemma_columns(prompt: Text, server: Text, description: Text, arguments: Text)
    requires
        prompt.len() <= PROMPT_SELECTOR_PROMPT_WIDTH,
        server.len() <= PROMPT_SELECTOR_SERVER_WIDTH,
        description.len() <= PROMPT_SELECTOR_DESC_WIDTH,
    ensures
        in_columns(
            columns(prompt, server, description, arguments),
            prompt,
            server,
            description,
            arguments,
        ),
{
    reveal_strlit(" ");
    let line = columns(prompt, server, description, arguments);
    let server_at = PROMPT_SELECTOR_PROMPT_WIDTH + 1;
    let description_at = server_at + PROMPT_SELECTOR_SERVER_WIDTH + 1;
    let arguments_at = description_at + PROMPT_SELECTOR_DESC_WIDTH + 1;
    assert(line.subrange(0, server_at - 1) =~= padded(prompt, PROMPT_SELECTOR_PROMPT_WIDTH as nat));
    assert(line.subrange(server_at, description_at - 1) =~= padded(
        server,
        PROMPT_SELECTOR_SERVER_WIDTH as nat,
    ));
    assert(line.subrange(description_at, arguments_at - 1) =~= padded(
        description,
        PROMPT_SELECTOR_DESC_WIDTH as nat,
    ));
    assert(line.skip(arguments_at) =~= arguments);
}

/// Whether `line` holds the four texts at the places of the four columns, each column one space
/// from the next.
pub open spec fn in_columns(
    line: Text,
    prompt: Text,
    server: Text,
    description: Text,
    arguments: Text,
) -> bool {
    let server_at = PROMPT_SELECTOR_PROMPT_WIDTH + 1;
    let description_at = server_at + PROMPT_SELECTOR_SERVER_WIDTH + 1;
    let arguments_at = description_at + PROMPT_SELECTOR_DESC_WIDTH + 1;
    &&& line.len() >= arguments_at
    &&& line.subrange(0, server_at - 1) == padded(prompt, PROMPT_SELECTOR_PROMPT_WIDTH as nat)
    &&& line[server_at - 1] == ' '
    &&& line.subrange(server_at, description_at - 1) == padded(
        server,
        PROMPT_SELECTOR_SERVER_WIDTH as nat,
    )
    &&& line[description_at - 1] == ' '
    &&& line.subrange(description_at, arguments_at - 1) == padded(
        description,
        PROMPT_SELECTOR_DESC_WIDTH as nat,
    )
    &&& line[arguments_at - 1] == ' '
    &&& line.skip(arguments_at) == arguments
}

/// A line begins with the whole prompt. Behind the prompt, at the width of its column or at its
/// end where it is wider, stand the server, the description and the arguments, each at a fixed
/// distance from the one before it, with spaces between them and nothing else.
pub proof fn law_row_line(row: PromptRow)
    ensures
        ({
            let line = row_line(row);
            let server = truncated(row.1, PROMPT_SELECTOR_SERVER_WIDTH as nat, TRUNCATED_SUFFIX@);
            let description = truncated(
                row.2,
                PROMPT_SELECTOR_DESC_WIDTH as nat,
                TRUNCATED_SUFFIX@,
            );
            let server_at = if row.0.len() < PROMPT_SELECTOR_PROMPT_WIDTH {
                PROMPT_SELECTOR_PROMPT_WIDTH + 1
            } else {
                row.0.len() as int + 1
            };
            let description_at = server_at + PROMPT_SELECTOR_SERVER_WIDTH + 1;
            let arguments_at = description_at + PROMPT_SELECTOR_DESC_WIDTH + 1;
            &&& server.len() <= PROMPT_SELECTOR_SERVER_WIDTH
            &&& description.len() <= PROMPT_SELECTOR_DESC_WIDTH
            &&& line.len() == arguments_at + row.3.len()
            &&& line.subrange(0, row.0.len() as int) == row.0
            &&& line.subrange(server_at, server_at + server.len()) == server
            &&& line.subrange(description_at, description_at + description.len()) == description
            &&& line.subrange(arguments_at, line.len() as int) == row.3
            &&& forall|k: int|
                row.0.len() <= k < server_at || server_at + server.len() <= k < description_at
                    || description_at + description.len() <= k < arguments_at ==> #[trigger] line[k]
                    == ' '
        }),
{
    reveal_strlit(" ");
    let line = row_line(row);
    let server = truncated(row.1, PROMPT_SELECTOR_SERVER_WIDTH as nat, TRUNCATED_SUFFIX@);
    let description = truncated(row.2, PROMPT_SELECTOR_DESC_WIDTH as nat, TRUNCATED_SUFFIX@);
    let server_at = if row.0.len() < PROMPT_SELECTOR_PROMPT_WIDTH {
        PROMPT_SELECTOR_PROMPT_WIDTH + 1
    } else {
        row.0.len() as int + 1
    };
    let description_at = server_at + PROMPT_SELECTOR_SERVER_WIDTH + 1;
    let arguments_at = description_at + PROMPT_SELECTOR_DESC_WIDTH + 1;
    law_truncated(row.1, PROMPT_SELECTOR_SERVER_WIDTH as nat, TRUNCATED_SUFFIX@);
    law_truncated(row.2, PROMPT_SELECTOR_DESC_WIDTH as nat, TRUNCATED_SUFFIX@);
    lemma_byte_len_bound(server);
    lemma_byte_len_bound(description);
    assert(line.subrange(0, row.0.len() as int) =~= row.0);
    assert(line.subrange(server_at, server_at + server.len()) =~= server);
    assert(line.subrange(description_at, description_at + description.len()) =~= description);
    assert(line.subrange(arguments_at, line.len() as int) =~= row.3);
}

/// The columns of every row stand under those of the header, where the prompt fits its column;
/// servers and descriptions always do.
pub proof fn law_columns_align(row: PromptRow)
    requires
        row.0.len() <= PROMPT_SELECTOR_PROMPT_WIDTH,
    ensures
        in_columns(
            header_line(),
            "Prompt"@,
            "Server"@,
            "Description"@,
            "Arguments (* = required)"@,
        ),
        in_columns(
            row_line(row),
            row.0,
            truncated(row.1, PROMPT_SELECTOR_SERVER_WIDTH as nat, TRUNCATED_SUFFIX@),
            truncated(row.2, PROMPT_SELECTOR_DESC_WIDTH as nat, TRUNCATED_SUFFIX@),
            row.3,
        ),
{
    reveal_strlit("Prompt");
    reveal_strlit("Server");
    reveal_strlit("Description");
    lemma_columns("Prompt"@, "Server"@, "Description"@, "Arguments (* = required)"@);
    let server = truncated(row.1, PROMPT_SELECTOR_SERVER_WIDTH as nat, TRUNCATED_SUFFIX@);
    let description = truncated(row.2, PROMPT_SELECTOR_DESC_WIDTH as nat, TRUNCATED_SUFFIX@);
    law_truncated(row.1, PROMPT_SELECTOR_SERVER_WIDTH as nat, TRUNCATED_SUFFIX@);
    law_truncated(row.2, PROMPT_SELECTOR_DESC_WIDTH as nat, TRUNCATED_SUFFIX@);
    lemma_byte_len_bound(server);
    lemma_byte_len_bound(description);
    lemma_columns(row.0, server, description, row.3);
}

} // verus!
