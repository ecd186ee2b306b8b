//! From a key press to a prompt: the query, the selector run, and what comes of them.
use vstd::prelude::*;
use vstd::string::*;
use crate::display::available_rows;
use crate::display::display_header;
use crate::display::display_line;
use crate::display::get_available_prompts;
use crate::display::header_line;
use crate::display::law_available_rows;
use crate::display::law_rows_are_the_prompts;
use crate::display::row_line;
use crate::display::row_of;
use crate::display::PromptRow;
use crate::errors::SelectorError;
use crate::errors::SelectorErrorView;
use crate::grouping::bundle_count;
use crate::grouping::entries_of;
use crate::options::selector_options;
use crate::options::standard_options;
use crate::options::SelectorOptions;
use crate::options::SelectorOptionsView;
use crate::prompts::PromptBundleView;
use crate::prompts::PromptQuery;
use crate::prompts::PromptQueryResult;
use crate::prompts::PromptQueryResultView;
use crate::selector::item_lines;
use crate::selector::outcome_view;
use crate::selector::selected_items;
use crate::selector::selection_view;
use crate::selector::some_items;
use crate::selector::ItemSource;
use crate::selector::ItemSourceView;
use crate::selector::Outcome;
use crate::selector::OutcomeView;
use crate::selector::Selection;
use crate::selector::SelectionView;
use crate::selector::SelectorRequest;
use crate::selector::SelectorRequestView;
use crate::text::join;
use crate::text::joined;
use crate::text::law_joined_items_are_lines;
use crate::text::lines;
use crate::text::same_text;
use crate::text::Text;

verus! {

/// The lines on offer, each with the prompt that it stands for.
#[derive(Debug, PartialEq, Eq)]
pub struct PromptMenu {
    entries: Vec<(String, String)>,
}

impl View for PromptMenu {
    type V = Seq<(Text, Text)>;

    closed spec fn view(&self) -> Seq<(Text, Text)> {
        self.entries.deep_view()
    }
}

/// The menu of the rows, in their order.
pub open spec fn menu_of(rows: Seq<PromptRow>) -> Seq<(Text, Text)> {
    rows.map_values(|row: PromptRow| (row_line(row), row.0))
}

/// The prompt that `line` stands for: that of the last entry with this line.
pub open spec fn prompt_for(menu: Seq<(Text, Text)>, line: Text) -> Option<Text>
    decreases menu.len(),
{
    if menu.len() == 0 {
        None
    } else if menu.last().0 == line {
        Some(menu.last().1)
    } else {
        prompt_for(menu.drop_last(), line)
    }
}

/// The run that lets a user choose one of the rows.
pub open spec fn prompt_request(rows: Seq<PromptRow>) -> SelectorRequestView {
    SelectorRequestView {
        options: standard_options("Select prompt: "@, false, Some(header_line())),
        source: ItemSourceView::Memory(
            item_lines(rows.map_values(|row: PromptRow| row_line(row))),
        ),
    }
}

/// Where the selection of a prompt stands: at its start, at an answer to the query for all
/// prompts, or at the end of the selector run.
#[derive(Debug, PartialEq, Eq)]
pub enum PromptTurn {
    Start,
    Queried(Result<PromptQueryResult, SelectorError>),
    Selected(PromptMenu, Selection),
}

/// What the selection of a prompt takes next: an answer to a query, a selector run, or nothing
/// more.
#[derive(Debug, PartialEq, Eq)]
pub enum PromptStep {
    Query(PromptQuery),
    Select(SelectorRequest, PromptMenu),
    Done(Outcome),
}

/// The model of a [`PromptTurn`].
pub enum PromptTurnView {
    Start,
    Queried(Result<PromptQueryResultView, SelectorErrorView>),
    Selected(Seq<(Text, Text)>, SelectionView),
}

/// The model of a [`PromptStep`].
pub enum PromptStepView {
    Query(PromptQuery),
    Select(SelectorRequestView, Seq<(Text, Text)>),
    Done(OutcomeView),
}

impl View for PromptTurn {
    type V = PromptTurnView;

    open spec fn view(&self) -> PromptTurnView {
        match self {
            PromptTurn::Start => PromptTurnView::Start,
            PromptTurn::Queried(Ok(result)) => PromptTurnView::Queried(Ok(result@)),
            PromptTurn::Queried(Err(error)) => PromptTurnView::Queried(Err(error@)),
            PromptTurn::Selected(menu, selection) => PromptTurnView::Selected(
                menu@,
                selection_view(*selection),
            ),
        }
    }
}

impl View for PromptStep {
    type V = PromptStepView;

    open spec fn view(&self) -> PromptStepView {
        match self {
            PromptStep::Query(query) => PromptStepView::Query(*query),
            PromptStep::Select(request, menu) => PromptStepView::Select(request@, menu@),
            PromptStep::Done(outcome) => PromptStepView::Done(outcome_view(*outcome)),
        }
    }
}

/// What is done with the rows: they are offered, where there are any.
pub open spec fn step_after_rows(rows: Seq<PromptRow>) -> PromptStepView {
    if rows.len() == 0 {
        PromptStepView::Done(Ok(None))
    } else {
        PromptStepView::Select(prompt_request(rows), menu_of(rows))
    }
}

/// What the selection of a prompt takes at `turn`.
pub open spec fn prompt_step(turn: PromptTurnView) -> PromptStepView {
    match turn {
        PromptTurnView::Start => PromptStepView::Query(PromptQuery::List),
        PromptTurnView::Queried(Err(error)) => PromptStepView::Done(Err(error)),
        PromptTurnView::Queried(Ok(PromptQueryResultView::Search(_))) => PromptStepView::Done(
            Err(SelectorErrorView::WrongResponse),
        ),
        PromptTurnView::Queried(Ok(PromptQueryResultView::List(list))) => step_after_rows(
            available_rows(list),
        ),
        PromptTurnView::Selected(_, Err(error)) => PromptStepView::Done(Err(error)),
        PromptTurnView::Selected(menu, Ok(items)) => PromptStepView::Done(
            Ok(
                match some_items(items) {
                    Some(items) => prompt_for(menu, items[0]),
                    None => None,
                },
            ),
        ),
    }
}

/// The prompt that `line` stands for in the menu.
pub fn chosen_prompt(menu: &PromptMenu, line: &str) -> (prompt: Option<String>)
    ensures
        prompt.deep_view() == prompt_for(menu@, line@),
{
    let ghost entries = menu@;
    let mut i: usize = menu.entries.len();
    assert(entries.take(entries.len() as int) =~= entries);
    while i > 0
        invariant
            entries == menu.entries.deep_view(),
            i <= menu.entries.len(),
            prompt_for(entries, line@) == prompt_for(entries.take(i as int), line@),
        decreases i,
    {
        proof {
            assert(entries.take(i as int).last() == entries[i - 1]);
            assert(entries.take(i as int).drop_last() =~= entries.take(i - 1));
        }
        if same_text(menu.entries[i - 1].0.as_str(), line) {
            return Some(menu.entries[i - 1].1.clone());
        }
        i = i - 1;
    }
    None
}

/// The run that offers the rows, and the menu to look the chosen line up in; nothing comes of no
/// rows.
pub fn offer_prompts(rows: Vec<(String, String, String, String)>) -> (step: PromptStep)
    ensures
        step@ == step_after_rows(rows.deep_view()),
{
    if rows.len() == 0 {
        return PromptStep::Done(Ok(None));
    }
    let mut lines: Vec<String> = Vec::new();
    let mut entries: Vec<(String, String)> = Vec::new();
    let ghost views = rows.deep_view();
    let mut i: usize = 0;
    while i < rows.len()
        invariant
            views == rows.deep_view(),
            i <= rows.len(),
            lines.len() == i,
            entries.len() == i,
            forall|k: int| 0 <= k < i ==> #[trigger] lines@[k]@ == row_line(views[k]),
            forall|k: int|
                0 <= k < i ==> #[trigger] entries@[k].0@ == row_line(views[k]) && entries@[k].1@
                    == views[k].0,
        decreases rows.len() - i,
    {
        let line: String = display_line(&rows[i]);
        lines.push(line.clone());
        entries.push((line, rows[i].0.clone()));
        i = i + 1;
    }
    let mut options: SelectorOptions = selector_options("Select prompt: ", false);
    options.header = Some(display_header());
    proof {
        assert(lines.deep_view() =~= views.map_values(|row: PromptRow| row_line(row)));
        assert(entries.deep_view() =~= menu_of(views));
    }
    PromptStep::Select(
        SelectorRequest { options, source: ItemSource::Memory(join(lines.as_slice(), "\n")) },
        PromptMenu { entries },
    )
}

/// What the selection of a prompt takes at `turn`: the query for all prompts first, then one
/// selector run over what it brought, then the prompt that the chosen line stands for.
pub fn select_prompt_with_skim(turn: PromptTurn) -> (step: PromptStep)
    ensures
        step@ == prompt_step(turn@),
{
    match turn {
        PromptTurn::Start => PromptStep::Query(PromptQuery::List),
        PromptTurn::Queried(reply) => match get_available_prompts(reply) {
            Ok(rows) => offer_prompts(rows),
            Err(error) => PromptStep::Done(Err(error)),
        },
        PromptTurn::Selected(menu, selection) => match selection {
            Ok(items) => match selected_items(items) {
                Some(chosen) => PromptStep::Done(Ok(chosen_prompt(&menu, chosen[0].as_str()))),
                None => PromptStep::Done(Ok(None)),
            },
            Err(error) => PromptStep::Done(Err(error)),
        },
    }
}

/// The selection of a prompt is one query, then at most one selector run.
pub proof fn law_one_query_one_run(
    reply: Result<PromptQueryResultView, SelectorErrorView>,
    menu: Seq<(Text, Text)>,
    selection: SelectionView,
)
    ensures
        prompt_step(PromptTurnView::Start) == PromptStepView::Query(PromptQuery::List),
        prompt_step(PromptTurnView::Queried(reply)) !is Query,
        prompt_step(PromptTurnView::Selected(menu, selection)) is Done,
{
}

proof fn lemma_prompt_for(menu: Seq<(Text, Text)>, line: Text)
    ensures
        match prompt_for(menu, line) {
            Some(prompt) => exists|j: int|
                0 <= j < menu.len() && #[trigger] menu[j].0 == line && menu[j].1 == prompt && (
                forall|k: int| j < k < menu.len() ==> #[trigger] menu[k].0 != line),
            None => forall|k: int| 0 <= k < menu.len() ==> #[trigger] menu[k].0 != line,
        },
    decreases menu.len(),
{
    if menu.len() > 0 {
        let last = menu.len() - 1;
        if menu.last().0 == line {
            assert(menu[last].0 == line && menu[last].1 == menu.last().1);
        } else {
            let rest = menu.drop_last();
            lemma_prompt_for(rest, line);
            assert forall|k: int| 0 <= k < rest.len() implies #[trigger] menu[k] == rest[k] by {}
            if let Some(prompt) = prompt_for(rest, line) {
                let j = choose|j: int|
                    0 <= j < rest.len() && #[trigger] rest[j].0 == line && rest[j].1 == prompt && (
                    forall|k: int| j < k < rest.len() ==> #[trigger] rest[k].0 != line);
                assert(menu[j].0 == line && menu[j].1 == prompt);
                assert forall|k: int| j < k < menu.len() implies #[trigger] menu[k].0 != line by {
                    if k < rest.len() {
                        assert(rest[k].0 != line);
                    }
                }
            } else {
                assert forall|k: int| 0 <= k < menu.len() implies #[trigger] menu[k].0 != line by {
                    if k < rest.len() {
                        assert(rest[k].0 != line);
                    }
                }
            }
        }
    }
}

/// A line that is on offer stands for a prompt: that of the last row with this line. A line that
/// is not on offer stands for none.
pub proof fn law_offered_lines_stand_for_prompts(rows: Seq<PromptRow>, line: Text)
    ensures
        match prompt_for(menu_of(rows), line) {
            Some(prompt) => exists|j: int|
                0 <= j < rows.len() && row_line(#[trigger] rows[j]) == line && rows[j].0 == prompt
                    && (forall|k: int| j < k < rows.len() ==> row_line(#[trigger] rows[k]) != line),
            None => forall|k: int| 0 <= k < rows.len() ==> row_line(#[trigger] rows[k]) != line,
        },
{
    let menu = menu_of(rows);
    lemma_prompt_for(menu, line);
    if let Some(prompt) = prompt_for(menu, line) {
        let j = choose|j: int|
            0 <= j < menu.len() && #[trigger] menu[j].0 == line && menu[j].1 == prompt && (forall|
                k: int,
            |
                j < k < menu.len() ==> #[trigger] menu[k].0 != line);
        assert(row_line(rows[j]) == line && rows[j].0 == prompt);
        assert forall|k: int| j < k < rows.len() implies row_line(#[trigger] rows[k]) != line by {
            assert(menu[k].0 != line);
        }
    } else {
        assert forall|k: int| 0 <= k < rows.len() implies row_line(#[trigger] rows[k]) != line by {
            assert(menu[k].0 != line);
        }
    }
}

/// Choosing the line of a row gives the prompt of that row, where rows that show the same line
/// are of the same prompt.
pub proof fn law_chosen_line_gives_its_prompt(rows: Seq<PromptRow>, i: int)
    requires
        0 <= i < rows.len(),
        forall|j: int|
            0 <= j < rows.len() && row_line(#[trigger] rows[j]) == row_line(rows[i]) ==> rows[j].0
                == rows[i].0,
    ensures
        prompt_for(menu_of(rows), row_line(rows[i])) == Some(rows[i].0),
{
    let line = row_line(rows[i]);
    law_offered_lines_stand_for_prompts(rows, line);
}

proof fn lemma_line_begins_with_prompt(row: PromptRow)
    requires
        !row.0.contains(' '),
    ensures
        row_line(row).len() > row.0.len(),
        row_line(row)[row.0.len() as int] == ' ',
        row_line(row).take(row.0.len() as int) == row.0,
        forall|k: int| 0 <= k < row.0.len() ==> #[trigger] row_line(row)[k] != ' ',
{
    reveal_strlit(" ");
    let line = row_line(row);
    assert(line.take(row.0.len() as int) =~= row.0);
    assert forall|k: int| 0 <= k < row.0.len() implies #[trigger] line[k] != ' ' by {
        assert(line[k] == row.0[k]);
        assert(row.0.contains(row.0[k]));
    }
}

/// Rows that show the same line are of the same prompt, where their prompts hold no spaces.
pub proof fn law_same_line_same_prompt(a: PromptRow, b: PromptRow)
    requires
        !a.0.contains(' '),
        !b.0.contains(' '),
        row_line(a) == row_line(b),
    ensures
        a.0 == b.0,
{
    lemma_line_begins_with_prompt(a);
    lemma_line_begins_with_prompt(b);
    let m = a.0.len() as int;
    let n = b.0.len() as int;
    if m < n {
        assert(row_line(b)[m] != ' ');
    } else if n < m {
        assert(row_line(a)[n] != ' ');
    }
}

/// Every listed prompt can be chosen: its line is on offer, and choosing it gives an at sign and
/// the prompt's name, where no listed name holds a space.
pub proof fn law_listed_prompts_can_be_chosen(list: Seq<(Text, Seq<PromptBundleView>)>, k: int)
    requires
        0 <= k < entries_of(list).len(),
        forall|m: int|
            0 <= m < entries_of(list).len() ==> !(#[trigger] entries_of(list)[m]).0.contains(' '),
    ensures
        prompt_step(
            PromptTurnView::Queried(Ok(PromptQueryResultView::List(list))),
        ) == PromptStepView::Select(
            prompt_request(available_rows(list)),
            menu_of(available_rows(list)),
        ),
        available_rows(list).contains(row_of(entries_of(list)[k])),
        prompt_step(
            PromptTurnView::Selected(
                menu_of(available_rows(list)),
                Ok(Some(seq![row_line(row_of(entries_of(list)[k]))])),
            ),
        ) == PromptStepView::Done(Ok(Some("@"@ + entries_of(list)[k].0))),
{
    let rows = available_rows(list);
    let row = row_of(entries_of(list)[k]);
    law_rows_are_the_prompts(list);
    assert(rows.contains(row));
    let i = rows.index_of(row);
    assert forall|j: int| 0 <= j < rows.len() implies !(#[trigger] rows[j]).0.contains(' ') by {
        reveal_strlit("@");
        assert(rows.contains(rows[j]));
        let m = choose|m: int|
            0 <= m < entries_of(list).len() && rows[j] == row_of(#[trigger] entries_of(list)[m]);
        let name = entries_of(list)[m].0;
        assert(!name.contains(' '));
        if rows[j].0.contains(' ') {
            let at = rows[j].0.index_of(' ');
            assert(at > 0 && name[at - 1] == ' ');
        }
    }
    assert forall|j: int|
        0 <= j < rows.len() && row_line(#[trigger] rows[j]) == row_line(rows[i]) implies rows[j].0
        == rows[i].0 by {
        assert(!rows[i].0.contains(' '));
        law_same_line_same_prompt(rows[j], rows[i]);
    }
    law_chosen_line_gives_its_prompt(rows, i);
}

/// Whatever is chosen from the menu of a prompt list, a text that comes out is an at sign and the
/// name of a listed prompt.
pub proof fn law_outcome_is_a_listed_prompt(
    list: Seq<(Text, Seq<PromptBundleView>)>,
    selection: SelectionView,
)
    ensures
        prompt_step(
            PromptTurnView::Selected(menu_of(available_rows(list)), selection),
        ) matches PromptStepView::Done(Ok(Some(text))) ==> exists|k: int|
            0 <= k < entries_of(list).len() && text == "@"@ + (#[trigger] entries_of(list)[k]).0,
{
    let rows = available_rows(list);
    let step = prompt_step(PromptTurnView::Selected(menu_of(rows), selection));
    if let PromptStepView::Done(Ok(Some(text))) = step {
        let items = selection->Ok_0->Some_0;
        law_offered_lines_stand_for_prompts(rows, items[0]);
        let j = choose|j: int|
            0 <= j < rows.len() && row_line(#[trigger] rows[j]) == items[0] && rows[j].0 == text
                && (forall|k: int| j < k < rows.len() ==> row_line(#[trigger] rows[k]) != items[0]);
        law_rows_are_the_prompts(list);
        assert(rows.contains(rows[j]));
        let k = choose|k: int|
            0 <= k < entries_of(list).len() && rows[j] == row_of(#[trigger] entries_of(list)[k]);
        assert(text == "@"@ + entries_of(list)[k].0);
    }
}

/// What is offered and what the chosen line is looked up in are the same lines: the source of the
/// run is the menu's lines with line breaks between them. Each entry of the menu is a row's line
/// with the row's prompt, in the order of the rows. One line can be chosen, below the header.
pub proof fn law_offer_is_the_menu(rows: Seq<PromptRow>)
    ensures
        rows.len() == 0 ==> step_after_rows(rows) == PromptStepView::Done(Ok(None)),
        rows.len() > 0 ==> {
            &&& step_after_rows(rows) matches PromptStepView::Select(request, menu)
            &&& request.options == (SelectorOptionsView {
                height: "100%"@,
                prompt: "Select prompt: "@,
                reverse: true,
                multi: false,
                header: Some(header_line()),
            })
            &&& menu.len() == rows.len()
            &&& forall|k: int|
                0 <= k < menu.len() ==> (#[trigger] menu[k]).0 == row_line(rows[k]) && menu[k].1
                    == rows[k].0
            &&& request.source == ItemSourceView::Memory(
                joined(menu.map_values(|entry: (Text, Text)| entry.0), "\n"@),
            )
        },
{
    if rows.len() > 0 {
        let menu = menu_of(rows);
        assert(menu.map_values(|entry: (Text, Text)| entry.0) =~= rows.map_values(
            |row: PromptRow| row_line(row),
        ));
    }
}

/// Of the chosen lines the first counts: it gives the prompt of the last entry of the menu with
/// this line, and nothing exactly where the menu has no such entry. Nothing comes of a cancelled
/// run or an empty choice, and a failed run ends the selection with its failure.
pub proof fn law_first_chosen_line_counts(menu: Seq<(Text, Text)>, selection: SelectionView)
    ensures
        ({
            let step = prompt_step(PromptTurnView::Selected(menu, selection));
            match selection {
                Ok(Some(items)) if items.len() > 0 => {
                    ||| exists|j: int|
                        0 <= j < menu.len() && (#[trigger] menu[j]).0 == items[0] && step
                            == PromptStepView::Done(Ok(Some(menu[j].1))) && (forall|k: int|
                            j < k < menu.len() ==> (#[trigger] menu[k]).0 != items[0])
                    ||| step == PromptStepView::Done(Ok(None)) && (forall|k: int|
                        0 <= k < menu.len() ==> (#[trigger] menu[k]).0 != items[0])
                },
                Ok(_) => step == PromptStepView::Done(Ok(None)),
                Err(error) => step == PromptStepView::Done(Err(error)),
            }
        }),
{
    if let Ok(Some(items)) = selection {
        if items.len() > 0 {
            lemma_prompt_for(menu, items[0]);
            match prompt_for(menu, items[0]) {
                Some(prompt) => {
                    let j = choose|j: int|
                        0 <= j < menu.len() && #[trigger] menu[j].0 == items[0] && menu[j].1
                            == prompt && (forall|k: int|
                            j < k < menu.len() ==> #[trigger] menu[k].0 != items[0]);
                    assert(menu[j].0 == items[0]);
                    assert forall|k: int| j < k < menu.len() implies (#[trigger] menu[k]).0
                        != items[0] by {
                        assert(menu[k].0 != items[0]);
                    }
                },
                None => {
                    assert forall|k: int| 0 <= k < menu.len() implies (#[trigger] menu[k]).0
                        != items[0] by {
                        assert(menu[k].0 != items[0]);
                    }
                },
            }
        }
    }
}

/// Every line that a run shows for a prompt list is a line of the menu that goes with the run, at
/// the same place, and choosing it gives the prompt of a row with this line, where no line holds a
/// line break. There is such a run exactly where the list holds a bundle; else nothing comes of it.
pub proof fn law_shown_lines_give_prompts(list: Seq<(Text, Seq<PromptBundleView>)>, i: int)
    requires
        0 <= i < bundle_count(list),
        forall|k: int|
            0 <= k < available_rows(list).len() ==> !row_line(
                #[trigger] available_rows(list)[k],
            ).contains('\n'),
    ensures
        ({
            let rows = available_rows(list);
            &&& prompt_step(
                PromptTurnView::Queried(Ok(PromptQueryResultView::List(list))),
            ) matches PromptStepView::Select(request, menu)
            &&& request.source matches ItemSourceView::Memory(text)
            &&& lines(text).len() == bundle_count(list)
            &&& lines(text)[i] == row_line(rows[i])
            &&& lines(text)[i] == menu[i].0
            &&& exists|j: int|
                0 <= j < rows.len() && row_line(#[trigger] rows[j]) == lines(text)[i]
                    && prompt_step(
                    PromptTurnView::Selected(menu, Ok(Some(seq![lines(text)[i]]))),
                ) == PromptStepView::Done(Ok(Some(rows[j].0)))
        }),
{
    let rows = available_rows(list);
    let menu = menu_of(rows);
    let shown = rows.map_values(|row: PromptRow| row_line(row));
    law_available_rows(list);
    assert forall|k: int| 0 <= k < shown.len() implies !(#[trigger] shown[k]).contains('\n') by {
        assert(!row_line(rows[k]).contains('\n'));
    }
    law_joined_items_are_lines(shown);
    let line = shown[i];
    law_offered_lines_stand_for_prompts(rows, line);
    assert(row_line(rows[i]) == line);
    if let Some(prompt) = prompt_for(menu, line) {
        let j = choose|j: int|
            0 <= j < rows.len() && row_line(#[trigger] rows[j]) == line && rows[j].0 == prompt && (
            forall|k: int| j < k < rows.len() ==> row_line(#[trigger] rows[k]) != line);
        assert(row_line(rows[j]) == line && rows[j].0 == prompt);
    }
}

/// An answer to the query for all prompts is offered as rows; an answer to another query is a
/// failure, and so is a failed query. A list without bundles comes to nothing.
pub proof fn law_answers_to_the_query(
    list: Seq<(Text, Seq<PromptBundleView>)>,
    names: Seq<Text>,
    error: SelectorErrorView,
)
    ensures
        prompt_step(PromptTurnView::Queried(Ok(PromptQueryResultView::List(list))))
            == step_after_rows(available_rows(list)),
        bundle_count(list) == 0 ==> prompt_step(
            PromptTurnView::Queried(Ok(PromptQueryResultView::List(list))),
        ) == PromptStepView::Done(Ok(None)),
        prompt_step(PromptTurnView::Queried(Ok(PromptQueryResultView::Search(names))))
            == PromptStepView::Done(Err(SelectorErrorView::WrongResponse)),
        prompt_step(PromptTurnView::Queried(Err(error))) == PromptStepView::Done(Err(error)),
{
    law_available_rows(list);
}

/// The models of a turn and of a step hold the answer, or the menu with the selection or the run,
/// or the outcome.
pub proof fn law_prompt_models(
    result: PromptQueryResult,
    error: SelectorError,
    menu: PromptMenu,
    selection: Selection,
    request: SelectorRequest,
    query: PromptQuery,
    outcome: Outcome,
)
    ensures
        PromptTurn::Start@ == PromptTurnView::Start,
        PromptTurn::Queried(Ok(result))@ == PromptTurnView::Queried(Ok(result@)),
        PromptTurn::Queried(Err(error))@ == PromptTurnView::Queried(Err(error@)),
        PromptTurn::Selected(menu, selection)@ == PromptTurnView::Selected(
            menu@,
            selection_view(selection),
        ),
        PromptStep::Query(query)@ == PromptStepView::Query(query),
        PromptStep::Select(request, menu)@ == PromptStepView::Select(request@, menu@),
        PromptStep::Done(outcome)@ == PromptStepView::Done(outcome_view(outcome)),
{
}

} // verus!
