//! Selector runs: what a run is given, and what it gives back.
use vstd::prelude::*;
use vstd::string::*;
use crate::errors::SelectorError;
use crate::errors::SelectorErrorView;
use crate::options::selector_options;
use crate::options::standard_options;
use crate::options::SelectorOptions;
use crate::options::SelectorOptionsView;
use crate::text::join;
use crate::text::joined;
use crate::text::law_joined_items_are_lines;
use crate::text::lines;
use crate::text::Text;

verus! {

/// Where a selector run reads its items from, one item on each line.
#[derive(Debug, PartialEq, Eq)]
pub enum ItemSource {
    /// A temporary file with this text.
    TempFile(String),
    /// This text itself.
    Memory(String),
    /// What this script prints when a shell runs it.
    Shell(String),
}

/// The model of an [`ItemSource`].
pub enum ItemSourceView {
    TempFile(Text),
    Memory(Text),
    Shell(Text),
}

impl View for ItemSource {
    type V = ItemSourceView;

    open spec fn view(&self) -> ItemSourceView {
        match self {
            ItemSource::TempFile(text) => ItemSourceView::TempFile(text@),
            ItemSource::Memory(text) => ItemSourceView::Memory(text@),
            ItemSource::Shell(script) => ItemSourceView::Shell(script@),
        }
    }
}

/// A selector run: its options and its items.
#[derive(Debug, PartialEq, Eq)]
pub struct SelectorRequest {
    pub options: SelectorOptions,
    pub source: ItemSource,
}

/// The model of a [`SelectorRequest`].
pub struct SelectorRequestView {
    pub options: SelectorOptionsView,
    pub source: ItemSourceView,
}

impl View for SelectorRequest {
    type V = SelectorRequestView;

    open spec fn view(&self) -> SelectorRequestView {
        SelectorRequestView { options: self.options@, source: self.source@ }
    }
}

/// How a selector run ended: whether it was aborted, and the texts of the selected items.
#[derive(Debug, PartialEq, Eq)]
pub struct SelectorOutput {
    pub is_abort: bool,
    pub selected_items: Vec<String>,
}

/// What came of a selector run: the items that were accepted, or the failure.
pub type Selection = Result<Option<Vec<String>>, SelectorError>;

/// The model of a [`Selection`].
pub type SelectionView = Result<Option<Seq<Text>>, SelectorErrorView>;

/// The model of `selection`.
pub open spec fn selection_view(selection: Selection) -> SelectionView {
    match selection {
        Ok(items) => Ok(items.deep_view()),
        Err(error) => Err(error@),
    }
}

/// What the whole interaction comes to: a text for the input line, nothing, or a failure.
pub type Outcome = Result<Option<String>, SelectorError>;

/// The model of an [`Outcome`].
pub type OutcomeView = Result<Option<Text>, SelectorErrorView>;

/// The model of `outcome`.
pub open spec fn outcome_view(outcome: Outcome) -> OutcomeView {
    match outcome {
        Ok(text) => Ok(text.deep_view()),
        Err(error) => Err(error@),
    }
}

/// The items as the text of a list, one on each line.
pub open spec fn item_lines(items: Seq<Text>) -> Text {
    joined(items, "\n"@)
}

/// Lists the files to choose from: those that git tracks or would track, or, outside of a git
/// repository, all files below the current directory that are not hidden.
pub const FIND_FILES_SCRIPT: &'static str = r#"
    # Check if git is available and we're in a git repo
    if command -v git >/dev/null 2>&1 && git rev-parse --is-inside-work-tree >/dev/null 2>&1; then
        # Git repository - respect .gitignore
        { git ls-files; git ls-files --others --exclude-standard; } | sort | uniq
    else
        # Not a git repository or git not installed - use find command
        find . -type f -not -path '*/\.*'
    fi
    "#;

/// The accepted items of a run: none where the run failed inside the selector or was aborted.
pub open spec fn accepted(output: Option<SelectorOutput>) -> Option<Seq<Text>> {
    match output {
        Some(output) => if output.is_abort {
            None
        } else {
            Some(output.selected_items.deep_view())
        },
        None => None,
    }
}

/// `items` where there are any; an empty list counts as none.
pub open spec fn some_items(items: Option<Seq<Text>>) -> Option<Seq<Text>> {
    match items {
        Some(items) => if items.len() > 0 {
            Some(items)
        } else {
            None
        },
        None => None,
    }
}

/// The run that lets a user choose from `items`, handed over in a temporary file.
pub fn launch_skim_selector(items: &[String], prompt: &str, multi: bool) -> (request:
    SelectorRequest)
    ensures
        request@ == (SelectorRequestView {
            options: standard_options(prompt@, multi, None),
            source: ItemSourceView::TempFile(item_lines(items.deep_view())),
        }),
{
    SelectorRequest {
        options: selector_options(prompt, multi),
        source: ItemSource::TempFile(join(items, "\n")),
    }
}

/// The run that lets a user choose files.
pub fn select_files_with_skim() -> (request: SelectorRequest)
    ensures
        request@ == (SelectorRequestView {
            options: standard_options("Select files: "@, true, None),
            source: ItemSourceView::Shell(FIND_FILES_SCRIPT@),
        }),
{
    SelectorRequest {
        options: selector_options("Select files: ", true),
        source: ItemSource::Shell(FIND_FILES_SCRIPT.to_owned()),
    }
}

/// The items that a run ended with, unless it was aborted.
pub fn accepted_items(output: Option<SelectorOutput>) -> (items: Option<Vec<String>>)
    ensures
        items.deep_view() == accepted(output),
{
    match output {
        Some(output) => if output.is_abort {
            None
        } else {
            Some(output.selected_items)
        },
        None => None,
    }
}

/// The items, where there are any: neither a cancelled run nor an empty choice is a selection.
pub fn selected_items(items: Option<Vec<String>>) -> (selected: Option<Vec<String>>)
    ensures
        selected.deep_view() == some_items(items.deep_view()),
        selected matches Some(chosen) ==> items == Some(chosen),
{
    match items {
        Some(items) => if items.len() > 0 {
            Some(items)
        } else {
            None
        },
        None => None,
    }
}

/// The items stand on the lines of the list, one on each, where no item holds a line break.
pub proof fn law_item_lines(items: Seq<Text>)
    ensures
        item_lines(items) == joined(items, "\n"@),
        items.len() > 0 && (forall|i: int|
            0 <= i < items.len() ==> !(#[trigger] items[i]).contains('\n')) ==> lines(
            item_lines(items),
        ) == items,
{
    if items.len() > 0 && (forall|i: int|
        0 <= i < items.len() ==> !(#[trigger] items[i]).contains('\n')) {
        law_joined_items_are_lines(items);
    }
}

/// A run that ended without an abort is accepted with all that was selected, in its order; an
/// aborted run, or one that gave no output, with nothing.
pub proof fn law_accepted(output: Option<SelectorOutput>)
    ensures
        accepted(output) is Some <==> output is Some && !output->Some_0.is_abort,
        accepted(output) matches Some(items) ==> {
            &&& items.len() == output->Some_0.selected_items@.len()
            &&& forall|k: int|
                0 <= k < items.len() ==> #[trigger] items[k] == output->Some_0.selected_items@[k]@
        },
{
}

/// An empty choice is none; any other is kept as it is.
pub proof fn law_some_items(items: Option<Seq<Text>>)
    ensures
        some_items(items) is None <==> items is None || items == Some(Seq::<Text>::empty()),
        some_items(items) is Some ==> some_items(items) == items,
{
    if let Some(chosen) = items {
        if chosen.len() == 0 {
            assert(chosen =~= Seq::<Text>::empty());
        }
    }
}

/// The models of a selection and of an outcome hold the texts themselves.
pub proof fn law_models_hold_the_texts(selection: Selection, outcome: Outcome)
    ensures
        selection matches Ok(None) ==> selection_view(selection) == Ok::<
            Option<Seq<Text>>,
            SelectorErrorView,
        >(None),
        selection matches Ok(Some(items)) ==> {
            &&& selection_view(selection) matches Ok(Some(texts))
            &&& texts.len() == items@.len()
            &&& forall|k: int| 0 <= k < texts.len() ==> #[trigger] texts[k] == items@[k]@
        },
        selection matches Err(error) ==> selection_view(selection) == Err::<
            Option<Seq<Text>>,
            SelectorErrorView,
        >(error@),
        outcome matches Ok(None) ==> outcome_view(outcome) == Ok::<
            Option<Text>,
            SelectorErrorView,
        >(None),
        outcome matches Ok(Some(text)) ==> outcome_view(outcome) == Ok::<
            Option<Text>,
            SelectorErrorView,
        >(Some(text@)),
        outcome matches Err(error) ==> outcome_view(outcome) == Err::<
            Option<Text>,
            SelectorErrorView,
        >(error@),
{
}

/// The model of a run holds its options one by one, and the text of its source.
pub proof fn law_request_model(request: SelectorRequest)
    ensures
        request@.options.height == request.options.height@,
        request@.options.prompt == request.options.prompt@,
        request@.options.reverse == request.options.reverse,
        request@.options.multi == request.options.multi,
        request.options.header is None ==> request@.options.header is None,
        request.options.header matches Some(header) ==> request@.options.header == Some(header@),
        request.source matches ItemSource::TempFile(text) ==> request@.source
            == ItemSourceView::TempFile(text@),
        request.source matches ItemSource::Memory(text) ==> request@.source
            == ItemSourceView::Memory(text@),
        request.source matches ItemSource::Shell(script) ==> request@.source
            == ItemSourceView::Shell(script@),
{
}

} // verus!
