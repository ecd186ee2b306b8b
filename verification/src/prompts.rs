//! The prompts that servers offer, and the queries that ask for them.
use vstd::prelude::*;
use vstd::string::*;
use crate::text::join;
use crate::text::joined;
use crate::text::law_joined;
use crate::text::Text;

verus! {

/// An argument that a prompt takes. One that does not say whether it is required is optional.
#[derive(Debug, Clone, PartialEq, Eq)]
pub struct PromptArgument {
    pub name: String,
    pub description: Option<String>,
    pub required: Option<bool>,
}

/// A prompt as its server describes it.
#[derive(Debug, Clone, PartialEq, Eq)]
pub struct Prompt {
    pub name: String,
    pub description: Option<String>,
    pub arguments: Option<Vec<PromptArgument>>,
}

/// A prompt, together with the name of the server that offers it.
#[derive(Debug, Clone, PartialEq, Eq)]
pub struct PromptBundle {
    pub server_name: String,
    pub prompt_get: Prompt,
}

/// What can be asked of the prompt servers.
#[derive(Debug, Clone, PartialEq, Eq)]
pub enum PromptQuery {
    /// All prompts.
    List,
    /// The prompts whose names match.
    Search(Option<String>),
}

/// The answer to a [`PromptQuery`].
#[derive(Debug, Clone, PartialEq, Eq)]
pub enum PromptQueryResult {
    /// Each prompt name with the bundles that carry it.
    List(Vec<(String, Vec<PromptBundle>)>),
    /// The names that matched.
    Search(Vec<String>),
}

/// The model of a [`PromptArgument`].
pub struct PromptArgumentView {
    pub name: Text,
    pub description: Option<Text>,
    pub required: Option<bool>,
}

/// The model of a [`Prompt`].
pub struct PromptView {
    pub name: Text,
    pub description: Option<Text>,
    pub arguments: Option<Seq<PromptArgumentView>>,
}

/// The model of a [`PromptBundle`].
pub struct PromptBundleView {
    pub server_name: Text,
    pub prompt_get: PromptView,
}

/// The model of a [`PromptQueryResult`].
pub enum PromptQueryResultView {
    List(Seq<(Text, Seq<PromptBundleView>)>),
    Search(Seq<Text>),
}

impl View for PromptArgument {
    type V = PromptArgumentView;

    open spec fn view(&self) -> PromptArgumentView {
        PromptArgumentView {
            name: self.name@,
            description: self.description.deep_view(),
            required: self.required,
        }
    }
}

impl DeepView for PromptArgument {
    type V = PromptArgumentView;

    open spec fn deep_view(&self) -> PromptArgumentView {
        self@
    }
}

impl View for Prompt {
    type V = PromptView;

    open spec fn view(&self) -> PromptView {
        PromptView {
            name: self.name@,
            description: self.description.deep_view(),
            arguments: self.arguments.deep_view(),
        }
    }
}

impl View for PromptBundle {
    type V = PromptBundleView;

    open spec fn view(&self) -> PromptBundleView {
        PromptBundleView { server_name: self.server_name@, prompt_get: self.prompt_get@ }
    }
}

impl DeepView for PromptBundle {
    type V = PromptBundleView;

    open spec fn deep_view(&self) -> PromptBundleView {
        self@
    }
}

impl View for PromptQueryResult {
    type V = PromptQueryResultView;

    open spec fn view(&self) -> PromptQueryResultView {
        match self {
            PromptQueryResult::List(list) => PromptQueryResultView::List(list.deep_view()),
            PromptQueryResult::Search(names) => PromptQueryResultView::Search(names.deep_view()),
        }
    }
}

impl DeepView for PromptQueryResult {
    type V = PromptQueryResultView;

    open spec fn deep_view(&self) -> PromptQueryResultView {
        self@
    }
}

impl PromptArgumentView {
    /// The argument's name, with a star behind it where the argument is required.
    pub open spec fn label(self) -> Text {
        if self.required == Some(true) {
            self.name + "*"@
        } else {
            self.name
        }
    }
}

impl PromptBundleView {
    /// The labels of the prompt's arguments, with commas between them.
    pub open spec fn arguments_text(self) -> Text {
        match self.prompt_get.arguments {
            Some(arguments) => joined(
                arguments.map_values(|argument: PromptArgumentView| argument.label()),
                ", "@,
            ),
            None => Seq::empty(),
        }
    }

    /// The prompt's description, or a note that it has none.
    pub open spec fn description_text(self) -> Text {
        match self.prompt_get.description {
            Some(description) => description,
            None => "No description"@,
        }
    }
}

/// The arguments text of a prompt is one text for each argument, in their order and with a comma
/// and a space between them: the argument's name, with a star behind it exactly where the argument
/// is required. A prompt that declares no arguments has an empty one.
pub proof fn law_arguments_text(bundle: PromptBundleView, texts: Seq<Text>)
    ensures
        bundle.prompt_get.arguments is None ==> bundle.arguments_text().len() == 0,
        bundle.prompt_get.arguments matches Some(arguments) ==> {
            &&& arguments.len() == 0 ==> bundle.arguments_text().len() == 0
            &&& texts.len() == arguments.len() && (forall|k: int|
                0 <= k < texts.len() ==> #[trigger] texts[k] == if arguments[k].required == Some(
                    true,
                ) {
                    arguments[k].name + "*"@
                } else {
                    arguments[k].name
                }) ==> bundle.arguments_text() == joined(texts, ", "@)
        },
{
    if let Some(arguments) = bundle.prompt_get.arguments {
        let labels = arguments.map_values(|argument: PromptArgumentView| argument.label());
        if texts.len() == arguments.len() && (forall|k: int|
            0 <= k < texts.len() ==> #[trigger] texts[k] == if arguments[k].required == Some(
                true,
            ) {
                arguments[k].name + "*"@
            } else {
                arguments[k].name
            }) {
            assert(labels =~= texts);
        }
    }
}

/// Arguments that are declared one after the other show one after the other: the text of all is
/// the text of the first ones, a comma and a space, and the text of the rest.
pub proof fn law_arguments_text_of_more_arguments(
    first: PromptBundleView,
    rest: PromptBundleView,
    all: PromptBundleView,
    argument: PromptArgumentView,
)
    ensures
        first.prompt_get.arguments matches Some(a) ==> rest.prompt_get.arguments matches Some(b)
            ==> a.len() > 0 && b.len() > 0 && all.prompt_get.arguments == Some(a + b)
            ==> all.arguments_text() == first.arguments_text() + ", "@ + rest.arguments_text(),
        all.prompt_get.arguments == Some(seq![argument]) ==> all.arguments_text() == (
        if argument.required == Some(true) {
            argument.name + "*"@
        } else {
            argument.name
        }),
{
    if let Some(a) = first.prompt_get.arguments {
        if let Some(b) = rest.prompt_get.arguments {
            if a.len() > 0 && b.len() > 0 && all.prompt_get.arguments == Some(a + b) {
                let x = a.map_values(|argument: PromptArgumentView| argument.label());
                let y = b.map_values(|argument: PromptArgumentView| argument.label());
                assert((a + b).map_values(|argument: PromptArgumentView| argument.label()) =~= x
                    + y);
                law_joined(x, y, Seq::empty(), ", "@);
            }
        }
    }
}

/// A prompt shows its own description where it has one, whatever that is, and a fixed note where it
/// has none.
pub proof fn law_description_text(bundle: PromptBundleView)
    ensures
        bundle.prompt_get.description matches Some(description) ==> bundle.description_text()
            == description,
        bundle.prompt_get.description is None ==> bundle.description_text() == "No description"@,
{
}

impl PromptArgument {
    /// The argument's name, with a star behind it where the argument is required.
    fn label(&self) -> (label: String)
        ensures
            label@ == self@.label(),
    {
        match self.required {
            Some(true) => self.name.clone().concat("*"),
            _ => self.name.clone(),
        }
    }
}

impl PromptBundle {
    /// The names of the prompt's arguments, with commas between them; a star marks a required one.
    pub fn format_arguments_for_display(&self) -> (text: String)
        ensures
            text@ == self@.arguments_text(),
    {
        match &self.prompt_get.arguments {
            Some(arguments) => {
                let mut labels: Vec<String> = Vec::new();
                let mut i: usize = 0;
                while i < arguments.len()
                    invariant
                        i <= arguments.len(),
                        labels.len() == i,
                        forall|k: int| 0 <= k < i ==> labels@[k]@ == arguments@[k]@.label(),
                    decreases arguments.len() - i,
                {
                    labels.push(arguments[i].label());
                    i = i + 1;
                }
                proof {
                    assert(labels.deep_view() =~= arguments.deep_view().map_values(
                        |argument: PromptArgumentView| argument.label(),
                    ));
                }
                join(labels.as_slice(), ", ")
            },
            None => String::new(),
        }
    }

    /// The prompt's description, or a note that it has none.
    pub fn description_or_default(&self) -> (text: String)
        ensures
            text@ == self@.description_text(),
    {
        match &self.prompt_get.description {
            Some(description) => description.clone(),
            None => "No description".to_owned(),
        }
    }
}

/// The model of a bundle holds all that the bundle holds: its server, its description, and each of
/// its arguments at the argument's place.
pub proof fn law_bundle_model(bundle: PromptBundle)
    ensures
        bundle@.server_name == bundle.server_name@,
        bundle@.prompt_get.name == bundle.prompt_get.name@,
        bundle@.prompt_get.description is Some <==> bundle.prompt_get.description is Some,
        bundle.prompt_get.description matches Some(description)
            ==> bundle@.prompt_get.description == Some(description@),
        bundle@.prompt_get.arguments is Some <==> bundle.prompt_get.arguments is Some,
        bundle.prompt_get.arguments matches Some(arguments) ==> {
            &&& bundle@.prompt_get.arguments matches Some(models)
            &&& models.len() == arguments@.len()
            &&& forall|k: int|
                0 <= k < models.len() ==> (#[trigger] models[k]).name == arguments@[k].name@
                    && models[k].required == arguments@[k].required
        },
        bundle.deep_view() == bundle@,
{
}

/// The model of an answer holds each listed name at its place, with the model of each of its
/// bundles.
pub proof fn law_answer_model(list: Vec<(String, Vec<PromptBundle>)>, names: Vec<String>)
    ensures
        PromptQueryResult::List(list)@ matches PromptQueryResultView::List(models) && models
            == list.deep_view() && models.len() == list@.len(),
        forall|i: int|
            0 <= i < list@.len() ==> (#[trigger] list.deep_view()[i]).0 == list@[i].0@
                && list.deep_view()[i].1.len() == list@[i].1@.len(),
        forall|i: int, j: int|
            0 <= i < list@.len() && 0 <= j < list@[i].1@.len() ==> (
            #[trigger] list.deep_view()[i].1[j]) == list@[i].1@[j]@,
        PromptQueryResult::Search(names)@ is Search,
{
}

} // verus!
