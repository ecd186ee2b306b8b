//! How a selector run is set up.
use skim::options::SkimOptions;
use skim::options::SkimOptionsBuilder;
use vstd::prelude::*;
use vstd::string::*;
use crate::errors::SelectorError;
use crate::text::Text;

verus! {

/// The fuzzy selector's own options, as `skim` takes them.
#[verifier::external_type_specification]
#[verifier::external_body]
pub struct ExSkimOptions(skim::options::SkimOptions);

/// What is asked of the selector: its height, its prompt, whether the list runs from the top,
/// whether several items can be chosen, and a header line above the items.
#[derive(Debug, PartialEq, Eq)]
pub struct SelectorOptions {
    pub height: String,
    pub prompt: String,
    pub reverse: bool,
    pub multi: bool,
    pub header: Option<String>,
}

/// The model of [`SelectorOptions`].
pub struct SelectorOptionsView {
    pub height: Text,
    pub prompt: Text,
    pub reverse: bool,
    pub multi: bool,
    pub header: Option<Text>,
}

impl View for SelectorOptions {
    type V = SelectorOptionsView;

    open spec fn view(&self) -> SelectorOptionsView {
        SelectorOptionsView {
            height: self.height@,
            prompt: self.prompt@,
            reverse: self.reverse,
            multi: self.multi,
            header: self.header.deep_view(),
        }
    }
}

/// The styling that all selectors share: full height, listed from the top.
pub open spec fn standard_options(prompt: Text, multi: bool, header: Option<Text>) -> SelectorOptionsView {
    SelectorOptionsView { height: "100%"@, prompt, reverse: true, multi, header }
}

/// The height that `options` holds.
pub uninterp spec fn skim_height(options: SkimOptions) -> Seq<char>;

/// The prompt that `options` holds.
pub uninterp spec fn skim_prompt(options: SkimOptions) -> Seq<char>;

/// Whether `options` lists the items from the top.
pub uninterp spec fn skim_reverse(options: SkimOptions) -> bool;

/// Whether `options` lets several items be chosen.
pub uninterp spec fn skim_multi(options: SkimOptions) -> bool;

/// The header line that `options` holds.
pub uninterp spec fn skim_header(options: SkimOptions) -> Option<Seq<char>>;

/// The layout that `options` holds.
pub uninterp spec fn skim_layout(options: SkimOptions) -> Seq<char>;

/// What `options` asks of the selector.
pub open spec fn skim_settings(options: SkimOptions) -> SelectorOptionsView {
    SelectorOptionsView {
        height: skim_height(options),
        prompt: skim_prompt(options),
        reverse: skim_reverse(options),
        multi: skim_multi(options),
        header: skim_header(options),
    }
}

/// The layout that goes with a list from the top, and the one that goes with any other list.
pub open spec fn layout_for(reverse: bool) -> Text {
    if reverse {
        "reverse"@
    } else {
        "default"@
    }
}

/// Sets height, prompt, `reverse`, `multi` and header on a fresh `skim::options::SkimOptionsBuilder`
/// and calls its `build`. The claim is that options always come out, since every option that is not
/// set has a default and none is validated, that they hold the five values in the fields of the
/// same names, and that their layout follows `reverse`.
#[verifier::external_body]
fn build_with_skim(
    height: String,
    prompt: String,
    reverse: bool,
    multi: bool,
    header: Option<String>,
) -> (built: Result<SkimOptions, String>)
    ensures
        built is Ok,
        skim_height(built->Ok_0) == height@,
        skim_prompt(built->Ok_0) == prompt@,
        skim_reverse(built->Ok_0) == reverse,
        skim_multi(built->Ok_0) == multi,
        skim_header(built->Ok_0) == header.deep_view(),
        skim_layout(built->Ok_0) == layout_for(reverse),
{
    SkimOptionsBuilder::default()
        .height(height)
        .prompt(prompt)
        .reverse(reverse)
        .multi(multi)
        .header(header)
        .build()
        .map_err(|error| error.to_string())
}

/// Options in the standard styling, under the given prompt, without a header.
pub fn selector_options(prompt: &str, multi: bool) -> (options: SelectorOptions)
    ensures
        options@ == standard_options(prompt@, multi, None),
        options.height@ == "100%"@,
        options.prompt@ == prompt@,
        options.reverse,
        options.multi == multi,
        options.header is None,
{
    SelectorOptions {
        height: "100%".to_owned(),
        prompt: prompt.to_owned(),
        reverse: true,
        multi,
        header: None,
    }
}

/// What a selector run gets for options, given what the options builder made: the options,
/// or the builder's error as an error of this library.
pub fn accept_built_options(built: Result<SkimOptions, String>) -> (accepted: Result<
    SkimOptions,
    SelectorError,
>)
    ensures
        match built {
            Ok(options) => accepted == Ok::<SkimOptions, SelectorError>(options),
            Err(cause) => accepted == Err::<SkimOptions, SelectorError>(
                SelectorError::Options(cause),
            ),
        },
{
    match built {
        Ok(options) => Ok(options),
        Err(cause) => Err(SelectorError::Options(cause)),
    }
}

/// The `skim` options for `options`: they hold what `options` asks for.
pub fn create_skim_options(options: &SelectorOptions) -> (created: Result<
    SkimOptions,
    SelectorError,
>)
    ensures
        created matches Ok(built) && skim_settings(built) == options@ && skim_layout(built)
            == layout_for(options.reverse),
        created matches Ok(built) && skim_height(built) == options.height@ && skim_prompt(built)
            == options.prompt@ && skim_reverse(built) == options.reverse && skim_multi(built)
            == options.multi && skim_header(built) == options.header.deep_view(),
{
    let header: Option<String> = match &options.header {
        Some(header) => Some(header.clone()),
        None => None,
    };
    accept_built_options(
        build_with_skim(
            options.height.clone(),
            options.prompt.clone(),
            options.reverse,
            options.multi,
            header,
        ),
    )
}

/// All selectors share their styling: whatever the prompt, the choice and the header, the list is
/// as high as the screen and runs from the top, and these three are taken over as they are.
pub proof fn law_standard_options(prompt: Text, multi: bool, header: Option<Text>)
    ensures
        standard_options(prompt, multi, header).height == "100%"@,
        standard_options(prompt, multi, header).reverse,
        standard_options(prompt, multi, header).prompt == prompt,
        standard_options(prompt, multi, header).multi == multi,
        standard_options(prompt, multi, header).header == header,
{
}

} // verus!
