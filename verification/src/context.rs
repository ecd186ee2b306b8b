//! The context paths of an agent, offered for removal.
use vstd::prelude::*;
use vstd::string::*;
use crate::options::selector_options;
use crate::options::standard_options;
use crate::selector::item_lines;
use crate::selector::selected_items;
use crate::selector::some_items;
use crate::selector::ItemSource;
use crate::selector::ItemSourceView;
use crate::selector::SelectorRequest;
use crate::selector::SelectorRequestView;
use crate::text::after_first_pair;
use crate::text::first_pair_at;
use crate::text::has_pair;
use crate::text::join;
use crate::text::law_after_first_pair;
use crate::text::pair_at;
use crate::text::rest_after_pair;
use crate::text::starts_with;
use crate::text::Text;

verus! {

/// The context of a session: the paths that were added to it, under the current profile.
#[derive(Debug, PartialEq, Eq)]
pub struct ContextManager {
    pub current_profile: String,
    pub paths: Vec<String>,
}

/// The model of a [`ContextManager`].
pub struct ContextManagerView {
    pub current_profile: Text,
    pub paths: Seq<Text>,
}

impl View for ContextManager {
    type V = ContextManagerView;

    open spec fn view(&self) -> ContextManagerView {
        ContextManagerView {
            current_profile: self.current_profile@,
            paths: self.paths.deep_view(),
        }
    }
}

/// How a path is offered: behind the profile that it belongs to.
pub open spec fn context_item(profile: Text, path: Text) -> Text {
    "(agent: "@ + profile + ") "@ + path
}

/// The path in an offered item: what follows its first closing bracket and space, or all of an
/// item that has none.
pub open spec fn context_path(item: Text) -> Text {
    after_first_pair(item, ')', ' ')
}

/// Whether an item is marked as a global path.
pub open spec fn is_global(item: Text) -> bool {
    "(global)"@.is_prefix_of(item)
}

impl ContextManagerView {
    /// The items that are offered, in the order of the paths.
    pub open spec fn items(self) -> Seq<Text> {
        self.paths.map_values(|path: Text| context_item(self.current_profile, path))
    }

    /// The run that lets a user choose paths, where there are any.
    pub open spec fn request(self) -> Option<SelectorRequestView> {
        if self.paths.len() == 0 {
            None
        } else {
            Some(
                SelectorRequestView {
                    options: standard_options("Select paths to remove: "@, true, None),
                    source: ItemSourceView::Memory(item_lines(self.items())),
                },
            )
        }
    }
}

/// The run that lets a user choose context paths; none where there are no paths.
pub fn select_context_paths_with_skim(context_manager: &ContextManager) -> (request: Option<
    SelectorRequest,
>)
    ensures
        match request {
            Some(request) => context_manager@.request() == Some(request@),
            None => context_manager@.request() is None,
        },
{
    let mut all_paths: Vec<String> = Vec::new();
    let mut i: usize = 0;
    while i < context_manager.paths.len()
        invariant
            i <= context_manager.paths.len(),
            all_paths.len() == i,
            forall|k: int|
                0 <= k < i ==> #[trigger] all_paths@[k]@ == context_item(
                    context_manager.current_profile@,
                    context_manager.paths@[k]@,
                ),
        decreases context_manager.paths.len() - i,
    {
        let mut item: String = "(agent: ".to_owned();
        item.append(context_manager.current_profile.as_str());
        item.append(") ");
        item.append(context_manager.paths[i].as_str());
        all_paths.push(item);
        i = i + 1;
    }
    if all_paths.len() == 0 {
        return None;
    }
    assert(all_paths.deep_view() =~= context_manager@.items());
    Some(
        SelectorRequest {
            options: selector_options("Select paths to remove: ", true),
            source: ItemSource::Memory(join(all_paths.as_slice(), "\n")),
        },
    )
}

/// The paths in the chosen items, and whether any of the items is marked as global.
pub fn chosen_context_paths(selected: &Vec<String>) -> (chosen: (Vec<String>, bool))
    ensures
        chosen.0.deep_view() == selected.deep_view().map_values(|item: Text| context_path(item)),
        chosen.1 == exists|k: int|
            0 <= k < selected.len() && is_global(#[trigger] selected.deep_view()[k]),
{
    let mut paths: Vec<String> = Vec::new();
    let mut has_global: bool = false;
    let ghost items = selected.deep_view();
    let mut i: usize = 0;
    while i < selected.len()
        invariant
            items == selected.deep_view(),
            i <= selected.len(),
            paths.len() == i,
            forall|k: int| 0 <= k < i ==> #[trigger] paths@[k]@ == context_path(items[k]),
            has_global == exists|k: int| 0 <= k < i && is_global(#[trigger] items[k]),
        decreases selected.len() - i,
    {
        let global: bool = starts_with(selected[i].as_str(), "(global)");
        assert(items[i as int] == selected@[i as int]@);
        if global {
            has_global = true;
        }
        paths.push(rest_after_pair(selected[i].as_str(), ')', ' '));
        i = i + 1;
    }
    assert(paths.deep_view() =~= items.map_values(|item: Text| context_path(item)));
    (paths, has_global)
}

/// What came of a run over context paths: the chosen paths and whether one of them is global, or
/// nothing where the run was cancelled or chose nothing.
pub fn selected_context_paths(items: Option<Vec<String>>) -> (chosen: Option<(Vec<String>, bool)>)
    ensures
        match (chosen, some_items(items.deep_view())) {
            (Some(chosen), Some(selected)) => {
                &&& chosen.0.deep_view() == selected.map_values(|item: Text| context_path(item))
                &&& chosen.1 == exists|k: int|
                    0 <= k < selected.len() && is_global(#[trigger] selected[k])
            },
            (None, None) => true,
            _ => false,
        },
{
    match selected_items(items) {
        Some(selected) => Some(chosen_context_paths(&selected)),
        None => None,
    }
}

/// An offered item gives back the path that it was made of, and is never taken for a global one,
/// where the profile's name holds no closing bracket with a space behind it.
pub proof fn law_offered_path_comes_back(profile: Text, path: Text)
    requires
        !has_pair(profile, ')', ' '),
    ensures
        context_path(context_item(profile, path)) == path,
        !is_global(context_item(profile, path)),
{
    reveal_strlit("(agent: ");
    reveal_strlit(") ");
    law_offered_path_is_not_global(profile, path);
    let item = context_item(profile, path);
    let at: int = "(agent: "@.len() + profile.len() as int;
    assert(pair_at(item, ')', ' ', at));
    assert forall|k: int| 0 <= k < at implies !#[trigger] pair_at(item, ')', ' ', k) by {
        if 8 <= k && k + 1 < at {
            assert(!pair_at(profile, ')', ' ', k - 8));
        }
    }
    assert(first_pair_at(item, ')', ' ', at));
    let found = choose|found: int| #[trigger] first_pair_at(item, ')', ' ', found);
    assert(found == at);
    assert(item.skip(at + 2) =~= path);
}

/// An offered item is never taken for a global path.
pub proof fn law_offered_path_is_not_global(profile: Text, path: Text)
    ensures
        !is_global(context_item(profile, path)),
{
    reveal_strlit("(agent: ");
    reveal_strlit(") ");
    reveal_strlit("(global)");
    let item = context_item(profile, path);
    assert(item[1] == 'a');
    assert("(global)"@[1] == 'g');
    if is_global(item) {
        assert(item.subrange(0, 8)[1] == 'g');
    }
}

/// Whatever of the offered items is chosen, the paths that come out are those of the context
/// manager at the chosen places, where the profile's name holds no closing bracket with a space
/// behind it.
pub proof fn law_chosen_paths_are_offered_paths(context_manager: ContextManagerView, picks: Seq<int>)
    requires
        !has_pair(context_manager.current_profile, ')', ' '),
        forall|k: int|
            0 <= k < picks.len() ==> 0 <= #[trigger] picks[k] < context_manager.paths.len(),
    ensures
        picks.map_values(|pick: int| context_manager.items()[pick]).map_values(
            |item: Text| context_path(item),
        ) == picks.map_values(|pick: int| context_manager.paths[pick]),
{
    let items = picks.map_values(|pick: int| context_manager.items()[pick]);
    assert forall|k: int| 0 <= k < picks.len() implies context_path(#[trigger] items[k])
        == context_manager.paths[picks[k]] by {
        law_offered_path_comes_back(
            context_manager.current_profile,
            context_manager.paths[picks[k]],
        );
    }
    assert(items.map_values(|item: Text| context_path(item)) =~= picks.map_values(
        |pick: int| context_manager.paths[pick],
    ));
}

/// Each path is offered on its own, in the order of the paths, behind the profile in brackets.
pub proof fn law_offered_items(context_manager: ContextManagerView)
    ensures
        context_manager.items().len() == context_manager.paths.len(),
        forall|k: int|
            0 <= k < context_manager.paths.len() ==> #[trigger] context_manager.items()[k]
                == "(agent: "@ + context_manager.current_profile + ") "@ + context_manager.paths[k],
{
}

/// The path in an item is what stands behind the first closing bracket and space, whatever stands
/// before them and however the path goes on; an item without them is a path itself. An item is
/// global exactly where it begins with the mark.
pub proof fn law_context_path(before: Text, path: Text)
    ensures
        ({
            let item = before + ") "@ + path;
            (forall|k: int|
                0 <= k < before.len() ==> !(#[trigger] item[k] == ')' && item[k + 1] == ' '))
                ==> context_path(item) == path
        }),
        (forall|k: int|
            0 <= k < path.len() - 1 ==> !(#[trigger] path[k] == ')' && path[k + 1] == ' '))
            ==> context_path(path) == path,
        is_global("(global)"@ + path),
        is_global(path) ==> path.len() >= 8 && path.take(8) == "(global)"@,
{
    reveal_strlit(") ");
    reveal_strlit("(global)");
    assert(") "@ =~= seq![')', ' ']);
    law_after_first_pair(before, path, ')', ' ');
    law_after_first_pair(path, Seq::empty(), ')', ' ');
    assert(("(global)"@ + path).subrange(0, 8) =~= "(global)"@);
}

/// The model of a context holds its profile and each of its paths at the path's place.
pub proof fn law_context_model(context_manager: ContextManager)
    ensures
        context_manager@.current_profile == context_manager.current_profile@,
        context_manager@.paths.len() == context_manager.paths@.len(),
        forall|k: int|
            0 <= k < context_manager.paths@.len() ==> #[trigger] context_manager@.paths[k]
                == context_manager.paths@[k]@,
{
}

} // verus!
