//! Prompts grouped by server, servers and prompts in alphabetical order.
use vstd::prelude::*;
use vstd::string::*;
use crate::order::law_text_order;
use crate::order::str_le;
use crate::order::text_le;
use crate::order::text_lt;
use crate::prompts::PromptBundle;
use crate::prompts::PromptBundleView;
use crate::text::same_text;
use crate::text::Text;

verus! {

/// A bundle under the prompt name that it was listed by.
pub type PromptEntry = (Text, PromptBundleView);

/// A server's name and the entries of that server.
pub type ServerGroup = (Text, Seq<PromptEntry>);

/// The entries of a prompt list, in the order of the list.
pub open spec fn entries_of(prompts: Seq<(Text, Seq<PromptBundleView>)>) -> Seq<PromptEntry>
    decreases prompts.len(),
{
    if prompts.len() == 0 {
        Seq::empty()
    } else {
        entries_of(prompts.drop_last()) + entries_under(prompts.last().0, prompts.last().1)
    }
}

/// The bundles as entries under `name`.
pub open spec fn entries_under(name: Text, bundles: Seq<PromptBundleView>) -> Seq<PromptEntry> {
    bundles.map_values(|bundle: PromptBundleView| (name, bundle))
}

/// How many bundles a prompt list holds, over all its names.
pub open spec fn bundle_count(prompts: Seq<(Text, Seq<PromptBundleView>)>) -> nat
    decreases prompts.len(),
{
    if prompts.len() == 0 {
        0
    } else {
        prompts[0].1.len() + bundle_count(prompts.drop_first())
    }
}

/// The entries of two lists, one after the other, are the entries of the first and then those of
/// the second. A list of one name has its bundles under that name, in their order.
pub proof fn law_entries_of_lists(
    a: Seq<(Text, Seq<PromptBundleView>)>,
    b: Seq<(Text, Seq<PromptBundleView>)>,
    item: (Text, Seq<PromptBundleView>),
)
    ensures
        entries_of(Seq::empty()).len() == 0,
        entries_of(seq![item]).len() == item.1.len(),
        forall|j: int|
            0 <= j < item.1.len() ==> #[trigger] entries_of(seq![item])[j] == (item.0, item.1[j]),
        entries_of(a + b) == entries_of(a) + entries_of(b),
    decreases b.len(),
{
    reveal_with_fuel(entries_of, 2);
    assert(seq![item].drop_last() =~= Seq::<(Text, Seq<PromptBundleView>)>::empty());
    assert(entries_of(seq![item]) =~= entries_under(item.0, item.1));
    if b.len() == 0 {
        assert(a + b =~= a);
        assert(entries_of(a) + entries_of(b) =~= entries_of(a));
    } else {
        law_entries_of_lists(a, b.drop_last(), item);
        assert((a + b).drop_last() =~= a + b.drop_last());
        assert(entries_of(a + b) =~= entries_of(a) + entries_of(b));
    }
}

/// A list has as many entries as bundles.
pub proof fn law_entry_for_each_bundle(list: Seq<(Text, Seq<PromptBundleView>)>)
    ensures
        entries_of(list).len() == bundle_count(list),
    decreases list.len(),
{
    if list.len() > 0 {
        law_entry_for_each_bundle(list.drop_first());
        law_entries_of_lists(seq![list[0]], list.drop_first(), list[0]);
        assert(seq![list[0]] + list.drop_first() =~= list);
    }
}

/// Each bundle of a list is an entry under the name that it is listed by. It stands behind the
/// entries of all earlier names and of the earlier bundles under its own name.
pub proof fn law_listed_bundles_are_entries(
    list: Seq<(Text, Seq<PromptBundleView>)>,
    i: int,
    j: int,
)
    requires
        0 <= i < list.len(),
        0 <= j < list[i].1.len(),
    ensures
        bundle_count(list.take(i)) + j < entries_of(list).len(),
        entries_of(list)[bundle_count(list.take(i)) + j] == (list[i].0, list[i].1[j]),
        entries_of(list).contains((list[i].0, list[i].1[j])),
{
    let before = list.take(i);
    let own = seq![list[i]];
    let after = list.skip(i + 1);
    law_entry_for_each_bundle(before);
    law_entries_of_lists(before, own, list[i]);
    law_entries_of_lists(before + own, after, list[i]);
    assert((before + own) + after =~= list);
    assert(entries_of(own)[j] == (list[i].0, list[i].1[j]));
    assert(entries_of(list)[bundle_count(before) + j] == (list[i].0, list[i].1[j]));
}

/// Each entry of a list is one of its bundles, at one of the places that the bundles have.
pub proof fn law_entries_are_listed_bundles(list: Seq<(Text, Seq<PromptBundleView>)>, k: int)
    requires
        0 <= k < entries_of(list).len(),
    ensures
        exists|i: int, j: int|
            0 <= i < list.len() && 0 <= j < list[i].1.len() && k == bundle_count(list.take(i)) + j
                && entries_of(list)[k] == (list[i].0, #[trigger] list[i].1[j]),
    decreases list.len(),
{
    let rest = list.drop_last();
    let last = list.len() - 1;
    law_entry_for_each_bundle(rest);
    assert(list.take(last) =~= rest);
    if k < entries_of(rest).len() {
        law_entries_are_listed_bundles(rest, k);
        let (i, j) = choose|i: int, j: int|
            0 <= i < rest.len() && 0 <= j < rest[i].1.len() && k == bundle_count(rest.take(i)) + j
                && entries_of(rest)[k] == (rest[i].0, #[trigger] rest[i].1[j]);
        assert(rest.take(i) =~= list.take(i));
        assert(entries_of(list)[k] == (list[i].0, list[i].1[j]));
    } else {
        let j = k - entries_of(rest).len();
        assert(entries_of(list)[k] == (list[last].0, list[last].1[j]));
    }
}

/// Picks the entries under the prompt name `name`.
pub open spec fn is_named(name: Text) -> spec_fn(PromptEntry) -> bool {
    |entry: PromptEntry| entry.0 == name
}

/// The entries under the prompt name `name`, in their order.
pub open spec fn with_name(entries: Seq<PromptEntry>, name: Text) -> Seq<PromptEntry> {
    entries.filter(is_named(name))
}

/// Picks the entries of the server `server` under the prompt name `name`.
pub open spec fn is_of_server_and_named(server: Text, name: Text) -> spec_fn(PromptEntry) -> bool {
    |entry: PromptEntry| entry.1.server_name == server && entry.0 == name
}

/// The entries of the server `server` under the prompt name `name`, in their order.
pub open spec fn with_server_and_name(
    entries: Seq<PromptEntry>,
    server: Text,
    name: Text,
) -> Seq<PromptEntry> {
    entries.filter(is_of_server_and_named(server, name))
}

/// The entries that `groups` has for `server`: none where it has no such group.
pub open spec fn group_for(groups: Seq<ServerGroup>, server: Text) -> Seq<PromptEntry>
    decreases groups.len(),
{
    if groups.len() == 0 {
        Seq::empty()
    } else if groups.last().0 == server {
        groups.last().1
    } else {
        group_for(groups.drop_last(), server)
    }
}

/// Whether the prompt names are in alphabetical order.
pub open spec fn names_ascending(entries: Seq<PromptEntry>) -> bool {
    forall|i: int, j: int|
        0 <= i <= j < entries.len() ==> text_le(#[trigger] entries[i].0, #[trigger] entries[j].0)
}

/// Whether the servers are in strict alphabetical order, no group is empty, and each group is
/// in alphabetical order of prompt names.
pub open spec fn groups_ascending(groups: Seq<ServerGroup>) -> bool {
    &&& forall|i: int, j: int|
        0 <= i < j < groups.len() ==> text_lt(#[trigger] groups[i].0, #[trigger] groups[j].0)
    &&& forall|i: int|
        0 <= i < groups.len() ==> #[trigger] groups[i].1.len() > 0 && names_ascending(groups[i].1)
}

/// Whether `groups` is what grouping and sorting makes of `entries`: everything is in
/// alphabetical order, each server has exactly its own entries, and entries of one server under
/// one name keep their order.
pub open spec fn is_grouping(entries: Seq<PromptEntry>, groups: Seq<ServerGroup>) -> bool {
    &&& groups_ascending(groups)
    &&& forall|server: Text, name: Text| #[trigger]
        with_name(group_for(groups, server), name) == with_server_and_name(entries, server, name)
}

/// `items` with `entry` put behind all items whose name does not come after its own.
pub open spec fn insert_by_name(items: Seq<PromptEntry>, entry: PromptEntry) -> Seq<PromptEntry>
    decreases items.len(),
{
    if items.len() == 0 || text_le(items.last().0, entry.0) {
        items.push(entry)
    } else {
        insert_by_name(items.drop_last(), entry).push(items.last())
    }
}

/// `groups` with `entry` added to the group of its server, which is made where it is missing.
pub open spec fn insert_entry(groups: Seq<ServerGroup>, entry: PromptEntry) -> Seq<ServerGroup>
    decreases groups.len(),
{
    let server = entry.1.server_name;
    if groups.len() == 0 || text_lt(groups.last().0, server) {
        groups.push((server, seq![entry]))
    } else if groups.last().0 == server {
        groups.drop_last().push((server, insert_by_name(groups.last().1, entry)))
    } else {
        insert_entry(groups.drop_last(), entry).push(groups.last())
    }
}

/// The entries grouped by server and sorted.
pub open spec fn grouped(entries: Seq<PromptEntry>) -> Seq<ServerGroup>
    decreases entries.len(),
{
    if entries.len() == 0 {
        Seq::empty()
    } else {
        insert_entry(grouped(entries.drop_last()), entries.last())
    }
}

proof fn lemma_with_name_push(items: Seq<PromptEntry>, entry: PromptEntry, name: Text)
    ensures
        with_name(items.push(entry), name) == if entry.0 == name {
            with_name(items, name).push(entry)
        } else {
            with_name(items, name)
        },
{
    reveal(Seq::filter);
    assert(items.push(entry).drop_last() =~= items);
}

proof fn lemma_with_server_push(entries: Seq<PromptEntry>, entry: PromptEntry, server: Text, name: Text)
    ensures
        with_server_and_name(entries.push(entry), server, name) == if entry.1.server_name == server
            && entry.0 == name {
            with_server_and_name(entries, server, name).push(entry)
        } else {
            with_server_and_name(entries, server, name)
        },
{
    reveal(Seq::filter);
    assert(entries.push(entry).drop_last() =~= entries);
}

proof fn lemma_with_name_drop_last(items: Seq<PromptEntry>, name: Text)
    requires
        items.len() > 0,
    ensures
        with_name(items, name) == if items.last().0 == name {
            with_name(items.drop_last(), name).push(items.last())
        } else {
            with_name(items.drop_last(), name)
        },
{
    assert(items.drop_last().push(items.last()) =~= items);
    lemma_with_name_push(items.drop_last(), items.last(), name);
}

proof fn lemma_insert_by_name(items: Seq<PromptEntry>, entry: PromptEntry)
    requires
        names_ascending(items),
    ensures
        insert_by_name(items, entry).len() == items.len() + 1,
        names_ascending(insert_by_name(items, entry)),
        forall|k: int|
            0 <= k < insert_by_name(items, entry).len() ==> items.contains(
                #[trigger] insert_by_name(items, entry)[k],
            ) || insert_by_name(items, entry)[k] == entry,
        forall|name: Text| #[trigger]
            with_name(insert_by_name(items, entry), name) == if entry.0 == name {
                with_name(items, name).push(entry)
            } else {
                with_name(items, name)
            },
    decreases items.len(),
{
    let result = insert_by_name(items, entry);
    if items.len() == 0 || text_le(items.last().0, entry.0) {
        assert forall|i: int, j: int| 0 <= i <= j < result.len() implies text_le(
            #[trigger] result[i].0,
            #[trigger] result[j].0,
        ) by {
            if i < items.len() && j == items.len() {
                assert(text_le(items[i].0, items[items.len() - 1].0));
                law_text_order(items[i].0, items.last().0, entry.0);
            }
            law_text_order(entry.0, entry.0, entry.0);
        }
        assert forall|name: Text| #[trigger] with_name(result, name) == if entry.0 == name {
            with_name(items, name).push(entry)
        } else {
            with_name(items, name)
        } by {
            lemma_with_name_push(items, entry, name);
        }
    } else {
        let rest = items.drop_last();
        let inserted = insert_by_name(rest, entry);
        lemma_insert_by_name(rest, entry);
        law_text_order(entry.0, items.last().0, entry.0);
        assert forall|k: int| 0 <= k < inserted.len() implies text_le(
            #[trigger] inserted[k].0,
            items.last().0,
        ) by {
            if rest.contains(inserted[k]) {
                let m = rest.index_of(inserted[k]);
                assert(text_le(items[m].0, items[items.len() - 1].0));
            }
        }
        assert forall|i: int, j: int| 0 <= i <= j < result.len() implies text_le(
            #[trigger] result[i].0,
            #[trigger] result[j].0,
        ) by {
            if i < inserted.len() {
                assert(result[i] == inserted[i]);
            }
            if j < inserted.len() {
                assert(result[j] == inserted[j]);
            }
            law_text_order(items.last().0, items.last().0, items.last().0);
        }
        assert forall|k: int| 0 <= k < result.len() implies items.contains(#[trigger] result[k])
            || result[k] == entry by {
            if k < inserted.len() {
                assert(result[k] == inserted[k]);
                if rest.contains(inserted[k]) {
                    let m = rest.index_of(inserted[k]);
                    assert(items[m] == inserted[k]);
                }
            } else {
                assert(items[items.len() - 1] == result[k]);
            }
        }
        assert forall|name: Text| #[trigger] with_name(result, name) == if entry.0 == name {
            with_name(items, name).push(entry)
        } else {
            with_name(items, name)
        } by {
            lemma_with_name_push(inserted, items.last(), name);
            lemma_with_name_drop_last(items, name);
            assert(with_name(inserted, name) == if entry.0 == name {
                with_name(rest, name).push(entry)
            } else {
                with_name(rest, name)
            });
        }
    }
}

proof fn lemma_group_for_ascending(groups: Seq<ServerGroup>, server: Text)
    requires
        groups_ascending(groups),
    ensures
        names_ascending(group_for(groups, server)),
    decreases groups.len(),
{
    if groups.len() > 0 && groups.last().0 != server {
        lemma_drop_last_ascending(groups);
        lemma_group_for_ascending(groups.drop_last(), server);
    }
}

proof fn lemma_drop_last_ascending(groups: Seq<ServerGroup>)
    requires
        groups_ascending(groups),
        groups.len() > 0,
    ensures
        groups_ascending(groups.drop_last()),
{
    let rest = groups.drop_last();
    assert forall|i: int, j: int| 0 <= i < j < rest.len() implies text_lt(
        #[trigger] rest[i].0,
        #[trigger] rest[j].0,
    ) by {
        assert(text_lt(groups[i].0, groups[j].0));
    }
    assert forall|i: int| 0 <= i < rest.len() implies #[trigger] rest[i].1.len() > 0
        && names_ascending(rest[i].1) by {
        assert(groups[i].1.len() > 0);
    }
}

/// A server that none of the groups is of has no entries.
proof fn lemma_group_for_absent(groups: Seq<ServerGroup>, server: Text)
    requires
        forall|i: int| 0 <= i < groups.len() ==> #[trigger] groups[i].0 != server,
    ensures
        group_for(groups, server) == Seq::<PromptEntry>::empty(),
    decreases groups.len(),
{
    if groups.len() > 0 {
        assert(groups[groups.len() - 1].0 != server);
        let rest = groups.drop_last();
        assert forall|i: int| 0 <= i < rest.len() implies #[trigger] rest[i].0 != server by {
            assert(groups[i].0 != server);
        }
        lemma_group_for_absent(rest, server);
    }
}

proof fn lemma_push_group_ascending(groups: Seq<ServerGroup>, group: ServerGroup)
    requires
        groups_ascending(groups),
        groups.len() > 0 ==> text_lt(groups.last().0, group.0),
        group.1.len() > 0,
        names_ascending(group.1),
    ensures
        groups_ascending(groups.push(group)),
{
    let result = groups.push(group);
    assert forall|i: int, j: int| 0 <= i < j < result.len() implies text_lt(
        #[trigger] result[i].0,
        #[trigger] result[j].0,
    ) by {
        if j < groups.len() {
            assert(text_lt(groups[i].0, groups[j].0));
        } else if i < groups.len() - 1 {
            assert(text_lt(groups[i].0, groups[groups.len() - 1].0));
            law_text_order(group.0, groups[i].0, groups.last().0);
            law_text_order(groups[i].0, groups.last().0, group.0);
            law_text_order(group.0, groups.last().0, group.0);
            law_text_order(groups.last().0, group.0, groups[i].0);
        }
    }
    assert forall|i: int| 0 <= i < result.len() implies #[trigger] result[i].1.len() > 0
        && names_ascending(result[i].1) by {
        if i < groups.len() {
            assert(groups[i].1.len() > 0);
        }
    }
}

proof fn lemma_insert_entry(groups: Seq<ServerGroup>, entry: PromptEntry)
    requires
        groups_ascending(groups),
    ensures
        groups_ascending(insert_entry(groups, entry)),
        insert_entry(groups, entry).len() > 0,
        insert_entry(groups, entry).last().0 == entry.1.server_name || (groups.len() > 0
            && insert_entry(groups, entry).last().0 == groups.last().0),
        forall|server: Text| #[trigger]
            group_for(insert_entry(groups, entry), server) == if server == entry.1.server_name {
                insert_by_name(group_for(groups, server), entry)
            } else {
                group_for(groups, server)
            },
    decreases groups.len(),
{
    let own = entry.1.server_name;
    let result = insert_entry(groups, entry);
    if groups.len() == 0 || text_lt(groups.last().0, own) {
        assert forall|i: int| 0 <= i < groups.len() implies #[trigger] groups[i].0 != own by {
            if i < groups.len() - 1 {
                assert(text_lt(groups[i].0, groups[groups.len() - 1].0));
                law_text_order(own, groups.last().0, own);
            } else {
                law_text_order(own, own, own);
            }
        }
        lemma_group_for_absent(groups, own);
        law_text_order(entry.0, entry.0, entry.0);
        lemma_push_group_ascending(groups, (own, seq![entry]));
        assert(result.drop_last() =~= groups);
        assert(insert_by_name(Seq::empty(), entry) =~= seq![entry]);
        assert forall|server: Text| #[trigger]
            group_for(result, server) == if server == own {
                insert_by_name(group_for(groups, server), entry)
            } else {
                group_for(groups, server)
            } by {
            assert(result.last().0 == own);
        }
    } else if groups.last().0 == own {
        let rest = groups.drop_last();
        assert(groups[groups.len() - 1].1.len() > 0);
        lemma_insert_by_name(groups.last().1, entry);
        lemma_drop_last_ascending(groups);
        if rest.len() > 0 {
            assert(text_lt(groups[groups.len() - 2].0, groups[groups.len() - 1].0));
        }
        lemma_push_group_ascending(rest, (own, insert_by_name(groups.last().1, entry)));
        assert(result.drop_last() =~= rest);
        assert forall|server: Text| #[trigger]
            group_for(result, server) == if server == own {
                insert_by_name(group_for(groups, server), entry)
            } else {
                group_for(groups, server)
            } by {
            assert(result.last().0 == own);
        }
    } else {
        let rest = groups.drop_last();
        let inserted = insert_entry(rest, entry);
        lemma_drop_last_ascending(groups);
        lemma_insert_entry(rest, entry);
        assert(groups[groups.len() - 1].1.len() > 0);
        if rest.len() > 0 {
            assert(text_lt(groups[groups.len() - 2].0, groups[groups.len() - 1].0));
        }
        law_text_order(own, groups.last().0, own);
        lemma_push_group_ascending(inserted, groups.last());
        assert(result.drop_last() =~= inserted);
        assert forall|server: Text| #[trigger]
            group_for(result, server) == if server == own {
                insert_by_name(group_for(groups, server), entry)
            } else {
                group_for(groups, server)
            } by {
            assert(result.last() == groups.last());
            assert(group_for(inserted, server) == if server == own {
                insert_by_name(group_for(rest, server), entry)
            } else {
                group_for(rest, server)
            });
        }
    }
}

proof fn lemma_grouping_step(entries: Seq<PromptEntry>, groups: Seq<ServerGroup>, entry: PromptEntry)
    requires
        is_grouping(entries, groups),
    ensures
        is_grouping(entries.push(entry), insert_entry(groups, entry)),
{
    let result = insert_entry(groups, entry);
    lemma_insert_entry(groups, entry);
    assert forall|server: Text, name: Text| #[trigger]
        with_name(group_for(result, server), name) == with_server_and_name(
            entries.push(entry),
            server,
            name,
        ) by {
        lemma_with_server_push(entries, entry, server, name);
        lemma_group_for_ascending(groups, server);
        lemma_insert_by_name(group_for(groups, server), entry);
        assert(with_name(group_for(groups, server), name) == with_server_and_name(
            entries,
            server,
            name,
        ));
    }
}

/// Grouping and sorting puts everything in alphabetical order, gives each server exactly its own
/// entries, and keeps the order of one server's entries under one name.
pub proof fn law_grouped(entries: Seq<PromptEntry>)
    ensures
        is_grouping(entries, grouped(entries)),
    decreases entries.len(),
{
    if entries.len() == 0 {
        reveal(Seq::filter);
        assert forall|server: Text, name: Text| #[trigger]
            with_name(group_for(grouped(entries), server), name) == with_server_and_name(
                entries,
                server,
                name,
            ) by {
            assert(entries =~= Seq::<PromptEntry>::empty());
        }
    } else {
        law_grouped(entries.drop_last());
        lemma_grouping_step(entries.drop_last(), grouped(entries.drop_last()), entries.last());
        assert(entries.drop_last().push(entries.last()) =~= entries);
    }
}

proof fn lemma_with_name_member(items: Seq<PromptEntry>, k: int)
    requires
        0 <= k < items.len(),
    ensures
        with_name(items, items[k].0).contains(items[k]),
{
    let name = items[k].0;
    items.lemma_filter_contains(is_named(name), k);
}

proof fn lemma_with_name_inside(items: Seq<PromptEntry>, name: Text, m: int)
    requires
        0 <= m < with_name(items, name).len(),
    ensures
        items.contains(with_name(items, name)[m]),
        with_name(items, name)[m].0 == name,
{
    let pred = is_named(name);
    items.lemma_filter_pred(pred, m);
    assert(items.filter(pred).contains(with_name(items, name)[m]));
    items.lemma_filter_contains_rev(pred, with_name(items, name)[m]);
}

/// The last name of `a` does not come after the last name of `b`, where `b` has all names of `a`.
proof fn lemma_last_name_le(a: Seq<PromptEntry>, b: Seq<PromptEntry>)
    requires
        a.len() > 0,
        names_ascending(b),
        with_name(a, a.last().0) == with_name(b, a.last().0),
    ensures
        b.len() > 0,
        text_le(a.last().0, b.last().0),
{
    let name = a.last().0;
    lemma_with_name_member(a, a.len() - 1);
    let m = with_name(b, name).index_of(a[a.len() - 1]);
    lemma_with_name_inside(b, name, m);
    let k = b.index_of(with_name(b, name)[m]);
    assert(text_le(b[k].0, b[b.len() - 1].0));
}

proof fn lemma_sorted_unique(a: Seq<PromptEntry>, b: Seq<PromptEntry>)
    requires
        names_ascending(a),
        names_ascending(b),
        forall|name: Text| #[trigger] with_name(a, name) == with_name(b, name),
    ensures
        a == b,
    decreases a.len(),
{
    if a.len() == 0 {
        if b.len() > 0 {
            assert(with_name(a, b.last().0) == with_name(b, b.last().0));
            lemma_last_name_le(b, a);
        }
        assert(a =~= b);
    } else {
        assert(with_name(a, a.last().0) == with_name(b, a.last().0));
        lemma_last_name_le(a, b);
        assert(with_name(a, b.last().0) == with_name(b, b.last().0));
        lemma_last_name_le(b, a);
        law_text_order(a.last().0, b.last().0, a.last().0);
        let name = a.last().0;
        lemma_with_name_drop_last(a, name);
        lemma_with_name_drop_last(b, name);
        assert(with_name(a, name).last() == a.last());
        assert(with_name(b, name).last() == b.last());
        let a_rest = a.drop_last();
        let b_rest = b.drop_last();
        assert forall|n: Text| #[trigger] with_name(a_rest, n) == with_name(b_rest, n) by {
            lemma_with_name_drop_last(a, n);
            lemma_with_name_drop_last(b, n);
            assert(with_name(a, n) == with_name(b, n));
            if n == name {
                assert(with_name(a, n).drop_last() =~= with_name(a_rest, n));
                assert(with_name(b, n).drop_last() =~= with_name(b_rest, n));
            }
        }
        assert forall|i: int, j: int| 0 <= i <= j < a_rest.len() implies text_le(
            #[trigger] a_rest[i].0,
            #[trigger] a_rest[j].0,
        ) by {
            assert(text_le(a[i].0, a[j].0));
        }
        assert forall|i: int, j: int| 0 <= i <= j < b_rest.len() implies text_le(
            #[trigger] b_rest[i].0,
            #[trigger] b_rest[j].0,
        ) by {
            assert(text_le(b[i].0, b[j].0));
        }
        lemma_sorted_unique(a_rest, b_rest);
        assert(a =~= a_rest.push(a.last()));
        assert(b =~= b_rest.push(b.last()));
    }
}

/// A server with entries has a group, and its name does not come after the last group's.
proof fn lemma_group_present(groups: Seq<ServerGroup>, server: Text)
    requires
        groups_ascending(groups),
        group_for(groups, server).len() > 0,
    ensures
        groups.len() > 0,
        text_le(server, groups.last().0),
    decreases groups.len(),
{
    law_text_order(server, server, server);
    if groups.last().0 != server {
        lemma_drop_last_ascending(groups);
        let rest = groups.drop_last();
        lemma_group_present(rest, server);
        assert(text_lt(groups[groups.len() - 2].0, groups[groups.len() - 1].0));
        law_text_order(groups.last().0, rest.last().0, server);
        law_text_order(server, rest.last().0, groups.last().0);
    }
}

proof fn lemma_groups_unique(a: Seq<ServerGroup>, b: Seq<ServerGroup>)
    requires
        groups_ascending(a),
        groups_ascending(b),
        forall|server: Text| #[trigger] group_for(a, server) == group_for(b, server),
    ensures
        a == b,
    decreases a.len(),
{
    if a.len() == 0 {
        if b.len() > 0 {
            assert(b[b.len() - 1].1.len() > 0);
            assert(group_for(a, b.last().0) == group_for(b, b.last().0));
        }
        assert(a =~= b);
    } else {
        assert(a[a.len() - 1].1.len() > 0);
        assert(group_for(a, a.last().0) == group_for(b, a.last().0));
        lemma_group_present(b, a.last().0);
        assert(b[b.len() - 1].1.len() > 0);
        assert(group_for(a, b.last().0) == group_for(b, b.last().0));
        lemma_group_present(a, b.last().0);
        law_text_order(a.last().0, b.last().0, a.last().0);
        let last = a.last().0;
        let a_rest = a.drop_last();
        let b_rest = b.drop_last();
        lemma_drop_last_ascending(a);
        lemma_drop_last_ascending(b);
        assert forall|server: Text| #[trigger]
            group_for(a_rest, server) == group_for(b_rest, server) by {
            assert(group_for(a, server) == group_for(b, server));
            if server == last {
                law_text_order(last, last, last);
                assert forall|i: int| 0 <= i < a_rest.len() implies #[trigger] a_rest[i].0
                    != last by {
                    assert(text_lt(a[i].0, a[a.len() - 1].0));
                }
                lemma_group_for_absent(a_rest, last);
                assert forall|i: int| 0 <= i < b_rest.len() implies #[trigger] b_rest[i].0
                    != last by {
                    assert(text_lt(b[i].0, b[b.len() - 1].0));
                }
                lemma_group_for_absent(b_rest, last);
            }
        }
        lemma_groups_unique(a_rest, b_rest);
        assert(a =~= a_rest.push(a.last()));
        assert(b =~= b_rest.push(b.last()));
    }
}

proof fn lemma_group_for_at(groups: Seq<ServerGroup>, i: int)
    requires
        groups_ascending(groups),
        0 <= i < groups.len(),
    ensures
        group_for(groups, groups[i].0) == groups[i].1,
    decreases groups.len(),
{
    if i < groups.len() - 1 {
        assert(text_lt(groups[i].0, groups[groups.len() - 1].0));
        law_text_order(groups[i].0, groups[i].0, groups[i].0);
        lemma_drop_last_ascending(groups);
        lemma_group_for_at(groups.drop_last(), i);
    }
}

/// Each entry stands in the group of its own server.
pub proof fn law_groups_hold_their_servers(entries: Seq<PromptEntry>, groups: Seq<ServerGroup>)
    requires
        is_grouping(entries, groups),
    ensures
        forall|i: int, k: int|
            0 <= i < groups.len() && 0 <= k < groups[i].1.len() ==> (
            #[trigger] groups[i].1[k]).1.server_name == groups[i].0,
{
    assert forall|i: int, k: int|
        0 <= i < groups.len() && 0 <= k < groups[i].1.len() implies (
    #[trigger] groups[i].1[k]).1.server_name == groups[i].0 by {
        let server = groups[i].0;
        let entry = groups[i].1[k];
        lemma_group_for_at(groups, i);
        lemma_with_name_member(groups[i].1, k);
        let own = with_name(group_for(groups, server), entry.0);
        assert(own == with_server_and_name(entries, server, entry.0));
        let m = own.index_of(entry);
        entries.lemma_filter_pred(is_of_server_and_named(server, entry.0), m);
    }
}

/// Whether the servers are in alphabetical order and, within a server, the prompt names.
pub open spec fn entries_ascending(entries: Seq<PromptEntry>) -> bool {
    forall|i: int, j: int|
        #![trigger entries[i], entries[j]]
        0 <= i < j < entries.len() ==> {
            ||| text_lt(entries[i].1.server_name, entries[j].1.server_name)
            ||| entries[i].1.server_name == entries[j].1.server_name && text_le(
                entries[i].0,
                entries[j].0,
            )
        }
}

/// Whether one of the groups is that of `server`.
spec fn has_group(groups: Seq<ServerGroup>, server: Text) -> bool {
    exists|i: int| 0 <= i < groups.len() && #[trigger] groups[i].0 == server
}

proof fn lemma_ungrouped_ascending(groups: Seq<ServerGroup>)
    requires
        groups_ascending(groups),
        forall|i: int, k: int|
            0 <= i < groups.len() && 0 <= k < groups[i].1.len() ==> (
            #[trigger] groups[i].1[k]).1.server_name == groups[i].0,
    ensures
        entries_ascending(ungrouped(groups)),
        forall|k: int|
            0 <= k < ungrouped(groups).len() ==> has_group(
                groups,
                (#[trigger] ungrouped(groups)[k]).1.server_name,
            ),
    decreases groups.len(),
{
    if groups.len() > 0 {
        let rest = groups.drop_last();
        let last = groups.len() - 1;
        let own = groups[last].1;
        let before = ungrouped(rest);
        let all = ungrouped(groups);
        lemma_drop_last_ascending(groups);
        assert forall|i: int, k: int|
            0 <= i < rest.len() && 0 <= k < rest[i].1.len() implies (
        #[trigger] rest[i].1[k]).1.server_name == rest[i].0 by {
            assert(groups[i].1[k].1.server_name == groups[i].0);
        }
        lemma_ungrouped_ascending(rest);
        assert(own.len() > 0 && names_ascending(own));
        assert forall|k: int| 0 <= k < all.len() implies has_group(
            groups,
            (#[trigger] all[k]).1.server_name,
        ) by {
            if k < before.len() {
                assert(all[k] == before[k]);
                let i = choose|i: int|
                    0 <= i < rest.len() && #[trigger] rest[i].0 == before[k].1.server_name;
                assert(all[k].1.server_name == groups[i].0);
            } else {
                assert(all[k] == groups[last].1[k - before.len()]);
                assert(all[k].1.server_name == groups[last].0);
            }
        }
        assert forall|i: int, j: int|
            #![trigger all[i], all[j]]
            0 <= i < j < all.len() implies {
            ||| text_lt(all[i].1.server_name, all[j].1.server_name)
            ||| all[i].1.server_name == all[j].1.server_name && text_le(all[i].0, all[j].0)
        } by {
            if j < before.len() {
                assert(all[i] == before[i] && all[j] == before[j]);
            } else {
                assert(all[j] == groups[last].1[j - before.len()]);
                if i < before.len() {
                    assert(all[i] == before[i]);
                    let m = choose|m: int|
                        0 <= m < rest.len() && #[trigger] rest[m].0 == before[i].1.server_name;
                    assert(text_lt(groups[m].0, groups[last].0));
                } else {
                    assert(all[i] == groups[last].1[i - before.len()]);
                    assert(text_le(own[i - before.len()].0, own[j - before.len()].0));
                }
            }
        }
    }
}

/// Taken group by group, the entries come in alphabetical order of servers and, within a server,
/// of prompt names.
pub proof fn law_grouped_order(entries: Seq<PromptEntry>)
    ensures
        entries_ascending(ungrouped(grouped(entries))),
{
    law_grouped(entries);
    law_groups_hold_their_servers(entries, grouped(entries));
    lemma_ungrouped_ascending(grouped(entries));
}

/// There is one grouping of a sequence of entries only.
pub proof fn law_grouping_unique(
    entries: Seq<PromptEntry>,
    a: Seq<ServerGroup>,
    b: Seq<ServerGroup>,
)
    requires
        is_grouping(entries, a),
        is_grouping(entries, b),
    ensures
        a == b,
{
    assert forall|server: Text| #[trigger] group_for(a, server) == group_for(b, server) by {
        lemma_group_for_ascending(a, server);
        lemma_group_for_ascending(b, server);
        assert forall|name: Text| #[trigger]
            with_name(group_for(a, server), name) == with_name(group_for(b, server), name) by {
            assert(with_name(group_for(a, server), name) == with_server_and_name(
                entries,
                server,
                name,
            ));
            assert(with_name(group_for(b, server), name) == with_server_and_name(
                entries,
                server,
                name,
            ));
        }
        lemma_sorted_unique(group_for(a, server), group_for(b, server));
    }
    lemma_groups_unique(a, b);
}

/// Whether no two items of a prompt list are under the same name.
pub open spec fn names_distinct(prompts: Seq<(Text, Seq<PromptBundleView>)>) -> bool {
    forall|i: int, j: int|
        0 <= i < j < prompts.len() ==> #[trigger] prompts[i].0 != #[trigger] prompts[j].0
}

proof fn lemma_filter_concat(a: Seq<PromptEntry>, b: Seq<PromptEntry>, server: Text, name: Text)
    ensures
        with_server_and_name(a + b, server, name) == with_server_and_name(a, server, name)
            + with_server_and_name(b, server, name),
    decreases b.len(),
{
    reveal(Seq::filter);
    if b.len() == 0 {
        assert(a + b =~= a);
        assert(with_server_and_name(a, server, name) + with_server_and_name(b, server, name)
            =~= with_server_and_name(a, server, name));
    } else {
        lemma_filter_concat(a, b.drop_last(), server, name);
        assert((a + b).drop_last() =~= a + b.drop_last());
        assert(with_server_and_name(a + b, server, name) =~= with_server_and_name(a, server, name)
            + with_server_and_name(b, server, name));
    }
}

proof fn lemma_other_name_filter(other: Text, bundles: Seq<PromptBundleView>, server: Text, name: Text)
    requires
        other != name,
    ensures
        with_server_and_name(entries_under(other, bundles), server, name) == Seq::<
            PromptEntry,
        >::empty(),
    decreases bundles.len(),
{
    reveal(Seq::filter);
    let entries = entries_under(other, bundles);
    if bundles.len() > 0 {
        lemma_other_name_filter(other, bundles.drop_last(), server, name);
        assert(entries.drop_last() =~= entries_under(other, bundles.drop_last()));
        assert(entries.last().0 == other);
    } else {
        assert(entries =~= Seq::<PromptEntry>::empty());
    }
}

proof fn lemma_unlisted_name(
    prompts: Seq<(Text, Seq<PromptBundleView>)>,
    server: Text,
    name: Text,
)
    requires
        forall|i: int| 0 <= i < prompts.len() ==> #[trigger] prompts[i].0 != name,
    ensures
        with_server_and_name(entries_of(prompts), server, name) == Seq::<PromptEntry>::empty(),
    decreases prompts.len(),
{
    if prompts.len() == 0 {
        reveal(Seq::filter);
    } else {
        let rest = prompts.drop_last();
        assert(prompts[prompts.len() - 1].0 != name);
        assert forall|i: int| 0 <= i < rest.len() implies #[trigger] rest[i].0 != name by {
            assert(prompts[i].0 != name);
        }
        lemma_unlisted_name(rest, server, name);
        lemma_filter_concat(
            entries_of(rest),
            entries_under(prompts.last().0, prompts.last().1),
            server,
            name,
        );
        lemma_other_name_filter(prompts.last().0, prompts.last().1, server, name);
        assert(with_server_and_name(entries_of(prompts), server, name) =~= Seq::<
            PromptEntry,
        >::empty());
    }
}

proof fn lemma_listed_name(prompts: Seq<(Text, Seq<PromptBundleView>)>, k: int, server: Text)
    requires
        names_distinct(prompts),
        0 <= k < prompts.len(),
    ensures
        with_server_and_name(entries_of(prompts), server, prompts[k].0) == with_server_and_name(
            entries_under(prompts[k].0, prompts[k].1),
            server,
            prompts[k].0,
        ),
    decreases prompts.len(),
{
    let rest = prompts.drop_last();
    let name = prompts[k].0;
    let own = entries_under(prompts.last().0, prompts.last().1);
    lemma_filter_concat(entries_of(rest), own, server, name);
    if k == prompts.len() - 1 {
        assert forall|i: int| 0 <= i < rest.len() implies #[trigger] rest[i].0 != name by {
            assert(prompts[i].0 != prompts[k].0);
        }
        lemma_unlisted_name(rest, server, name);
        assert(with_server_and_name(entries_of(prompts), server, name) =~= with_server_and_name(
            own,
            server,
            name,
        ));
    } else {
        assert forall|i: int, j: int| 0 <= i < j < rest.len() implies #[trigger] rest[i].0
            != #[trigger] rest[j].0 by {
            assert(prompts[i].0 != prompts[j].0);
        }
        lemma_listed_name(rest, k, server);
        assert(prompts[k].0 != prompts[prompts.len() - 1].0);
        lemma_other_name_filter(prompts.last().0, prompts.last().1, server, name);
        assert(with_server_and_name(entries_of(prompts), server, name) =~= with_server_and_name(
            entries_of(rest),
            server,
            name,
        ));
    }
}

/// Two lists that hold the same items, no name twice, come out the same: the order in which
/// the prompts of a map are walked does not matter.
pub proof fn law_grouping_ignores_list_order(
    a: Seq<(Text, Seq<PromptBundleView>)>,
    b: Seq<(Text, Seq<PromptBundleView>)>,
)
    requires
        names_distinct(a),
        names_distinct(b),
        a.to_set() == b.to_set(),
    ensures
        grouped(entries_of(a)) == grouped(entries_of(b)),
{
    let groups = grouped(entries_of(b));
    law_grouped(entries_of(a));
    law_grouped(entries_of(b));
    assert forall|server: Text, name: Text| #[trigger]
        with_name(group_for(groups, server), name) == with_server_and_name(
            entries_of(a),
            server,
            name,
        ) by {
        assert(with_name(group_for(groups, server), name) == with_server_and_name(
            entries_of(b),
            server,
            name,
        ));
        if exists|i: int| 0 <= i < a.len() && #[trigger] a[i].0 == name {
            let i = choose|i: int| 0 <= i < a.len() && #[trigger] a[i].0 == name;
            assert(a.to_set().contains(a[i]));
            assert(b.contains(a[i]));
            let j = b.index_of(a[i]);
            lemma_listed_name(a, i, server);
            lemma_listed_name(b, j, server);
        } else {
            assert forall|j: int| 0 <= j < b.len() implies #[trigger] b[j].0 != name by {
                assert(b.to_set().contains(b[j]));
                assert(a.contains(b[j]));
                let i = a.index_of(b[j]);
                assert(a[i].0 != name);
            }
            lemma_unlisted_name(a, server, name);
            lemma_unlisted_name(b, server, name);
        }
    }
    law_grouping_unique(entries_of(a), grouped(entries_of(a)), groups);
}

/// All entries of the groups, group by group.
pub open spec fn ungrouped(groups: Seq<ServerGroup>) -> Seq<PromptEntry>
    decreases groups.len(),
{
    if groups.len() == 0 {
        Seq::empty()
    } else {
        ungrouped(groups.drop_last()) + groups.last().1
    }
}

proof fn lemma_insert_by_name_contents(items: Seq<PromptEntry>, entry: PromptEntry)
    ensures
        insert_by_name(items, entry).to_multiset() == items.to_multiset().insert(entry),
    decreases items.len(),
{
    broadcast use vstd::seq_lib::group_to_multiset_ensures;

    if items.len() > 0 && !text_le(items.last().0, entry.0) {
        lemma_insert_by_name_contents(items.drop_last(), entry);
        assert(items.drop_last().push(items.last()) =~= items);
        assert(insert_by_name(items, entry).to_multiset() =~= items.to_multiset().insert(entry));
    }
}

proof fn lemma_insert_entry_contents(groups: Seq<ServerGroup>, entry: PromptEntry)
    ensures
        ungrouped(insert_entry(groups, entry)).to_multiset() == ungrouped(
            groups,
        ).to_multiset().insert(entry),
    decreases groups.len(),
{
    broadcast use vstd::seq_lib::group_to_multiset_ensures;

    let server = entry.1.server_name;
    let result = insert_entry(groups, entry);
    if groups.len() == 0 || text_lt(groups.last().0, server) {
        assert(result.drop_last() =~= groups);
        assert(ungrouped(result) =~= ungrouped(groups).push(entry));
    } else {
        let rest = groups.drop_last();
        vstd::seq_lib::lemma_multiset_commutative(ungrouped(rest), groups.last().1);
        if groups.last().0 == server {
            assert(result.drop_last() =~= rest);
            lemma_insert_by_name_contents(groups.last().1, entry);
            vstd::seq_lib::lemma_multiset_commutative(ungrouped(rest), result.last().1);
        } else {
            assert(result.drop_last() =~= insert_entry(rest, entry));
            lemma_insert_entry_contents(rest, entry);
            vstd::seq_lib::lemma_multiset_commutative(
                ungrouped(insert_entry(rest, entry)),
                groups.last().1,
            );
        }
        assert(ungrouped(result).to_multiset() =~= ungrouped(groups).to_multiset().insert(entry));
    }
}

/// Grouping loses no entry, makes up none and doubles none.
pub proof fn law_grouped_contents(entries: Seq<PromptEntry>)
    ensures
        ungrouped(grouped(entries)).to_multiset() == entries.to_multiset(),
        ungrouped(grouped(entries)).len() == entries.len(),
    decreases entries.len(),
{
    broadcast use vstd::seq_lib::group_to_multiset_ensures;

    if entries.len() == 0 {
        assert(ungrouped(grouped(entries)) =~= entries);
    } else {
        law_grouped_contents(entries.drop_last());
        lemma_insert_entry_contents(grouped(entries.drop_last()), entries.last());
        assert(entries.drop_last().push(entries.last()) =~= entries);
    }
    assert(ungrouped(grouped(entries)).to_multiset().len() == entries.to_multiset().len());
}

/// The groups of two lists, one after the other, hold the entries of the first and then those of
/// the second; one group holds its own entries.
pub proof fn law_ungrouped(a: Seq<ServerGroup>, b: Seq<ServerGroup>, group: ServerGroup)
    ensures
        ungrouped(Seq::empty()).len() == 0,
        ungrouped(seq![group]) == group.1,
        ungrouped(a + b) == ungrouped(a) + ungrouped(b),
    decreases b.len(),
{
    reveal_with_fuel(ungrouped, 2);
    assert(seq![group].drop_last() =~= Seq::<ServerGroup>::empty());
    assert(ungrouped(seq![group]) =~= group.1);
    if b.len() == 0 {
        assert(a + b =~= a);
        assert(ungrouped(a) + ungrouped(b) =~= ungrouped(a));
    } else {
        law_ungrouped(a, b.drop_last(), group);
        assert((a + b).drop_last() =~= a + b.drop_last());
        assert(ungrouped(a + b) =~= ungrouped(a) + ungrouped(b));
    }
}

/// The servers of the groups are in alphabetical order and differ, no group is empty, and a group
/// holds entries of its own server only, in alphabetical order of prompt names.
pub proof fn law_group_shape(entries: Seq<PromptEntry>)
    ensures
        forall|i: int, j: int|
            0 <= i < j < grouped(entries).len() ==> text_le(
                (#[trigger] grouped(entries)[i]).0,
                (#[trigger] grouped(entries)[j]).0,
            ) && grouped(entries)[i].0 != grouped(entries)[j].0,
        forall|i: int| 0 <= i < grouped(entries).len() ==> (#[trigger] grouped(entries)[i]).1.len() > 0,
        forall|i: int, k: int|
            0 <= i < grouped(entries).len() && 0 <= k < grouped(entries)[i].1.len() ==> (
            #[trigger] grouped(entries)[i].1[k]).1.server_name == grouped(entries)[i].0,
        forall|i: int, k: int, m: int|
            0 <= i < grouped(entries).len() && 0 <= k <= m < grouped(entries)[i].1.len() ==> text_le(
                (#[trigger] grouped(entries)[i].1[k]).0,
                (#[trigger] grouped(entries)[i].1[m]).0,
            ),
{
    let groups = grouped(entries);
    law_grouped(entries);
    law_groups_hold_their_servers(entries, groups);
    assert forall|i: int, j: int| 0 <= i < j < groups.len() implies text_le(
        (#[trigger] groups[i]).0,
        (#[trigger] groups[j]).0,
    ) && groups[i].0 != groups[j].0 by {
        assert(text_lt(groups[i].0, groups[j].0));
        law_text_order(groups[i].0, groups[j].0, groups[i].0);
    }
    assert forall|i: int| 0 <= i < groups.len() implies (#[trigger] groups[i]).1.len() > 0 by {
        assert(groups[i].1.len() > 0);
    }
    assert forall|i: int, k: int, m: int|
        0 <= i < groups.len() && 0 <= k <= m < groups[i].1.len() implies text_le(
        (#[trigger] groups[i].1[k]).0,
        (#[trigger] groups[i].1[m]).0,
    ) by {
        assert(groups[i].1.len() > 0 && names_ascending(groups[i].1));
    }
}

proof fn lemma_own_server_filter(entries: Seq<PromptEntry>, own: Text, server: Text, name: Text)
    requires
        forall|k: int| 0 <= k < entries.len() ==> (#[trigger] entries[k]).1.server_name == own,
    ensures
        with_server_and_name(entries, server, name) == if own == server {
            with_name(entries, name)
        } else {
            Seq::empty()
        },
    decreases entries.len(),
{
    reveal(Seq::filter);
    if entries.len() > 0 {
        let rest = entries.drop_last();
        assert forall|k: int| 0 <= k < rest.len() implies (
        #[trigger] rest[k]).1.server_name == own by {
            assert(entries[k].1.server_name == own);
        }
        assert(entries[entries.len() - 1].1.server_name == own);
        lemma_own_server_filter(rest, own, server, name);
    }
}

proof fn lemma_ungrouped_filter(groups: Seq<ServerGroup>, server: Text, name: Text)
    requires
        groups_ascending(groups),
        forall|i: int, k: int|
            0 <= i < groups.len() && 0 <= k < groups[i].1.len() ==> (
            #[trigger] groups[i].1[k]).1.server_name == groups[i].0,
    ensures
        with_server_and_name(ungrouped(groups), server, name) == with_name(
            group_for(groups, server),
            name,
        ),
    decreases groups.len(),
{
    if groups.len() == 0 {
        reveal(Seq::filter);
    } else {
        let rest = groups.drop_last();
        let last = groups.len() - 1;
        lemma_drop_last_ascending(groups);
        assert forall|i: int, k: int|
            0 <= i < rest.len() && 0 <= k < rest[i].1.len() implies (
        #[trigger] rest[i].1[k]).1.server_name == rest[i].0 by {
            assert(groups[i].1[k].1.server_name == groups[i].0);
        }
        lemma_ungrouped_filter(rest, server, name);
        lemma_filter_concat(ungrouped(rest), groups.last().1, server, name);
        assert forall|k: int| 0 <= k < groups.last().1.len() implies (
        #[trigger] groups.last().1[k]).1.server_name == groups.last().0 by {
            assert(groups[last].1[k].1.server_name == groups[last].0);
        }
        lemma_own_server_filter(groups.last().1, groups.last().0, server, name);
        if groups.last().0 == server {
            assert forall|i: int| 0 <= i < rest.len() implies #[trigger] rest[i].0 != server by {
                assert(text_lt(groups[i].0, groups[last].0));
                law_text_order(server, server, server);
            }
            lemma_group_for_absent(rest, server);
            reveal(Seq::filter);
        }
        assert(with_server_and_name(ungrouped(groups), server, name) =~= with_name(
            group_for(groups, server),
            name,
        ));
    }
}

/// Entries of one server under one name come out in the order in which they went in.
pub proof fn law_grouping_keeps_order(entries: Seq<PromptEntry>, server: Text, name: Text)
    ensures
        ungrouped(grouped(entries)).filter(
            |entry: PromptEntry| entry.1.server_name == server && entry.0 == name,
        ) == entries.filter(
            |entry: PromptEntry| entry.1.server_name == server && entry.0 == name,
        ),
{
    let groups = grouped(entries);
    let picks = |entry: PromptEntry| entry.1.server_name == server && entry.0 == name;
    law_grouped(entries);
    law_groups_hold_their_servers(entries, groups);
    lemma_ungrouped_filter(groups, server, name);
    assert(picks =~= is_of_server_and_named(server, name));
    assert(with_name(group_for(groups, server), name) == with_server_and_name(
        entries,
        server,
        name,
    ));
}

proof fn lemma_insert_by_name_at(items: Seq<PromptEntry>, entry: PromptEntry, at: int)
    requires
        0 <= at <= items.len(),
        at > 0 ==> text_le(items[at - 1].0, entry.0),
        forall|k: int| at <= k < items.len() ==> !text_le(#[trigger] items[k].0, entry.0),
    ensures
        insert_by_name(items, entry) == items.insert(at, entry),
    decreases items.len(),
{
    if at < items.len() {
        let rest = items.drop_last();
        assert(!text_le(items[items.len() - 1].0, entry.0));
        assert forall|k: int| at <= k < rest.len() implies !text_le(#[trigger] rest[k].0, entry.0) by {
            assert(!text_le(items[k].0, entry.0));
        }
        lemma_insert_by_name_at(rest, entry, at);
    }
    assert(insert_by_name(items, entry) =~= items.insert(at, entry));
}

proof fn lemma_insert_entry_at(groups: Seq<ServerGroup>, entry: PromptEntry, at: int)
    requires
        0 <= at <= groups.len(),
        at > 0 ==> text_le(groups[at - 1].0, entry.1.server_name),
        forall|k: int|
            at <= k < groups.len() ==> !text_le(#[trigger] groups[k].0, entry.1.server_name),
    ensures
        insert_entry(groups, entry) == if at > 0 && groups[at - 1].0 == entry.1.server_name {
            groups.update(
                at - 1,
                (entry.1.server_name, insert_by_name(groups[at - 1].1, entry)),
            )
        } else {
            groups.insert(at, (entry.1.server_name, seq![entry]))
        },
    decreases groups.len(),
{
    let server = entry.1.server_name;
    let expected = if at > 0 && groups[at - 1].0 == server {
        groups.update(at - 1, (server, insert_by_name(groups[at - 1].1, entry)))
    } else {
        groups.insert(at, (server, seq![entry]))
    };
    law_text_order(server, server, server);
    if at < groups.len() {
        let rest = groups.drop_last();
        assert(!text_le(groups[groups.len() - 1].0, server));
        law_text_order(server, groups.last().0, server);
        assert forall|k: int| at <= k < rest.len() implies !text_le(#[trigger] rest[k].0, server) by {
            assert(!text_le(groups[k].0, server));
        }
        lemma_insert_entry_at(rest, entry, at);
    } else if at > 0 {
        law_text_order(groups.last().0, server, server);
    }
    assert(insert_entry(groups, entry) =~= expected);
}

/// Puts a bundle behind all bundles of its group whose name does not come after its own.
fn insert_into_group(items: &mut Vec<(String, PromptBundle)>, name: String, bundle: PromptBundle)
    ensures
        final(items).deep_view() == insert_by_name(old(items).deep_view(), (name@, bundle@)),
{
    let ghost before = items.deep_view();
    let ghost entry = (name@, bundle@);
    let mut at: usize = items.len();
    while at > 0 && !str_le(items[at - 1].0.as_str(), name.as_str())
        invariant
            at <= items.len(),
            before == items.deep_view(),
            entry == (name@, bundle@),
            forall|k: int| at <= k < before.len() ==> !text_le(#[trigger] before[k].0, entry.0),
        decreases at,
    {
        at = at - 1;
    }
    proof {
        lemma_insert_by_name_at(before, entry, at as int);
    }
    items.insert(at, (name, bundle));
    assert(items.deep_view() =~= before.insert(at as int, entry));
}

/// Adds a bundle to the group of its server, making the group where it is missing.
fn add_to_groups(
    groups: &mut Vec<(String, Vec<(String, PromptBundle)>)>,
    name: String,
    bundle: PromptBundle,
)
    ensures
        final(groups).deep_view() == insert_entry(old(groups).deep_view(), (name@, bundle@)),
{
    let ghost before = groups.deep_view();
    let ghost entry = (name@, bundle@);
    let mut at: usize = groups.len();
    while at > 0 && !str_le(groups[at - 1].0.as_str(), bundle.server_name.as_str())
        invariant
            at <= groups.len(),
            before == groups.deep_view(),
            entry == (name@, bundle@),
            forall|k: int|
                at <= k < before.len() ==> !text_le(
                    #[trigger] before[k].0,
                    entry.1.server_name,
                ),
        decreases at,
    {
        at = at - 1;
    }
    proof {
        lemma_insert_entry_at(before, entry, at as int);
    }
    if at > 0 && same_text(groups[at - 1].0.as_str(), bundle.server_name.as_str()) {
        let (server, mut items) = groups.remove(at - 1);
        insert_into_group(&mut items, name, bundle);
        groups.insert(at - 1, (server, items));
        assert(groups.deep_view() =~= before.update(
            at - 1,
            (entry.1.server_name, insert_by_name(before[at - 1].1, entry)),
        ));
    } else {
        let server: String = bundle.server_name.clone();
        let mut items: Vec<(String, PromptBundle)> = Vec::new();
        items.push((name, bundle));
        assert(items.deep_view() =~= seq![entry]);
        groups.insert(at, (server, items));
        assert(groups.deep_view() =~= before.insert(
            at as int,
            (entry.1.server_name, seq![entry]),
        ));
    }
}

/// Groups a prompt list by server; servers and prompts come in alphabetical order.
pub fn group_and_sort_prompts(prompts: Vec<(String, Vec<PromptBundle>)>) -> (groups: Vec<
    (String, Vec<(String, PromptBundle)>),
>)
    ensures
        groups.deep_view() == grouped(entries_of(prompts.deep_view())),
        is_grouping(entries_of(prompts.deep_view()), groups.deep_view()),
{
    let ghost list = prompts.deep_view();
    let mut groups: Vec<(String, Vec<(String, PromptBundle)>)> = Vec::new();
    assert(list.take(0) =~= Seq::empty());
    assert(groups.deep_view() =~= Seq::empty());
    for item in items: prompts.into_iter()
        invariant
            items.seq() == prompts@,
            list == prompts.deep_view(),
            groups.deep_view() == grouped(entries_of(list.take(items.index() as int))),
    {
        let (name, bundles): (String, Vec<PromptBundle>) = item;
        let ghost done = entries_of(list.take(items.index() as int));
        let ghost views = bundles.deep_view();
        proof {
            assert(list[items.index() as int] == (name@, views));
            assert(done + entries_under(name@, views.take(0)) =~= done);
        }
        for bundle in rest: bundles.into_iter()
            invariant
                rest.seq() == bundles@,
                views == bundles.deep_view(),
                groups.deep_view() == grouped(
                    done + entries_under(name@, views.take(rest.index() as int)),
                ),
        {
            let ghost upto = done + entries_under(name@, views.take(rest.index() as int));
            proof {
                let next = done + entries_under(name@, views.take(rest.index() + 1));
                assert(views[rest.index() as int] == bundle@);
                assert(next.drop_last() =~= upto);
                assert(next.last() == (name@, bundle@));
            }
            add_to_groups(&mut groups, name.clone(), bundle);
        }
        proof {
            assert(views.take(views.len() as int) =~= views);
            assert(list.take(items.index() + 1).drop_last() =~= list.take(items.index() as int));
        }
    }
    proof {
        assert(list.take(list.len() as int) =~= list);
        law_grouped(entries_of(list));
    }
    groups
}

} // verus!
