//! What holds of snapshots and transactions as a whole.


use vstd::prelude::*;

use crate::name_map::{lemma_name_order, name_before};
use crate::plugin_api::{ContributionSet, Descriptor, Provenance};
use crate::registry::bindings::ToolBindingTarget;
use crate::registry::snapshot::{
    all_tools, contributed_tools, contribution_name, group_of, is_contributed, is_first_stale,
    is_first_unsettled, is_selected, is_stale, is_unsettled, no_tables, owned, owned_all,
    plugin_verdict, plugins_verdict, same_identity, selected_of, snapshot_verdict, table_with,
    tables_from, with_plugin, Contribution, ContributionKind, PluginPairs, PluginRegistration,
    RegistryFault, Table, Tables, Targets,
};
use crate::registry::transaction::{changed, changed_from, touched_id, Plugins, RegistryChange};

verus! {

// ---------------------------------------------------------------------------
// Plugins
// ---------------------------------------------------------------------------

/// Plugin `i` in order.
pub open spec fn plugin_at(plugins: PluginPairs, i: int) -> PluginRegistration {
    *plugins[i].1
}

/// Every plugin of a snapshot is trusted, has one identity, and has valid
/// contributions.
pub proof fn lemma_snapshot_plugins_are_trusted(
    generation: u64,
    plugins: PluginPairs,
    targets: Targets,
    i: int,
)
    requires
        snapshot_verdict(generation, plugins, targets) is Ok,
        0 <= i < plugins.len(),
    ensures
        plugin_at(plugins, i).held_provenance().trusted,
        same_identity(plugin_at(plugins, i).held_manifest(), plugin_at(plugins, i).held_provenance()),
        plugin_at(plugins, i).held_manifest().contributions_valid,
{
    lemma_plugins_pass(plugins, 0, i);
}

proof fn lemma_plugins_pass(plugins: PluginPairs, from: int, i: int)
    requires
        0 <= from <= i < plugins.len(),
        plugins_verdict(plugins, from) is Ok,
    ensures
        plugin_verdict(plugin_at(plugins, i)) is Ok,
    decreases i - from,
{
    if from < i {
        lemma_plugins_pass(plugins, from + 1, i);
    }
}

// ---------------------------------------------------------------------------
// Unique names
// ---------------------------------------------------------------------------

/// The contributions of a kind.
pub open spec fn list_of(contributions: ContributionSet, kind: ContributionKind) -> Seq<
    Descriptor,
> {
    match kind {
        ContributionKind::Tool => contributions.tools@,
        ContributionKind::Command => contributions.commands@,
        ContributionKind::Prompt => contributions.prompts@,
        ContributionKind::Resource => contributions.resources@,
        ContributionKind::View => contributions.views@,
        ContributionKind::Timeline => contributions.timelines@,
        ContributionKind::Modal => contributions.modals@,
        ContributionKind::Widget => contributions.widgets@,
        ContributionKind::EventSubscription => contributions.event_subscriptions@,
    }
}

/// The table of a kind; tools have none.
pub open spec fn table_of(tables: Tables, kind: ContributionKind) -> Table {
    match kind {
        ContributionKind::Tool => Map::empty(),
        ContributionKind::Command => tables.commands,
        ContributionKind::Prompt => tables.prompts,
        ContributionKind::Resource => tables.resources,
        ContributionKind::View => tables.views,
        ContributionKind::Timeline => tables.timelines,
        ContributionKind::Modal => tables.modals,
        ContributionKind::Widget => tables.widgets,
        ContributionKind::EventSubscription => tables.subscriptions,
    }
}

/// The contributions of a kind of one plugin.
pub open spec fn plugin_list(registration: PluginRegistration, kind: ContributionKind) -> Seq<
    Descriptor,
> {
    list_of(registration.held_manifest().contributions, kind)
}

/// Whether descriptor `j` of plugin `i` is in a table under its name, with its
/// owner.
pub open spec fn is_placed(
    table: Table,
    plugins: PluginPairs,
    kind: ContributionKind,
    i: int,
    j: int,
) -> bool {
    table.contains_pair(
        plugin_list(plugin_at(plugins, i), kind)[j].name.text@,
        owned(plugin_list(plugin_at(plugins, i), kind)[j], plugin_at(plugins, i).held_provenance()),
    )
}

/// Whether a table holds all that another holds.
pub open spec fn extends(before: Table, after: Table) -> bool {
    forall|name: Seq<char>| #[trigger]
        before.dom().contains(name) ==> after.contains_pair(name, before[name])
}

/// Whether a table grew by the contributions of one plugin.
pub open spec fn grew(
    before: Table,
    after: Table,
    descriptors: Seq<Descriptor>,
    provenance: Provenance,
    from: int,
) -> bool {
    &&& extends(before, after)
    &&& forall|j: int|
        from <= j < descriptors.len() ==> after.contains_pair(
            (#[trigger] descriptors[j]).name.text@,
            owned(descriptors[j], provenance),
        ) && !before.dom().contains(descriptors[j].name.text@)
    &&& forall|j: int, k: int|
        from <= j < k < descriptors.len() ==> (#[trigger] descriptors[j]).name.text@ != (
        #[trigger] descriptors[k]).name.text@
    &&& forall|name: Seq<char>| #[trigger]
        after.dom().contains(name) ==> before.dom().contains(name) || exists|j: int|
            from <= j < descriptors.len() && (#[trigger] descriptors[j]).name.text@ == name
}

proof fn lemma_table_grows(
    table: Table,
    descriptors: Seq<Descriptor>,
    provenance: Provenance,
    kind: ContributionKind,
    i: int,
)
    requires
        0 <= i <= descriptors.len(),
        table_with(table, descriptors, provenance, kind, i) is Ok,
    ensures
        grew(
            table,
            table_with(table, descriptors, provenance, kind, i)->Ok_0,
            descriptors,
            provenance,
            i,
        ),
    decreases descriptors.len() - i,
{
    if i < descriptors.len() {
        let name = descriptors[i].name.text@;
        let next = table.insert(name, owned(descriptors[i], provenance));
        lemma_table_grows(next, descriptors, provenance, kind, i + 1);
        let after = table_with(table, descriptors, provenance, kind, i)->Ok_0;
        assert(next.dom().contains(name));
        assert(after.contains_pair(name, owned(descriptors[i], provenance)));
        assert(extends(table, after)) by {
            assert forall|other: Seq<char>| #[trigger]
                table.dom().contains(other) implies after.contains_pair(other, table[other]) by {
                assert(next.dom().contains(other));
            }
        }
        assert forall|j: int| i <= j < descriptors.len() implies after.contains_pair(
            (#[trigger] descriptors[j]).name.text@,
            owned(descriptors[j], provenance),
        ) && !table.dom().contains(descriptors[j].name.text@) by {
            if i < j {
                assert(!next.dom().contains(descriptors[j].name.text@));
            }
        }
        assert forall|j: int, k: int| i <= j < k < descriptors.len() implies (
        #[trigger] descriptors[j]).name.text@ != (#[trigger] descriptors[k]).name.text@ by {
            if j == i {
                assert(!next.dom().contains(descriptors[k].name.text@));
            }
        }
        assert forall|other: Seq<char>| #[trigger]
            after.dom().contains(other) implies table.dom().contains(other) || exists|j: int|
            i <= j < descriptors.len() && (#[trigger] descriptors[j]).name.text@ == other by {
            if !table.dom().contains(other) {
                if next.dom().contains(other) {
                    assert(descriptors[i].name.text@ == other);
                } else {
                    let j = choose|j: int|
                        i + 1 <= j < descriptors.len() && (#[trigger] descriptors[j]).name.text@
                            == other;
                    assert(descriptors[j].name.text@ == other);
                }
            }
        }
    }
}

/// The tables grow by the contributions of a plugin.
pub proof fn lemma_plugin_grows(
    tables: Tables,
    registration: PluginRegistration,
    kind: ContributionKind,
)
    requires
        with_plugin(tables, registration) is Ok,
        kind != ContributionKind::Tool,
    ensures
        grew(
            table_of(tables, kind),
            table_of(with_plugin(tables, registration)->Ok_0, kind),
            plugin_list(registration, kind),
            registration.held_provenance(),
            0,
        ),
{
    lemma_table_grows(
        table_of(tables, kind),
        plugin_list(registration, kind),
        registration.held_provenance(),
        kind,
        0,
    );
}

proof fn lemma_tables_grow(tables: Tables, plugins: PluginPairs, kind: ContributionKind, from: int)
    requires
        0 <= from <= plugins.len(),
        tables_from(tables, plugins, from) is Ok,
        kind != ContributionKind::Tool,
    ensures
        ({
            let before = table_of(tables, kind);
            let after = table_of(tables_from(tables, plugins, from)->Ok_0, kind);
            &&& extends(before, after)
            &&& forall|i: int, j: int|
                from <= i < plugins.len() && 0 <= j < plugin_list(plugin_at(plugins, i), kind).len()
                    ==> #[trigger] is_placed(after, plugins, kind, i, j)
                    && !before.dom().contains(plugin_list(plugin_at(plugins, i), kind)[j].name.text@)
        }),
    decreases plugins.len() - from,
{
    if from < plugins.len() {
        let registration = plugin_at(plugins, from);
        let next = with_plugin(tables, registration)->Ok_0;
        lemma_plugin_grows(tables, registration, kind);
        lemma_tables_grow(next, plugins, kind, from + 1);
        let before = table_of(tables, kind);
        let middle = table_of(next, kind);
        let after = table_of(tables_from(tables, plugins, from)->Ok_0, kind);
        assert(extends(before, after)) by {
            assert forall|name: Seq<char>| #[trigger]
                before.dom().contains(name) implies after.contains_pair(name, before[name]) by {
                assert(middle.dom().contains(name));
            }
        }
        assert forall|i: int, j: int|
            from <= i < plugins.len() && 0 <= j < plugin_list(
                plugin_at(plugins, i),
                kind,
            ).len() implies #[trigger] is_placed(after, plugins, kind, i, j)
            && !before.dom().contains(plugin_list(plugin_at(plugins, i), kind)[j].name.text@) by {
            let name = plugin_list(plugin_at(plugins, i), kind)[j].name.text@;
            if i == from {
                assert(middle.dom().contains(name));
            } else {
                assert(is_placed(after, plugins, kind, i, j));
                if before.dom().contains(name) {
                    assert(middle.dom().contains(name));
                }
            }
        }
    }
}

/// Every contribution of a kind but tools is found under its name, with its
/// owner.
pub proof fn lemma_contributions_are_placed(
    generation: u64,
    plugins: PluginPairs,
    targets: Targets,
    kind: ContributionKind,
    i: int,
    j: int,
)
    requires
        snapshot_verdict(generation, plugins, targets) is Ok,
        kind != ContributionKind::Tool,
        0 <= i < plugins.len(),
        0 <= j < plugin_list(plugin_at(plugins, i), kind).len(),
    ensures
        is_placed(
            table_of(snapshot_verdict(generation, plugins, targets)->Ok_0.tables, kind),
            plugins,
            kind,
            i,
            j,
        ),
{
    lemma_tables_grow(no_tables(), plugins, kind, 0);
}

/// No two contributions of a kind but tools share a name.
pub proof fn lemma_names_have_one_owner(
    generation: u64,
    plugins: PluginPairs,
    targets: Targets,
    kind: ContributionKind,
    i: int,
    j: int,
    k: int,
    l: int,
)
    requires
        snapshot_verdict(generation, plugins, targets) is Ok,
        kind != ContributionKind::Tool,
        0 <= i < plugins.len(),
        0 <= j < plugin_list(plugin_at(plugins, i), kind).len(),
        0 <= k < plugins.len(),
        0 <= l < plugin_list(plugin_at(plugins, k), kind).len(),
        plugin_list(plugin_at(plugins, i), kind)[j].name.text@ == plugin_list(
            plugin_at(plugins, k),
            kind,
        )[l].name.text@,
    ensures
        i == k,
        j == l,
{
    if i < k {
        lemma_one_owner(no_tables(), plugins, kind, 0, i, j, k, l);
    } else if k < i {
        lemma_one_owner(no_tables(), plugins, kind, 0, k, l, i, j);
    } else if j != l {
        lemma_one_position(no_tables(), plugins, kind, 0, i);
        let descriptors = plugin_list(plugin_at(plugins, i), kind);
        if j < l {
            assert(descriptors[j].name.text@ != descriptors[l].name.text@);
        } else {
            assert(descriptors[l].name.text@ != descriptors[j].name.text@);
        }
    }
}

proof fn lemma_one_owner(
    tables: Tables,
    plugins: PluginPairs,
    kind: ContributionKind,
    from: int,
    i: int,
    j: int,
    k: int,
    l: int,
)
    requires
        0 <= from <= i < k < plugins.len(),
        tables_from(tables, plugins, from) is Ok,
        kind != ContributionKind::Tool,
        0 <= j < plugin_list(plugin_at(plugins, i), kind).len(),
        0 <= l < plugin_list(plugin_at(plugins, k), kind).len(),
    ensures
        plugin_list(plugin_at(plugins, i), kind)[j].name.text@ != plugin_list(
            plugin_at(plugins, k),
            kind,
        )[l].name.text@,
    decreases i - from,
{
    let next = with_plugin(tables, plugin_at(plugins, from))->Ok_0;
    if from < i {
        lemma_one_owner(next, plugins, kind, from + 1, i, j, k, l);
    } else {
        lemma_plugin_grows(tables, plugin_at(plugins, i), kind);
        lemma_tables_grow(next, plugins, kind, from + 1);
        let middle = table_of(next, kind);
        assert(middle.dom().contains(plugin_list(plugin_at(plugins, i), kind)[j].name.text@));
        let after = table_of(tables_from(next, plugins, from + 1)->Ok_0, kind);
        assert(is_placed(after, plugins, kind, k, l));
    }
}

proof fn lemma_one_position(
    tables: Tables,
    plugins: PluginPairs,
    kind: ContributionKind,
    from: int,
    i: int,
)
    requires
        0 <= from <= i < plugins.len(),
        tables_from(tables, plugins, from) is Ok,
        kind != ContributionKind::Tool,
    ensures
        forall|j: int, l: int|
            0 <= j < l < plugin_list(plugin_at(plugins, i), kind).len() ==> (#[trigger] plugin_list(
                plugin_at(plugins, i),
                kind,
            )[j]).name.text@ != (#[trigger] plugin_list(plugin_at(plugins, i), kind)[l]).name.text@,
    decreases i - from,
{
    lemma_plugin_grows(tables, plugin_at(plugins, from), kind);
    if from < i {
        lemma_one_position(with_plugin(tables, plugin_at(plugins, from))->Ok_0, plugins, kind, from + 1, i);
    }
}

// ---------------------------------------------------------------------------
// Tools
// ---------------------------------------------------------------------------

proof fn lemma_group_members(tools: Seq<Contribution>, name: Seq<char>, i: int)
    requires
        0 <= i < group_of(tools, name).len(),
    ensures
        contribution_name(group_of(tools, name)[i]) == name,
        tools.contains(group_of(tools, name)[i]),
    decreases tools.len(),
{
    let fewer = group_of(tools.drop_last(), name);
    if i < fewer.len() {
        lemma_group_members(tools.drop_last(), name, i);
        let k = choose|k: int| 0 <= k < tools.drop_last().len() && tools.drop_last()[k] == fewer[i];
        assert(tools[k] == fewer[i]);
    } else {
        assert(tools[tools.len() - 1] == tools.last());
    }
}

proof fn lemma_member_has_group(tools: Seq<Contribution>, i: int)
    requires
        0 <= i < tools.len(),
    ensures
        is_contributed(tools, contribution_name(tools[i])),
    decreases tools.len(),
{
    if i < tools.len() - 1 {
        lemma_member_has_group(tools.drop_last(), i);
        assert(tools.drop_last()[i] == tools[i]);
    }
}

proof fn lemma_selected_members(group: Seq<Contribution>, target: ToolBindingTarget, i: int)
    requires
        0 <= i < selected_of(group, target).len(),
    ensures
        is_selected(selected_of(group, target)[i], target),
        group.contains(selected_of(group, target)[i]),
    decreases group.len(),
{
    let fewer = selected_of(group.drop_last(), target);
    if i < fewer.len() {
        lemma_selected_members(group.drop_last(), target, i);
        let k = choose|k: int| 0 <= k < group.drop_last().len() && group.drop_last()[k] == fewer[i];
        assert(group[k] == fewer[i]);
    } else {
        assert(group[group.len() - 1] == group.last());
    }
}

/// A tool name whose group does not settle has a first one in order.
pub proof fn lemma_first_exists(tools: Seq<Contribution>, targets: Targets, name: Seq<char>)
    requires
        is_unsettled(tools, targets, name),
    ensures
        exists|first: Seq<char>| is_first_unsettled(tools, targets, first),
{
    let at = lemma_least(tools, targets, tools.len() as int, name);
    assert forall|other: Seq<char>| #[trigger] is_unsettled(tools, targets, other) implies other
        == at || name_before(at, other) by {
        let i = lemma_group_origin(tools, other);
        assert(contribution_name(tools[i]) == other);
    }
    assert(is_first_unsettled(tools, targets, at));
}

proof fn lemma_group_origin(tools: Seq<Contribution>, name: Seq<char>) -> (i: int)
    requires
        is_contributed(tools, name),
    ensures
        0 <= i < tools.len(),
        contribution_name(tools[i]) == name,
{
    lemma_group_members(tools, name, 0);
    let i = choose|i: int| 0 <= i < tools.len() && tools[i] == group_of(tools, name)[0];
    i
}

/// The least unsettled name among a given one and those of the first `n` tools.
proof fn lemma_least(tools: Seq<Contribution>, targets: Targets, n: int, name: Seq<char>) -> (least:
    Seq<char>)
    requires
        0 <= n <= tools.len(),
        is_unsettled(tools, targets, name),
    ensures
        is_unsettled(tools, targets, least),
        least == name || name_before(least, name),
        forall|i: int|
            0 <= i < n && is_unsettled(tools, targets, contribution_name(#[trigger] tools[i]))
                ==> contribution_name(tools[i]) == least || name_before(
                least,
                contribution_name(tools[i]),
            ),
    decreases n,
{
    if n == 0 {
        name
    } else {
        let before = lemma_least(tools, targets, n - 1, name);
        let candidate = contribution_name(tools[n - 1]);
        lemma_name_order(candidate, before, name);
        lemma_name_order(before, candidate, name);
        if is_unsettled(tools, targets, candidate) && name_before(candidate, before) {
            assert forall|i: int|
                0 <= i < n && is_unsettled(
                    tools,
                    targets,
                    contribution_name(#[trigger] tools[i]),
                ) implies contribution_name(tools[i]) == candidate || name_before(
                candidate,
                contribution_name(tools[i]),
            ) by {
                if i < n - 1 {
                    lemma_name_order(candidate, before, contribution_name(tools[i]));
                }
            }
            candidate
        } else {
            before
        }
    }
}

/// In a snapshot every contributed tool name has exactly one effective tool:
/// one of those contributed under the name. Where several plugins contribute
/// it, a binding selects its owner.
pub proof fn lemma_tools_are_settled(
    generation: u64,
    plugins: PluginPairs,
    targets: Targets,
    name: Seq<char>,
)
    requires
        snapshot_verdict(generation, plugins, targets) is Ok,
    ensures
        ({
            let tools = snapshot_verdict(generation, plugins, targets)->Ok_0.tools;
            &&& tools.dom().contains(name) == is_contributed(all_tools(plugins), name)
            &&& tools.dom().contains(name) ==> contribution_name(tools[name]) == name && all_tools(
                plugins,
            ).contains(tools[name])
            &&& group_of(all_tools(plugins), name).len() > 1 ==> targets.dom().contains(name)
                && is_selected(tools[name], targets[name])
        }),
{
    let tools = all_tools(plugins);
    let group = group_of(tools, name);
    if is_contributed(tools, name) {
        if is_unsettled(tools, targets, name) {
            lemma_first_exists(tools, targets, name);
        }
        if group.len() == 1 {
            lemma_group_members(tools, name, 0);
        } else {
            let target = targets[name];
            lemma_selected_members(group, target, 0);
            let chosen = selected_of(group, target)[0];
            let i = choose|i: int| 0 <= i < group.len() && group[i] == chosen;
            lemma_group_members(tools, name, i);
        }
    }
}

/// Every tool of every plugin of a snapshot has an effective tool of its name.
pub proof fn lemma_every_tool_name_is_callable(
    generation: u64,
    plugins: PluginPairs,
    targets: Targets,
    i: int,
    j: int,
)
    requires
        snapshot_verdict(generation, plugins, targets) is Ok,
        0 <= i < plugins.len(),
        0 <= j < plugin_at(plugins, i).held_manifest().contributions.tools@.len(),
    ensures
        snapshot_verdict(generation, plugins, targets)->Ok_0.tools.dom().contains(
            plugin_at(plugins, i).held_manifest().contributions.tools@[j].name.text@,
        ),
{
    lemma_tool_position(plugins, plugins.len() as int, i, j);
    let tools = all_tools(plugins);
    let tool = owned(
        plugin_at(plugins, i).held_manifest().contributions.tools@[j],
        plugin_at(plugins, i).held_provenance(),
    );
    let at = choose|at: int| 0 <= at < tools.len() && tools[at] == tool;
    lemma_member_has_group(tools, at);
}

proof fn lemma_tool_position(plugins: PluginPairs, n: int, i: int, j: int)
    requires
        0 <= i < n <= plugins.len(),
        0 <= j < plugin_at(plugins, i).held_manifest().contributions.tools@.len(),
    ensures
        contributed_tools(plugins, n).contains(
            owned(
                plugin_at(plugins, i).held_manifest().contributions.tools@[j],
                plugin_at(plugins, i).held_provenance(),
            ),
        ),
    decreases n,
{
    let before = contributed_tools(plugins, n - 1);
    let added = owned_all(
        plugin_at(plugins, n - 1).held_manifest().contributions.tools@,
        plugin_at(plugins, n - 1).held_provenance(),
    );
    let tool = owned(
        plugin_at(plugins, i).held_manifest().contributions.tools@[j],
        plugin_at(plugins, i).held_provenance(),
    );
    if i < n - 1 {
        lemma_tool_position(plugins, n - 1, i, j);
        let k = choose|k: int| 0 <= k < before.len() && before[k] == tool;
        assert((before + added)[k] == tool);
    } else {
        assert(added[j] == tool);
        assert((before + added)[before.len() + j] == tool);
    }
}

/// Every binding of a snapshot settles a collision.
pub proof fn lemma_bindings_are_needed(
    generation: u64,
    plugins: PluginPairs,
    targets: Targets,
    name: Seq<char>,
)
    requires
        snapshot_verdict(generation, plugins, targets) is Ok,
        targets.dom().contains(name),
        targets.dom().finite(),
    ensures
        group_of(all_tools(plugins), name).len() > 1,
{
    let tools = all_tools(plugins);
    if is_stale(tools, targets, name) {
        lemma_first_stale_exists(tools, targets, targets.dom(), name);
    }
}

/// A stale binding has a first one in order.
pub proof fn lemma_first_stale_exists(
    tools: Seq<Contribution>,
    targets: Targets,
    names: Set<Seq<char>>,
    name: Seq<char>,
)
    requires
        is_stale(tools, targets, name),
        names == targets.dom(),
        names.finite(),
    ensures
        exists|first: Seq<char>| is_first_stale(tools, targets, first),
{
    let least = lemma_least_stale(tools, targets, names, name);
    assert forall|other: Seq<char>| #[trigger] is_stale(tools, targets, other) implies other == least
        || name_before(least, other) by {
        assert(names.contains(other));
    }
    assert(is_first_stale(tools, targets, least));
}

proof fn lemma_least_stale(
    tools: Seq<Contribution>,
    targets: Targets,
    names: Set<Seq<char>>,
    name: Seq<char>,
) -> (least: Seq<char>)
    requires
        is_stale(tools, targets, name),
        names.finite(),
    ensures
        is_stale(tools, targets, least),
        least == name || name_before(least, name),
        forall|other: Seq<char>| #[trigger]
            names.contains(other) && is_stale(tools, targets, other) ==> other == least
                || name_before(least, other),
    decreases names.len(),
{
    if names.is_empty() {
        name
    } else {
        let candidate = names.choose();
        let before = lemma_least_stale(tools, targets, names.remove(candidate), name);
        lemma_name_order(candidate, before, name);
        lemma_name_order(before, candidate, name);
        if is_stale(tools, targets, candidate) && name_before(candidate, before) {
            assert forall|other: Seq<char>| #[trigger]
                names.contains(other) && is_stale(tools, targets, other) implies other == candidate
                || name_before(candidate, other) by {
                if other != candidate {
                    assert(names.remove(candidate).contains(other));
                    lemma_name_order(candidate, before, other);
                }
            }
            candidate
        } else {
            assert forall|other: Seq<char>| #[trigger]
                names.contains(other) && is_stale(tools, targets, other) implies other == before
                || name_before(before, other) by {
                if other != candidate {
                    assert(names.remove(candidate).contains(other));
                }
            }
            before
        }
    }
}

// ---------------------------------------------------------------------------
// Changes
// ---------------------------------------------------------------------------

/// Unregistering a plugin undoes its registration.
pub proof fn lemma_unregister_undoes_register(
    plugins: Plugins,
    register: RegistryChange,
    unregister: RegistryChange,
)
    requires
        register is Register,
        unregister is Unregister,
        touched_id(register) == touched_id(unregister),
        changed(plugins, register) is Ok,
    ensures
        changed(changed(plugins, register)->Ok_0, unregister) == Ok::<Plugins, RegistryFault>(
            plugins,
        ),
{
    let id = touched_id(register);
    let more = changed(plugins, register)->Ok_0;
    assert(more.remove(id) =~= plugins);
}

/// A reload keeps the set of registered plugins and every other plugin.
pub proof fn lemma_reload_keeps_plugins(plugins: Plugins, reload: RegistryChange, id: Seq<char>)
    requires
        reload is Reload,
        changed(plugins, reload) is Ok,
    ensures
        changed(plugins, reload)->Ok_0.dom() == plugins.dom(),
        id != touched_id(reload) && plugins.dom().contains(id) ==> changed(
            plugins,
            reload,
        )->Ok_0[id] == plugins[id],
{
    assert(changed(plugins, reload)->Ok_0.dom() =~= plugins.dom());
}

/// Changes of different plugins can be made in either order.
pub proof fn lemma_changes_commute(
    plugins: Plugins,
    first: RegistryChange,
    second: RegistryChange,
)
    requires
        touched_id(first) != touched_id(second),
        changed(plugins, first) is Ok,
        changed(plugins, second) is Ok,
    ensures
        changed(changed(plugins, first)->Ok_0, second) == changed(
            changed(plugins, second)->Ok_0,
            first,
        ),
        changed(changed(plugins, first)->Ok_0, second) is Ok,
{
    assert(changed(changed(plugins, first)->Ok_0, second)->Ok_0 =~= changed(
        changed(plugins, second)->Ok_0,
        first,
    )->Ok_0);
}

/// A transaction without changes leaves the plugins as they are.
pub proof fn lemma_no_changes(plugins: Plugins)
    ensures
        changed_from(plugins, Seq::<RegistryChange>::empty(), 0) == Ok::<Plugins, RegistryFault>(
            plugins,
        ),
{
}

} // verus!
