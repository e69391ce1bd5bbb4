//! Which changes and which snapshots are accepted.

use vstd::prelude::*;

use crate::plugin_api::{Descriptor, Provenance};
use crate::registry::bindings::ToolBindingTarget;
use crate::registry::laws::{
    lemma_first_exists, lemma_first_stale_exists, lemma_names_have_one_owner, lemma_plugin_grows,
    plugin_at, plugin_list, table_of,
};
use crate::registry::snapshot::{
    all_tools, contributed_tools, group_of, is_first_stale, is_first_unsettled, is_stale,
    is_unsettled, no_tables, owned, owned_all, plugin_verdict, plugins_verdict, selected_of,
    snapshot_verdict, stale_verdict, table_with, tables_from, tools_verdict, with_commands,
    with_modals, with_plugin, with_prompts, with_resources, with_subscriptions, with_timelines,
    with_views, with_widgets, Contribution, ContributionKind, PluginPairs, PluginRegistration,
    RegisteredContribution, Table, Tables, Targets,
};
use crate::registry::transaction::{
    changed, changed_from, is_touched, touched_id, Plugins, RegistryChange,
};

verus! {

// ---------------------------------------------------------------------------
// Changes
// ---------------------------------------------------------------------------

/// The plugin of a change.
pub open spec fn plugin_of(change: RegistryChange) -> Seq<char> {
    match change {
        RegistryChange::Register(registration) => registration.held_provenance().plugin_id.text@,
        RegistryChange::Reload(registration) => registration.held_provenance().plugin_id.text@,
        RegistryChange::Unregister { plugin_id } => plugin_id.text@,
    }
}

/// Whether a change can be made: a new plugin is registered, and a registered one is
/// reloaded or unregistered.
pub open spec fn is_possible(plugins: Plugins, change: RegistryChange) -> bool {
    match change {
        RegistryChange::Register(_) => !plugins.dom().contains(plugin_of(change)),
        RegistryChange::Reload(_) => plugins.dom().contains(plugin_of(change)),
        RegistryChange::Unregister { .. } => plugins.dom().contains(plugin_of(change)),
    }
}

/// Whether plugins are what changes from change `i` on make of others: a registered or
/// reloaded plugin is the new one, an unregistered one is gone, and any other is as it
/// was.
pub open spec fn is_result(
    before: Plugins,
    changes: Seq<RegistryChange>,
    i: int,
    after: Plugins,
) -> bool {
    &&& forall|k: int|
        i <= k < changes.len() ==> match #[trigger] changes[k] {
            RegistryChange::Register(registration) => after.contains_pair(
                plugin_of(changes[k]),
                registration,
            ),
            RegistryChange::Reload(registration) => after.contains_pair(
                plugin_of(changes[k]),
                registration,
            ),
            RegistryChange::Unregister { .. } => !after.dom().contains(plugin_of(changes[k])),
        }
    &&& forall|id: Seq<char>|
        (forall|k: int| i <= k < changes.len() ==> plugin_of(#[trigger] changes[k]) != id) ==> {
            &&& #[trigger] after.dom().contains(id) == before.dom().contains(id)
            &&& after.dom().contains(id) ==> after[id] == before[id]
        }
}

/// Whether no change before it is of the same plugin, and the change can be made.
pub open spec fn is_in_turn(plugins: Plugins, changes: Seq<RegistryChange>, k: int) -> bool {
    &&& is_possible(plugins, changes[k])
    &&& forall|j: int| 0 <= j < k ==> plugin_of(#[trigger] changes[j]) != plugin_of(changes[k])
}

proof fn lemma_touched(changes: Seq<RegistryChange>, k: int)
    requires
        0 <= k < changes.len(),
    ensures
        is_touched(changes, k, touched_id(changes[k])) == !(forall|j: int|
            0 <= j < k ==> plugin_of(#[trigger] changes[j]) != plugin_of(changes[k])),
{
    assert(forall|j: int|
        0 <= j < k ==> plugin_of(#[trigger] changes[j]) == touched_id(changes[j]));
}

proof fn lemma_changes_from(plugins: Plugins, changes: Seq<RegistryChange>, i: int)
    requires
        0 <= i <= changes.len(),
    ensures
        changed_from(plugins, changes, i) is Ok <==> forall|k: int|
            i <= k < changes.len() ==> #[trigger] is_in_turn(plugins, changes, k),
        changed_from(plugins, changes, i) matches Ok(after) ==> is_result(
            plugins,
            changes,
            i,
            after,
        ),
    decreases changes.len() - i,
{
    if i < changes.len() {
        let change = changes[i];
        let id = plugin_of(change);
        lemma_touched(changes, i);
        if is_in_turn(plugins, changes, i) {
            let next = changed(plugins, change)->Ok_0;
            lemma_changes_from(next, changes, i + 1);
            assert forall|k: int| i + 1 <= k < changes.len() implies #[trigger] is_in_turn(
                plugins,
                changes,
                k,
            ) == is_in_turn(next, changes, k) by {
                if plugin_of(changes[k]) == id {
                    assert(plugin_of(changes[i]) == plugin_of(changes[k]));
                }
            }
            if changed_from(next, changes, i + 1) is Ok {
                assert forall|k: int| i <= k < changes.len() implies #[trigger] is_in_turn(
                    plugins,
                    changes,
                    k,
                ) by {
                    if k > i {
                        assert(is_in_turn(next, changes, k));
                    }
                }
                let after = changed_from(next, changes, i + 1)->Ok_0;
                assert forall|k: int| i + 1 <= k < changes.len() implies plugin_of(
                    #[trigger] changes[k],
                ) != id by {
                    assert(is_in_turn(next, changes, k));
                    assert(plugin_of(changes[i]) != plugin_of(changes[k]));
                }
                assert(after.dom().contains(id) == next.dom().contains(id));
                assert forall|other: Seq<char>|
                    (forall|k: int|
                        i <= k < changes.len() ==> plugin_of(#[trigger] changes[k]) != other)
                    implies {
                    &&& #[trigger] after.dom().contains(other) == plugins.dom().contains(other)
                    &&& after.dom().contains(other) ==> after[other] == plugins[other]
                } by {
                    assert(plugin_of(changes[i]) != other);
                    assert(after.dom().contains(other) == next.dom().contains(other));
                }
            } else {
                let k = choose|k: int|
                    i + 1 <= k < changes.len() && !#[trigger] is_in_turn(next, changes, k);
                assert(!is_in_turn(plugins, changes, k));
            }
        }
    }
}

/// Changes are accepted exactly when no plugin is changed twice and each change can be
/// made, and they lead to the plugins that they should.
pub proof fn lemma_changes(plugins: Plugins, changes: Seq<RegistryChange>)
    ensures
        changed_from(plugins, changes, 0) is Ok <==> {
            &&& forall|j: int, k: int|
                0 <= j < k < changes.len() ==> plugin_of(#[trigger] changes[j]) != plugin_of(
                    #[trigger] changes[k],
                )
            &&& forall|k: int|
                0 <= k < changes.len() ==> is_possible(plugins, #[trigger] changes[k])
        },
        changed_from(plugins, changes, 0) matches Ok(after) ==> is_result(
            plugins,
            changes,
            0,
            after,
        ),
{
    lemma_changes_from(plugins, changes, 0);
    let all = forall|k: int|
        0 <= k < changes.len() ==> #[trigger] is_in_turn(plugins, changes, k);
    if all {
        assert forall|j: int, k: int| 0 <= j < k < changes.len() implies plugin_of(
            #[trigger] changes[j],
        ) != plugin_of(#[trigger] changes[k]) by {
            assert(is_in_turn(plugins, changes, k));
        }
        assert forall|k: int| 0 <= k < changes.len() implies is_possible(
            plugins,
            #[trigger] changes[k],
        ) by {
            assert(is_in_turn(plugins, changes, k));
        }
    }
}

// ---------------------------------------------------------------------------
// Tools
// ---------------------------------------------------------------------------

/// Whether the tool at a position has a name.
pub open spec fn is_named(tools: Seq<Contribution>, name: Seq<char>, p: int) -> bool {
    0 <= p < tools.len() && tools[p].descriptor.name.text@ == name
}

/// Whether the tool at a position has a name, and a binding is to its owner.
pub open spec fn is_bound(
    tools: Seq<Contribution>,
    name: Seq<char>,
    target: ToolBindingTarget,
    p: int,
) -> bool {
    &&& is_named(tools, name, p)
    &&& tools[p].provenance.plugin_id.text@ == target.plugin_id.text@
    &&& tools[p].provenance.version@ == target.version@
}

/// Whether the tool at a position is the only one with a name.
pub open spec fn is_sole(tools: Seq<Contribution>, name: Seq<char>, p: int) -> bool {
    is_named(tools, name, p) && forall|q: int| #[trigger] is_named(tools, name, q) ==> q == p
}

/// Whether the tool at a position is the only one with a name that a binding is to.
pub open spec fn is_sole_bound(
    tools: Seq<Contribution>,
    name: Seq<char>,
    target: ToolBindingTarget,
    p: int,
) -> bool {
    is_bound(tools, name, target, p) && forall|q: int| #[trigger]
        is_bound(tools, name, target, q) ==> q == p
}

proof fn lemma_group(tools: Seq<Contribution>, name: Seq<char>)
    ensures
        group_of(tools, name).len() > 0 <==> exists|p: int| is_named(tools, name, p),
        group_of(tools, name).len() == 1 <==> exists|p: int| is_sole(tools, name, p),
        forall|p: int| #[trigger]
            is_sole(tools, name, p) ==> group_of(tools, name) == seq![tools[p]],
    decreases tools.len(),
{
    if tools.len() > 0 {
        let fewer = tools.drop_last();
        let last = tools.len() - 1;
        lemma_group(fewer, name);
        assert forall|p: int| p != last implies #[trigger] is_named(tools, name, p) == is_named(
            fewer,
            name,
            p,
        ) by {}
        if is_named(tools, name, last) {
            if group_of(fewer, name).len() == 0 {
                assert forall|q: int| #[trigger] is_named(tools, name, q) implies q == last by {
                    if q != last {
                        assert(is_named(fewer, name, q));
                    }
                }
                assert(is_sole(tools, name, last));
                assert(group_of(tools, name) =~= seq![tools[last]]);
            } else {
                let p = choose|p: int| is_named(fewer, name, p);
                assert(is_named(tools, name, p));
                assert forall|q: int| !#[trigger] is_sole(tools, name, q) by {}
            }
        } else {
            assert forall|p: int| #[trigger] is_sole(tools, name, p) == is_sole(fewer, name, p) by {
                if is_sole(tools, name, p) {
                    assert(p != last);
                    assert(is_named(fewer, name, p));
                    assert forall|q: int| #[trigger] is_named(fewer, name, q) implies q == p by {
                        assert(is_named(tools, name, q));
                    }
                }
                if is_sole(fewer, name, p) {
                    assert(is_named(tools, name, p));
                    assert forall|q: int| #[trigger] is_named(tools, name, q) implies q == p by {
                        assert(is_named(fewer, name, q));
                    }
                }
            }
            if exists|p: int| is_named(fewer, name, p) {
                let p = choose|p: int| is_named(fewer, name, p);
                assert(is_named(tools, name, p));
            }
            if exists|p: int| is_named(tools, name, p) {
                let p = choose|p: int| is_named(tools, name, p);
                assert(is_named(fewer, name, p));
            }
            if exists|p: int| is_sole(fewer, name, p) {
                let p = choose|p: int| is_sole(fewer, name, p);
                assert(is_sole(tools, name, p));
            }
            if exists|p: int| is_sole(tools, name, p) {
                let p = choose|p: int| is_sole(tools, name, p);
                assert(is_sole(fewer, name, p));
            }
        }
    }
}

proof fn lemma_selected(tools: Seq<Contribution>, name: Seq<char>, target: ToolBindingTarget)
    ensures
        ({
            let chosen = selected_of(group_of(tools, name), target);
            &&& chosen.len() > 0 <==> exists|p: int| is_bound(tools, name, target, p)
            &&& chosen.len() == 1 <==> exists|p: int| is_sole_bound(tools, name, target, p)
            &&& forall|p: int| #[trigger]
                is_sole_bound(tools, name, target, p) ==> chosen == seq![tools[p]]
        }),
    decreases tools.len(),
{
    if tools.len() > 0 {
        let fewer = tools.drop_last();
        let last = tools.len() - 1;
        lemma_selected(fewer, name, target);
        let before = group_of(fewer, name);
        if is_named(tools, name, last) {
            assert(group_of(tools, name).drop_last() =~= before);
        }
        assert forall|p: int| p != last implies #[trigger] is_bound(tools, name, target, p)
            == is_bound(fewer, name, target, p) by {}
        if is_bound(tools, name, target, last) {
            if selected_of(before, target).len() == 0 {
                assert forall|q: int| #[trigger] is_bound(tools, name, target, q) implies q
                    == last by {
                    if q != last {
                        assert(is_bound(fewer, name, target, q));
                    }
                }
                assert(is_sole_bound(tools, name, target, last));
                assert(selected_of(group_of(tools, name), target) =~= seq![tools[last]]);
            } else {
                let p = choose|p: int| is_bound(fewer, name, target, p);
                assert(is_bound(tools, name, target, p));
                assert forall|q: int| !#[trigger] is_sole_bound(tools, name, target, q) by {}
            }
        } else {
            assert forall|p: int| #[trigger] is_sole_bound(tools, name, target, p)
                == is_sole_bound(fewer, name, target, p) by {
                if is_sole_bound(tools, name, target, p) {
                    assert(is_bound(fewer, name, target, p));
                    assert forall|q: int| #[trigger] is_bound(fewer, name, target, q) implies q
                        == p by {
                        assert(is_bound(tools, name, target, q));
                    }
                }
                if is_sole_bound(fewer, name, target, p) {
                    assert(is_bound(tools, name, target, p));
                    assert forall|q: int| #[trigger] is_bound(tools, name, target, q) implies q
                        == p by {
                        assert(is_bound(fewer, name, target, q));
                    }
                }
            }
            if exists|p: int| is_bound(fewer, name, target, p) {
                let p = choose|p: int| is_bound(fewer, name, target, p);
                assert(is_bound(tools, name, target, p));
            }
            if exists|p: int| is_bound(tools, name, target, p) {
                let p = choose|p: int| is_bound(tools, name, target, p);
                assert(is_bound(fewer, name, target, p));
            }
            if exists|p: int| is_sole_bound(fewer, name, target, p) {
                let p = choose|p: int| is_sole_bound(fewer, name, target, p);
                assert(is_sole_bound(tools, name, target, p));
            }
            if exists|p: int| is_sole_bound(tools, name, target, p) {
                let p = choose|p: int| is_sole_bound(tools, name, target, p);
                assert(is_sole_bound(fewer, name, target, p));
            }
        }
    }
}

/// Whether several tools have a name.
pub open spec fn collides(tools: Seq<Contribution>, name: Seq<char>) -> bool {
    exists|p: int, q: int|
        p != q && #[trigger] is_named(tools, name, p) && #[trigger] is_named(tools, name, q)
}

/// Whether a name that several tools have is bound to exactly one of them.
pub open spec fn is_settled(tools: Seq<Contribution>, targets: Targets, name: Seq<char>) -> bool {
    collides(tools, name) ==> targets.dom().contains(name) && exists|p: int|
        is_sole_bound(tools, name, targets[name], p)
}

proof fn lemma_collides(tools: Seq<Contribution>, name: Seq<char>)
    ensures
        collides(tools, name) == (group_of(tools, name).len() > 1),
{
    lemma_group(tools, name);
    if collides(tools, name) {
        assert(forall|p: int| !#[trigger] is_sole(tools, name, p));
    } else if group_of(tools, name).len() > 1 {
        let p = choose|p: int| is_named(tools, name, p);
        assert(is_sole(tools, name, p));
    }
}

proof fn lemma_settled(tools: Seq<Contribution>, targets: Targets, name: Seq<char>)
    ensures
        is_settled(tools, targets, name) == !is_unsettled(tools, targets, name),
{
    lemma_collides(tools, name);
    if targets.dom().contains(name) {
        lemma_selected(tools, name, targets[name]);
    }
}

/// Tools are settled exactly when every name that several of them have is bound to
/// exactly one of them. A name has the only tool with it, or the one that it is bound
/// to.
pub proof fn lemma_tools(tools: Seq<Contribution>, targets: Targets)
    ensures
        tools_verdict(tools, targets) is Ok <==> forall|name: Seq<char>| #[trigger]
            is_settled(tools, targets, name),
        tools_verdict(tools, targets) matches Ok(table) ==> forall|name: Seq<char>|
            {
                &&& #[trigger] table.dom().contains(name) <==> exists|p: int|
                    is_named(tools, name, p)
                &&& forall|p: int| #[trigger]
                    is_sole(tools, name, p) ==> table[name] == tools[p]
                &&& forall|p: int|
                    collides(tools, name) && #[trigger] is_sole_bound(
                        tools,
                        name,
                        targets[name],
                        p,
                    ) ==> table[name] == tools[p]
            },
{
    if tools_verdict(tools, targets) is Ok {
        assert forall|name: Seq<char>| #[trigger] is_settled(tools, targets, name) by {
            lemma_settled(tools, targets, name);
            if is_unsettled(tools, targets, name) {
                lemma_first_exists(tools, targets, name);
            }
        }
        let table = tools_verdict(tools, targets)->Ok_0;
        assert forall|name: Seq<char>|
            {
                &&& #[trigger] table.dom().contains(name) <==> exists|p: int|
                    is_named(tools, name, p)
                &&& forall|p: int| #[trigger]
                    is_sole(tools, name, p) ==> table[name] == tools[p]
                &&& forall|p: int|
                    collides(tools, name) && #[trigger] is_sole_bound(
                        tools,
                        name,
                        targets[name],
                        p,
                    ) ==> table[name] == tools[p]
            } by {
            lemma_group(tools, name);
            lemma_collides(tools, name);
            assert(is_settled(tools, targets, name));
            lemma_selected(tools, name, targets[name]);
            assert forall|p: int|
                collides(tools, name) && #[trigger] is_sole_bound(
                    tools,
                    name,
                    targets[name],
                    p,
                ) implies table[name] == tools[p] by {
                assert(is_named(tools, name, p));
            }
        }
    } else {
        let name = choose|name: Seq<char>| is_first_unsettled(tools, targets, name);
        lemma_settled(tools, targets, name);
        assert(!is_settled(tools, targets, name));
    }
}

/// No binding is stale exactly when every bound name is one that several tools have.
pub proof fn lemma_bindings(tools: Seq<Contribution>, targets: Targets)
    requires
        targets.dom().finite(),
    ensures
        stale_verdict(tools, targets) is Ok <==> forall|name: Seq<char>| #[trigger]
            targets.dom().contains(name) ==> collides(tools, name),
{
    if stale_verdict(tools, targets) is Ok {
        assert forall|name: Seq<char>| #[trigger] targets.dom().contains(name) implies collides(
            tools,
            name,
        ) by {
            lemma_collides(tools, name);
            if is_stale(tools, targets, name) {
                lemma_first_stale_exists(tools, targets, targets.dom(), name);
            }
        }
    } else {
        let name = choose|name: Seq<char>| is_first_stale(tools, targets, name);
        lemma_collides(tools, name);
        assert(targets.dom().contains(name));
    }
}

/// The tools of one more plugin come after those of the others, each with its owner.
pub proof fn lemma_all_tools(plugins: PluginPairs, i: int)
    requires
        0 <= i < plugins.len(),
    ensures
        contributed_tools(plugins, 0).len() == 0,
        ({
            let tools = plugin_at(plugins, i).held_manifest().contributions.tools@;
            contributed_tools(plugins, i + 1) == contributed_tools(plugins, i) + Seq::new(
                tools.len(),
                |j: int|
                    RegisteredContribution {
                        descriptor: tools[j],
                        provenance: plugin_at(plugins, i).held_provenance(),
                    },
            )
        }),
        all_tools(plugins) == contributed_tools(plugins, plugins.len() as int),
{
    let tools = plugin_at(plugins, i).held_manifest().contributions.tools@;
    assert(owned_all(tools, plugin_at(plugins, i).held_provenance()) =~= Seq::new(
        tools.len(),
        |j: int|
            RegisteredContribution {
                descriptor: tools[j],
                provenance: plugin_at(plugins, i).held_provenance(),
            },
    ));
}

// ---------------------------------------------------------------------------
// Snapshots
// ---------------------------------------------------------------------------

/// Whether a plugin has a contribution at a position.
pub open spec fn has_position(
    plugins: PluginPairs,
    kind: ContributionKind,
    i: int,
    j: int,
) -> bool {
    0 <= i < plugins.len() && 0 <= j < plugin_list(plugin_at(plugins, i), kind).len()
}

/// The name of a contribution at a position.
pub open spec fn name_at(
    plugins: PluginPairs,
    kind: ContributionKind,
    i: int,
    j: int,
) -> Seq<char> {
    plugin_list(plugin_at(plugins, i), kind)[j].name.text@
}

/// Whether no two contributions of a kind share a name.
pub open spec fn has_unique_names(plugins: PluginPairs, kind: ContributionKind) -> bool {
    forall|i: int, j: int, k: int, l: int|
        #![trigger has_position(plugins, kind, i, j), has_position(plugins, kind, k, l)]
        has_position(plugins, kind, i, j) && has_position(plugins, kind, k, l) && name_at(
            plugins,
            kind,
            i,
            j,
        ) == name_at(plugins, kind, k, l) ==> i == k && j == l
}

/// Whether the names of the plugins from plugin `from` on are not in a table yet.
spec fn is_clear(tables: Tables, plugins: PluginPairs, kind: ContributionKind, from: int) -> bool {
    forall|i: int, j: int|
        from <= i && #[trigger] has_position(plugins, kind, i, j) ==> !table_of(
            tables,
            kind,
        ).dom().contains(name_at(plugins, kind, i, j))
}

proof fn lemma_table_accepts(
    table: Table,
    descriptors: Seq<Descriptor>,
    provenance: Provenance,
    kind: ContributionKind,
    i: int,
)
    requires
        0 <= i <= descriptors.len(),
        forall|j: int, k: int|
            i <= j < k < descriptors.len() ==> (#[trigger] descriptors[j]).name.text@ != (
            #[trigger] descriptors[k]).name.text@,
        forall|j: int|
            i <= j < descriptors.len() ==> !table.dom().contains(
                (#[trigger] descriptors[j]).name.text@,
            ),
    ensures
        table_with(table, descriptors, provenance, kind, i) is Ok,
    decreases descriptors.len() - i,
{
    if i < descriptors.len() {
        let name = descriptors[i].name.text@;
        let next = table.insert(
            name,
            owned(descriptors[i], provenance),
        );
        assert forall|j: int| i + 1 <= j < descriptors.len() implies !next.dom().contains(
            (#[trigger] descriptors[j]).name.text@,
        ) by {
            assert(descriptors[i].name.text@ != descriptors[j].name.text@);
        }
        lemma_table_accepts(next, descriptors, provenance, kind, i + 1);
    }
}

proof fn lemma_kind_accepts(
    tables: Tables,
    plugins: PluginPairs,
    kind: ContributionKind,
    from: int,
)
    requires
        0 <= from < plugins.len(),
        is_clear(tables, plugins, kind, from),
        has_unique_names(plugins, kind),
    ensures
        table_with(
            table_of(tables, kind),
            plugin_list(plugin_at(plugins, from), kind),
            plugin_at(plugins, from).held_provenance(),
            kind,
            0,
        ) is Ok,
{
    let list = plugin_list(plugin_at(plugins, from), kind);
    assert forall|j: int, k: int| 0 <= j < k < list.len() implies (#[trigger] list[j]).name.text@
        != (#[trigger] list[k]).name.text@ by {
        assert(has_position(plugins, kind, from, j));
        assert(has_position(plugins, kind, from, k));
    }
    assert forall|j: int| 0 <= j < list.len() implies !table_of(tables, kind).dom().contains(
        (#[trigger] list[j]).name.text@,
    ) by {
        assert(has_position(plugins, kind, from, j));
    }
    lemma_table_accepts(
        table_of(tables, kind),
        list,
        plugin_at(plugins, from).held_provenance(),
        kind,
        0,
    );
}

proof fn lemma_plugin_accepts(tables: Tables, plugins: PluginPairs, from: int)
    requires
        0 <= from < plugins.len(),
        forall|kind: ContributionKind| #[trigger] is_clear(tables, plugins, kind, from),
        forall|kind: ContributionKind|
            kind !is Tool ==> #[trigger] has_unique_names(plugins, kind),
    ensures
        with_plugin(tables, plugin_at(plugins, from)) is Ok,
{
    let kinds = seq![
        ContributionKind::Command,
        ContributionKind::Prompt,
        ContributionKind::Resource,
        ContributionKind::View,
        ContributionKind::Timeline,
        ContributionKind::Modal,
        ContributionKind::Widget,
        ContributionKind::EventSubscription,
    ];
    assert forall|k: int| 0 <= k < 8 implies table_with(
        table_of(tables, #[trigger] kinds[k]),
        plugin_list(plugin_at(plugins, from), kinds[k]),
        plugin_at(plugins, from).held_provenance(),
        kinds[k],
        0,
    ) is Ok by {
        assert(is_clear(tables, plugins, kinds[k], from));
        assert(kinds[k] !is Tool);
        assert(has_unique_names(plugins, kinds[k]));
        lemma_kind_accepts(tables, plugins, kinds[k], from);
    }
    assert(kinds[0] is Command && kinds[1] is Prompt && kinds[2] is Resource && kinds[3] is View);
    assert(kinds[4] is Timeline && kinds[5] is Modal && kinds[6] is Widget && kinds[7]
        is EventSubscription);
    let registration = plugin_at(plugins, from);
    let commands = with_commands(Ok(tables), registration);
    assert(commands is Ok);
    let prompts = with_prompts(commands, registration);
    assert(prompts is Ok);
    let resources = with_resources(prompts, registration);
    assert(resources is Ok);
    let views = with_views(resources, registration);
    assert(views is Ok);
    let timelines = with_timelines(views, registration);
    assert(timelines is Ok);
    let modals = with_modals(timelines, registration);
    assert(modals is Ok);
    let widgets = with_widgets(modals, registration);
    assert(widgets is Ok);
    assert(with_subscriptions(widgets, registration) is Ok);
}

proof fn lemma_tables_accept(tables: Tables, plugins: PluginPairs, from: int)
    requires
        0 <= from <= plugins.len(),
        forall|kind: ContributionKind| #[trigger] is_clear(tables, plugins, kind, from),
        forall|kind: ContributionKind|
            kind !is Tool ==> #[trigger] has_unique_names(plugins, kind),
    ensures
        tables_from(tables, plugins, from) is Ok,
    decreases plugins.len() - from,
{
    if from < plugins.len() {
        let registration = plugin_at(plugins, from);
        lemma_plugin_accepts(tables, plugins, from);
        let next = with_plugin(tables, registration)->Ok_0;
        assert forall|kind: ContributionKind| #[trigger] is_clear(next, plugins, kind, from + 1) by {
            if kind !is Tool {
                lemma_plugin_grows(tables, registration, kind);
                let before = table_of(tables, kind);
                let after = table_of(next, kind);
                let list = plugin_list(registration, kind);
                assert(is_clear(tables, plugins, kind, from));
                assert(has_unique_names(plugins, kind));
                assert forall|i: int, j: int|
                    from + 1 <= i && #[trigger] has_position(
                        plugins,
                        kind,
                        i,
                        j,
                    ) implies !after.dom().contains(name_at(plugins, kind, i, j)) by {
                    let name = name_at(plugins, kind, i, j);
                    if after.dom().contains(name) {
                        if !before.dom().contains(name) {
                            let l = choose|l: int|
                                0 <= l < list.len() && (#[trigger] list[l]).name.text@ == name;
                            assert(has_position(plugins, kind, from, l));
                            assert(name_at(plugins, kind, from, l) == name);
                        }
                    }
                }
            }
        }
        lemma_tables_accept(next, plugins, from + 1);
    }
}

/// Whether a plugin may be in a snapshot: it is trusted, its manifest names it as its
/// provenance does, and its contributions are valid.
pub open spec fn is_sound_plugin(registration: PluginRegistration) -> bool {
    &&& registration.held_provenance().trusted
    &&& registration.held_manifest().id.text@ == registration.held_provenance().plugin_id.text@
    &&& registration.held_manifest().version@ == registration.held_provenance().version@
    &&& registration.held_manifest().contributions_valid
}

proof fn lemma_plugins_from(plugins: PluginPairs, i: int)
    requires
        0 <= i <= plugins.len(),
    ensures
        plugins_verdict(plugins, i) is Ok <==> forall|k: int|
            i <= k < plugins.len() ==> is_sound_plugin(#[trigger] plugin_at(plugins, k)),
    decreases plugins.len() - i,
{
    if i < plugins.len() {
        lemma_plugins_from(plugins, i + 1);
        assert(plugin_verdict(*plugins[i].1) is Ok == is_sound_plugin(plugin_at(plugins, i)));
    }
}

/// A snapshot can be built exactly when every plugin is sound, no two contributions of
/// a kind but tools share a name, every tool name that several plugins contribute is
/// bound to exactly one of them, and no other name is bound. It has the generation and
/// the plugins that it is built for.
pub proof fn lemma_snapshots(generation: u64, plugins: PluginPairs, targets: Targets)
    requires
        targets.dom().finite(),
    ensures
        snapshot_verdict(generation, plugins, targets) is Ok <==> {
            &&& forall|k: int|
                0 <= k < plugins.len() ==> is_sound_plugin(#[trigger] plugin_at(plugins, k))
            &&& forall|kind: ContributionKind|
                kind !is Tool ==> #[trigger] has_unique_names(plugins, kind)
            &&& forall|name: Seq<char>| #[trigger] is_settled(all_tools(plugins), targets, name)
            &&& forall|name: Seq<char>| #[trigger]
                targets.dom().contains(name) ==> collides(all_tools(plugins), name)
        },
        snapshot_verdict(generation, plugins, targets) matches Ok(snapshot) ==> snapshot.generation
            == generation && snapshot.plugins == plugins,
{
    lemma_plugins_from(plugins, 0);
    lemma_tools(all_tools(plugins), targets);
    lemma_bindings(all_tools(plugins), targets);
    if forall|kind: ContributionKind| kind !is Tool ==> #[trigger] has_unique_names(plugins, kind) {
        assert forall|kind: ContributionKind| #[trigger] is_clear(
            no_tables(),
            plugins,
            kind,
            0,
        ) by {}
        lemma_tables_accept(no_tables(), plugins, 0);
    }
    if snapshot_verdict(generation, plugins, targets) is Ok {
        assert forall|kind: ContributionKind| kind !is Tool implies #[trigger] has_unique_names(
            plugins,
            kind,
        ) by {
            assert forall|i: int, j: int, k: int, l: int|
                #![trigger has_position(plugins, kind, i, j), has_position(plugins, kind, k, l)]
                has_position(plugins, kind, i, j) && has_position(plugins, kind, k, l) && name_at(
                    plugins,
                    kind,
                    i,
                    j,
                ) == name_at(plugins, kind, k, l) implies i == k && j == l by {
                lemma_names_have_one_owner(generation, plugins, targets, kind, i, j, k, l);
            }
        }
    }
}

} // verus!
