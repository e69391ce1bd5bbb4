//! Transactions, snapshots, collisions and bindings of the plugin registry.

use std::sync::Arc;

use mcode_plugin_host::name_map::NameMap;
use mcode_plugin_host::plugin_api::{
    ContributionSet, Descriptor, Identifier, PluginId, PluginManifest, Provenance,
};
use mcode_plugin_host::registry::bindings::{HostBindings, RawHostBindings, ToolBindingTarget};
use mcode_plugin_host::registry::snapshot::{
    ContributionKind, PluginRegistration, RegistryError, RegistrySnapshot,
};
use mcode_plugin_host::registry::transaction::{PluginRegistry, RegistryChange};

fn plugin_id(text: &str) -> PluginId {
    PluginId { text: text.to_owned() }
}

fn identifier(text: &str) -> Identifier {
    Identifier { text: text.to_owned() }
}

fn descriptor(name: &str, handle: u64) -> Descriptor {
    Descriptor { name: identifier(name), handle }
}

fn no_contributions() -> ContributionSet {
    ContributionSet {
        tools: Vec::new(),
        commands: Vec::new(),
        prompts: Vec::new(),
        resources: Vec::new(),
        views: Vec::new(),
        timelines: Vec::new(),
        modals: Vec::new(),
        widgets: Vec::new(),
        event_subscriptions: Vec::new(),
    }
}

fn tools(names: &[&str]) -> ContributionSet {
    let mut contributions = no_contributions();
    for (handle, name) in names.iter().enumerate() {
        contributions.tools.push(descriptor(name, handle as u64));
    }
    contributions
}

fn provenance(id: &str, version: &str, trusted: bool) -> Provenance {
    Provenance { plugin_id: plugin_id(id), version: version.to_owned(), trusted }
}

fn manifest(id: &str, version: &str, contributions: ContributionSet) -> PluginManifest {
    PluginManifest {
        id: plugin_id(id),
        version: version.to_owned(),
        contributions,
        contributions_valid: true,
    }
}

fn registration(id: &str, version: &str, contributions: ContributionSet) -> Arc<PluginRegistration> {
    Arc::new(
        PluginRegistration::new(
            manifest(id, version, contributions),
            provenance(id, version, true),
        )
        .unwrap(),
    )
}

fn register(id: &str, contributions: ContributionSet) -> RegistryChange {
    RegistryChange::Register(registration(id, "1.0.0", contributions))
}

fn unregister(id: &str) -> RegistryChange {
    RegistryChange::Unregister { plugin_id: plugin_id(id) }
}

fn bindings(targets: &[(&str, &str, &str)]) -> HostBindings {
    let mut tool_binding = NameMap::new();
    for (name, owner, version) in targets {
        tool_binding.insert(
            (*name).to_owned(),
            ToolBindingTarget { plugin_id: plugin_id(owner), version: (*version).to_owned() },
        );
    }
    HostBindings::parse_json(
        b"{}",
        16,
        Some(RawHostBindings { binding_version: 1, tool_binding }),
    )
    .unwrap()
}

fn commit(
    registry: &mut PluginRegistry,
    changes: Vec<RegistryChange>,
    bindings: HostBindings,
) -> Result<RegistrySnapshot, RegistryError> {
    let mut transaction = registry.prepare(changes, bindings)?;
    transaction.validate()?;
    transaction.commit(registry)
}

fn plugin_names(snapshot: &RegistrySnapshot) -> Vec<String> {
    snapshot
        .plugins()
        .into_iter()
        .map(|plugin| plugin.provenance().plugin_id.text.clone())
        .collect()
}

fn tool_names(snapshot: &RegistrySnapshot) -> Vec<String> {
    snapshot.tools().into_iter().map(|tool| tool.descriptor().name.text.clone()).collect()
}

#[test]
fn new_registry_is_empty_at_generation_zero() {
    for registry in [PluginRegistry::new(), PluginRegistry::default()] {
        let snapshot = registry.snapshot();
        assert_eq!(snapshot.generation(), 0);
        assert!(snapshot.plugins().is_empty());
        assert!(snapshot.tools().is_empty());
        assert!(snapshot.commands().is_empty());
        assert!(snapshot.prompts().is_empty());
        assert!(snapshot.resources().is_empty());
        assert!(snapshot.views().is_empty());
        assert!(snapshot.timelines().is_empty());
        assert!(snapshot.modals().is_empty());
        assert!(snapshot.widgets().is_empty());
        assert!(snapshot.event_subscriptions().is_empty());
        assert!(snapshot.plugin("alpha").is_none());
        assert!(snapshot.tool("read").is_none());
    }
}

#[test]
fn registered_plugins_and_tools_come_in_name_order() {
    let mut registry = PluginRegistry::new();
    let snapshot = commit(
        &mut registry,
        vec![
            register("zeta", tools(&["write", "append"])),
            register("alpha", tools(&["read"])),
        ],
        HostBindings::empty(),
    )
    .unwrap();
    assert_eq!(snapshot.generation(), 1);
    assert_eq!(plugin_names(&snapshot), ["alpha", "zeta"]);
    assert_eq!(tool_names(&snapshot), ["append", "read", "write"]);
    let append = snapshot.tool("append").unwrap();
    assert_eq!(append.descriptor().handle, 1);
    assert_eq!(append.provenance(), &provenance("zeta", "1.0.0", true));
    assert_eq!(snapshot.plugin("zeta").unwrap().manifest().contributions.tools.len(), 2);
    assert_eq!(registry.snapshot().generation(), 1);
}

#[test]
fn every_kind_has_its_own_table() {
    let mut contributions = no_contributions();
    contributions.tools.push(descriptor("same", 1));
    contributions.commands.push(descriptor("same", 2));
    contributions.prompts.push(descriptor("same", 3));
    contributions.resources.push(descriptor("same", 4));
    contributions.views.push(descriptor("same", 5));
    contributions.timelines.push(descriptor("same", 6));
    contributions.modals.push(descriptor("same", 7));
    contributions.widgets.push(descriptor("same", 8));
    contributions.event_subscriptions.push(descriptor("same", 9));
    let mut registry = PluginRegistry::new();
    let snapshot = commit(
        &mut registry,
        vec![register("alpha", contributions)],
        HostBindings::empty(),
    )
    .unwrap();
    let handles = [
        snapshot.tools()[0].descriptor().handle,
        snapshot.commands()[0].descriptor().handle,
        snapshot.prompts()[0].descriptor().handle,
        snapshot.resources()[0].descriptor().handle,
        snapshot.views()[0].descriptor().handle,
        snapshot.timelines()[0].descriptor().handle,
        snapshot.modals()[0].descriptor().handle,
        snapshot.widgets()[0].descriptor().handle,
        snapshot.event_subscriptions()[0].descriptor().handle,
    ];
    assert_eq!(handles, [1, 2, 3, 4, 5, 6, 7, 8, 9]);
}

fn set_with(kind: ContributionKind, name: &str) -> ContributionSet {
    let mut contributions = no_contributions();
    let list = match kind {
        ContributionKind::Tool => &mut contributions.tools,
        ContributionKind::Command => &mut contributions.commands,
        ContributionKind::Prompt => &mut contributions.prompts,
        ContributionKind::Resource => &mut contributions.resources,
        ContributionKind::View => &mut contributions.views,
        ContributionKind::Timeline => &mut contributions.timelines,
        ContributionKind::Modal => &mut contributions.modals,
        ContributionKind::Widget => &mut contributions.widgets,
        ContributionKind::EventSubscription => &mut contributions.event_subscriptions,
    };
    list.push(descriptor(name, 0));
    contributions
}

#[test]
fn collisions_name_their_kind() {
    let kinds = [
        (ContributionKind::Tool, "Tool"),
        (ContributionKind::Command, "Command"),
        (ContributionKind::Prompt, "Prompt"),
        (ContributionKind::Resource, "Resource"),
        (ContributionKind::View, "View"),
        (ContributionKind::Timeline, "Timeline"),
        (ContributionKind::Modal, "Modal"),
        (ContributionKind::Widget, "Widget"),
        (ContributionKind::EventSubscription, "EventSubscription"),
    ];
    for (kind, text) in kinds {
        let mut registry = PluginRegistry::new();
        let error = commit(
            &mut registry,
            vec![register("alpha", set_with(kind, "same")), register("beta", set_with(kind, "same"))],
            HostBindings::empty(),
        )
        .unwrap_err();
        assert_eq!(error, RegistryError::Collision { kind, name: identifier("same") });
        assert_eq!(error.message(), format!("{text} contribution name collision for same"));
        assert_eq!(registry.snapshot().generation(), 0);
    }
}

#[test]
fn binding_settles_a_tool_collision() {
    let mut registry = PluginRegistry::new();
    let changes = || vec![register("alpha", tools(&["read"])), register("beta", tools(&["read"]))];
    let snapshot = commit(
        &mut registry,
        changes(),
        bindings(&[("read", "beta", "1.0.0")]),
    )
    .unwrap();
    assert_eq!(tool_names(&snapshot), ["read"]);
    assert_eq!(snapshot.tool("read").unwrap().provenance().plugin_id.text, "beta");

    let mut other = PluginRegistry::new();
    assert_eq!(
        commit(&mut other, changes(), bindings(&[("read", "gamma", "1.0.0")])).unwrap_err(),
        RegistryError::InvalidToolBinding(identifier("read")),
    );
    assert_eq!(
        commit(&mut other, changes(), bindings(&[("read", "beta", "2.0.0")])).unwrap_err(),
        RegistryError::InvalidToolBinding(identifier("read")),
    );
}

#[test]
fn binding_that_selects_two_contributions_is_refused() {
    let mut registry = PluginRegistry::new();
    let error = commit(
        &mut registry,
        vec![register("alpha", tools(&["read", "read"]))],
        bindings(&[("read", "alpha", "1.0.0")]),
    )
    .unwrap_err();
    assert_eq!(error, RegistryError::InvalidToolBinding(identifier("read")));
    assert_eq!(error.message(), "host toolBinding for read does not select a colliding owner");
}

#[test]
fn binding_without_a_collision_is_stale() {
    let mut registry = PluginRegistry::new();
    for name in ["read", "absent"] {
        let error = commit(
            &mut registry,
            vec![register("alpha", tools(&["read"]))],
            bindings(&[(name, "alpha", "1.0.0")]),
        )
        .unwrap_err();
        assert_eq!(error, RegistryError::StaleToolBinding(identifier(name)));
        assert_eq!(
            error.message(),
            format!("host toolBinding for {name} is stale or unnecessary"),
        );
    }
}

#[test]
fn first_stale_binding_is_reported() {
    let mut registry = PluginRegistry::new();
    let error = commit(
        &mut registry,
        vec![register("alpha", tools(&["read"])), register("beta", tools(&["read"]))],
        bindings(&[
            ("read", "alpha", "1.0.0"),
            ("write", "alpha", "1.0.0"),
            ("open", "alpha", "1.0.0"),
        ]),
    )
    .unwrap_err();
    assert_eq!(error, RegistryError::StaleToolBinding(identifier("open")));
}

#[test]
fn untrusted_plugin_cannot_activate() {
    let registration = Arc::new(
        PluginRegistration::new(
            manifest("alpha", "1.0.0", no_contributions()),
            provenance("alpha", "1.0.0", false),
        )
        .unwrap(),
    );
    let mut registry = PluginRegistry::new();
    let error = commit(
        &mut registry,
        vec![RegistryChange::Register(registration)],
        HostBindings::empty(),
    )
    .unwrap_err();
    assert_eq!(error, RegistryError::UntrustedPlugin(plugin_id("alpha")));
    assert_eq!(error.message(), "plugin alpha is untrusted and cannot activate contributions");
}

#[test]
fn invalid_contributions_are_refused() {
    let mut invalid = manifest("alpha", "1.0.0", no_contributions());
    invalid.contributions_valid = false;
    let registration =
        Arc::new(PluginRegistration::new(invalid, provenance("alpha", "1.0.0", true)).unwrap());
    let mut registry = PluginRegistry::new();
    let error = commit(
        &mut registry,
        vec![RegistryChange::Register(registration)],
        HostBindings::empty(),
    )
    .unwrap_err();
    assert_eq!(error, RegistryError::InvalidContribution);
    assert_eq!(error.message(), "plugin contribution failed validation");
}

#[test]
fn registration_needs_one_identity() {
    for held in [provenance("beta", "1.0.0", true), provenance("alpha", "1.0.1", true)] {
        let error =
            PluginRegistration::new(manifest("alpha", "1.0.0", no_contributions()), held)
                .unwrap_err();
        assert_eq!(error, RegistryError::ProvenanceMismatch);
        assert_eq!(
            error.message(),
            "plugin registration provenance does not match its manifest",
        );
    }
}

#[test]
fn preparation_refuses_wrong_targets() {
    let mut registry = PluginRegistry::new();
    commit(&mut registry, vec![register("alpha", no_contributions())], HostBindings::empty())
        .unwrap();

    let again = registry
        .prepare(vec![register("alpha", no_contributions())], HostBindings::empty())
        .unwrap_err();
    assert_eq!(again, RegistryError::PluginAlreadyRegistered(plugin_id("alpha")));
    assert_eq!(again.message(), "plugin alpha is already registered");

    let missing = registry.prepare(vec![unregister("beta")], HostBindings::empty()).unwrap_err();
    assert_eq!(missing, RegistryError::PluginNotRegistered(plugin_id("beta")));
    assert_eq!(missing.message(), "plugin beta is not registered");

    let absent = registry
        .prepare(
            vec![RegistryChange::Reload(registration("beta", "1.0.0", no_contributions()))],
            HostBindings::empty(),
        )
        .unwrap_err();
    assert_eq!(absent, RegistryError::PluginNotRegistered(plugin_id("beta")));

    let twice = registry
        .prepare(
            vec![unregister("alpha"), register("alpha", no_contributions())],
            HostBindings::empty(),
        )
        .unwrap_err();
    assert_eq!(twice, RegistryError::DuplicateMutation(plugin_id("alpha")));
    assert_eq!(
        twice.message(),
        "plugin alpha appears more than once in one registry transaction",
    );
}

#[test]
fn unregister_undoes_register() {
    let mut registry = PluginRegistry::new();
    commit(
        &mut registry,
        vec![register("alpha", tools(&["read"]))],
        HostBindings::empty(),
    )
    .unwrap();
    commit(
        &mut registry,
        vec![register("beta", tools(&["write"]))],
        HostBindings::empty(),
    )
    .unwrap();
    let snapshot =
        commit(&mut registry, vec![unregister("beta")], HostBindings::empty()).unwrap();
    assert_eq!(snapshot.generation(), 3);
    assert_eq!(plugin_names(&snapshot), ["alpha"]);
    assert_eq!(tool_names(&snapshot), ["read"]);
}

#[test]
fn reload_replaces_one_plugin() {
    let mut registry = PluginRegistry::new();
    commit(
        &mut registry,
        vec![register("alpha", tools(&["read"])), register("beta", tools(&["write"]))],
        HostBindings::empty(),
    )
    .unwrap();
    let before = registry.snapshot().clone();
    let after = commit(
        &mut registry,
        vec![RegistryChange::Reload(registration("alpha", "2.0.0", tools(&["open"])))],
        HostBindings::empty(),
    )
    .unwrap();
    assert_eq!(plugin_names(&after), ["alpha", "beta"]);
    assert_eq!(tool_names(&after), ["open", "write"]);
    assert_eq!(after.plugin("alpha").unwrap().provenance().version, "2.0.0");
    assert_eq!(after.plugin("beta"), before.plugin("beta"));
    // An earlier snapshot is not affected.
    assert_eq!(before.generation(), 1);
    assert_eq!(tool_names(&before), ["read", "write"]);
}

#[test]
fn changes_of_different_plugins_commute() {
    let run = |changes: Vec<RegistryChange>| {
        let mut registry = PluginRegistry::new();
        commit(&mut registry, vec![register("gamma", tools(&["open"]))], HostBindings::empty())
            .unwrap();
        let snapshot = commit(&mut registry, changes, HostBindings::empty()).unwrap();
        (plugin_names(&snapshot), tool_names(&snapshot))
    };
    let forth = run(vec![register("alpha", tools(&["read"])), unregister("gamma")]);
    let back = run(vec![unregister("gamma"), register("alpha", tools(&["read"]))]);
    assert_eq!(forth, back);
    assert_eq!(forth.0, ["alpha"]);
}

#[test]
fn empty_transaction_only_advances_the_generation() {
    let mut registry = PluginRegistry::new();
    commit(&mut registry, vec![register("alpha", tools(&["read"]))], HostBindings::empty())
        .unwrap();
    let snapshot = commit(&mut registry, Vec::new(), HostBindings::empty()).unwrap();
    assert_eq!(snapshot.generation(), 2);
    assert_eq!(plugin_names(&snapshot), ["alpha"]);
    assert_eq!(tool_names(&snapshot), ["read"]);
}

#[test]
fn commit_needs_validation() {
    let mut registry = PluginRegistry::new();
    let transaction = registry
        .prepare(vec![register("alpha", no_contributions())], HostBindings::empty())
        .unwrap();
    let error = transaction.commit(&mut registry).unwrap_err();
    assert_eq!(error, RegistryError::NotValidated);
    assert_eq!(error.message(), "registry transaction must be validated before commit");
    assert_eq!(registry.snapshot().generation(), 0);
}

#[test]
fn failed_validation_can_be_repeated_but_not_committed() {
    let mut registry = PluginRegistry::new();
    let mut transaction = registry
        .prepare(
            vec![register("alpha", tools(&["read"])), register("beta", tools(&["read"]))],
            HostBindings::empty(),
        )
        .unwrap();
    let first = transaction.validate().unwrap_err();
    assert_eq!(transaction.validate().unwrap_err(), first);
    assert_eq!(transaction.commit(&mut registry).unwrap_err(), RegistryError::NotValidated);
}

#[test]
fn transaction_is_validated_once() {
    let registry = PluginRegistry::new();
    let mut transaction = registry
        .prepare(vec![register("alpha", no_contributions())], HostBindings::empty())
        .unwrap();
    transaction.validate().unwrap();
    let error = transaction.validate().unwrap_err();
    assert_eq!(error, RegistryError::InvalidTransactionState);
    assert_eq!(error.message(), "registry transaction is not in the required state");
}

#[test]
fn later_commit_conflicts() {
    let mut registry = PluginRegistry::new();
    let mut late = registry
        .prepare(vec![register("alpha", no_contributions())], HostBindings::empty())
        .unwrap();
    late.validate().unwrap();
    commit(&mut registry, vec![register("beta", no_contributions())], HostBindings::empty())
        .unwrap();
    let error = late.commit(&mut registry).unwrap_err();
    assert_eq!(error, RegistryError::GenerationConflict { expected: 0, actual: 1 });
    assert_eq!(error.message(), "registry generation conflict (expected 0, actual 1)");
    assert_eq!(plugin_names(&registry.snapshot()), ["beta"]);
}

#[test]
fn rollback_keeps_the_registry() {
    let mut registry = PluginRegistry::new();
    commit(&mut registry, vec![register("alpha", no_contributions())], HostBindings::empty())
        .unwrap();
    let mut transaction =
        registry.prepare(vec![unregister("alpha")], HostBindings::empty()).unwrap();
    transaction.validate().unwrap();
    let snapshot = transaction.rollback(&registry);
    assert_eq!(snapshot.generation(), 1);
    assert_eq!(plugin_names(&snapshot), ["alpha"]);
    assert_eq!(registry.snapshot().generation(), 1);
}

#[test]
fn exhausted_generation_has_its_message() {
    assert_eq!(
        RegistryError::GenerationExhausted.message(),
        "plugin registry generation is exhausted",
    );
    assert_eq!(
        RegistryError::GenerationConflict { expected: 10, actual: u64::MAX }.message(),
        "registry generation conflict (expected 10, actual 18446744073709551615)",
    );
}
