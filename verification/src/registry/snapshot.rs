//! Snapshots of registered plugins and their effective contributions.

use std::sync::Arc;

use vstd::prelude::*;

use crate::name_map::{
    has_name, is_ordered, lemma_name_order, lemma_order_is_determined, lemma_position,
    lemma_take_step, map_of, name_before, NameMap,
};
use crate::plugin_api::{
    copy_descriptor, copy_provenance, Descriptor, Identifier, PluginId, PluginManifest, Provenance,
};
use crate::registry::bindings::{HostBindings, ToolBindingTarget};
use crate::text::same_text;

verus! {

/// Kind of a contribution; names are unique within a kind.
#[derive(Debug, Clone, Copy, PartialEq, Eq, Structural)]
pub enum ContributionKind {
    /// Tool callable name.
    Tool,
    /// Command callable name.
    Command,
    /// Prompt contribution id.
    Prompt,
    /// Resource id.
    Resource,
    /// View id.
    View,
    /// Timeline id.
    Timeline,
    /// Modal id.
    Modal,
    /// Widget id.
    Widget,
    /// Event subscription id.
    EventSubscription,
}

/// Why a transaction failed.
#[derive(Debug, Clone, PartialEq, Eq)]
pub enum RegistryError {
    /// Manifest and provenance identity differed.
    ProvenanceMismatch,
    /// Plugin id was already registered.
    PluginAlreadyRegistered(PluginId),
    /// Plugin id was not registered.
    PluginNotRegistered(PluginId),
    /// A transaction touched one plugin more than once.
    DuplicateMutation(PluginId),
    /// Untrusted plugins cannot activate.
    UntrustedPlugin(PluginId),
    /// A descriptor failed validation.
    InvalidContribution,
    /// A contribution name has more than one owner.
    Collision { kind: ContributionKind, name: Identifier },
    /// A tool binding did not select exactly one colliding owner.
    InvalidToolBinding(Identifier),
    /// A tool binding names a tool that does not collide.
    StaleToolBinding(Identifier),
    /// Transaction validation was skipped.
    NotValidated,
    /// Transaction method was called in the wrong state.
    InvalidTransactionState,
    /// A different transaction committed first.
    GenerationConflict { expected: u64, actual: u64 },
    /// The generation counter is exhausted.
    GenerationExhausted,
}

/// Why a transaction failed, over texts.
pub enum RegistryFault {
    ProvenanceMismatch,
    PluginAlreadyRegistered(Seq<char>),
    PluginNotRegistered(Seq<char>),
    DuplicateMutation(Seq<char>),
    UntrustedPlugin(Seq<char>),
    InvalidContribution,
    Collision { kind: ContributionKind, name: Seq<char> },
    InvalidToolBinding(Seq<char>),
    StaleToolBinding(Seq<char>),
    NotValidated,
    InvalidTransactionState,
    GenerationConflict { expected: u64, actual: u64 },
    GenerationExhausted,
}

impl View for RegistryError {
    type V = RegistryFault;

    open spec fn view(&self) -> RegistryFault {
        match *self {
            RegistryError::ProvenanceMismatch => RegistryFault::ProvenanceMismatch,
            RegistryError::PluginAlreadyRegistered(id) => RegistryFault::PluginAlreadyRegistered(
                id.text@,
            ),
            RegistryError::PluginNotRegistered(id) => RegistryFault::PluginNotRegistered(id.text@),
            RegistryError::DuplicateMutation(id) => RegistryFault::DuplicateMutation(id.text@),
            RegistryError::UntrustedPlugin(id) => RegistryFault::UntrustedPlugin(id.text@),
            RegistryError::InvalidContribution => RegistryFault::InvalidContribution,
            RegistryError::Collision { kind, name } => RegistryFault::Collision {
                kind,
                name: name.text@,
            },
            RegistryError::InvalidToolBinding(name) => RegistryFault::InvalidToolBinding(
                name.text@,
            ),
            RegistryError::StaleToolBinding(name) => RegistryFault::StaleToolBinding(name.text@),
            RegistryError::NotValidated => RegistryFault::NotValidated,
            RegistryError::InvalidTransactionState => RegistryFault::InvalidTransactionState,
            RegistryError::GenerationConflict {
                expected,
                actual,
            } => RegistryFault::GenerationConflict { expected, actual },
            RegistryError::GenerationExhausted => RegistryFault::GenerationExhausted,
        }
    }
}

// ---------------------------------------------------------------------------
// Registrations
// ---------------------------------------------------------------------------

/// Whether a manifest and a provenance name the same plugin version.
pub open spec fn same_identity(manifest: PluginManifest, provenance: Provenance) -> bool {
    &&& manifest.id.text@ == provenance.plugin_id.text@
    &&& manifest.version@ == provenance.version@
}

/// Whether a manifest and a provenance name the same plugin version.
pub fn has_same_identity(manifest: &PluginManifest, provenance: &Provenance) -> (same: bool)
    ensures
        same == same_identity(*manifest, *provenance),
{
    same_text(manifest.id.text.as_str(), provenance.plugin_id.text.as_str()) && same_text(
        manifest.version.as_str(),
        provenance.version.as_str(),
    )
}

/// A manifest with the provenance of the same plugin version.
#[derive(Debug, PartialEq, Eq)]
pub struct PluginRegistration {
    manifest: PluginManifest,
    provenance: Provenance,
}

impl PluginRegistration {
    /// The manifest that is held.
    pub closed spec fn held_manifest(self) -> PluginManifest {
        self.manifest
    }

    /// The provenance that is held.
    pub closed spec fn held_provenance(self) -> Provenance {
        self.provenance
    }

    #[verifier::type_invariant]
    spec fn has_one_identity(self) -> bool {
        same_identity(self.manifest, self.provenance)
    }

    /// A registration whose provenance matches its manifest.
    pub fn new(manifest: PluginManifest, provenance: Provenance) -> (result: Result<
        Self,
        RegistryError,
    >)
        ensures
            match result {
                Ok(registration) => same_identity(manifest, provenance)
                    && registration.held_manifest() == manifest && registration.held_provenance()
                    == provenance,
                Err(error) => error == RegistryError::ProvenanceMismatch && !same_identity(
                    manifest,
                    provenance,
                ),
            },
    {
        if !has_same_identity(&manifest, &provenance) {
            return Err(RegistryError::ProvenanceMismatch);
        }
        Ok(PluginRegistration { manifest, provenance })
    }

    /// The manifest.
    pub fn manifest(&self) -> (manifest: &PluginManifest)
        ensures
            *manifest == self.held_manifest(),
            same_identity(self.held_manifest(), self.held_provenance()),
    {
        proof {
            use_type_invariant(self);
        }
        &self.manifest
    }

    /// The provenance.
    pub fn provenance(&self) -> (provenance: &Provenance)
        ensures
            *provenance == self.held_provenance(),
            same_identity(self.held_manifest(), self.held_provenance()),
    {
        proof {
            use_type_invariant(self);
        }
        &self.provenance
    }
}

/// A descriptor with the provenance of its owner.
#[derive(Debug, Clone, PartialEq, Eq)]
pub struct RegisteredContribution<T> {
    pub descriptor: T,
    pub provenance: Provenance,
}

impl<T> RegisteredContribution<T> {
    /// The descriptor.
    pub fn descriptor(&self) -> (descriptor: &T)
        ensures
            *descriptor == self.descriptor,
    {
        &self.descriptor
    }

    /// The provenance of the owner.
    pub fn provenance(&self) -> (provenance: &Provenance)
        ensures
            *provenance == self.provenance,
    {
        &self.provenance
    }
}

/// A contribution with its owner.
pub type Contribution = RegisteredContribution<Descriptor>;

/// A descriptor with its owner.
pub open spec fn owned(descriptor: Descriptor, provenance: Provenance) -> Contribution {
    RegisteredContribution { descriptor, provenance }
}

/// The name of a contribution.
pub open spec fn contribution_name(contribution: Contribution) -> Seq<char> {
    contribution.descriptor.name.text@
}

/// A descriptor with its owner.
pub fn registered(descriptor: &Descriptor, provenance: &Provenance) -> (contribution: Contribution)
    ensures
        contribution == owned(*descriptor, *provenance),
{
    RegisteredContribution {
        descriptor: copy_descriptor(descriptor),
        provenance: copy_provenance(provenance),
    }
}

/// Calls `std::sync::Arc::clone`: another pointer to the same value.
#[verifier::external_body]
pub(crate) fn shared<T>(value: &Arc<T>) -> (other: Arc<T>)
    ensures
        other == *value,
{
    Arc::clone(value)
}

/// Registered plugins by identifier.
pub type PluginMap = NameMap<Arc<PluginRegistration>>;

/// Registered plugins by identifier, in order.
pub type PluginPairs = Seq<(Seq<char>, Arc<PluginRegistration>)>;

/// A copy of a map of plugins.
pub fn copy_plugins(plugins: &PluginMap) -> (copy: PluginMap)
    ensures
        copy@ == plugins@,
        copy.pairs() == plugins.pairs(),
{
    let mut copy: PluginMap = NameMap::new();
    let mut i: usize = 0;
    assert(map_of(plugins.pairs().take(0)) =~= copy@);
    while i < plugins.len()
        invariant
            i <= plugins.pairs().len(),
            copy@ == map_of(plugins.pairs().take(i as int)),
        decreases plugins.pairs().len() - i,
    {
        copy.insert(plugins.name_at(i).to_owned(), shared(plugins.value_at(i)));
        proof {
            lemma_take_step(plugins.pairs(), i as int);
        }
        i += 1;
    }
    let length: usize = copy.len();
    proof {
        assert(plugins.pairs().take(i as int) =~= plugins.pairs());
        lemma_order_is_determined(copy.pairs(), plugins.pairs());
    }
    copy
}

// ---------------------------------------------------------------------------
// Checks on plugins
// ---------------------------------------------------------------------------

/// The outcome of the checks on one plugin.
pub open spec fn plugin_verdict(registration: PluginRegistration) -> Result<(), RegistryFault> {
    if !registration.held_provenance().trusted {
        Err(RegistryFault::UntrustedPlugin(registration.held_provenance().plugin_id.text@))
    } else if !same_identity(registration.held_manifest(), registration.held_provenance()) {
        Err(RegistryFault::ProvenanceMismatch)
    } else if !registration.held_manifest().contributions_valid {
        Err(RegistryFault::InvalidContribution)
    } else {
        Ok(())
    }
}

/// The outcome of the checks on plugins, from position `i` on.
pub open spec fn plugins_verdict(plugins: PluginPairs, i: int) -> Result<(), RegistryFault>
    decreases plugins.len() - i,
{
    if i >= plugins.len() {
        Ok(())
    } else if plugin_verdict(*plugins[i].1) is Err {
        plugin_verdict(*plugins[i].1)
    } else {
        plugins_verdict(plugins, i + 1)
    }
}

/// Whether an outcome is the expected one.
pub open spec fn meets<T>(result: Result<T, RegistryError>, expected: Result<T, RegistryFault>) -> bool {
    match result {
        Ok(value) => expected == Ok::<T, RegistryFault>(value),
        Err(error) => expected == Err::<T, RegistryFault>(error@),
    }
}

/// Checks one plugin.
pub fn validate_plugin(registration: &PluginRegistration) -> (result: Result<(), RegistryError>)
    ensures
        meets(result, plugin_verdict(*registration)),
{
    let provenance = registration.provenance();
    let manifest = registration.manifest();
    if !provenance.trusted {
        return Err(
            RegistryError::UntrustedPlugin(PluginId { text: provenance.plugin_id.text.clone() }),
        );
    }
    if !has_same_identity(manifest, provenance) {
        return Err(RegistryError::ProvenanceMismatch);
    }
    if !manifest.contributions_valid {
        return Err(RegistryError::InvalidContribution);
    }
    Ok(())
}

/// Checks every plugin in order.
pub fn validate_plugins(plugins: &PluginMap) -> (result: Result<(), RegistryError>)
    ensures
        meets(result, plugins_verdict(plugins.pairs(), 0)),
{
    let mut i: usize = 0;
    while i < plugins.len()
        invariant
            i <= plugins.pairs().len(),
            plugins_verdict(plugins.pairs(), 0) == plugins_verdict(plugins.pairs(), i as int),
        decreases plugins.pairs().len() - i,
    {
        proof {
            reveal_with_fuel(plugins_verdict, 2);
        }
        validate_plugin(plugins.value_at(i))?;
        i += 1;
    }
    Ok(())
}

// ---------------------------------------------------------------------------
// Tables of unique names
// ---------------------------------------------------------------------------

/// Contributions of one kind by name.
pub type Table = Map<Seq<char>, Contribution>;

/// A table with the contributions of one plugin, from position `i` on.
pub open spec fn table_with(
    table: Table,
    descriptors: Seq<Descriptor>,
    provenance: Provenance,
    kind: ContributionKind,
    i: int,
) -> Result<Table, RegistryFault>
    decreases descriptors.len() - i,
{
    if i >= descriptors.len() {
        Ok(table)
    } else {
        let name = descriptors[i].name.text@;
        if table.dom().contains(name) {
            Err(RegistryFault::Collision { kind, name })
        } else {
            table_with(
                table.insert(name, owned(descriptors[i], provenance)),
                descriptors,
                provenance,
                kind,
                i + 1,
            )
        }
    }
}

/// Contributions of every kind but tools, by name.
pub struct Tables {
    pub commands: Table,
    pub prompts: Table,
    pub resources: Table,
    pub views: Table,
    pub timelines: Table,
    pub modals: Table,
    pub widgets: Table,
    pub subscriptions: Table,
}

/// Tables without contributions.
pub open spec fn no_tables() -> Tables {
    Tables {
        commands: Map::empty(),
        prompts: Map::empty(),
        resources: Map::empty(),
        views: Map::empty(),
        timelines: Map::empty(),
        modals: Map::empty(),
        widgets: Map::empty(),
        subscriptions: Map::empty(),
    }
}

/// Tables with the commands of one plugin.
pub open spec fn with_commands(
    tables: Result<Tables, RegistryFault>,
    registration: PluginRegistration,
) -> Result<Tables, RegistryFault> {
    match tables {
        Err(fault) => Err(fault),
        Ok(tables) => match table_with(
            tables.commands,
            registration.held_manifest().contributions.commands@,
            registration.held_provenance(),
            ContributionKind::Command,
            0,
        ) {
            Err(fault) => Err(fault),
            Ok(commands) => Ok(Tables { commands, ..tables }),
        },
    }
}

/// Tables with the prompts of one plugin.
pub open spec fn with_prompts(
    tables: Result<Tables, RegistryFault>,
    registration: PluginRegistration,
) -> Result<Tables, RegistryFault> {
    match tables {
        Err(fault) => Err(fault),
        Ok(tables) => match table_with(
            tables.prompts,
            registration.held_manifest().contributions.prompts@,
            registration.held_provenance(),
            ContributionKind::Prompt,
            0,
        ) {
            Err(fault) => Err(fault),
            Ok(prompts) => Ok(Tables { prompts, ..tables }),
        },
    }
}

/// Tables with the resources of one plugin.
pub open spec fn with_resources(
    tables: Result<Tables, RegistryFault>,
    registration: PluginRegistration,
) -> Result<Tables, RegistryFault> {
    match tables {
        Err(fault) => Err(fault),
        Ok(tables) => match table_with(
            tables.resources,
            registration.held_manifest().contributions.resources@,
            registration.held_provenance(),
            ContributionKind::Resource,
            0,
        ) {
            Err(fault) => Err(fault),
            Ok(resources) => Ok(Tables { resources, ..tables }),
        },
    }
}

/// Tables with the views of one plugin.
pub open spec fn with_views(
    tables: Result<Tables, RegistryFault>,
    registration: PluginRegistration,
) -> Result<Tables, RegistryFault> {
    match tables {
        Err(fault) => Err(fault),
        Ok(tables) => match table_with(
            tables.views,
            registration.held_manifest().contributions.views@,
            registration.held_provenance(),
            ContributionKind::View,
            0,
        ) {
            Err(fault) => Err(fault),
            Ok(views) => Ok(Tables { views, ..tables }),
        },
    }
}

/// Tables with the timelines of one plugin.
pub open spec fn with_timelines(
    tables: Result<Tables, RegistryFault>,
    registration: PluginRegistration,
) -> Result<Tables, RegistryFault> {
    match tables {
        Err(fault) => Err(fault),
        Ok(tables) => match table_with(
            tables.timelines,
            registration.held_manifest().contributions.timelines@,
            registration.held_provenance(),
            ContributionKind::Timeline,
            0,
        ) {
            Err(fault) => Err(fault),
            Ok(timelines) => Ok(Tables { timelines, ..tables }),
        },
    }
}

/// Tables with the modals of one plugin.
pub open spec fn with_modals(
    tables: Result<Tables, RegistryFault>,
    registration: PluginRegistration,
) -> Result<Tables, RegistryFault> {
    match tables {
        Err(fault) => Err(fault),
        Ok(tables) => match table_with(
            tables.modals,
            registration.held_manifest().contributions.modals@,
            registration.held_provenance(),
            ContributionKind::Modal,
            0,
        ) {
            Err(fault) => Err(fault),
            Ok(modals) => Ok(Tables { modals, ..tables }),
        },
    }
}

/// Tables with the widgets of one plugin.
pub open spec fn with_widgets(
    tables: Result<Tables, RegistryFault>,
    registration: PluginRegistration,
) -> Result<Tables, RegistryFault> {
    match tables {
        Err(fault) => Err(fault),
        Ok(tables) => match table_with(
            tables.widgets,
            registration.held_manifest().contributions.widgets@,
            registration.held_provenance(),
            ContributionKind::Widget,
            0,
        ) {
            Err(fault) => Err(fault),
            Ok(widgets) => Ok(Tables { widgets, ..tables }),
        },
    }
}

/// Tables with the event subscriptions of one plugin.
pub open spec fn with_subscriptions(
    tables: Result<Tables, RegistryFault>,
    registration: PluginRegistration,
) -> Result<Tables, RegistryFault> {
    match tables {
        Err(fault) => Err(fault),
        Ok(tables) => match table_with(
            tables.subscriptions,
            registration.held_manifest().contributions.event_subscriptions@,
            registration.held_provenance(),
            ContributionKind::EventSubscription,
            0,
        ) {
            Err(fault) => Err(fault),
            Ok(subscriptions) => Ok(Tables { subscriptions, ..tables }),
        },
    }
}

/// Tables with the contributions of one plugin.
pub open spec fn with_plugin(tables: Tables, registration: PluginRegistration) -> Result<
    Tables,
    RegistryFault,
> {
    let before = Ok(tables);
    let commands = with_commands(before, registration);
    let prompts = with_prompts(commands, registration);
    let resources = with_resources(prompts, registration);
    let views = with_views(resources, registration);
    let timelines = with_timelines(views, registration);
    let modals = with_modals(timelines, registration);
    let widgets = with_widgets(modals, registration);
    let subscriptions = with_subscriptions(widgets, registration);
    subscriptions
}

/// Tables with the contributions of the plugins from position `i` on.
pub open spec fn tables_from(tables: Tables, plugins: PluginPairs, i: int) -> Result<
    Tables,
    RegistryFault,
>
    decreases plugins.len() - i,
{
    if i >= plugins.len() {
        Ok(tables)
    } else {
        match with_plugin(tables, *plugins[i].1) {
            Err(fault) => Err(fault),
            Ok(tables) => tables_from(tables, plugins, i + 1),
        }
    }
}

/// Contributions of every kind but tools, by name.
#[derive(Debug)]
pub struct ContributionTables {
    pub commands: NameMap<Contribution>,
    pub prompts: NameMap<Contribution>,
    pub resources: NameMap<Contribution>,
    pub views: NameMap<Contribution>,
    pub timelines: NameMap<Contribution>,
    pub modals: NameMap<Contribution>,
    pub widgets: NameMap<Contribution>,
    pub subscriptions: NameMap<Contribution>,
}

impl View for ContributionTables {
    type V = Tables;

    open spec fn view(&self) -> Tables {
        Tables {
            commands: self.commands@,
            prompts: self.prompts@,
            resources: self.resources@,
            views: self.views@,
            timelines: self.timelines@,
            modals: self.modals@,
            widgets: self.widgets@,
            subscriptions: self.subscriptions@,
        }
    }
}

/// Adds a contribution whose name must be new.
pub fn insert_unique(
    map: &mut NameMap<Contribution>,
    value: Contribution,
    kind: ContributionKind,
) -> (result: Result<(), RegistryError>)
    ensures
        final(map)@ == old(map)@.insert(contribution_name(value), value),
        match result {
            Ok(()) => !old(map)@.dom().contains(contribution_name(value)),
            Err(error) => old(map)@.dom().contains(contribution_name(value)) && error@ == (
            RegistryFault::Collision { kind, name: contribution_name(value) }),
        },
{
    let name = value.descriptor.name.text.clone();
    let key = name.clone();
    if map.insert(key, value) {
        return Err(RegistryError::Collision { kind, name: Identifier { text: name } });
    }
    Ok(())
}

/// Adds the contributions of one kind of one plugin.
pub fn insert_all(
    map: &mut NameMap<Contribution>,
    descriptors: &Vec<Descriptor>,
    provenance: &Provenance,
    kind: ContributionKind,
) -> (result: Result<(), RegistryError>)
    ensures
        match result {
            Ok(()) => table_with(old(map)@, descriptors@, *provenance, kind, 0) == Ok::<
                Table,
                RegistryFault,
            >(final(map)@),
            Err(error) => table_with(old(map)@, descriptors@, *provenance, kind, 0) == Err::<
                Table,
                RegistryFault,
            >(error@),
        },
{
    let mut i: usize = 0;
    while i < descriptors.len()
        invariant
            i <= descriptors@.len(),
            table_with(old(map)@, descriptors@, *provenance, kind, 0) == table_with(
                map@,
                descriptors@,
                *provenance,
                kind,
                i as int,
            ),
        decreases descriptors.len() - i,
    {
        proof {
            reveal_with_fuel(table_with, 2);
        }
        insert_unique(map, registered(&descriptors[i], provenance), kind)?;
        i += 1;
    }
    Ok(())
}

impl ContributionTables {
    /// Tables without contributions.
    pub fn new() -> (tables: Self)
        ensures
            tables@ == no_tables(),
    {
        ContributionTables {
            commands: NameMap::new(),
            prompts: NameMap::new(),
            resources: NameMap::new(),
            views: NameMap::new(),
            timelines: NameMap::new(),
            modals: NameMap::new(),
            widgets: NameMap::new(),
            subscriptions: NameMap::new(),
        }
    }

    /// Adds the contributions of one plugin.
    pub fn add_plugin(&mut self, registration: &PluginRegistration) -> (result: Result<
        (),
        RegistryError,
    >)
        ensures
            match result {
                Ok(()) => with_plugin(old(self)@, *registration) == Ok::<Tables, RegistryFault>(
                    final(self)@,
                ),
                Err(error) => with_plugin(old(self)@, *registration) == Err::<
                    Tables,
                    RegistryFault,
                >(error@),
            },
    {
        let provenance = registration.provenance();
        let contributions = &registration.manifest().contributions;
        insert_all(
            &mut self.commands,
            &contributions.commands,
            provenance,
            ContributionKind::Command,
        )?;
        insert_all(
            &mut self.prompts,
            &contributions.prompts,
            provenance,
            ContributionKind::Prompt,
        )?;
        insert_all(
            &mut self.resources,
            &contributions.resources,
            provenance,
            ContributionKind::Resource,
        )?;
        insert_all(
            &mut self.views,
            &contributions.views,
            provenance,
            ContributionKind::View,
        )?;
        insert_all(
            &mut self.timelines,
            &contributions.timelines,
            provenance,
            ContributionKind::Timeline,
        )?;
        insert_all(
            &mut self.modals,
            &contributions.modals,
            provenance,
            ContributionKind::Modal,
        )?;
        insert_all(
            &mut self.widgets,
            &contributions.widgets,
            provenance,
            ContributionKind::Widget,
        )?;
        insert_all(
            &mut self.subscriptions,
            &contributions.event_subscriptions,
            provenance,
            ContributionKind::EventSubscription,
        )?;
        Ok(())
    }
}

/// The tables of all plugins.
pub fn collect_tables(plugins: &PluginMap) -> (result: Result<ContributionTables, RegistryError>)
    ensures
        match result {
            Ok(tables) => tables_from(no_tables(), plugins.pairs(), 0) == Ok::<
                Tables,
                RegistryFault,
            >(tables@),
            Err(error) => tables_from(no_tables(), plugins.pairs(), 0) == Err::<
                Tables,
                RegistryFault,
            >(error@),
        },
{
    let mut tables = ContributionTables::new();
    let mut i: usize = 0;
    while i < plugins.len()
        invariant
            i <= plugins.pairs().len(),
            tables_from(no_tables(), plugins.pairs(), 0) == tables_from(
                tables@,
                plugins.pairs(),
                i as int,
            ),
        decreases plugins.pairs().len() - i,
    {
        proof {
            reveal_with_fuel(tables_from, 2);
        }
        tables.add_plugin(plugins.value_at(i))?;
        i += 1;
    }
    Ok(tables)
}

// ---------------------------------------------------------------------------
// Tools
// ---------------------------------------------------------------------------

/// Descriptors with their owner.
pub open spec fn owned_all(descriptors: Seq<Descriptor>, provenance: Provenance) -> Seq<
    Contribution,
> {
    descriptors.map_values(|descriptor: Descriptor| owned(descriptor, provenance))
}

/// The tools of the first `i` plugins.
pub open spec fn contributed_tools(plugins: PluginPairs, i: int) -> Seq<Contribution>
    decreases i,
{
    if i <= 0 {
        Seq::empty()
    } else {
        contributed_tools(plugins, i - 1) + owned_all(
            plugins[i - 1].1.held_manifest().contributions.tools@,
            plugins[i - 1].1.held_provenance(),
        )
    }
}

/// The tools of all plugins, in order.
pub open spec fn all_tools(plugins: PluginPairs) -> Seq<Contribution> {
    contributed_tools(plugins, plugins.len() as int)
}

/// The tools with a name, in order.
pub open spec fn group_of(tools: Seq<Contribution>, name: Seq<char>) -> Seq<Contribution>
    decreases tools.len(),
{
    if tools.len() == 0 {
        Seq::empty()
    } else {
        let fewer = group_of(tools.drop_last(), name);
        if contribution_name(tools.last()) == name {
            fewer.push(tools.last())
        } else {
            fewer
        }
    }
}

/// Whether a binding selects the owner of a contribution.
pub open spec fn is_selected(contribution: Contribution, target: ToolBindingTarget) -> bool {
    &&& contribution.provenance.plugin_id.text@ == target.plugin_id.text@
    &&& contribution.provenance.version@ == target.version@
}

/// The contributions whose owner a binding selects, in order.
pub open spec fn selected_of(group: Seq<Contribution>, target: ToolBindingTarget) -> Seq<
    Contribution,
>
    decreases group.len(),
{
    if group.len() == 0 {
        Seq::empty()
    } else {
        let fewer = selected_of(group.drop_last(), target);
        if is_selected(group.last(), target) {
            fewer.push(group.last())
        } else {
            fewer
        }
    }
}

/// The owners that bindings select.
pub type Targets = Map<Seq<char>, ToolBindingTarget>;

/// The effective tool among those with a name: the only one, else the one that
/// a binding selects.
pub open spec fn effective(group: Seq<Contribution>, targets: Targets, name: Seq<char>) -> Result<
    Contribution,
    RegistryFault,
> {
    if group.len() == 1 {
        Ok(group[0])
    } else if !targets.dom().contains(name) {
        Err(RegistryFault::Collision { kind: ContributionKind::Tool, name })
    } else if selected_of(group, targets[name]).len() != 1 {
        Err(RegistryFault::InvalidToolBinding(name))
    } else {
        Ok(selected_of(group, targets[name])[0])
    }
}

/// Whether a tool has a name.
pub open spec fn is_contributed(tools: Seq<Contribution>, name: Seq<char>) -> bool {
    group_of(tools, name).len() > 0
}

/// Whether the tools with a name have no effective one.
pub open spec fn is_unsettled(tools: Seq<Contribution>, targets: Targets, name: Seq<char>) -> bool {
    is_contributed(tools, name) && effective(group_of(tools, name), targets, name) is Err
}

/// Whether a name is the first in order without an effective tool.
pub open spec fn is_first_unsettled(
    tools: Seq<Contribution>,
    targets: Targets,
    name: Seq<char>,
) -> bool {
    &&& is_unsettled(tools, targets, name)
    &&& forall|other: Seq<char>|
        #[trigger] is_unsettled(tools, targets, other) ==> other == name || name_before(name, other)
}

/// The effective tools by name.
pub open spec fn effective_tools(tools: Seq<Contribution>, targets: Targets) -> Table {
    Map::new(
        |name: Seq<char>| is_contributed(tools, name),
        |name: Seq<char>| effective(group_of(tools, name), targets, name)->Ok_0,
    )
}

/// The outcome of settling tool names.
pub open spec fn tools_verdict(tools: Seq<Contribution>, targets: Targets) -> Result<
    Table,
    RegistryFault,
> {
    if exists|name: Seq<char>| is_first_unsettled(tools, targets, name) {
        let name = choose|name: Seq<char>| is_first_unsettled(tools, targets, name);
        Err(effective(group_of(tools, name), targets, name)->Err_0)
    } else {
        Ok(effective_tools(tools, targets))
    }
}

/// Whether a binding names a tool that does not collide.
pub open spec fn is_stale(tools: Seq<Contribution>, targets: Targets, name: Seq<char>) -> bool {
    targets.dom().contains(name) && group_of(tools, name).len() < 2
}

/// Whether a name is the first in order with a stale binding.
pub open spec fn is_first_stale(
    tools: Seq<Contribution>,
    targets: Targets,
    name: Seq<char>,
) -> bool {
    &&& is_stale(tools, targets, name)
    &&& forall|other: Seq<char>|
        #[trigger] is_stale(tools, targets, other) ==> other == name || name_before(name, other)
}

/// The outcome of looking for stale bindings.
pub open spec fn stale_verdict(tools: Seq<Contribution>, targets: Targets) -> Result<
    (),
    RegistryFault,
> {
    if exists|name: Seq<char>| is_first_stale(tools, targets, name) {
        Err(
            RegistryFault::StaleToolBinding(
                choose|name: Seq<char>| is_first_stale(tools, targets, name),
            ),
        )
    } else {
        Ok(())
    }
}

/// Tools by name.
pub type ToolGroups = NameMap<Vec<Contribution>>;

/// Whether groups hold exactly the tools by name.
pub open spec fn groups_hold(
    groups: Map<Seq<char>, Vec<Contribution>>,
    tools: Seq<Contribution>,
) -> bool {
    forall|name: Seq<char>|
        {
            &&& #[trigger] groups.dom().contains(name) == is_contributed(tools, name)
            &&& groups.dom().contains(name) ==> groups[name]@ == group_of(tools, name)
        }
}

/// Adds a tool to its group.
fn add_tool(groups: &mut ToolGroups, tool: Contribution, Ghost(tools): Ghost<Seq<Contribution>>)
    requires
        groups_hold(old(groups)@, tools),
    ensures
        groups_hold(final(groups)@, tools.push(tool)),
{
    let name = tool.descriptor.name.text.clone();
    let mut group: Vec<Contribution> = match groups.remove(name.as_str()) {
        Some(group) => group,
        None => Vec::new(),
    };
    proof {
        assert(groups@.dom().contains(name@) == false);
        assert(group@ =~= group_of(tools, name@)) by {
            assert(old(groups)@.dom().contains(name@) == is_contributed(tools, name@));
        }
    }
    group.push(tool);
    let ghost more = tools.push(tool);
    groups.insert(name, group);
    proof {
        assert(more.drop_last() =~= tools);
        assert forall|other: Seq<char>|
            {
                &&& #[trigger] groups@.dom().contains(other) == is_contributed(more, other)
                &&& groups@.dom().contains(other) ==> groups@[other]@ == group_of(more, other)
            } by {
            assert(old(groups)@.dom().contains(other) == is_contributed(tools, other));
        }
    }
}

/// The tools of all plugins by name.
#[verifier::loop_isolation(false)]
pub fn collect_tools(plugins: &PluginMap) -> (groups: ToolGroups)
    ensures
        groups_hold(groups@, all_tools(plugins.pairs())),
{
    let mut groups: ToolGroups = NameMap::new();
    let mut i: usize = 0;
    while i < plugins.len()
        invariant
            i <= plugins.pairs().len(),
            groups_hold(groups@, contributed_tools(plugins.pairs(), i as int)),
        decreases plugins.pairs().len() - i,
    {
        let registration = plugins.value_at(i);
        let provenance = registration.provenance();
        let descriptors = &registration.manifest().contributions.tools;
        let ghost before = contributed_tools(plugins.pairs(), i as int);
        let ghost added = owned_all(descriptors@, *provenance);
        let mut j: usize = 0;
        assert(before + added.take(0) =~= before);
        while j < descriptors.len()
            invariant
                j <= descriptors@.len(),
                groups_hold(groups@, before + added.take(j as int)),
            decreases descriptors.len() - j,
        {
            let ghost so_far = before + added.take(j as int);
            let tool = registered(&descriptors[j], provenance);
            assert(before + added.take(j as int + 1) =~= so_far.push(tool));
            add_tool(&mut groups, tool, Ghost(so_far));
            j += 1;
        }
        assert(added.take(j as int) =~= added);
        i += 1;
    }
    groups
}

/// The effective tool among those with a name.
pub fn settle_tool(name: &str, group: &Vec<Contribution>, bindings: &HostBindings) -> (result: Result<
    Contribution,
    RegistryError,
>)
    ensures
        meets(result, effective(group@, bindings.tool_binding@, name@)),
{
    if group.len() == 1 {
        return Ok(registered(&group[0].descriptor, &group[0].provenance));
    }
    let target = match bindings.tool_binding.get(name) {
        Some(target) => target,
        None => {
            return Err(
                RegistryError::Collision {
                    kind: ContributionKind::Tool,
                    name: Identifier { text: name.to_owned() },
                },
            );
        },
    };
    let mut found: Option<usize> = None;
    let mut i: usize = 0;
    assert(group@.take(0) =~= Seq::empty());
    while i < group.len()
        invariant
            i <= group@.len(),
            match found {
                Some(at) => at < i && selected_of(group@.take(i as int), *target) =~= seq![
                    group@[at as int],
                ],
                None => selected_of(group@.take(i as int), *target).len() == 0,
            },
            group@.len() != 1,
            bindings.tool_binding@.contains_pair(name@, *target),
        decreases group.len() - i,
    {
        assert(group@.take(i as int + 1).drop_last() =~= group@.take(i as int));
        let provenance = &group[i].provenance;
        if same_text(provenance.plugin_id.text.as_str(), target.plugin_id.text.as_str())
            && same_text(provenance.version.as_str(), target.version.as_str()) {
            if found.is_some() {
                proof {
                    lemma_selected_grows(group@, i as int + 1, *target);
                }
                return Err(
                    RegistryError::InvalidToolBinding(Identifier { text: name.to_owned() }),
                );
            }
            found = Some(i);
        }
        i += 1;
    }
    assert(group@.take(i as int) =~= group@);
    match found {
        Some(at) => Ok(registered(&group[at].descriptor, &group[at].provenance)),
        None => Err(RegistryError::InvalidToolBinding(Identifier { text: name.to_owned() })),
    }
}

proof fn lemma_selected_grows(group: Seq<Contribution>, i: int, target: ToolBindingTarget)
    requires
        0 <= i <= group.len(),
    ensures
        selected_of(group, target).len() >= selected_of(group.take(i), target).len(),
    decreases group.len(),
{
    if i < group.len() {
        lemma_selected_grows(group.drop_last(), i, target);
        assert(group.drop_last().take(i) =~= group.take(i));
    } else {
        assert(group.take(i) =~= group);
    }
}

/// There is at most one first name without an effective tool.
proof fn lemma_first_unsettled(
    tools: Seq<Contribution>,
    targets: Targets,
    left: Seq<char>,
    right: Seq<char>,
)
    requires
        is_first_unsettled(tools, targets, left),
        is_first_unsettled(tools, targets, right),
    ensures
        left == right,
{
    lemma_name_order(left, right, left);
    assert(is_unsettled(tools, targets, left));
    assert(is_unsettled(tools, targets, right));
}

/// The effective tool of every name.
fn settle_tools(
    groups: &ToolGroups,
    bindings: &HostBindings,
    Ghost(tools): Ghost<Seq<Contribution>>,
) -> (result: Result<NameMap<Contribution>, RegistryError>)
    requires
        groups_hold(groups@, tools),
    ensures
        match result {
            Ok(table) => tools_verdict(tools, bindings.tool_binding@) == Ok::<Table, RegistryFault>(
                table@,
            ),
            Err(error) => tools_verdict(tools, bindings.tool_binding@) == Err::<
                Table,
                RegistryFault,
            >(error@),
        },
{
    let ghost targets = bindings.tool_binding@;
    let ghost pairs = groups.pairs();
    let mut table: NameMap<Contribution> = NameMap::new();
    let mut i: usize = 0;
    while i < groups.len()
        invariant
            i <= pairs.len(),
            pairs == groups.pairs(),
            targets == bindings.tool_binding@,
            groups_hold(groups@, tools),
            forall|j: int|
                0 <= j < i ==> !is_unsettled(tools, targets, (#[trigger] pairs[j]).0)
                    && table@.contains_pair(
                    pairs[j].0,
                    effective(group_of(tools, pairs[j].0), targets, pairs[j].0)->Ok_0,
                ),
            forall|name: Seq<char>| #[trigger]
                table@.dom().contains(name) ==> has_name(pairs.take(i as int), name),
        decreases pairs.len() - i,
    {
        let ghost name = pairs[i as int].0;
        proof {
            lemma_position(pairs, i as int);
            assert(groups@.dom().contains(name));
        }
        match settle_tool(groups.name_at(i), groups.value_at(i), bindings) {
            Ok(tool) => {
                let ghost before = table@;
                table.insert(groups.name_at(i).to_owned(), tool);
                proof {
                    assert forall|j: int| 0 <= j < i + 1 implies !is_unsettled(
                        tools,
                        targets,
                        (#[trigger] pairs[j]).0,
                    ) && table@.contains_pair(
                        pairs[j].0,
                        effective(group_of(tools, pairs[j].0), targets, pairs[j].0)->Ok_0,
                    ) by {
                        if j < i {
                            assert(before.contains_pair(
                                pairs[j].0,
                                effective(group_of(tools, pairs[j].0), targets, pairs[j].0)->Ok_0,
                            ));
                            assert(name_before(pairs[j].0, pairs[i as int].0));
                            lemma_name_order(pairs[j].0, pairs[j].0, pairs[j].0);
                        }
                    }
                    assert forall|other: Seq<char>| #[trigger]
                        table@.dom().contains(other) implies has_name(
                        pairs.take(i as int + 1),
                        other,
                    ) by {
                        if other == name {
                            assert(pairs.take(i as int + 1)[i as int].0 == other);
                        } else {
                            assert(before.dom().contains(other));
                            let j = choose|j: int|
                                0 <= j < i && (#[trigger] pairs.take(i as int)[j]).0 == other;
                            assert(pairs.take(i as int + 1)[j].0 == other);
                        }
                    }
                }
            },
            Err(error) => {
                proof {
                    assert forall|other: Seq<char>| #[trigger]
                        is_unsettled(tools, targets, other) implies other == name || name_before(
                        name,
                        other,
                    ) by {
                        assert(groups@.dom().contains(other));
                        let j = choose|j: int| 0 <= j < pairs.len() && (#[trigger] pairs[j]).0
                            == other;
                        if j < i {
                            assert(!is_unsettled(tools, targets, pairs[j].0));
                        } else if i < j {
                            assert(name_before(pairs[i as int].0, pairs[j].0));
                        }
                    }
                    assert(is_first_unsettled(tools, targets, name));
                    let chosen = choose|name: Seq<char>| is_first_unsettled(tools, targets, name);
                    lemma_first_unsettled(tools, targets, name, chosen);
                }
                return Err(error);
            },
        }
        i += 1;
    }
    proof {
        assert(pairs.take(i as int) =~= pairs);
        assert forall|name: Seq<char>| !is_unsettled(tools, targets, name) by {
            if is_contributed(tools, name) {
                assert(groups@.dom().contains(name));
                let j = choose|j: int| 0 <= j < pairs.len() && (#[trigger] pairs[j]).0 == name;
                assert(!is_unsettled(tools, targets, pairs[j].0));
            }
        }
        assert forall|name: Seq<char>| #[trigger] table@.dom().contains(name) == is_contributed(
            tools,
            name,
        ) by {
            if table@.dom().contains(name) {
                assert(has_name(pairs, name));
                assert(groups@.dom().contains(name));
            }
            if is_contributed(tools, name) {
                assert(groups@.dom().contains(name));
                let j = choose|j: int| 0 <= j < pairs.len() && (#[trigger] pairs[j]).0 == name;
                assert(table@.contains_pair(
                    pairs[j].0,
                    effective(group_of(tools, pairs[j].0), targets, pairs[j].0)->Ok_0,
                ));
            }
        }
        assert forall|name: Seq<char>| table@.dom().contains(name) implies #[trigger] table@[name]
            == effective_tools(tools, targets)[name] by {
            assert(has_name(pairs, name));
            let j = choose|j: int| 0 <= j < pairs.len() && (#[trigger] pairs[j]).0 == name;
            assert(table@.contains_pair(
                pairs[j].0,
                effective(group_of(tools, pairs[j].0), targets, pairs[j].0)->Ok_0,
            ));
        }
        assert(table@ =~= effective_tools(tools, targets));
        assert(!exists|name: Seq<char>| is_first_unsettled(tools, targets, name));
    }
    Ok(table)
}

/// Refuses bindings for tools that do not collide.
fn validate_bindings(
    groups: &ToolGroups,
    bindings: &HostBindings,
    Ghost(tools): Ghost<Seq<Contribution>>,
) -> (result: Result<(), RegistryError>)
    requires
        groups_hold(groups@, tools),
    ensures
        meets(result, stale_verdict(tools, bindings.tool_binding@)),
{
    let ghost targets = bindings.tool_binding@;
    let ghost pairs = bindings.tool_binding.pairs();
    let mut i: usize = 0;
    while i < bindings.tool_binding.len()
        invariant
            i <= pairs.len(),
            pairs == bindings.tool_binding.pairs(),
            targets == bindings.tool_binding@,
            groups_hold(groups@, tools),
            forall|j: int| 0 <= j < i ==> !is_stale(tools, targets, (#[trigger] pairs[j]).0),
        decreases pairs.len() - i,
    {
        let ghost name = pairs[i as int].0;
        proof {
            lemma_position(pairs, i as int);
            assert(groups@.dom().contains(name) == is_contributed(tools, name));
        }
        let used = match groups.get(bindings.tool_binding.name_at(i)) {
            Some(group) => group.len() >= 2,
            None => false,
        };
        if !used {
            proof {
                assert forall|other: Seq<char>| #[trigger]
                    is_stale(tools, targets, other) implies other == name || name_before(
                    name,
                    other,
                ) by {
                    let j = choose|j: int| 0 <= j < pairs.len() && (#[trigger] pairs[j]).0 == other;
                    if j < i {
                        assert(!is_stale(tools, targets, pairs[j].0));
                    } else if i < j {
                        assert(name_before(pairs[i as int].0, pairs[j].0));
                    }
                }
                assert(is_first_stale(tools, targets, name));
                let chosen = choose|name: Seq<char>| is_first_stale(tools, targets, name);
                lemma_name_order(name, chosen, name);
                assert(is_stale(tools, targets, chosen));
                assert(is_stale(tools, targets, name));
            }
            return Err(
                RegistryError::StaleToolBinding(
                    Identifier { text: bindings.tool_binding.name_at(i).to_owned() },
                ),
            );
        }
        i += 1;
    }
    proof {
        assert forall|name: Seq<char>| !is_stale(tools, targets, name) by {
            if targets.dom().contains(name) {
                let j = choose|j: int| 0 <= j < pairs.len() && (#[trigger] pairs[j]).0 == name;
                assert(!is_stale(tools, targets, pairs[j].0));
            }
        }
    }
    Ok(())
}

// ---------------------------------------------------------------------------
// Snapshots
// ---------------------------------------------------------------------------

/// Registered plugins and their effective contributions at one generation.
#[derive(Debug)]
pub struct SnapshotData {
    pub generation: u64,
    pub plugins: PluginMap,
    pub tools: NameMap<Contribution>,
    pub tables: ContributionTables,
}

/// What a snapshot holds.
pub struct SnapshotModel {
    pub generation: u64,
    pub plugins: PluginPairs,
    pub tools: Table,
    pub tables: Tables,
}

impl View for SnapshotData {
    type V = SnapshotModel;

    open spec fn view(&self) -> SnapshotModel {
        SnapshotModel {
            generation: self.generation,
            plugins: self.plugins.pairs(),
            tools: self.tools@,
            tables: self.tables@,
        }
    }
}

impl SnapshotData {
    /// The snapshot of an empty registry.
    pub fn empty() -> (data: Self)
        ensures
            data@ == (SnapshotModel {
                generation: 0,
                plugins: Seq::empty(),
                tools: Map::empty(),
                tables: no_tables(),
            }),
    {
        SnapshotData {
            generation: 0,
            plugins: NameMap::new(),
            tools: NameMap::new(),
            tables: ContributionTables::new(),
        }
    }
}

/// The outcome of building a snapshot: plugins are checked first, then names
/// of every kind but tools, then tool names, then bindings.
pub open spec fn snapshot_verdict(
    generation: u64,
    plugins: PluginPairs,
    targets: Targets,
) -> Result<SnapshotModel, RegistryFault> {
    match plugins_verdict(plugins, 0) {
        Err(fault) => Err(fault),
        Ok(()) => match tables_from(no_tables(), plugins, 0) {
            Err(fault) => Err(fault),
            Ok(tables) => match tools_verdict(all_tools(plugins), targets) {
                Err(fault) => Err(fault),
                Ok(tools) => match stale_verdict(all_tools(plugins), targets) {
                    Err(fault) => Err(fault),
                    Ok(()) => Ok(SnapshotModel { generation, plugins, tools, tables }),
                },
            },
        },
    }
}

/// Builds the snapshot of plugins.
pub fn build_snapshot(generation: u64, plugins: PluginMap, bindings: &HostBindings) -> (result:
    Result<SnapshotData, RegistryError>)
    ensures
        match result {
            Ok(data) => snapshot_verdict(generation, plugins.pairs(), bindings.tool_binding@)
                == Ok::<SnapshotModel, RegistryFault>(data@),
            Err(error) => snapshot_verdict(generation, plugins.pairs(), bindings.tool_binding@)
                == Err::<SnapshotModel, RegistryFault>(error@),
        },
{
    validate_plugins(&plugins)?;
    let tables = collect_tables(&plugins)?;
    let groups = collect_tools(&plugins);
    let ghost contributed = all_tools(plugins.pairs());
    let tools = settle_tools(&groups, bindings, Ghost(contributed))?;
    validate_bindings(&groups, bindings, Ghost(contributed))?;
    Ok(SnapshotData { generation, plugins, tools, tables })
}

/// An immutable view of the registry at one generation.
#[derive(Debug)]
pub struct RegistrySnapshot {
    inner: Arc<SnapshotData>,
}

/// The contributions of a table, in the order of their names.
pub open spec fn lists(values: Seq<&Contribution>, pairs: Seq<(Seq<char>, Contribution)>) -> bool {
    &&& is_ordered(pairs)
    &&& values.len() == pairs.len()
    &&& forall|i: int| 0 <= i < values.len() ==> *(#[trigger] values[i]) == pairs[i].1
}

impl RegistrySnapshot {
    /// What the snapshot holds.
    pub closed spec fn data(self) -> SnapshotData {
        *self.inner
    }

    /// A snapshot of shared data.
    pub(crate) fn of(inner: Arc<SnapshotData>) -> (snapshot: Self)
        ensures
            snapshot.data() == *inner,
    {
        RegistrySnapshot { inner }
    }

    /// The generation.
    pub fn generation(&self) -> (generation: u64)
        ensures
            generation == self.data().generation,
    {
        self.inner.generation
    }

    /// A registered plugin by identifier.
    pub fn plugin(&self, id: &str) -> (registration: Option<&PluginRegistration>)
        ensures
            match registration {
                Some(registration) => self.data().plugins@.dom().contains(id@)
                    && *self.data().plugins@[id@] == *registration,
                None => !self.data().plugins@.dom().contains(id@),
            },
    {
        match self.inner.plugins.get(id) {
            Some(registration) => Some(&**registration),
            None => None,
        }
    }

    /// An effective tool by name.
    pub fn tool(&self, name: &str) -> (tool: Option<&Contribution>)
        ensures
            match tool {
                Some(tool) => self.data().tools@.contains_pair(name@, *tool),
                None => !self.data().tools@.dom().contains(name@),
            },
    {
        self.inner.tools.get(name)
    }

    /// The plugins in the order of their identifiers.
    pub fn plugins(&self) -> (plugins: Vec<&PluginRegistration>)
        ensures
            is_ordered(self.data().plugins.pairs()),
            plugins@.len() == self.data().plugins.pairs().len(),
            forall|i: int|
                0 <= i < plugins@.len() ==> *(#[trigger] plugins@[i])
                    == *self.data().plugins.pairs()[i].1,
    {
        let mut plugins: Vec<&PluginRegistration> = Vec::new();
        let mut i: usize = 0;
        while i < self.inner.plugins.len()
            invariant
                i <= self.data().plugins.pairs().len(),
                self.data() == *self.inner,
                plugins@.len() == i,
                forall|j: int|
                    0 <= j < i ==> *(#[trigger] plugins@[j]) == *self.data().plugins.pairs()[j].1,
            decreases self.data().plugins.pairs().len() - i,
        {
            plugins.push(&**self.inner.plugins.value_at(i));
            i += 1;
        }
        plugins
    }

    /// The effective tools in the order of their names.
    pub fn tools(&self) -> (tools: Vec<&Contribution>)
        ensures
            lists(tools@, self.data().tools.pairs()),
    {
        self.inner.tools.values()
    }

    /// The commands in the order of their names.
    pub fn commands(&self) -> (commands: Vec<&Contribution>)
        ensures
            lists(commands@, self.data().tables.commands.pairs()),
    {
        self.inner.tables.commands.values()
    }

    /// The prompts in the order of their names.
    pub fn prompts(&self) -> (prompts: Vec<&Contribution>)
        ensures
            lists(prompts@, self.data().tables.prompts.pairs()),
    {
        self.inner.tables.prompts.values()
    }

    /// The resources in the order of their names.
    pub fn resources(&self) -> (resources: Vec<&Contribution>)
        ensures
            lists(resources@, self.data().tables.resources.pairs()),
    {
        self.inner.tables.resources.values()
    }

    /// The views in the order of their names.
    pub fn views(&self) -> (views: Vec<&Contribution>)
        ensures
            lists(views@, self.data().tables.views.pairs()),
    {
        self.inner.tables.views.values()
    }

    /// The timelines in the order of their names.
    pub fn timelines(&self) -> (timelines: Vec<&Contribution>)
        ensures
            lists(timelines@, self.data().tables.timelines.pairs()),
    {
        self.inner.tables.timelines.values()
    }

    /// The modals in the order of their names.
    pub fn modals(&self) -> (modals: Vec<&Contribution>)
        ensures
            lists(modals@, self.data().tables.modals.pairs()),
    {
        self.inner.tables.modals.values()
    }

    /// The widgets in the order of their names.
    pub fn widgets(&self) -> (widgets: Vec<&Contribution>)
        ensures
            lists(widgets@, self.data().tables.widgets.pairs()),
    {
        self.inner.tables.widgets.values()
    }

    /// The event subscriptions in the order of their names.
    pub fn event_subscriptions(&self) -> (subscriptions: Vec<&Contribution>)
        ensures
            lists(subscriptions@, self.data().tables.subscriptions.pairs()),
    {
        self.inner.tables.subscriptions.values()
    }
}

impl Clone for RegistrySnapshot {
    /// Another handle to the same snapshot.
    fn clone(&self) -> (snapshot: Self)
        ensures
            snapshot.data() == self.data(),
    {
        RegistrySnapshot { inner: shared(&self.inner) }
    }
}

} // verus!
