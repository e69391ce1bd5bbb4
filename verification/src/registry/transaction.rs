//! Transactions on the plugin registry.

use std::sync::Arc;

use vstd::prelude::*;

use crate::name_map::NameMap;
use crate::plugin_api::{copy_plugin_id, PluginId};
use crate::registry::bindings::HostBindings;
use crate::registry::snapshot::{
    build_snapshot, copy_plugins, no_tables, shared, snapshot_verdict, Contribution, PluginMap,
    PluginRegistration, RegistryError, RegistryFault, RegistrySnapshot, SnapshotData, SnapshotModel,
};

verus! {

/// One change of a transaction.
#[derive(Debug, PartialEq, Eq)]
pub enum RegistryChange {
    /// Adds a plugin that is not registered.
    Register(Arc<PluginRegistration>),
    /// Removes a plugin.
    Unregister { plugin_id: PluginId },
    /// Replaces a registered plugin.
    Reload(Arc<PluginRegistration>),
}

/// The plugin that a change touches.
pub open spec fn touched_id(change: RegistryChange) -> Seq<char> {
    match change {
        RegistryChange::Register(registration) => registration.held_provenance().plugin_id.text@,
        RegistryChange::Reload(registration) => registration.held_provenance().plugin_id.text@,
        RegistryChange::Unregister { plugin_id } => plugin_id.text@,
    }
}

impl RegistryChange {
    /// The plugin that the change touches.
    pub fn plugin_id(&self) -> (id: &PluginId)
        ensures
            id.text@ == touched_id(*self),
    {
        match self {
            RegistryChange::Register(registration) => &registration.provenance().plugin_id,
            RegistryChange::Reload(registration) => &registration.provenance().plugin_id,
            RegistryChange::Unregister { plugin_id } => plugin_id,
        }
    }
}

/// Registered plugins by identifier.
pub type Plugins = Map<Seq<char>, Arc<PluginRegistration>>;

/// Whether one of the first `i` changes touches a plugin.
pub open spec fn is_touched(changes: Seq<RegistryChange>, i: int, id: Seq<char>) -> bool {
    exists|j: int| 0 <= j < i && touched_id(#[trigger] changes[j]) == id
}

/// The outcome of one change.
pub open spec fn changed(plugins: Plugins, change: RegistryChange) -> Result<
    Plugins,
    RegistryFault,
> {
    let id = touched_id(change);
    match change {
        RegistryChange::Register(registration) => if plugins.dom().contains(id) {
            Err(RegistryFault::PluginAlreadyRegistered(id))
        } else {
            Ok(plugins.insert(id, registration))
        },
        RegistryChange::Unregister { .. } => if !plugins.dom().contains(id) {
            Err(RegistryFault::PluginNotRegistered(id))
        } else {
            Ok(plugins.remove(id))
        },
        RegistryChange::Reload(registration) => if !plugins.dom().contains(id) {
            Err(RegistryFault::PluginNotRegistered(id))
        } else {
            Ok(plugins.insert(id, registration))
        },
    }
}

/// The outcome of the changes from position `i` on; no plugin is touched twice.
pub open spec fn changed_from(plugins: Plugins, changes: Seq<RegistryChange>, i: int) -> Result<
    Plugins,
    RegistryFault,
>
    decreases changes.len() - i,
{
    if i >= changes.len() {
        Ok(plugins)
    } else if is_touched(changes, i, touched_id(changes[i])) {
        Err(RegistryFault::DuplicateMutation(touched_id(changes[i])))
    } else {
        match changed(plugins, changes[i]) {
            Err(fault) => Err(fault),
            Ok(plugins) => changed_from(plugins, changes, i + 1),
        }
    }
}

/// Makes one change.
pub fn apply_change(plugins: &mut PluginMap, change: &RegistryChange) -> (result: Result<
    (),
    RegistryError,
>)
    ensures
        match result {
            Ok(()) => changed(old(plugins)@, *change) == Ok::<Plugins, RegistryFault>(
                final(plugins)@,
            ),
            Err(error) => changed(old(plugins)@, *change) == Err::<Plugins, RegistryFault>(error@),
        },
{
    let id = change.plugin_id();
    match change {
        RegistryChange::Register(registration) => {
            if plugins.contains_name(id.text.as_str()) {
                return Err(RegistryError::PluginAlreadyRegistered(copy_plugin_id(id)));
            }
            plugins.insert(id.text.clone(), shared(registration));
        },
        RegistryChange::Unregister { .. } => {
            if plugins.remove(id.text.as_str()).is_none() {
                return Err(RegistryError::PluginNotRegistered(copy_plugin_id(id)));
            }
        },
        RegistryChange::Reload(registration) => {
            if !plugins.contains_name(id.text.as_str()) {
                return Err(RegistryError::PluginNotRegistered(copy_plugin_id(id)));
            }
            plugins.insert(id.text.clone(), shared(registration));
        },
    }
    Ok(())
}

/// Makes changes in order.
pub fn apply_changes(plugins: &mut PluginMap, changes: &Vec<RegistryChange>) -> (result: Result<
    (),
    RegistryError,
>)
    ensures
        match result {
            Ok(()) => changed_from(old(plugins)@, changes@, 0) == Ok::<Plugins, RegistryFault>(
                final(plugins)@,
            ),
            Err(error) => changed_from(old(plugins)@, changes@, 0) == Err::<
                Plugins,
                RegistryFault,
            >(error@),
        },
{
    let mut touched: NameMap<bool> = NameMap::new();
    let mut i: usize = 0;
    while i < changes.len()
        invariant
            i <= changes@.len(),
            forall|id: Seq<char>| #[trigger]
                touched@.dom().contains(id) == is_touched(changes@, i as int, id),
            changed_from(old(plugins)@, changes@, 0) == changed_from(
                plugins@,
                changes@,
                i as int,
            ),
        decreases changes.len() - i,
    {
        let ghost before = touched@;
        let id = changes[i].plugin_id();
        if touched.insert(id.text.clone(), true) {
            assert(before.dom().contains(id.text@));
            return Err(RegistryError::DuplicateMutation(copy_plugin_id(id)));
        }
        proof {
            assert(!before.dom().contains(id.text@));
            assert forall|other: Seq<char>| #[trigger] touched@.dom().contains(other) == is_touched(
                changes@,
                i as int + 1,
                other,
            ) by {
                assert(before.dom().contains(other) == is_touched(changes@, i as int, other));
                if is_touched(changes@, i as int, other) {
                    let j = choose|j: int| 0 <= j < i && touched_id(#[trigger] changes@[j]) == other;
                    assert(touched_id(changes@[j]) == other);
                }
                assert(touched_id(changes@[i as int]) == id.text@);
            }
        }
        apply_change(plugins, &changes[i])?;
        i += 1;
    }
    Ok(())
}

// ---------------------------------------------------------------------------
// The registry
// ---------------------------------------------------------------------------

/// The plugin registry: its current snapshot.
#[derive(Debug)]
pub struct PluginRegistry {
    snapshot: Arc<SnapshotData>,
}

impl PluginRegistry {
    /// What the current snapshot holds.
    pub closed spec fn current(self) -> SnapshotData {
        *self.snapshot
    }

    /// An empty registry of generation zero.
    pub fn new() -> (registry: Self)
        ensures
            registry.current()@.generation == 0,
            registry.current()@.plugins.len() == 0,
            registry.current()@.tools == Map::<Seq<char>, Contribution>::empty(),
            registry.current()@.tables == no_tables(),
    {
        PluginRegistry { snapshot: Arc::new(SnapshotData::empty()) }
    }

    /// The current snapshot.
    pub fn snapshot(&self) -> (snapshot: RegistrySnapshot)
        ensures
            snapshot.data() == self.current(),
    {
        RegistrySnapshot::of(shared(&self.snapshot))
    }

    /// Prepares changes against the current generation.
    pub fn prepare(&self, changes: Vec<RegistryChange>, bindings: HostBindings) -> (result: Result<
        RegistryTransaction,
        RegistryError,
    >)
        ensures
            match result {
                Ok(transaction) => {
                    &&& changed_from(self.current().plugins@, changes@, 0) == Ok::<
                        Plugins,
                        RegistryFault,
                    >(transaction.plugins()@)
                    &&& transaction.base_generation() == self.current().generation
                    &&& transaction.bindings() == bindings
                    &&& transaction.candidate() is None
                    &&& transaction.status() == TransactionStatus::Prepared
                },
                Err(error) => changed_from(self.current().plugins@, changes@, 0) == Err::<
                    Plugins,
                    RegistryFault,
                >(error@),
            },
    {
        let mut plugins = copy_plugins(&self.snapshot.plugins);
        apply_changes(&mut plugins, &changes)?;
        Ok(
            RegistryTransaction {
                base_generation: self.snapshot.generation,
                plugins,
                bindings,
                candidate: None,
                status: TransactionStatus::Prepared,
            },
        )
    }
}

impl Default for PluginRegistry {
    /// An empty registry of generation zero.
    fn default() -> (registry: Self)
        ensures
            registry.current()@.generation == 0,
            registry.current()@.plugins.len() == 0,
            registry.current()@.tools == Map::<Seq<char>, Contribution>::empty(),
            registry.current()@.tables == no_tables(),
    {
        PluginRegistry::new()
    }
}

// ---------------------------------------------------------------------------
// Transactions
// ---------------------------------------------------------------------------

/// How far a transaction has come.
#[derive(Debug, Clone, Copy, PartialEq, Eq, Structural)]
pub enum TransactionStatus {
    Prepared,
    Validated,
}

/// Prepared changes of the registry.
#[derive(Debug)]
pub struct RegistryTransaction {
    base_generation: u64,
    plugins: PluginMap,
    bindings: HostBindings,
    candidate: Option<Arc<SnapshotData>>,
    status: TransactionStatus,
}

impl RegistryTransaction {
    /// The generation that the changes were prepared against.
    pub closed spec fn base_generation(self) -> u64 {
        self.base_generation
    }

    /// The plugins after the changes.
    pub closed spec fn plugins(self) -> PluginMap {
        self.plugins
    }

    /// The bindings that settle tool names.
    pub closed spec fn bindings(self) -> HostBindings {
        self.bindings
    }

    /// The snapshot that would be published.
    pub closed spec fn candidate(self) -> Option<SnapshotData> {
        match self.candidate {
            Some(candidate) => Some(*candidate),
            None => None,
        }
    }

    /// How far the transaction has come.
    pub closed spec fn status(self) -> TransactionStatus {
        self.status
    }

    /// What a candidate is, if there is one: the snapshot of the plugins at
    /// the next generation. A validated transaction has one.
    #[verifier::type_invariant]
    spec fn has_sound_candidate(self) -> bool {
        &&& self.status == TransactionStatus::Validated ==> self.candidate is Some
        &&& self.candidate matches Some(candidate) ==> self.base_generation < u64::MAX
            && snapshot_verdict(
            (self.base_generation + 1) as u64,
            self.plugins.pairs(),
            self.bindings.tool_binding@,
        ) == Ok::<SnapshotModel, RegistryFault>(candidate@)
    }

    /// Checks plugins, contributions, collisions and tool bindings.
    pub fn validate(&mut self) -> (result: Result<(), RegistryError>)
        ensures
            final(self).base_generation() == old(self).base_generation(),
            final(self).plugins() == old(self).plugins(),
            final(self).bindings() == old(self).bindings(),
            match result {
                Ok(()) => {
                    &&& old(self).status() == TransactionStatus::Prepared
                    &&& final(self).status() == TransactionStatus::Validated
                    &&& old(self).base_generation() < u64::MAX
                    &&& final(self).candidate() matches Some(candidate)
                    &&& snapshot_verdict(
                        (old(self).base_generation() + 1) as u64,
                        old(self).plugins().pairs(),
                        old(self).bindings().tool_binding@,
                    ) == Ok::<SnapshotModel, RegistryFault>(candidate@)
                },
                Err(error) => {
                    &&& final(self).status() == old(self).status()
                    &&& final(self).candidate() == old(self).candidate()
                    &&& error@ == (if old(self).status() != TransactionStatus::Prepared {
                        RegistryFault::InvalidTransactionState
                    } else if old(self).base_generation() == u64::MAX {
                        RegistryFault::GenerationExhausted
                    } else {
                        snapshot_verdict(
                            (old(self).base_generation() + 1) as u64,
                            old(self).plugins().pairs(),
                            old(self).bindings().tool_binding@,
                        )->Err_0
                    })
                    &&& old(self).status() == TransactionStatus::Prepared && old(
                        self,
                    ).base_generation() < u64::MAX ==> snapshot_verdict(
                        (old(self).base_generation() + 1) as u64,
                        old(self).plugins().pairs(),
                        old(self).bindings().tool_binding@,
                    ) is Err
                },
            },
    {
        proof {
            use_type_invariant(&*self);
        }
        match self.status {
            TransactionStatus::Prepared => {},
            TransactionStatus::Validated => {
                return Err(RegistryError::InvalidTransactionState);
            },
        }
        let generation: u64 = match self.base_generation.checked_add(1) {
            Some(generation) => generation,
            None => return Err(RegistryError::GenerationExhausted),
        };
        let candidate = build_snapshot(generation, copy_plugins(&self.plugins), &self.bindings)?;
        self.candidate = Some(Arc::new(candidate));
        self.status = TransactionStatus::Validated;
        Ok(())
    }

    /// Publishes the validated snapshot.
    pub fn commit(self, registry: &mut PluginRegistry) -> (result: Result<
        RegistrySnapshot,
        RegistryError,
    >)
        ensures
            match result {
                Ok(snapshot) => {
                    &&& self.status() == TransactionStatus::Validated
                    &&& old(registry).current().generation == self.base_generation()
                    &&& self.candidate() == Some(snapshot.data())
                    &&& final(registry).current() == snapshot.data()
                    &&& old(registry).current().generation < u64::MAX
                    &&& snapshot_verdict(
                        (old(registry).current().generation + 1) as u64,
                        self.plugins().pairs(),
                        self.bindings().tool_binding@,
                    ) == Ok::<SnapshotModel, RegistryFault>(snapshot.data()@)
                    &&& snapshot.data().generation == old(registry).current().generation + 1
                },
                Err(error) => {
                    &&& *final(registry) == *old(registry)
                    &&& error@ == (if self.status() != TransactionStatus::Validated {
                        RegistryFault::NotValidated
                    } else {
                        RegistryFault::GenerationConflict {
                            expected: self.base_generation(),
                            actual: old(registry).current().generation,
                        }
                    })
                    &&& self.status() == TransactionStatus::Validated ==> old(
                        registry,
                    ).current().generation != self.base_generation()
                },
            },
    {
        proof {
            use_type_invariant(&self);
        }
        match self.status {
            TransactionStatus::Validated => {},
            TransactionStatus::Prepared => {
                return Err(RegistryError::NotValidated);
            },
        }
        let candidate = match &self.candidate {
            Some(candidate) => shared(candidate),
            None => return Err(RegistryError::NotValidated),
        };
        if registry.snapshot.generation != self.base_generation {
            return Err(
                RegistryError::GenerationConflict {
                    expected: self.base_generation,
                    actual: registry.snapshot.generation,
                },
            );
        }
        registry.snapshot = shared(&candidate);
        Ok(RegistrySnapshot::of(candidate))
    }

    /// Gives the changes up; the registry stays as it is.
    pub fn rollback(self, registry: &PluginRegistry) -> (snapshot: RegistrySnapshot)
        ensures
            snapshot.data() == registry.current(),
    {
        registry.snapshot()
    }
}

} // verus!
