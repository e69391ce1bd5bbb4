//! The parts of a request that a body must carry, each exactly once.

use std::collections::BTreeSet;

use vstd::prelude::*;

verus! {

/// One part of a request. The last group may be carried, but need not be.
#[derive(Debug, Clone, Copy, PartialEq, Eq, Structural)]
pub enum Debt {
    SelectionVariant,
    SelectionPayload,
    SystemCollection,
    MessagesCollection,
    ToolsCollection,
    ToolChoiceVariant,
    ReasoningVariant,
    CacheVariant,
    MaxOutput,
    ToolChoiceName,
    ReasoningEffort,
    ReasoningBudget,
    System(usize),
    ToolName(usize),
    ToolDescription(usize),
    ToolSchema(usize),
    MessageVariant(usize),
    MessageBlocks(usize),
    MessageCallId(usize),
    MessageStatus(usize),
    MessageResultName(usize),
    BlockVariant(usize, usize),
    BlockText(usize, usize),
    BlockBytes(usize, usize),
    BlockMedia(usize, usize),
    BlockReasoningKind(usize, usize),
    BlockProof(usize, usize),
    BlockCallId(usize, usize),
    BlockCallName(usize, usize),
    BlockArguments(usize, usize),
    SelectionKind,
    MessageRole(usize),
    BlockKind(usize, usize),
    BlockWidth(usize, usize),
    BlockHeight(usize, usize),
    BlockFrames(usize, usize),
    ToolChoiceKind,
    ReasoningMode,
    CacheKind,
}

impl Debt {
    /// The key of a part: its kind and its position.
    pub open spec fn key_of(self) -> (u8, usize, usize) {
        match self {
            Debt::SelectionVariant => (0, 0, 0),
            Debt::SelectionPayload => (1, 0, 0),
            Debt::SystemCollection => (2, 0, 0),
            Debt::MessagesCollection => (3, 0, 0),
            Debt::ToolsCollection => (4, 0, 0),
            Debt::ToolChoiceVariant => (5, 0, 0),
            Debt::ReasoningVariant => (6, 0, 0),
            Debt::CacheVariant => (7, 0, 0),
            Debt::MaxOutput => (8, 0, 0),
            Debt::ToolChoiceName => (9, 0, 0),
            Debt::ReasoningEffort => (10, 0, 0),
            Debt::ReasoningBudget => (11, 0, 0),
            Debt::System(i) => (12, i, 0),
            Debt::ToolName(i) => (13, i, 0),
            Debt::ToolDescription(i) => (14, i, 0),
            Debt::ToolSchema(i) => (15, i, 0),
            Debt::MessageVariant(m) => (16, m, 0),
            Debt::MessageBlocks(m) => (17, m, 0),
            Debt::MessageCallId(m) => (18, m, 0),
            Debt::MessageStatus(m) => (19, m, 0),
            Debt::MessageResultName(m) => (20, m, 0),
            Debt::BlockVariant(m, b) => (21, m, b),
            Debt::BlockText(m, b) => (22, m, b),
            Debt::BlockBytes(m, b) => (23, m, b),
            Debt::BlockMedia(m, b) => (24, m, b),
            Debt::BlockReasoningKind(m, b) => (25, m, b),
            Debt::BlockProof(m, b) => (26, m, b),
            Debt::BlockCallId(m, b) => (27, m, b),
            Debt::BlockCallName(m, b) => (28, m, b),
            Debt::BlockArguments(m, b) => (29, m, b),
            Debt::SelectionKind => (30, 0, 0),
            Debt::MessageRole(m) => (31, m, 0),
            Debt::BlockKind(m, b) => (32, m, b),
            Debt::BlockWidth(m, b) => (33, m, b),
            Debt::BlockHeight(m, b) => (34, m, b),
            Debt::BlockFrames(m, b) => (35, m, b),
            Debt::ToolChoiceKind => (36, 0, 0),
            Debt::ReasoningMode => (37, 0, 0),
            Debt::CacheKind => (38, 0, 0),
        }
    }

    /// The key of a part: its kind and its position.
    pub fn key(self) -> (key: (u8, usize, usize))
        ensures
            key == self.key_of(),
    {
        match self {
            Debt::SelectionVariant => (0, 0, 0),
            Debt::SelectionPayload => (1, 0, 0),
            Debt::SystemCollection => (2, 0, 0),
            Debt::MessagesCollection => (3, 0, 0),
            Debt::ToolsCollection => (4, 0, 0),
            Debt::ToolChoiceVariant => (5, 0, 0),
            Debt::ReasoningVariant => (6, 0, 0),
            Debt::CacheVariant => (7, 0, 0),
            Debt::MaxOutput => (8, 0, 0),
            Debt::ToolChoiceName => (9, 0, 0),
            Debt::ReasoningEffort => (10, 0, 0),
            Debt::ReasoningBudget => (11, 0, 0),
            Debt::System(i) => (12, i, 0),
            Debt::ToolName(i) => (13, i, 0),
            Debt::ToolDescription(i) => (14, i, 0),
            Debt::ToolSchema(i) => (15, i, 0),
            Debt::MessageVariant(m) => (16, m, 0),
            Debt::MessageBlocks(m) => (17, m, 0),
            Debt::MessageCallId(m) => (18, m, 0),
            Debt::MessageStatus(m) => (19, m, 0),
            Debt::MessageResultName(m) => (20, m, 0),
            Debt::BlockVariant(m, b) => (21, m, b),
            Debt::BlockText(m, b) => (22, m, b),
            Debt::BlockBytes(m, b) => (23, m, b),
            Debt::BlockMedia(m, b) => (24, m, b),
            Debt::BlockReasoningKind(m, b) => (25, m, b),
            Debt::BlockProof(m, b) => (26, m, b),
            Debt::BlockCallId(m, b) => (27, m, b),
            Debt::BlockCallName(m, b) => (28, m, b),
            Debt::BlockArguments(m, b) => (29, m, b),
            Debt::SelectionKind => (30, 0, 0),
            Debt::MessageRole(m) => (31, m, 0),
            Debt::BlockKind(m, b) => (32, m, b),
            Debt::BlockWidth(m, b) => (33, m, b),
            Debt::BlockHeight(m, b) => (34, m, b),
            Debt::BlockFrames(m, b) => (35, m, b),
            Debt::ToolChoiceKind => (36, 0, 0),
            Debt::ReasoningMode => (37, 0, 0),
            Debt::CacheKind => (38, 0, 0),
        }
    }
}

/// A set of parts of a request.
#[derive(Debug)]
pub struct DebtSet {
    items: Vec<Debt>,
    keys: BTreeSet<(u8, usize, usize)>,
}

impl View for DebtSet {
    type V = Set<Debt>;

    closed spec fn view(&self) -> Set<Debt> {
        self.items@.to_set()
    }
}

impl DebtSet {
    /// The list holds every part once, and the keys are those of the list.
    pub closed spec fn well_formed(self) -> bool {
        &&& self.items@.no_duplicates()
        &&& forall|debt: Debt| #[trigger]
            self.keys@.contains(debt.key_of()) == self.items@.contains(debt)
    }

    /// The empty set.
    pub fn new() -> (set: Self)
        ensures
            set.well_formed(),
            set@ == Set::<Debt>::empty(),
    {
        let set = DebtSet { items: Vec::new(), keys: BTreeSet::new() };
        assert(set@ =~= Set::<Debt>::empty());
        set
    }

    /// Adds a part; `false` when the set already holds it.
    pub fn insert(&mut self, debt: Debt) -> (added: bool)
        requires
            old(self).well_formed(),
        ensures
            final(self).well_formed(),
            added == !old(self)@.contains(debt),
            final(self)@ == old(self)@.insert(debt),
    {
        broadcast use vstd::laws_cmp::group_laws_cmp;

        let ghost before = self.items@;
        let added = self.keys.insert(debt.key());
        assert(added == !before.contains(debt));
        if added {
            self.items.push(debt);
            assert(self.items@.contains(debt)) by {
                assert(self.items@.last() == debt);
            }
            assert forall|other: Debt| #[trigger]
                self.keys@.contains(other.key_of()) == self.items@.contains(other) by {
                if before.contains(other) {
                    let i = choose|i: int| 0 <= i < before.len() && before[i] == other;
                    assert(self.items@[i] == other);
                }
            }
        }
        assert(self@ =~= old(self)@.insert(debt)) by {
            assert forall|other: Debt|
                self.items@.contains(other) == (before.contains(other) || other == debt) by {
                if before.contains(other) && added {
                    let i = choose|i: int| 0 <= i < before.len() && before[i] == other;
                    assert(self.items@[i] == other);
                }
            }
        }
        added
    }

    /// Whether the set holds a part.
    pub fn contains(&self, debt: Debt) -> (found: bool)
        requires
            self.well_formed(),
        ensures
            found == self@.contains(debt),
    {
        broadcast use vstd::laws_cmp::group_laws_cmp;
        broadcast use vstd::std_specs::btree::group_btree_axioms;

        self.keys.contains(&debt.key())
    }

    /// Whether two sets hold the same parts.
    pub fn same(&self, other: &DebtSet) -> (equal: bool)
        requires
            self.well_formed(),
            other.well_formed(),
        ensures
            equal == (self@ == other@),
    {
        proof {
            self.items@.unique_seq_to_set();
            other.items@.unique_seq_to_set();
        }
        if self.items.len() != other.items.len() {
            return false;
        }
        let mut i: usize = 0;
        while i < self.items.len()
            invariant
                i <= self.items@.len(),
                other.well_formed(),
                forall|j: int| 0 <= j < i ==> other@.contains(#[trigger] self.items@[j]),
            decreases self.items.len() - i,
        {
            if !other.contains(self.items[i]) {
                assert(self@.contains(self.items@[i as int]));
                return false;
            }
            i += 1;
        }
        proof {
            assert(self@.subset_of(other@));
            vstd::set_lib::lemma_subset_equality(self@, other@);
        }
        true
    }
}

} // verus!
