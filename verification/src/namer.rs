//! Sequence numbers and names for the artifacts of a split log.

use vstd::prelude::*;
use crate::marker::{LogInfo, LogInfoView, LogKind};

verus! {

/// The name of one dump artifact.
#[derive(Debug, Clone, PartialEq, Eq, Hash)]
pub struct ArtifactName {
    pub sequence: usize,
    pub kind: LogKind,
    pub pass_name: String,
}

/// The mathematical content of an [`ArtifactName`].
pub ghost struct ArtifactNameView {
    pub sequence: nat,
    pub kind: LogKind,
    pub pass_name: Seq<char>,
}

impl View for ArtifactName {
    type V = ArtifactNameView;

    open spec fn view(&self) -> ArtifactNameView {
        ArtifactNameView {
            sequence: self.sequence as nat,
            kind: self.kind,
            pass_name: self.pass_name@,
        }
    }
}

/// Allocates sequence numbers, marker by marker. Number 0 belongs to the
/// content that precedes the first marker.
#[derive(Debug)]
pub struct ArtifactNamer {
    pub last: Option<LogInfo>,
    pub counter: usize,
}

/// The mathematical content of an [`ArtifactNamer`].
pub ghost struct NamerState {
    pub last: Option<LogInfoView>,
    pub counter: nat,
}

impl View for ArtifactNamer {
    type V = NamerState;

    open spec fn view(&self) -> NamerState {
        NamerState {
            last: match self.last {
                Some(l) => Some(l@),
                None => None,
            },
            counter: self.counter as nat,
        }
    }
}

/// The state before any marker was seen.
pub open spec fn namer_start() -> NamerState {
    NamerState { last: None, counter: 0 }
}

/// Whether marker `m` shares the sequence number of the marker before it:
/// only an `After` that directly follows the `Before` of the same pass, with
/// the same extras, does.
pub open spec fn reuses_sequence(last: Option<LogInfoView>, m: LogInfoView) -> bool {
    match last {
        Some(l) => l.pass_name == m.pass_name && l.extras == m.extras && l.kind == LogKind::Before
            && m.kind == LogKind::After,
        None => false,
    }
}

/// The state after marker `m`.
pub open spec fn advance_spec(st: NamerState, m: LogInfoView) -> NamerState {
    NamerState {
        last: Some(m),
        counter: if reuses_sequence(st.last, m) {
            st.counter
        } else {
            st.counter + 1
        },
    }
}

/// The name that marker `m` gets in state `st`.
pub open spec fn name_spec(st: NamerState, m: LogInfoView) -> ArtifactNameView {
    ArtifactNameView {
        sequence: advance_spec(st, m).counter,
        kind: m.kind,
        pass_name: m.pass_name,
    }
}

impl ArtifactNamer {
    /// A namer that has seen no marker.
    pub fn new() -> (namer: ArtifactNamer)
        ensures
            namer@ == namer_start(),
    {
        ArtifactNamer { last: None, counter: 0 }
    }

    /// The number that was allocated last.
    pub fn counter(&self) -> (n: usize)
        ensures
            n == self@.counter,
    {
        self.counter
    }

    /// Takes the next marker. Returns its artifact name and whether a new
    /// sequence number was allocated for it (`true`) or the previous one
    /// was used again (`false`).
    pub fn advance(&mut self, info: LogInfo) -> (allocation: (ArtifactName, bool))
        requires
            old(self).counter < usize::MAX,
        ensures
            final(self)@ == advance_spec(old(self)@, info@),
            allocation.0@ == name_spec(old(self)@, info@),
            allocation.1 == !reuses_sequence(old(self)@.last, info@),
    {
        let skip_increment = match &self.last {
            Some(last_pass) => {
                last_pass.pass_name == info.pass_name && last_pass.pass_cmdline_opt_and_extras
                    == info.pass_cmdline_opt_and_extras && last_pass.kind == LogKind::Before
                    && info.kind == LogKind::After
            },
            None => false,
        };
        if !skip_increment {
            self.counter = self.counter + 1;
        }
        let name = ArtifactName {
            sequence: self.counter,
            kind: info.kind,
            pass_name: info.pass_name.clone(),
        };
        self.last = Some(info);
        (name, !skip_increment)
    }
}

/// A `Before` marker directly followed by the `After` marker of the same
/// pass, with the same extras, takes exactly one sequence number, and both
/// artifacts carry it.
pub proof fn lemma_adjacent_pair_takes_one_number(
    st: NamerState,
    before: LogInfoView,
    after: LogInfoView,
)
    requires
        before.kind == LogKind::Before,
        after.kind == LogKind::After,
        before.pass_name == after.pass_name,
        before.extras == after.extras,
    ensures
        advance_spec(advance_spec(st, before), after).counter == st.counter + 1,
        name_spec(st, before).sequence == st.counter + 1,
        name_spec(advance_spec(st, before), after).sequence == st.counter + 1,
{
}

/// Where the two markers are not such a pair, the second one gets a number
/// of its own, one above the first one's.
pub proof fn lemma_other_markers_take_new_numbers(
    st: NamerState,
    first: LogInfoView,
    second: LogInfoView,
)
    requires
        !(first.kind == LogKind::Before && second.kind == LogKind::After && first.pass_name
            == second.pass_name && first.extras == second.extras),
    ensures
        name_spec(advance_spec(st, first), second).sequence == name_spec(st, first).sequence + 1,
{
}

/// Whether name `a` sorts strictly before name `b`, by sequence number and
/// then by kind.
pub open spec fn sorts_before(a: ArtifactNameView, b: ArtifactNameView) -> bool {
    a.sequence < b.sequence || (a.sequence == b.sequence && a.kind.rank() < b.kind.rank())
}

/// Names come out in strictly ascending order, by sequence number and then
/// by kind: sorting them leaves them in the order of the markers.
pub proof fn lemma_names_ascend(st: NamerState, first: LogInfoView, second: LogInfoView)
    ensures
        sorts_before(name_spec(st, first), name_spec(advance_spec(st, first), second)),
{
}

} // verus!
