//! The subtree walk: what to do with each GetNext reply.
use vstd::prelude::*;
use crate::error::SnmpError;
use crate::model::ValueModel;
use crate::message::{Value, SimplePdu};
use crate::oid::{Oid, is_prefix, oid_lt, lemma_lt_irreflexive_from};

verus! {

/// One result of a walk: the arcs of the name past the root, and the value.
#[derive(Clone, Debug, PartialEq, Eq)]
pub struct WalkEntry {
    pub suffix: Vec<u32>,
    pub value: Value,
}

/// What the walk does after a reply.
#[derive(Clone, Copy, Debug, PartialEq, Eq, Structural)]
pub enum WalkStep {
    /// Send GetNext for the new current identifier.
    Continue,
    /// The subtree is done; the entries are the result.
    Finished,
    /// The step failed; the walk ends with this error.
    Failed(SnmpError),
}

/// A v2 exception indicator rather than a value.
pub open spec fn is_exception(v: ValueModel) -> bool {
    match v {
        ValueModel::NoSuchObject | ValueModel::NoSuchInstance | ValueModel::EndOfMibView => true,
        _ => false,
    }
}

pub open spec fn entries_view(es: Seq<WalkEntry>) -> Seq<(Seq<u32>, ValueModel)> {
    es.map_values(|e: WalkEntry| (e.suffix@, e.value@))
}

/// The state of a walk: its root, the identifier to ask GetNext for, and
/// the entries gathered so far, in the order the agent returned them.
pub struct Walk {
    pub root: Oid,
    pub current: Oid,
    pub entries: Vec<WalkEntry>,
}

/// The same identifier is never progress: a reply that repeats the
/// requested identifier ends the walk.
pub proof fn lemma_repeat_is_no_progress(a: Seq<u32>)
    ensures
        !oid_lt(a, a),
{
    lemma_lt_irreflexive_from(a, 0);
}

impl Walk {
    /// The full name of entry `i`.
    pub open spec fn entry_name(&self, i: int) -> Seq<u32> {
        self.root@ + self.entries@[i].suffix@
    }

    /// The current identifier lies in the root's subtree and is the name of
    /// the last entry; the entries' names strictly increase.
    pub open spec fn wf(&self) -> bool {
        &&& self.root@.len() >= 1
        &&& is_prefix(self.root@, self.current@)
        &&& self.entries@.len() > 0 ==> self.entry_name(self.entries@.len() - 1) == self.current@
        &&& forall|i: int|
            0 <= i < self.entries@.len() - 1 ==> oid_lt(
                #[trigger] self.entry_name(i),
                self.entry_name(i + 1),
            )
    }

    /// A walk of the subtree at `root`, starting from the root itself.
    pub fn new(root: Oid) -> (r: Walk)
        requires
            root.wf(),
        ensures
            r.wf(),
            r.root@ == root@,
            r.current@ == root@,
            r.entries@.len() == 0,
    {
        let current = root.duplicate();
        assert(root@.take(root@.len() as int) =~= root@);
        Walk { root, current, entries: Vec::new() }
    }

    /// Takes the reply to GetNext for the current identifier. A failed step
    /// ends the walk with its error; an empty reply is a protocol error. The
    /// walk finishes, unchanged, on an agent-reported error-status, on an
    /// exception value, on a name outside the subtree, and on a name that is
    /// not strictly after the current one. Otherwise it records the name's
    /// suffix and value and moves on to that name.
    pub fn advance(&mut self, response: Result<SimplePdu, SnmpError>) -> (r: WalkStep)
        requires
            old(self).wf(),
        ensures
            final(self).wf(),
            final(self).root@ == old(self).root@,
            match response {
                Err(e) => r == WalkStep::Failed(e),
                Ok(p) => if p.bindings@.len() == 0 {
                    r == WalkStep::Failed(SnmpError::ProtocolError)
                } else {
                    let name = p.bindings@[0].name@;
                    let value = p.bindings@[0].value@;
                    if p.error_status != 0 || is_exception(value) || !is_prefix(
                        old(self).root@,
                        name,
                    ) || !oid_lt(old(self).current@, name) {
                        r == WalkStep::Finished
                    } else {
                        r == WalkStep::Continue && final(self).current@ == name && entries_view(
                            final(self).entries@,
                        ) == entries_view(old(self).entries@).push(
                            (name.skip(old(self).root@.len() as int), value),
                        )
                    }
                },
            },
            r != WalkStep::Continue ==> final(self).current@ == old(self).current@ && entries_view(
                final(self).entries@,
            ) == entries_view(old(self).entries@),
    {
        let p = match response {
            Ok(p) => p,
            Err(e) => return WalkStep::Failed(e),
        };
        if p.bindings.len() == 0 {
            return WalkStep::Failed(SnmpError::ProtocolError);
        }
        let status = p.error_status;
        let mut bs = p.bindings;
        let first = bs.remove(0);
        let exception = match first.value {
            Value::NoSuchObject | Value::NoSuchInstance | Value::EndOfMibView => true,
            _ => false,
        };
        if status != 0 || exception || !self.root.is_prefix_of(&first.name)
            || !self.current.less_than(&first.name) {
            return WalkStep::Finished;
        }
        let suffix = first.name.suffix(self.root.arcs.len());
        let ghost old_entries = self.entries@;
        let ghost old_current = self.current@;
        self.entries.push(WalkEntry { suffix, value: first.value });
        self.current = first.name;
        proof {
            assert(self.root@ + self.entries@.last().suffix@ =~= self.current@);
            let n = self.entries@.len();
            assert forall|i: int| 0 <= i < n - 1 implies oid_lt(
                #[trigger] self.entry_name(i),
                self.entry_name(i + 1),
            ) by {
                assert(self.entries@[i] == old_entries[i]);
                assert(self.entry_name(i) =~= old(self).entry_name(i));
                if i + 1 < n - 1 {
                    assert(self.entries@[i + 1] == old_entries[i + 1]);
                    assert(self.entry_name(i + 1) =~= old(self).entry_name(i + 1));
                } else {
                    assert(old(self).entry_name(i) == old_current);
                }
            }
            assert(entries_view(self.entries@) =~= entries_view(old_entries).push(
                (self.current@.skip(self.root@.len() as int), self.entries@.last().value@),
            ));
        }
        WalkStep::Continue
    }

    /// The gathered entries, in the order the agent returned them.
    pub fn into_entries(self) -> (r: Vec<WalkEntry>)
        ensures
            r@ == self.entries@,
    {
        self.entries
    }
}

} // verus!
