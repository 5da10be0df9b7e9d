//! Folding operations into the live state of a contract.
//!
//! Each operation spends prior outputs, named by `Opout`, and defines new
//! ones, numbered from zero under its own identifier. The contract state is
//! the map from each live `Opout` to the state value assigned there.

use crate::value::Revealed;
use vstd::prelude::*;

verus! {

/// Identifier of an operation: the commitment to its encoding.
#[derive(Clone, Copy, Debug, PartialEq, Eq)]
pub struct OpId {
    pub bytes: [u8; 32],
}

/// A reference to output number `no` of operation `op`.
#[derive(Clone, Copy, Debug, PartialEq, Eq)]
pub struct Opout {
    pub op: OpId,
    pub no: u16,
}

/// A live output and the state assigned to it.
#[derive(Clone, Debug)]
pub struct OutputAssignment {
    pub opout: Opout,
    pub state: Revealed,
}

/// An operation: the outputs it spends and the states it assigns to its own
/// outputs, output `i` holding `outputs[i]`.
#[derive(Clone, Debug)]
pub struct Operation {
    pub id: OpId,
    pub inputs: Vec<Opout>,
    pub outputs: Vec<Revealed>,
}

/// Why an operation cannot be folded into the state.
#[derive(Clone, Copy, Debug, PartialEq, Eq)]
pub enum AggregationError {
    /// The operation names the same input twice.
    DuplicateInput,
    /// An input is not live: it was never produced or is already spent.
    InputNotLive,
    /// Live outputs already carry the operation's identifier.
    OpIdReused,
}

/// The live outputs of a contract.
#[derive(Clone, Debug)]
pub struct ContractState {
    pub outputs: Vec<OutputAssignment>,
}

/// The key under which an output is tracked.
pub open spec fn key(o: Opout) -> (Seq<u8>, u16) {
    (o.op.bytes@, o.no)
}

/// The map that a list of assignments stands for; a later entry for a key
/// replaces an earlier one.
pub open spec fn to_map(s: Seq<OutputAssignment>) -> Map<(Seq<u8>, u16), Revealed>
    decreases s.len(),
{
    if s.len() == 0 {
        Map::empty()
    } else {
        to_map(s.drop_last()).insert(key(s.last().opout), s.last().state)
    }
}

impl ContractState {
    pub open spec fn view(&self) -> Map<(Seq<u8>, u16), Revealed> {
        to_map(self.outputs@)
    }
}

/// The keys that an operation spends.
pub open spec fn consumed(op: Operation) -> Set<(Seq<u8>, u16)> {
    Set::new(|k: (Seq<u8>, u16)| exists|i: int| 0 <= i < op.inputs@.len() && key(op.inputs@[i]) == k)
}

/// The outputs that an operation defines.
pub open spec fn produced(op: Operation) -> Map<(Seq<u8>, u16), Revealed> {
    Map::new(
        |k: (Seq<u8>, u16)| k.0 == op.id.bytes@ && (k.1 as int) < op.outputs@.len(),
        |k: (Seq<u8>, u16)| op.outputs@[k.1 as int],
    )
}

pub open spec fn inputs_distinct(op: Operation) -> bool {
    forall|i: int, j: int|
        0 <= i < j < op.inputs@.len() ==> key(op.inputs@[i]) != key(op.inputs@[j])
}

pub open spec fn inputs_live(m: Map<(Seq<u8>, u16), Revealed>, op: Operation) -> bool {
    forall|i: int| 0 <= i < op.inputs@.len() ==> m.contains_key(key(op.inputs@[i]))
}

pub open spec fn id_fresh(m: Map<(Seq<u8>, u16), Revealed>, op: Operation) -> bool {
    forall|k: (Seq<u8>, u16)| m.contains_key(k) ==> k.0 != op.id.bytes@
}

/// The error with which folding `op` into `m` fails, or `None` where it folds.
pub open spec fn apply_error(m: Map<(Seq<u8>, u16), Revealed>, op: Operation) -> Option<
    AggregationError,
> {
    if !inputs_distinct(op) {
        Some(AggregationError::DuplicateInput)
    } else if !inputs_live(m, op) {
        Some(AggregationError::InputNotLive)
    } else if !id_fresh(m, op) {
        Some(AggregationError::OpIdReused)
    } else {
        None
    }
}

/// The state after folding `op`: its inputs spent, its outputs live.
pub open spec fn applied(m: Map<(Seq<u8>, u16), Revealed>, op: Operation) -> Map<
    (Seq<u8>, u16),
    Revealed,
> {
    m.remove_keys(consumed(op)).union_prefer_right(produced(op))
}

pub proof fn lemma_to_map_dom(s: Seq<OutputAssignment>)
    ensures
        forall|k: (Seq<u8>, u16)|
            #![trigger to_map(s).contains_key(k)]
            to_map(s).contains_key(k) <==> exists|i: int|
                0 <= i < s.len() && key(s[i].opout) == k,
    decreases s.len(),
{
    if s.len() > 0 {
        let t = s.drop_last();
        lemma_to_map_dom(t);
        assert forall|k: (Seq<u8>, u16)| to_map(s).contains_key(k) implies exists|i: int|
            0 <= i < s.len() && key(s[i].opout) == k by {
            if k == key(s.last().opout) {
                assert(key(s[s.len() - 1].opout) == k);
            } else {
                assert(to_map(t).contains_key(k));
                let i = choose|i: int| 0 <= i < t.len() && key(t[i].opout) == k;
                assert(s[i] == t[i]);
            }
        }
        assert forall|k: (Seq<u8>, u16)|
            (exists|i: int| 0 <= i < s.len() && key(s[i].opout) == k) implies to_map(
            s,
        ).contains_key(k) by {
            let i = choose|i: int| 0 <= i < s.len() && key(s[i].opout) == k;
            if i < s.len() - 1 {
                assert(t[i] == s[i]);
                assert(to_map(t).contains_key(k));
            }
        }
    }
}

pub proof fn lemma_to_map_contains(s: Seq<OutputAssignment>, i: int)
    requires
        0 <= i < s.len(),
    ensures
        to_map(s).contains_key(key(s[i].opout)),
    decreases s.len(),
{
    if i < s.len() - 1 {
        lemma_to_map_contains(s.drop_last(), i);
        assert(s.drop_last()[i] == s[i]);
    }
}

/// Whether two identifiers are the same.
pub fn same_id(a: &OpId, b: &OpId) -> (r: bool)
    ensures
        r == (a.bytes@ == b.bytes@),
{
    let mut i: usize = 0;
    while i < 32
        invariant
            i <= 32,
            a.bytes@.len() == 32,
            b.bytes@.len() == 32,
            a.bytes@.subrange(0, i as int) == b.bytes@.subrange(0, i as int),
        decreases 32 - i,
    {
        if a.bytes[i] != b.bytes[i] {
            return false;
        }
        i = i + 1;
        assert(a.bytes@.subrange(0, i as int) =~= a.bytes@.subrange(0, i - 1).push(a.bytes@[i - 1]));
        assert(b.bytes@.subrange(0, i as int) =~= b.bytes@.subrange(0, i - 1).push(b.bytes@[i - 1]));
    }
    assert(a.bytes@ =~= a.bytes@.subrange(0, 32));
    assert(b.bytes@ =~= b.bytes@.subrange(0, 32));
    true
}

/// Whether two references name the same output.
pub fn same_opout(a: &Opout, b: &Opout) -> (r: bool)
    ensures
        r == (key(*a) == key(*b)),
{
    a.no == b.no && same_id(&a.op, &b.op)
}

/// Whether no input of `op` is named twice.
fn check_inputs_distinct(op: &Operation) -> (r: bool)
    ensures
        r == inputs_distinct(*op),
{
    let n = op.inputs.len();
    let mut j: usize = 0;
    while j < n
        invariant
            j <= n,
            n == op.inputs@.len(),
            forall|a: int, b: int|
                0 <= a < b < j ==> key(op.inputs@[a]) != key(op.inputs@[b]),
        decreases n - j,
    {
        let mut i: usize = 0;
        while i < j
            invariant
                i <= j < n,
                n == op.inputs@.len(),
                forall|a: int| 0 <= a < i ==> key(op.inputs@[a]) != key(op.inputs@[j as int]),
            decreases j - i,
        {
            if same_opout(&op.inputs[i], &op.inputs[j]) {
                return false;
            }
            i = i + 1;
        }
        j = j + 1;
    }
    true
}

/// Whether `op` spends the output `o`.
fn spends(op: &Operation, o: &Opout) -> (r: bool)
    ensures
        r == consumed(*op).contains(key(*o)),
{
    let n = op.inputs.len();
    let mut i: usize = 0;
    while i < n
        invariant
            i <= n,
            n == op.inputs@.len(),
            forall|a: int| 0 <= a < i ==> key(op.inputs@[a]) != key(*o),
        decreases n - i,
    {
        if same_opout(&op.inputs[i], o) {
            return true;
        }
        i = i + 1;
    }
    false
}

impl ContractState {
    /// A contract with no live outputs.
    pub fn new() -> (r: ContractState)
        ensures
            r@ == Map::<(Seq<u8>, u16), Revealed>::empty(),
    {
        ContractState { outputs: Vec::new() }
    }

    /// Whether the output `o` is live.
    pub fn is_live(&self, o: &Opout) -> (r: bool)
        ensures
            r == self@.contains_key(key(*o)),
    {
        proof {
            lemma_to_map_dom(self.outputs@);
        }
        let n = self.outputs.len();
        let mut i: usize = 0;
        while i < n
            invariant
                i <= n,
                n == self.outputs@.len(),
                forall|a: int| 0 <= a < i ==> key(self.outputs@[a].opout) != key(*o),
            decreases n - i,
        {
            if same_opout(&self.outputs[i].opout, o) {
                proof {
                    lemma_to_map_contains(self.outputs@, i as int);
                }
                return true;
            }
            i = i + 1;
        }
        false
    }

    /// Whether some live output was defined by the operation `id`.
    fn has_outputs_of(&self, id: &OpId) -> (r: bool)
        ensures
            r == exists|k: (Seq<u8>, u16)| self@.contains_key(k) && k.0 == id.bytes@,
    {
        proof {
            lemma_to_map_dom(self.outputs@);
        }
        let n = self.outputs.len();
        let mut i: usize = 0;
        while i < n
            invariant
                i <= n,
                n == self.outputs@.len(),
                forall|a: int| 0 <= a < i ==> self.outputs@[a].opout.op.bytes@ != id.bytes@,
            decreases n - i,
        {
            if same_id(&self.outputs[i].opout.op, id) {
                proof {
                    lemma_to_map_contains(self.outputs@, i as int);
                    let k = key(self.outputs@[i as int].opout);
                    assert(self@.contains_key(k) && k.0 == id.bytes@);
                }
                return true;
            }
            i = i + 1;
        }
        false
    }

    /// Folds an operation into the state: its inputs must all be live and
    /// distinct; they are spent, and its outputs become live. On an error the
    /// state is left as it was.
    pub fn apply(&mut self, op: Operation) -> (r: Result<(), AggregationError>)
        requires
            op.outputs@.len() <= 0x1_0000,
        ensures
            match r {
                Ok(()) => apply_error(old(self)@, op) is None && final(self)@ == applied(
                    old(self)@,
                    op,
                ),
                Err(e) => apply_error(old(self)@, op) == Some(e) && *final(self) == *old(self),
            },
    {
        if !check_inputs_distinct(&op) {
            return Err(AggregationError::DuplicateInput);
        }
        let ni = op.inputs.len();
        let mut i: usize = 0;
        while i < ni
            invariant
                i <= ni,
                ni == op.inputs@.len(),
                inputs_distinct(op),
                *self == *old(self),
                forall|a: int| 0 <= a < i ==> self@.contains_key(key(op.inputs@[a])),
            decreases ni - i,
        {
            if !self.is_live(&op.inputs[i]) {
                assert(!inputs_live(self@, op));
                return Err(AggregationError::InputNotLive);
            }
            i = i + 1;
        }
        if self.has_outputs_of(&op.id) {
            return Err(AggregationError::OpIdReused);
        }
        let ghost m = self@;
        let ghost c = consumed(op);
        let ghost orig = self.outputs@;
        let n = self.outputs.len();
        let mut kept: Vec<OutputAssignment> = Vec::new();
        let mut j: usize = 0;
        while j < n
            invariant
                j <= n,
                n == orig.len(),
                m == to_map(orig),
                c == consumed(op),
                self.outputs@ == orig.skip(j as int),
                to_map(kept@) == to_map(orig.take(j as int)).remove_keys(c),
            decreases n - j,
        {
            let ghost pre = orig.take(j as int);
            assert(orig.take(j + 1).drop_last() =~= pre);
            let x = self.outputs.remove(0);
            assert(x == orig[j as int]);
            assert(self.outputs@ =~= orig.skip(j + 1));
            if !spends(&op, &x.opout) {
                let ghost before = kept@;
                kept.push(x);
                assert(kept@.drop_last() =~= before);
                assert(to_map(kept@) =~= to_map(orig.take(j + 1)).remove_keys(c));
            } else {
                assert(to_map(kept@) =~= to_map(orig.take(j + 1)).remove_keys(c));
            }
            j = j + 1;
        }
        assert(orig.take(n as int) =~= orig);
        let ghost removed = m.remove_keys(c);
        let ghost op0 = op;
        let id = op.id;
        let mut outs = op.outputs;
        let total = outs.len();
        let mut k: usize = 0;
        while k < total
            invariant
                k <= total,
                total == op0.outputs@.len(),
                total <= 0x1_0000,
                id == op0.id,
                outs@ == op0.outputs@.skip(k as int),
                to_map(kept@) == removed.union_prefer_right(
                    produced(op0).restrict(
                        Set::new(|q: (Seq<u8>, u16)| (q.1 as int) < k),
                    ),
                ),
            decreases total - k,
        {
            let st = outs.remove(0);
            let ghost before = kept@;
            kept.push(OutputAssignment { opout: Opout { op: id, no: k as u16 }, state: st });
            assert(kept@.drop_last() =~= before);
            assert(outs@ =~= op0.outputs@.skip(k + 1));
            k = k + 1;
            assert(to_map(kept@) =~= removed.union_prefer_right(
                produced(op0).restrict(Set::new(|q: (Seq<u8>, u16)| (q.1 as int) < k)),
            ));
        }
        assert(produced(op0).restrict(Set::new(|q: (Seq<u8>, u16)| (q.1 as int) < total))
            =~= produced(op0));
        self.outputs = kept;
        Ok(())
    }
}

/// Single use of outputs: once an operation that spends an output has been
/// folded into a state, any further operation that names that output again
/// is refused.
pub proof fn lemma_single_use(
    m: Map<(Seq<u8>, u16), Revealed>,
    first: Operation,
    second: Operation,
    o: Opout,
)
    requires
        apply_error(m, first) is None,
        consumed(first).contains(key(o)),
        consumed(second).contains(key(o)),
    ensures
        apply_error(applied(m, first), second) is Some,
{
    let i = choose|i: int| 0 <= i < first.inputs@.len() && key(first.inputs@[i]) == key(o);
    assert(m.contains_key(key(first.inputs@[i])));
    assert(!produced(first).contains_key(key(o)));
    assert(!applied(m, first).contains_key(key(o)));
    let j = choose|j: int| 0 <= j < second.inputs@.len() && key(second.inputs@[j]) == key(o);
    assert(!applied(m, first).contains_key(key(second.inputs@[j])));
}

/// Independent operations commute: two operations that each fold into a
/// state, spend different outputs and carry different identifiers fold in
/// either order, and both orders give the same state.
pub proof fn lemma_fold_order_independent(
    m: Map<(Seq<u8>, u16), Revealed>,
    a: Operation,
    b: Operation,
)
    requires
        apply_error(m, a) is None,
        apply_error(m, b) is None,
        a.id.bytes@ != b.id.bytes@,
        consumed(a).disjoint(consumed(b)),
    ensures
        apply_error(applied(m, a), b) is None,
        apply_error(applied(m, b), a) is None,
        applied(applied(m, a), b) == applied(applied(m, b), a),
{
    assert forall|i: int| 0 <= i < b.inputs@.len() implies applied(m, a).contains_key(
        key(b.inputs@[i]),
    ) by {
        assert(consumed(b).contains(key(b.inputs@[i])));
        assert(m.contains_key(key(b.inputs@[i])));
    }
    assert forall|i: int| 0 <= i < a.inputs@.len() implies applied(m, b).contains_key(
        key(a.inputs@[i]),
    ) by {
        assert(consumed(a).contains(key(a.inputs@[i])));
        assert(m.contains_key(key(a.inputs@[i])));
    }
    assert(applied(applied(m, a), b) =~= applied(applied(m, b), a));
}

} // verus!
