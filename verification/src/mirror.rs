//! The consumer's side of the protocol: a mirror of the sequence, kept
//! consistent with the engine's authoritative array by applying received
//! operations in arrival order. The replay model here is what the trace
//! conservation law in [`crate::laws`] is stated over.

use vstd::prelude::*;
use crate::model::{Element, Operation, TimedOp};

verus! {

/// What one received operation does to a mirror: `Overwrite` replaces the
/// element, `SetPhase` changes only the presentation state, `Compare` is a
/// transient highlight that mutates nothing. An index beyond the mirror is
/// ignored; the engine never emits one.
pub open spec fn apply_op_spec(s: Seq<Element>, op: Operation) -> Seq<Element> {
    match op {
        Operation::SetPhase(i, ph) => if (i as int) < s.len() {
            s.update(i as int, Element { value: s[i as int].value, phase: ph })
        } else {
            s
        },
        Operation::Compare(_, _) => s,
        Operation::Overwrite(i, e) => if (i as int) < s.len() {
            s.update(i as int, e)
        } else {
            s
        },
    }
}

/// A whole trace applied to a mirror, first operation first.
pub open spec fn replay(s: Seq<Element>, t: Seq<TimedOp>) -> Seq<Element>
    decreases t.len(),
{
    if t.len() == 0 {
        s
    } else {
        replay(apply_op_spec(s, t[0].op), t.drop_first())
    }
}

/// Apply one received operation to the mirror, exactly as
/// [`apply_op_spec`] prescribes.
pub fn apply_operation(mirror: &mut Vec<Element>, op: &Operation)
    ensures
        final(mirror)@ == apply_op_spec(old(mirror)@, *op),
{
    match *op {
        Operation::SetPhase(i, ph) => {
            if i < mirror.len() {
                let value = mirror[i].value;
                mirror.set(i, Element { value, phase: ph });
            }
        },
        Operation::Compare(_, _) => {},
        Operation::Overwrite(i, e) => {
            if i < mirror.len() {
                mirror.set(i, e);
            }
        },
    }
}

/// Apply a whole trace in order, exactly as [`replay`] prescribes.
pub fn apply_trace(mirror: &mut Vec<Element>, trace: &Vec<TimedOp>)
    ensures
        final(mirror)@ == replay(old(mirror)@, trace@),
{
    let ghost m0 = mirror@;
    proof {
        assert(trace@.skip(0) =~= trace@);
    }
    let mut i: usize = 0;
    while i < trace.len()
        invariant
            i <= trace@.len(),
            replay(mirror@, trace@.skip(i as int)) == replay(m0, trace@),
        decreases trace@.len() - i,
    {
        let ghost pre = mirror@;
        apply_operation(mirror, &trace[i].op);
        proof {
            let rest = trace@.skip(i as int);
            assert(rest[0] == trace@[i as int]);
            assert(rest.drop_first() =~= trace@.skip(i as int + 1));
            assert(replay(pre, rest) == replay(mirror@, trace@.skip(i as int + 1)));
        }
        i += 1;
    }
    proof {
        assert(trace@.skip(trace@.len() as int) =~= Seq::<TimedOp>::empty());
    }
}

} // verus!
