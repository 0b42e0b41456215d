//! The edits that the settings window makes to the list of breaks.
use crate::ids::{is_v4_uuid, new_uuid};
use crate::models::Break;
use vstd::prelude::*;

verus! {

/// `b` with its id replaced.
pub open spec fn with_id(b: Break, id: u128) -> Break {
    Break { id: id, ..b }
}

/// Appends `new_break` under the id `id` and returns a copy of what was
/// stored.
pub fn add_break(breaks: &mut Vec<Break>, new_break: Break, id: u128) -> (r: Break)
    ensures
        final(breaks)@ == old(breaks)@.push(with_id(new_break, id)),
        r.same_as(with_id(new_break, id)),
{
    let mut new_break = new_break;
    new_break.id = id;
    let r = new_break.duplicate();
    breaks.push(new_break);
    r
}

/// Appends `new_break` under a freshly generated random id, as the "create"
/// command does, and returns a copy of what was stored.
pub fn create_break(breaks: &mut Vec<Break>, new_break: Break) -> (r: Break)
    ensures
        is_v4_uuid(r.id),
        final(breaks)@ == old(breaks)@.push(with_id(new_break, r.id)),
        r.same_as(with_id(new_break, r.id)),
{
    let id = new_uuid();
    add_break(breaks, new_break, id)
}

/// The position of the first break with id `id`, if any.
pub open spec fn first_index(breaks: Seq<Break>, id: u128) -> Option<int> {
    if exists|i: int| 0 <= i < breaks.len() && breaks[i].id == id {
        Some(
            choose|i: int|
                0 <= i < breaks.len() && breaks[i].id == id && forall|j: int|
                    0 <= j < i ==> breaks[j].id != id,
        )
    } else {
        None
    }
}

/// Finds the position of the first break with id `id`.
pub fn find_break(breaks: &Vec<Break>, id: u128) -> (r: Option<usize>)
    ensures
        match r {
            Some(i) => i < breaks@.len() && breaks@[i as int].id == id && forall|j: int|
                0 <= j < i ==> breaks@[j].id != id,
            None => forall|j: int| 0 <= j < breaks@.len() ==> breaks@[j].id != id,
        },
        r matches Some(i) ==> first_index(breaks@, id) == Some(i as int),
        r is None <==> first_index(breaks@, id) is None,
{
    let mut i: usize = 0;
    while i < breaks.len()
        invariant
            i <= breaks.len(),
            forall|j: int| 0 <= j < i ==> breaks@[j].id != id,
        decreases breaks.len() - i,
    {
        if breaks[i].id == id {
            proof {
                let k = choose|k: int|
                    0 <= k < breaks@.len() && breaks@[k].id == id && forall|j: int|
                        0 <= j < k ==> breaks@[j].id != id;
                if k < i {
                } else if k > i {
                    assert(breaks@[i as int].id == id);
                }
            }
            return Some(i);
        }
        i = i + 1;
    }
    None
}

/// Replaces the first break that has the id of `updated`, as the "update"
/// command does; `false`, with the list unchanged, when there is none.
pub fn update_break(breaks: &mut Vec<Break>, updated: Break) -> (found: bool)
    ensures
        found == (first_index(old(breaks)@, updated.id) is Some),
        found ==> final(breaks)@ == old(breaks)@.update(
            first_index(old(breaks)@, updated.id)->0,
            updated,
        ),
        !found ==> final(breaks)@ == old(breaks)@,
{
    match find_break(breaks, updated.id) {
        Some(i) => {
            breaks.set(i, updated);
            true
        },
        None => false,
    }
}

/// Removes every break with id `id`, keeping the others in order, as the
/// "delete" command does.
pub fn delete_break(breaks: &mut Vec<Break>, id: u128)
    ensures
        final(breaks)@ == old(breaks)@.filter(|b: Break| b.id != id),
{
    let ghost orig = breaks@;
    let mut rest: Vec<Break> = Vec::new();
    std::mem::swap(breaks, &mut rest);
    let ghost n = orig.len();
    while rest.len() > 0
        invariant
            rest@ == orig.subrange(n - rest@.len(), n as int),
            breaks@ == orig.subrange(0, n - rest@.len()).filter(|x: Break| x.id != id),
            rest@.len() <= n,
            n == orig.len(),
        decreases rest.len(),
    {
        let ghost k = n - rest@.len();
        let b = rest.remove(0);
        proof {
            assert(orig.subrange(0, k + 1).drop_last() == orig.subrange(0, k));
            assert(orig.subrange(0, k + 1).last() == b);
            reveal_with_fuel(Seq::<Break>::filter, 1);
            assert(orig.subrange(0, k + 1).filter(|x: Break| x.id != id) == if b.id != id {
                orig.subrange(0, k).filter(|x: Break| x.id != id).push(b)
            } else {
                orig.subrange(0, k).filter(|x: Break| x.id != id)
            });
            assert(rest@ == orig.subrange(n - rest@.len(), n as int));
        }
        if b.id != id {
            breaks.push(b);
        }
    }
    proof {
        assert(orig.subrange(0, n as int) == orig);
    }
}

} // verus!
