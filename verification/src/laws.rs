//! The library's laws: properties that tie several functions together,
//! stated over the same spec functions the functions' own contracts use.

use vstd::prelude::*;
use crate::interp::{dict_lookup, lemma_flatten_lookup, range_seq};
use crate::stack::{frame_lookup, stack_lookup};
use crate::value::{spec_func_eq, Func, Value, Var};

verus! {

/// Iterating the half-open range `[l, r)` visits exactly `r - l` values,
/// the integers `l, l + 1, ..., r - 1` in ascending order; the range an
/// inclusive bound folds into, `[l, r + 1)`, visits one more and ends at
/// `r` itself.
pub proof fn lemma_range_iteration(l: int, r: int)
    requires
        l <= r,
    ensures
        range_seq(l, r).len() == r - l,
        forall|i: int| 0 <= i < r - l ==> range_seq(l, r)[i] == l + i,
        l < r ==> range_seq(l, r).last() == r - 1,
        range_seq(l, r + 1).len() == r - l + 1,
        range_seq(l, r + 1).last() == r,
{
}

/// Writing index `i` of the vector behind a handle, then reading the same
/// index through any alias of that handle, observes the just-written value;
/// every other slot of that vector, and every other vector in the store, is
/// untouched. Aliases share the handle, so the mutation is visible through
/// all of them.
pub proof fn lemma_vec_set_then_get(vecs: Seq<Seq<Value>>, h: int, i: int, x: Value)
    requires
        0 <= h < vecs.len(),
        0 <= i < vecs[h].len(),
    ensures
        vecs.update(h, vecs[h].update(i, x))[h][i] == x,
        forall|j: int| 0 <= j < vecs[h].len() && j != i ==> vecs.update(h, vecs[h].update(i, x))[h][j]
            == vecs[h][j],
        forall|g: int| 0 <= g < vecs.len() && g != h ==> vecs.update(h, vecs[h].update(i, x))[g]
            == vecs[g],
{
}

/// A key that no entry of a dictionary carries resolves to nothing: the
/// lookup that `MissingKey` reports comes only from such a key.
pub proof fn lemma_dict_missing(entries: Seq<(String, Value)>, key: Seq<char>)
    requires
        forall|i: int| 0 <= i < entries.len() ==> #[trigger] entries[i].0@ != key,
    ensures
        dict_lookup(entries, key) is None,
    decreases entries.len(),
{
    if entries.len() > 0 {
        assert(entries.last() == entries[entries.len() - 1]);
        lemma_dict_missing(entries.drop_last(), key);
    }
}

/// Function equality is name-based for named user functions only: an
/// anonymous user function equals nothing, not even itself, and a native
/// function is never equal to anything in either direction.
pub proof fn lemma_func_equality(a: Func, b: Func)
    ensures
        a matches Func::User { name: None, .. } ==> !spec_func_eq(a, b) && !spec_func_eq(a, a),
        a matches Func::Native { .. } ==> !spec_func_eq(a, b) && !spec_func_eq(b, a),
{
}

/// The flattened snapshot a closure captures resolves every name exactly as
/// the frame chain it was taken from resolved it at capture time: capture is
/// by snapshot, so later rebindings in the captured scopes are not observed
/// through the closure.
pub proof fn lemma_capture_resolves(fs: Seq<Seq<(String, Var)>>, name: Seq<char>)
    ensures
        frame_lookup(fs.flatten_alt(), name) == stack_lookup(fs, name),
{
    lemma_flatten_lookup(fs, name);
}

} // verus!
