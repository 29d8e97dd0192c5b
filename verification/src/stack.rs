//! The environment stack: a sequence of frames, innermost last, each a list
//! of named bindings. Lookup searches innermost to outermost; within a frame
//! a later binding shadows an earlier one of the same name, so defining a
//! name simply appends to the innermost frame.

use vstd::prelude::*;
use crate::value::{Frame, Value, Var, frame_wf, value_wf, var_wf};

verus! {

pub struct Stack {
    pub frames: Vec<Frame>,
}

impl View for Stack {
    type V = Seq<Seq<(String, Var)>>;

    open spec fn view(&self) -> Self::V {
        self.frames@.map_values(|f: Frame| f@)
    }
}

/// The binding a name resolves to within one frame: the latest entry wins.
pub open spec fn frame_lookup(f: Seq<(String, Var)>, name: Seq<char>) -> Option<Var>
    decreases f.len(),
{
    if f.len() == 0 {
        None
    } else if f.last().0@ == name {
        Some(f.last().1)
    } else {
        frame_lookup(f.drop_last(), name)
    }
}

/// The binding a name resolves to: the innermost frame that knows it wins.
pub open spec fn stack_lookup(fs: Seq<Seq<(String, Var)>>, name: Seq<char>) -> Option<Var>
    decreases fs.len(),
{
    if fs.len() == 0 {
        None
    } else {
        match frame_lookup(fs.last(), name) {
            Some(v) => Some(v),
            None => stack_lookup(fs.drop_last(), name),
        }
    }
}

pub open spec fn stack_wf(fs: Seq<Seq<(String, Var)>>, nv: nat, nd: nat, ne: nat) -> bool {
    forall|i: int| 0 <= i < fs.len() ==> frame_wf(#[trigger] fs[i], nv, nd, ne)
}

/// Updating the entry that wins the lookup for `name` redirects that lookup
/// to the new binding and leaves every other name alone.
proof fn lemma_frame_update_lookup(f: Seq<(String, Var)>, ei: int, var: Var, name: Seq<char>)
    requires
        0 <= ei < f.len(),
        f[ei].0@ == name,
        forall|j: int| ei < j < f.len() ==> #[trigger] f[j].0@ != name,
    ensures
        frame_lookup(f.update(ei, (f[ei].0, var)), name) == Some(var),
        forall|other: Seq<char>| other != name ==> frame_lookup(f.update(ei, (f[ei].0, var)), other)
            == frame_lookup(f, other),
    decreases f.len(),
{
    let f2 = f.update(ei, (f[ei].0, var));
    assert(f2.len() == f.len());
    if ei == f.len() - 1 {
        assert(f2.last() == (f[ei].0, var));
        assert(f2.drop_last() =~= f.drop_last());
    } else {
        assert(f2.last() == f.last());
        assert(f2.drop_last() =~= f.drop_last().update(ei, (f[ei].0, var)));
        lemma_frame_update_lookup(f.drop_last(), ei, var, name);
        assert(frame_lookup(f2, name) == Some(var));
        assert forall|other: Seq<char>| other != name implies frame_lookup(f2, other)
            == frame_lookup(f, other) by {
            if f.last().0@ == other {
            } else {
                assert(frame_lookup(f2, other) == frame_lookup(f2.drop_last(), other));
                assert(frame_lookup(f, other) == frame_lookup(f.drop_last(), other));
            }
        }
    }
}

/// The same fact one level up: updating the winning frame in the winning way
/// redirects the stack lookup for `name` and leaves other names alone.
proof fn lemma_stack_update_lookup(
    fs: Seq<Seq<(String, Var)>>,
    fi: int,
    f2: Seq<(String, Var)>,
    var: Var,
    name: Seq<char>,
)
    requires
        0 <= fi < fs.len(),
        frame_lookup(f2, name) == Some(var),
        forall|other: Seq<char>| other != name ==> frame_lookup(f2, other) == frame_lookup(
            fs[fi],
            other,
        ),
        forall|j: int| fi < j < fs.len() ==> frame_lookup(#[trigger] fs[j], name) is None,
    ensures
        stack_lookup(fs.update(fi, f2), name) == Some(var),
        forall|other: Seq<char>| other != name ==> stack_lookup(fs.update(fi, f2), other)
            == stack_lookup(fs, other),
    decreases fs.len(),
{
    let fs2 = fs.update(fi, f2);
    if fi == fs.len() - 1 {
        assert(fs2.last() == f2);
        assert(fs2.drop_last() =~= fs.drop_last());
    } else {
        assert(fs2.last() == fs.last());
        assert(fs2.drop_last() =~= fs.drop_last().update(fi, f2));
        lemma_stack_update_lookup(fs.drop_last(), fi, f2, var, name);
        assert(frame_lookup(fs[fs.len() - 1], name) is None);
        assert(stack_lookup(fs2, name) == Some(var));
        assert forall|other: Seq<char>| other != name implies stack_lookup(fs2, other)
            == stack_lookup(fs, other) by {
            if frame_lookup(fs.last(), other) is Some {
            } else {
                assert(stack_lookup(fs2, other) == stack_lookup(fs2.drop_last(), other));
                assert(stack_lookup(fs, other) == stack_lookup(fs.drop_last(), other));
            }
        }
    }
}

impl Stack {
    pub fn new() -> (r: Stack)
        ensures
            r@.len() == 1,
            r@[0].len() == 0,
    {
        let mut frames: Vec<Frame> = Vec::new();
        frames.push(Vec::new());
        Stack { frames }
    }

    /// Enter a lexical scope.
    pub fn push(&mut self)
        ensures
            final(self)@ == old(self)@.push(Seq::empty()),
    {
        self.frames.push(Vec::new());
        proof {
            assert(self@ =~= old(self)@.push(Seq::empty()));
        }
    }

    /// Leave the innermost scope, discarding its bindings.
    pub fn pop(&mut self)
        requires
            old(self)@.len() > 0,
        ensures
            final(self)@ == old(self)@.drop_last(),
    {
        self.frames.pop();
        proof {
            assert(self@ =~= old(self)@.drop_last());
        }
    }

    /// Introduce a binding in the innermost frame, shadowing any same-named
    /// binding of this or an outer frame.
    pub fn def(&mut self, name: String, var: Var)
        requires
            old(self)@.len() > 0,
        ensures
            final(self)@ == old(self)@.update(
                old(self)@.len() - 1,
                old(self)@.last().push((name, var)),
            ),
            stack_lookup(final(self)@, name@) == Some(var),
            forall|other: Seq<char>| other != name@ ==> stack_lookup(final(self)@, other)
                == stack_lookup(old(self)@, other),
    {
        let n = self.frames.len();
        let fr = &mut self.frames[n - 1];
        fr.push((name, var));
        proof {
            let fs = old(self)@;
            let top2 = fs.last().push((name, var));
            assert(self@ =~= fs.update(fs.len() - 1, top2));
            assert(top2.last() == (name, var));
            assert(top2.drop_last() =~= fs.last());
            assert(self@.drop_last() =~= fs.drop_last());
        }
    }

    /// Find the position of the visible binding for `name`, if any: its frame
    /// and entry index, with nothing shadowing it further in.
    fn find(&self, name: &String) -> (r: Option<(usize, usize)>)
        ensures
            match r {
                Some((fi, ei)) => {
                    &&& fi < self@.len()
                    &&& ei < self@[fi as int].len()
                    &&& self@[fi as int][ei as int].0@ == name@
                    &&& stack_lookup(self@, name@) == Some(self@[fi as int][ei as int].1)
                    &&& forall|j: int| ei < j < self@[fi as int].len()
                        ==> #[trigger] self@[fi as int][j].0@ != name@
                    &&& forall|j: int| fi < j < self@.len()
                        ==> frame_lookup(#[trigger] self@[j], name@) is None
                },
                None => stack_lookup(self@, name@) is None,
            },
    {
        let ghost fs = self@;
        proof {
            assert(fs.take(fs.len() as int) =~= fs);
        }
        let mut fi = self.frames.len();
        while fi > 0
            invariant
                fi <= fs.len(),
                fs == self@,
                stack_lookup(fs.take(fi as int), name@) == stack_lookup(fs, name@),
                forall|j: int| fi <= j < fs.len() ==> frame_lookup(#[trigger] fs[j], name@) is None,
            decreases fi,
        {
            fi = fi - 1;
            let ghost f = fs[fi as int];
            proof {
                assert(f.take(f.len() as int) =~= f);
            }
            let mut ei = self.frames[fi].len();
            while ei > 0
                invariant
                    fi < fs.len(),
                    fs == self@,
                    f == fs[fi as int],
                    ei <= f.len(),
                    frame_lookup(f.take(ei as int), name@) == frame_lookup(f, name@),
                    forall|j: int| ei <= j < f.len() ==> #[trigger] f[j].0@ != name@,
                    stack_lookup(fs.take(fi + 1), name@) == stack_lookup(fs, name@),
                    forall|j: int| fi < j < fs.len() ==> frame_lookup(#[trigger] fs[j], name@) is None,
                decreases ei,
            {
                ei = ei - 1;
                proof {
                    assert(f.take(ei + 1).last() == f[ei as int]);
                    assert(f.take(ei + 1).drop_last() =~= f.take(ei as int));
                }
                if self.frames[fi][ei].0 == *name {
                    proof {
                        assert(frame_lookup(f.take(ei + 1), name@) == Some(f[ei as int].1));
                        assert(frame_lookup(f, name@) == Some(f[ei as int].1));
                        assert(fs.take(fi + 1).last() == f);
                        assert(fs.take(fi + 1).drop_last() =~= fs.take(fi as int));
                        assert(stack_lookup(fs.take(fi + 1), name@) == Some(f[ei as int].1));
                        assert(stack_lookup(fs, name@) == Some(f[ei as int].1));
                    }
                    return Some((fi, ei));
                }
            }
            proof {
                assert(f.take(0) =~= Seq::<(String, Var)>::empty());
                assert(frame_lookup(f, name@) is None);
                assert(fs.take(fi + 1).last() == f);
                assert(fs.take(fi + 1).drop_last() =~= fs.take(fi as int));
            }
        }
        proof {
            assert(fs.take(0) =~= Seq::<Seq<(String, Var)>>::empty());
        }
        None
    }

    /// The binding `name` resolves to, copied out; `None` if it is unbound in
    /// every frame.
    pub fn get(&self, name: &String) -> (r: Option<Var>)
        ensures
            r == stack_lookup(self@, name@),
    {
        match self.find(name) {
            Some((fi, ei)) => Some(crate::value::clone_var(&self.frames[fi][ei].1)),
            None => None,
        }
    }

    /// Overwrite the value of the visible binding for `name`, keeping its
    /// export flag. Returns false, changing nothing, if the name is unbound.
    pub fn assign(&mut self, name: &String, val: Value) -> (found: bool)
        ensures
            found == (stack_lookup(old(self)@, name@) is Some),
            !found ==> *final(self) == *old(self),
            found ==> {
                &&& final(self)@.len() == old(self)@.len()
                &&& stack_lookup(final(self)@, name@) matches Some(v2)
                    && v2.val == val
                    && v2.is_exp == stack_lookup(old(self)@, name@)->0.is_exp
                &&& forall|other: Seq<char>| other != name@ ==> stack_lookup(final(self)@, other)
                    == stack_lookup(old(self)@, other)
                &&& forall|nv: nat, nd: nat, ne: nat|
                    stack_wf(old(self)@, nv, nd, ne) && value_wf(val, nv, nd, ne)
                        ==> stack_wf(final(self)@, nv, nd, ne)
                &&& frame_lookup(old(self)@.last(), name@) is Some ==> forall|j: int|
                    0 <= j < old(self)@.len() - 1 ==> final(self)@[j] == old(self)@[j]
            },
    {
        match self.find(name) {
            Some((fi, ei)) => {
                let ghost fs = self@;
                let ghost oldf = fs[fi as int];
                let ghost oldvar = oldf[ei as int].1;
                let is_exp = self.frames[fi][ei].1.is_exp;
                let stored_name = self.frames[fi][ei].0.clone();
                let fr = &mut self.frames[fi];
                let var2 = Var { val, is_exp };
                fr[ei] = (stored_name, var2);
                proof {
                    assert(self@ =~= fs.update(fi as int, oldf.update(ei as int, (oldf[ei as int].0, var2))));
                    lemma_frame_update_lookup(oldf, ei as int, var2, name@);
                    lemma_stack_update_lookup(
                        fs,
                        fi as int,
                        oldf.update(ei as int, (oldf[ei as int].0, var2)),
                        var2,
                        name@,
                    );
                    let f2 = oldf.update(ei as int, (oldf[ei as int].0, var2));
                    assert forall|nv: nat, nd: nat, ne: nat|
                        stack_wf(fs, nv, nd, ne) && value_wf(val, nv, nd, ne) implies stack_wf(
                        self@,
                        nv,
                        nd,
                        ne,
                    ) by {
                        assert forall|j: int| 0 <= j < self@.len() implies frame_wf(
                            #[trigger] self@[j],
                            nv,
                            nd,
                            ne,
                        ) by {
                            assert(frame_wf(fs[j], nv, nd, ne));
                            if j == fi {
                                assert forall|k: int| 0 <= k < f2.len() implies var_wf(
                                    #[trigger] f2[k].1,
                                    nv,
                                    nd,
                                    ne,
                                ) by {
                                    if k != ei {
                                        assert(f2[k] == fs[j][k]);
                                    }
                                }
                                assert(self@[j] == f2);
                            } else {
                                assert(self@[j] == fs[j]);
                            }
                        }
                    }
                    if frame_lookup(fs.last(), name@) is Some {
                        assert(fi == fs.len() - 1);
                    }
                }
                true
            },
            None => false,
        }
    }
}

} // verus!
