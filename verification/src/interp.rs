//! The tree-walking evaluator: the interpreter state, its shared container
//! stores, statement execution and expression evaluation.
//!
//! Shared mutable containers live in stores owned by the interpreter; a
//! `Value::Vec` or `Value::Dict` holds only a handle into them, which is what
//! makes aliasing work: every copy of the value points at the same slot.

use vstd::prelude::*;
use vstd::string::StringExecFns;
use crate::ast::{BinaryOp, Cmd, CmdOp, Expr, Lit, Prog, Stmt, UnaryOp};
use crate::display::{num_to_string, spec_num_str};
use crate::stack::{Stack, stack_lookup, stack_wf, frame_lookup};
use crate::value::{
    clone_value, clone_var, frame_wf, func_wf, spec_func_eq, func_eq, value_wf, var_wf,
    EvalError, Frame, Func, Value, Var,
};

verus! {

/// How many nested containers the display and equality walks will follow
/// before giving up: enough for any value a script builds by hand, and the
/// bound that keeps both walks finite on a cyclic value.
pub const CONTAINER_DEPTH: u64 = 64;

/// The step budget handed to a whole run: it bounds user-function call depth
/// and loop iterations so that every run terminates; it is far beyond any
/// budget a real script could use up.
pub const RUN_FUEL: u64 = 0xffff_ffff_ffff_ffff;

pub open spec fn store_view(v: Vec<Vec<Value>>) -> Seq<Seq<Value>> {
    v@.map_values(|x: Vec<Value>| x@)
}

pub open spec fn dict_store_view(v: Vec<Vec<(String, Value)>>) -> Seq<Seq<(String, Value)>> {
    v@.map_values(|x: Vec<(String, Value)>| x@)
}

pub open spec fn env_store_view(v: Vec<Frame>) -> Seq<Seq<(String, Var)>> {
    v@.map_values(|x: Frame| x@)
}

/// The value a key resolves to in a dictionary's entry list: the latest entry
/// wins; well-formedness (`Interpreter::wf`) keeps the keys unique.
pub open spec fn dict_lookup(entries: Seq<(String, Value)>, key: Seq<char>) -> Option<Value>
    decreases entries.len(),
{
    if entries.len() == 0 {
        None
    } else if entries.last().0@ == key {
        Some(entries.last().1)
    } else {
        dict_lookup(entries.drop_last(), key)
    }
}

pub open spec fn vals_wf(s: Seq<Value>, nv: nat, nd: nat, ne: nat) -> bool {
    forall|i: int| 0 <= i < s.len() ==> value_wf(#[trigger] s[i], nv, nd, ne)
}

pub open spec fn dict_entries_wf(s: Seq<(String, Value)>, nv: nat, nd: nat, ne: nat) -> bool {
    forall|i: int| 0 <= i < s.len() ==> value_wf(#[trigger] s[i].1, nv, nd, ne)
}

/// No two entries of a dictionary carry the same key: what makes one-sided
/// containment with equal lengths dictionary equality.
pub open spec fn dict_keys_unique(s: Seq<(String, Value)>) -> bool {
    forall|i: int, j: int| 0 <= i < j < s.len() ==> (#[trigger] s[i]).0@ != (#[trigger] s[j]).0@
}

/// A key that resolves to nothing stands in no entry at all.
pub proof fn lemma_dict_lookup_none(entries: Seq<(String, Value)>, key: Seq<char>)
    requires
        dict_lookup(entries, key) is None,
    ensures
        forall|i: int| 0 <= i < entries.len() ==> (#[trigger] entries[i]).0@ != key,
    decreases entries.len(),
{
    if entries.len() > 0 {
        lemma_dict_lookup_none(entries.drop_last(), key);
        assert forall|i: int| 0 <= i < entries.len() implies (#[trigger] entries[i]).0@ != key by {
            if i < entries.len() - 1 {
                assert(entries.drop_last()[i] == entries[i]);
            } else {
                assert(entries[i] == entries.last());
            }
        }
    }
}

/// An executable command: the command tree with every word already evaluated
/// to plain text. This is what the process launcher receives.
pub enum RunCmd {
    Atom(Vec<String>),
    Op(Box<RunCmd>, CmdOp, Box<RunCmd>),
}

/// The operators of a command tree, in order.
pub open spec fn cmd_ops(c: Cmd) -> Seq<CmdOp>
    decreases c,
{
    match c {
        Cmd::Atom(_) => Seq::empty(),
        Cmd::Op(l, op, r) => cmd_ops(*l) + seq![op] + cmd_ops(*r),
    }
}

/// The operators of an executable command, in order.
pub open spec fn run_cmd_ops(c: RunCmd) -> Seq<CmdOp>
    decreases c,
{
    match c {
        RunCmd::Atom(_) => Seq::empty(),
        RunCmd::Op(l, op, r) => run_cmd_ops(*l) + seq![op] + run_cmd_ops(*r),
    }
}

/// The process launcher: the capability that turns executable command trees
/// into subprocesses, and the sink for uncaptured `print` output. The
/// interpreter promises nothing about what the launcher does; whatever comes
/// back, evaluation goes on deterministically from it.
pub trait Launcher {
    /// Run a command wired to the current process's own standard streams.
    fn run_pipe(&mut self, cmd: &RunCmd, env: &Vec<(String, String)>) -> Result<(), String>;

    /// Run a command with the given environment and hand back its combined
    /// captured output.
    fn run_capture(&mut self, cmd: &RunCmd, env: &Vec<(String, String)>) -> Result<String, String>;

    /// Write one line of `print` output.
    fn print_line(&mut self, line: &str);
}

pub struct Interpreter {
    pub stack: Stack,
    /// The capture buffer: when present, command output and `print` output
    /// are appended here instead of reaching the process's own streams.
    pub collector: Option<String>,
    /// The store of shared vectors.
    pub vecs: Vec<Vec<Value>>,
    /// The store of shared dictionaries.
    pub dicts: Vec<Vec<(String, Value)>>,
    /// The store of captured environments: one flattened frame per closure.
    pub envs: Vec<Frame>,
}

impl Interpreter {
    pub open spec fn nv(&self) -> nat {
        self.vecs@.len()
    }

    pub open spec fn nd(&self) -> nat {
        self.dicts@.len()
    }

    pub open spec fn ne(&self) -> nat {
        self.envs@.len()
    }

    /// Every handle reachable from the stack or from a store slot points
    /// inside the stores, and at least one scope frame is open.
    pub open spec fn wf(&self) -> bool {
        &&& self.stack@.len() > 0
        &&& stack_wf(self.stack@, self.nv(), self.nd(), self.ne())
        &&& forall|i: int| 0 <= i < self.nv() ==> vals_wf(
            #[trigger] store_view(self.vecs)[i],
            self.nv(),
            self.nd(),
            self.ne(),
        )
        &&& forall|i: int| 0 <= i < self.nd() ==> dict_entries_wf(
            #[trigger] dict_store_view(self.dicts)[i],
            self.nv(),
            self.nd(),
            self.ne(),
        )
        &&& forall|i: int| 0 <= i < self.nd() ==> dict_keys_unique(
            #[trigger] dict_store_view(self.dicts)[i],
        )
        &&& forall|i: int| 0 <= i < self.ne() ==> frame_wf(
            #[trigger] env_store_view(self.envs)[i],
            self.nv(),
            self.nd(),
            self.ne(),
        )
    }

    /// What one evaluation step may do to the interpreter besides its stated
    /// effect: stores only grow, the scope depth is restored, and capture
    /// mode is neither entered nor left.
    pub open spec fn evolves_to(&self, post: Interpreter) -> bool {
        &&& post.stack@.len() == self.stack@.len()
        &&& self.nv() <= post.nv()
        &&& self.nd() <= post.nd()
        &&& self.ne() <= post.ne()
        &&& (post.collector is Some <==> self.collector is Some)
    }
}

pub proof fn lemma_vals_wf_mono(s: Seq<Value>, nv1: nat, nd1: nat, ne1: nat, nv2: nat, nd2: nat, ne2: nat)
    requires
        vals_wf(s, nv1, nd1, ne1),
        nv1 <= nv2,
        nd1 <= nd2,
        ne1 <= ne2,
    ensures
        vals_wf(s, nv2, nd2, ne2),
{
    assert forall|i: int| 0 <= i < s.len() implies value_wf(#[trigger] s[i], nv2, nd2, ne2) by {
        crate::value::lemma_value_wf_mono(s[i], nv1, nd1, ne1, nv2, nd2, ne2);
    }
}

pub proof fn lemma_dict_entries_wf_mono(
    s: Seq<(String, Value)>,
    nv1: nat, nd1: nat, ne1: nat,
    nv2: nat, nd2: nat, ne2: nat,
)
    requires
        dict_entries_wf(s, nv1, nd1, ne1),
        nv1 <= nv2,
        nd1 <= nd2,
        ne1 <= ne2,
    ensures
        dict_entries_wf(s, nv2, nd2, ne2),
{
    assert forall|i: int| 0 <= i < s.len() implies value_wf(#[trigger] s[i].1, nv2, nd2, ne2) by {
        crate::value::lemma_value_wf_mono(s[i].1, nv1, nd1, ne1, nv2, nd2, ne2);
    }
}

pub proof fn lemma_frame_wf_mono(
    s: Seq<(String, Var)>,
    nv1: nat, nd1: nat, ne1: nat,
    nv2: nat, nd2: nat, ne2: nat,
)
    requires
        frame_wf(s, nv1, nd1, ne1),
        nv1 <= nv2,
        nd1 <= nd2,
        ne1 <= ne2,
    ensures
        frame_wf(s, nv2, nd2, ne2),
{
    assert forall|i: int| 0 <= i < s.len() implies var_wf(#[trigger] s[i].1, nv2, nd2, ne2) by {
        crate::value::lemma_value_wf_mono(s[i].1.val, nv1, nd1, ne1, nv2, nd2, ne2);
    }
}

/// Growing a store by one well-formed slot keeps the whole state well formed.
proof fn lemma_wf_grow(pre: Interpreter, post: Interpreter)
    requires
        pre.wf(),
        post.stack == pre.stack,
        pre.nv() <= post.nv(),
        pre.nd() <= post.nd(),
        pre.ne() <= post.ne(),
        forall|i: int| 0 <= i < pre.nv() ==> store_view(post.vecs)[i] == store_view(pre.vecs)[i],
        forall|i: int| 0 <= i < pre.nd() ==> dict_store_view(post.dicts)[i] == dict_store_view(
            pre.dicts,
        )[i],
        forall|i: int| 0 <= i < pre.ne() ==> env_store_view(post.envs)[i] == env_store_view(
            pre.envs,
        )[i],
        forall|i: int| pre.nv() <= i < post.nv() ==> vals_wf(
            #[trigger] store_view(post.vecs)[i],
            post.nv(),
            post.nd(),
            post.ne(),
        ),
        forall|i: int| pre.nd() <= i < post.nd() ==> dict_entries_wf(
            #[trigger] dict_store_view(post.dicts)[i],
            post.nv(),
            post.nd(),
            post.ne(),
        ),
        forall|i: int| pre.nd() <= i < post.nd() ==> dict_keys_unique(
            #[trigger] dict_store_view(post.dicts)[i],
        ),
        forall|i: int| pre.ne() <= i < post.ne() ==> frame_wf(
            #[trigger] env_store_view(post.envs)[i],
            post.nv(),
            post.nd(),
            post.ne(),
        ),
    ensures
        post.wf(),
{
    assert forall|i: int| 0 <= i < post.stack@.len() implies frame_wf(
        #[trigger] post.stack@[i],
        post.nv(),
        post.nd(),
        post.ne(),
    ) by {
        lemma_frame_wf_mono(
            pre.stack@[i], pre.nv(), pre.nd(), pre.ne(), post.nv(), post.nd(), post.ne(),
        );
    }
    assert forall|i: int| 0 <= i < post.nv() implies vals_wf(
        #[trigger] store_view(post.vecs)[i],
        post.nv(),
        post.nd(),
        post.ne(),
    ) by {
        if i < pre.nv() {
            lemma_vals_wf_mono(
                store_view(pre.vecs)[i], pre.nv(), pre.nd(), pre.ne(), post.nv(), post.nd(), post.ne(),
            );
        }
    }
    assert forall|i: int| 0 <= i < post.nd() implies dict_entries_wf(
        #[trigger] dict_store_view(post.dicts)[i],
        post.nv(),
        post.nd(),
        post.ne(),
    ) by {
        if i < pre.nd() {
            lemma_dict_entries_wf_mono(
                dict_store_view(pre.dicts)[i], pre.nv(), pre.nd(), pre.ne(), post.nv(), post.nd(), post.ne(),
            );
        }
    }
    assert forall|i: int| 0 <= i < post.ne() implies frame_wf(
        #[trigger] env_store_view(post.envs)[i],
        post.nv(),
        post.nd(),
        post.ne(),
    ) by {
        if i < pre.ne() {
            lemma_frame_wf_mono(
                env_store_view(pre.envs)[i], pre.nv(), pre.nd(), pre.ne(), post.nv(), post.nd(), post.ne(),
            );
        }
    }
    assert forall|i: int| 0 <= i < post.nd() implies dict_keys_unique(
        #[trigger] dict_store_view(post.dicts)[i],
    ) by {
        if i < pre.nd() {
            assert(dict_store_view(post.dicts)[i] == dict_store_view(pre.dicts)[i]);
            assert(dict_keys_unique(dict_store_view(pre.dicts)[i]));
        }
    }
}

impl Interpreter {
    /// Allocate a fresh shared vector; its handle is the store's old size.
    pub fn new_vec(&mut self, elems: Vec<Value>) -> (h: usize)
        requires
            old(self).wf(),
            vals_wf(elems@, old(self).nv(), old(self).nd(), old(self).ne()),
        ensures
            final(self).wf(),
            h == old(self).nv(),
            final(self).nv() == old(self).nv() + 1,
            store_view(final(self).vecs) == store_view(old(self).vecs).push(elems@),
            final(self).stack == old(self).stack,
            final(self).collector == old(self).collector,
            final(self).dicts == old(self).dicts,
            final(self).envs == old(self).envs,
    {
        let ghost pre = *self;
        let h = self.vecs.len();
        self.vecs.push(elems);
        proof {
            assert(store_view(self.vecs) =~= store_view(pre.vecs).push(elems@));
            lemma_vals_wf_mono(elems@, pre.nv(), pre.nd(), pre.ne(), self.nv(), self.nd(), self.ne());
            lemma_wf_grow(pre, *self);
        }
        h
    }

    /// Allocate a fresh shared dictionary from an entry list whose keys need
    /// not be unique yet: a later entry overwrites an earlier one.
    pub fn new_dict(&mut self, entries: Vec<(String, Value)>) -> (h: usize)
        requires
            old(self).wf(),
            dict_entries_wf(entries@, old(self).nv(), old(self).nd(), old(self).ne()),
        ensures
            final(self).wf(),
            h == old(self).nd(),
            final(self).nd() == old(self).nd() + 1,
            forall|key: Seq<char>| dict_lookup(#[trigger] dict_store_view(final(self).dicts)[h as int], key)
                == dict_lookup(entries@, key),
            forall|i: int| 0 <= i < old(self).nd() ==> dict_store_view(final(self).dicts)[i]
                == dict_store_view(old(self).dicts)[i],
            final(self).stack == old(self).stack,
            final(self).collector == old(self).collector,
            final(self).vecs == old(self).vecs,
            final(self).envs == old(self).envs,
    {
        let ghost pre = *self;
        let h = self.dicts.len();
        let empty: Vec<(String, Value)> = Vec::new();
        self.dicts.push(empty);
        proof {
            assert(dict_store_view(self.dicts) =~= dict_store_view(pre.dicts).push(Seq::empty()));
            assert(dict_entries_wf(Seq::<(String, Value)>::empty(), self.nv(), self.nd(), self.ne()));
            lemma_wf_grow(pre, *self);
        }
        let ghost mid = *self;
        proof {
            lemma_dict_entries_wf_mono(
                entries@, pre.nv(), pre.nd(), pre.ne(), mid.nv(), mid.nd(), mid.ne(),
            );
        }
        let n = entries.len();
        let mut i: usize = 0;
        while i < n
            invariant
                n == entries@.len(),
                i <= n,
                self.wf(),
                h < self.nd(),
                self.nd() == mid.nd(),
                self.nv() == mid.nv(),
                self.ne() == mid.ne(),
                self.stack == mid.stack,
                self.collector == mid.collector,
                self.vecs == mid.vecs,
                self.envs == mid.envs,
                dict_entries_wf(entries@, mid.nv(), mid.nd(), mid.ne()),
                forall|key: Seq<char>| dict_lookup(
                    #[trigger] dict_store_view(self.dicts)[h as int],
                    key,
                ) == dict_lookup(entries@.take(i as int), key),
                forall|j: int| 0 <= j < mid.nd() && j != h ==> dict_store_view(self.dicts)[j]
                    == dict_store_view(mid.dicts)[j],
            decreases n - i,
        {
            let ghost before = *self;
            let (k, v) = {
                let pair = &entries[i];
                (pair.0.clone(), clone_value(&pair.1))
            };
            self.dict_set_entry(h, k, v);
            proof {
                assert forall|key: Seq<char>| dict_lookup(
                    #[trigger] dict_store_view(self.dicts)[h as int],
                    key,
                ) == dict_lookup(entries@.take(i + 1), key) by {
                    assert(entries@.take(i + 1).drop_last() =~= entries@.take(i as int));
                    assert(entries@.take(i + 1).last() == entries@[i as int]);
                    if key == entries@[i as int].0@ {
                    } else {
                        assert(dict_lookup(dict_store_view(before.dicts)[h as int], key)
                            == dict_lookup(entries@.take(i as int), key));
                    }
                }
            }
            i = i + 1;
        }
        proof {
            assert(entries@.take(n as int) =~= entries@);
            assert forall|j: int| 0 <= j < pre.nd() implies dict_store_view(self.dicts)[j]
                == dict_store_view(pre.dicts)[j] by {
                assert(dict_store_view(self.dicts)[j] == dict_store_view(mid.dicts)[j]);
                assert(dict_store_view(mid.dicts)[j] == dict_store_view(pre.dicts)[j]);
            }
        }
        h
    }

    /// Find the winning entry for `key` in dictionary `h`, if any.
    fn dict_find(&self, h: usize, key: &String) -> (r: Option<usize>)
        requires
            h < self.nd(),
        ensures
            match r {
                Some(ei) => {
                    &&& ei < dict_store_view(self.dicts)[h as int].len()
                    &&& dict_store_view(self.dicts)[h as int][ei as int].0@ == key@
                    &&& dict_lookup(dict_store_view(self.dicts)[h as int], key@) == Some(
                        dict_store_view(self.dicts)[h as int][ei as int].1,
                    )
                    &&& forall|j: int| ei < j < dict_store_view(self.dicts)[h as int].len()
                        ==> #[trigger] dict_store_view(self.dicts)[h as int][j].0@ != key@
                },
                None => dict_lookup(dict_store_view(self.dicts)[h as int], key@) is None,
            },
    {
        let ghost f = dict_store_view(self.dicts)[h as int];
        proof {
            assert(f.take(f.len() as int) =~= f);
        }
        let entries = &self.dicts[h];
        let mut ei = entries.len();
        while ei > 0
            invariant
                f == dict_store_view(self.dicts)[h as int],
                h < self.nd(),
                f == entries@,
                ei <= f.len(),
                dict_lookup(f.take(ei as int), key@) == dict_lookup(f, key@),
                forall|j: int| ei <= j < f.len() ==> #[trigger] f[j].0@ != key@,
            decreases ei,
        {
            ei = ei - 1;
            proof {
                assert(f.take(ei + 1).last() == f[ei as int]);
                assert(f.take(ei + 1).drop_last() =~= f.take(ei as int));
            }
            if entries[ei].0 == *key {
                return Some(ei);
            }
        }
        proof {
            assert(f.take(0) =~= Seq::<(String, Value)>::empty());
        }
        None
    }

    /// The value `key` maps to in dictionary `h`: a missing key is an error,
    /// never an implicit `Nil`.
    pub fn dict_get_value(&self, h: usize, key: &String) -> (r: Result<Value, EvalError>)
        requires
            self.wf(),
            h < self.nd(),
        ensures
            match dict_lookup(dict_store_view(self.dicts)[h as int], key@) {
                Some(v) => r == Ok::<Value, EvalError>(v),
                None => r == Err::<Value, EvalError>(EvalError::MissingKey),
            },
            r matches Ok(v) ==> value_wf(v, self.nv(), self.nd(), self.ne()),
    {
        match self.dict_find(h, key) {
            Some(ei) => {
                let v = clone_value(&self.dicts[h][ei].1);
                Ok(v)
            },
            None => Err(EvalError::MissingKey),
        }
    }

    /// Insert or overwrite: the key now maps to `val`; every other key is
    /// untouched, as is everything else in the interpreter.
    pub fn dict_set_entry(&mut self, h: usize, key: String, val: Value)
        requires
            old(self).wf(),
            h < old(self).nd(),
            value_wf(val, old(self).nv(), old(self).nd(), old(self).ne()),
        ensures
            final(self).wf(),
            final(self).nv() == old(self).nv(),
            final(self).nd() == old(self).nd(),
            final(self).ne() == old(self).ne(),
            final(self).stack == old(self).stack,
            final(self).collector == old(self).collector,
            final(self).vecs == old(self).vecs,
            final(self).envs == old(self).envs,
            dict_lookup(dict_store_view(final(self).dicts)[h as int], key@) == Some(val),
            forall|other: Seq<char>| other != key@ ==> dict_lookup(
                #[trigger] dict_store_view(final(self).dicts)[h as int],
                other,
            ) == dict_lookup(dict_store_view(old(self).dicts)[h as int], other),
            forall|j: int| 0 <= j < old(self).nd() && j != h ==> dict_store_view(final(self).dicts)[j]
                == dict_store_view(old(self).dicts)[j],
    {
        let ghost pre = *self;
        let ghost f = dict_store_view(pre.dicts)[h as int];
        match self.dict_find(h, &key) {
            Some(ei) => {
                let stored_key = self.dicts[h][ei].0.clone();
                let entries = &mut self.dicts[h];
                entries[ei] = (stored_key, val);
                proof {
                    assert(dict_store_view(self.dicts) =~= dict_store_view(pre.dicts).update(
                        h as int,
                        f.update(ei as int, (f[ei as int].0, val)),
                    ));
                    lemma_dict_update_lookup(f, ei as int, val, key@);
                    assert forall|i: int| 0 <= i < self.nd() implies dict_keys_unique(
                        #[trigger] dict_store_view(self.dicts)[i],
                    ) by {
                        assert(dict_keys_unique(dict_store_view(pre.dicts)[i]));
                        if i == h {
                            let f2 = dict_store_view(self.dicts)[i];
                            assert forall|a: int, b: int| 0 <= a < b < f2.len() implies (
                            #[trigger] f2[a]).0@ != (#[trigger] f2[b]).0@ by {
                                assert(f2[a].0 == f[a].0);
                                assert(f2[b].0 == f[b].0);
                            }
                        }
                    }
                    assert forall|i: int| 0 <= i < self.nd() implies dict_entries_wf(
                        #[trigger] dict_store_view(self.dicts)[i],
                        self.nv(),
                        self.nd(),
                        self.ne(),
                    ) by {
                        assert(dict_entries_wf(dict_store_view(pre.dicts)[i], pre.nv(), pre.nd(), pre.ne()));
                        if i == h {
                            let f2 = dict_store_view(self.dicts)[i];
                            assert forall|j: int| 0 <= j < f2.len() implies value_wf(
                                #[trigger] f2[j].1,
                                self.nv(),
                                self.nd(),
                                self.ne(),
                            ) by {
                                if j != ei {
                                    assert(f2[j] == f[j]);
                                }
                            }
                        }
                    }
                }
            },
            None => {
                let entries = &mut self.dicts[h];
                entries.push((key, val));
                proof {
                    assert(dict_store_view(self.dicts) =~= dict_store_view(pre.dicts).update(
                        h as int,
                        f.push((key, val)),
                    ));
                    let f2 = f.push((key, val));
                    assert(f2.last().0@ == key@);
                    assert(f2.drop_last() =~= f);
                    lemma_dict_lookup_none(f, key@);
                    assert forall|i: int| 0 <= i < self.nd() implies dict_keys_unique(
                        #[trigger] dict_store_view(self.dicts)[i],
                    ) by {
                        assert(dict_keys_unique(dict_store_view(pre.dicts)[i]));
                        if i == h {
                            assert forall|a: int, b: int| 0 <= a < b < f2.len() implies (
                            #[trigger] f2[a]).0@ != (#[trigger] f2[b]).0@ by {
                                if b < f.len() {
                                    assert(f2[a] == f[a]);
                                    assert(f2[b] == f[b]);
                                } else {
                                    assert(f2[a] == f[a]);
                                    assert(f2[b].0@ == key@);
                                }
                            }
                        }
                    }
                    assert forall|i: int| 0 <= i < self.nd() implies dict_entries_wf(
                        #[trigger] dict_store_view(self.dicts)[i],
                        self.nv(),
                        self.nd(),
                        self.ne(),
                    ) by {
                        assert(dict_entries_wf(dict_store_view(pre.dicts)[i], pre.nv(), pre.nd(), pre.ne()));
                        if i == h {
                            assert forall|j: int| 0 <= j < f2.len() implies value_wf(
                                #[trigger] f2[j].1,
                                self.nv(),
                                self.nd(),
                                self.ne(),
                            ) by {
                                if j < f.len() {
                                    assert(f2[j] == f[j]);
                                }
                            }
                        }
                    }
                }
            },
        }
    }

    /// Read one element of vector `h`: the index must be inside the vector,
    /// else the access is out of bounds.
    pub fn vec_get(&self, h: usize, idx: i64) -> (r: Result<Value, EvalError>)
        requires
            self.wf(),
            h < self.nv(),
        ensures
            0 <= idx < store_view(self.vecs)[h as int].len() ==> r == Ok::<Value, EvalError>(
                store_view(self.vecs)[h as int][idx as int],
            ),
            !(0 <= idx < store_view(self.vecs)[h as int].len()) ==> r == Err::<Value, EvalError>(
                EvalError::IndexOutOfBounds,
            ),
            r matches Ok(v) ==> value_wf(v, self.nv(), self.nd(), self.ne()),
    {
        let v = &self.vecs[h];
        proof {
            assert(v@ == store_view(self.vecs)[h as int]);
        }
        if 0 <= idx && (idx as u64) < (v.len() as u64) {
            let i = idx as usize;
            proof {
                assert(vals_wf(store_view(self.vecs)[h as int], self.nv(), self.nd(), self.ne()));
                assert(value_wf(store_view(self.vecs)[h as int][idx as int], self.nv(), self.nd(), self.ne()));
            }
            Ok(clone_value(&v[i]))
        } else {
            Err(EvalError::IndexOutOfBounds)
        }
    }

    /// Overwrite one element of vector `h` in place: no auto-growth, an index
    /// outside the vector is out of bounds and changes nothing.
    pub fn vec_set(&mut self, h: usize, idx: i64, val: Value) -> (r: Result<(), EvalError>)
        requires
            old(self).wf(),
            h < old(self).nv(),
            value_wf(val, old(self).nv(), old(self).nd(), old(self).ne()),
        ensures
            final(self).wf(),
            final(self).nv() == old(self).nv(),
            final(self).nd() == old(self).nd(),
            final(self).ne() == old(self).ne(),
            final(self).stack == old(self).stack,
            final(self).collector == old(self).collector,
            final(self).dicts == old(self).dicts,
            final(self).envs == old(self).envs,
            0 <= idx < store_view(old(self).vecs)[h as int].len() ==> {
                &&& r == Ok::<(), EvalError>(())
                &&& store_view(final(self).vecs) == store_view(old(self).vecs).update(
                    h as int,
                    store_view(old(self).vecs)[h as int].update(idx as int, val),
                )
            },
            !(0 <= idx < store_view(old(self).vecs)[h as int].len()) ==> {
                &&& r == Err::<(), EvalError>(EvalError::IndexOutOfBounds)
                &&& final(self).vecs == old(self).vecs
            },
    {
        let ghost pre = *self;
        let ghost f = store_view(pre.vecs)[h as int];
        proof {
            assert(f == pre.vecs@[h as int]@);
        }
        let n = self.vecs[h].len();
        if 0 <= idx && (idx as u64) < (n as u64) {
            let i = idx as usize;
            let v = &mut self.vecs[h];
            v[i] = val;
            proof {
                assert(self.vecs@[h as int]@ == f.update(idx as int, val));
                assert(store_view(self.vecs) =~= store_view(pre.vecs).update(
                    h as int,
                    f.update(idx as int, val),
                ));
                assert forall|i: int| 0 <= i < self.nv() implies vals_wf(
                    #[trigger] store_view(self.vecs)[i],
                    self.nv(),
                    self.nd(),
                    self.ne(),
                ) by {
                    assert(vals_wf(store_view(pre.vecs)[i], pre.nv(), pre.nd(), pre.ne()));
                    if i == h {
                        let f2 = store_view(self.vecs)[i];
                        assert forall|j: int| 0 <= j < f2.len() implies value_wf(
                            #[trigger] f2[j],
                            self.nv(),
                            self.nd(),
                            self.ne(),
                        ) by {
                            if j != idx {
                                assert(f2[j] == f[j]);
                            }
                        }
                    }
                }
            }
            Ok(())
        } else {
            Err(EvalError::IndexOutOfBounds)
        }
    }

    /// The sequence a `for` over vector `h` iterates: exactly the vector's
    /// elements, in index order; the loop binds `(Num(i), items[i])` for each
    /// `i` in turn.
    pub fn vec_items(&self, h: usize) -> (items: Vec<Value>)
        requires
            self.wf(),
            h < self.nv(),
        ensures
            items@ == store_view(self.vecs)[h as int],
    {
        let ghost slot = store_view(self.vecs)[h as int];
        proof {
            assert(slot == self.vecs@[h as int]@);
        }
        let mut items: Vec<Value> = Vec::new();
        let n = self.vecs[h].len();
        let mut i: usize = 0;
        while i < n
            invariant
                self.wf(),
                h < self.nv(),
                slot == store_view(self.vecs)[h as int],
                n == slot.len(),
                i <= n,
                items@ == slot.take(i as int),
            decreases n - i,
        {
            items.push(clone_value(&self.vecs[h][i]));
            proof {
                assert(items@ =~= slot.take(i + 1));
            }
            i = i + 1;
        }
        proof {
            assert(slot.take(n as int) =~= slot);
        }
        items
    }

    /// The sequence a `for` over dictionary `h` iterates: exactly its
    /// entries, in the mapping's iteration order; the loop binds
    /// `(String(k), v)` for each entry `(k, v)` in turn.
    pub fn dict_items(&self, h: usize) -> (items: Vec<(String, Value)>)
        requires
            self.wf(),
            h < self.nd(),
        ensures
            items@ == dict_store_view(self.dicts)[h as int],
    {
        let ghost slot = dict_store_view(self.dicts)[h as int];
        proof {
            assert(slot == self.dicts@[h as int]@);
        }
        let mut items: Vec<(String, Value)> = Vec::new();
        let n = self.dicts[h].len();
        let mut i: usize = 0;
        while i < n
            invariant
                self.wf(),
                h < self.nd(),
                slot == dict_store_view(self.dicts)[h as int],
                n == slot.len(),
                i <= n,
                items@ == slot.take(i as int),
            decreases n - i,
        {
            let k = self.dicts[h][i].0.clone();
            let v = clone_value(&self.dicts[h][i].1);
            items.push((k, v));
            proof {
                assert(items@ =~= slot.take(i + 1));
            }
            i = i + 1;
        }
        proof {
            assert(slot.take(n as int) =~= slot);
        }
        items
    }

    /// How many elements vector `h` holds.
    pub fn vec_len(&self, h: usize) -> (n: usize)
        requires
            h < self.nv(),
        ensures
            n == store_view(self.vecs)[h as int].len(),
    {
        self.vecs[h].len()
    }
}

/// The magnitude of an integer.
pub open spec fn spec_abs(x: int) -> int {
    if x < 0 { -x } else { x }
}

/// Division truncated toward zero, as the host's division truncates.
pub open spec fn spec_div_trunc(a: int, b: int) -> int {
    if (a < 0) == (b < 0) {
        spec_abs(a) / spec_abs(b)
    } else {
        -(spec_abs(a) / spec_abs(b))
    }
}

/// Truncated division wrapped into the 64-bit range: the one overflowing
/// quotient, the smallest value divided by minus one, wraps to itself.
pub open spec fn spec_div_wrap(a: int, b: int) -> int {
    if spec_div_trunc(a, b) > i64::MAX {
        i64::MIN as int
    } else {
        spec_div_trunc(a, b)
    }
}

/// The remainder matching truncated division: it carries the dividend's sign.
pub open spec fn spec_rem_trunc(a: int, b: int) -> int {
    if a < 0 {
        -(spec_abs(a) % spec_abs(b))
    } else {
        a % spec_abs(b)
    }
}

/// Exponentiation by a non-negative exponent, each step wrapping in 64 bits.
pub open spec fn spec_pow_wrap(base: i64, e: nat) -> i64
    decreases e,
{
    if e == 0 {
        1
    } else {
        vstd::wrapping::i64_specs::wrapping_mul(spec_pow_wrap(base, (e - 1) as nat), base)
    }
}

fn abs64(x: i64) -> (r: u64)
    ensures
        r == spec_abs(x as int),
{
    if x < 0 {
        (-(x as i128)) as u64
    } else {
        x as u64
    }
}

fn num_div(a: i64, b: i64) -> (r: i64)
    requires
        b != 0,
    ensures
        r as int == spec_div_wrap(a as int, b as int),
{
    let ma = abs64(a);
    let mb = abs64(b);
    let q: u64 = ma / mb;
    proof {
        assert(q <= ma) by (nonlinear_arith)
            requires
                mb >= 1,
                q == ma as int / mb as int,
                ma >= 0,
        ;
    }
    if (a < 0) == (b < 0) {
        if q <= (i64::MAX as u64) {
            q as i64
        } else {
            i64::MIN
        }
    } else {
        (-(q as i128)) as i64
    }
}

fn num_rem(a: i64, b: i64) -> (r: i64)
    requires
        b != 0,
    ensures
        r as int == spec_rem_trunc(a as int, b as int),
{
    let ma = abs64(a);
    let mb = abs64(b);
    let m: u64 = ma % mb;
    if a < 0 {
        (-(m as i128)) as i64
    } else {
        m as i64
    }
}

fn num_pow(base: i64, e: i64) -> (r: i64)
    requires
        e >= 0,
    ensures
        r == spec_pow_wrap(base, e as nat),
{
    let mut r: i64 = 1;
    let mut i: i64 = 0;
    while i < e
        invariant
            0 <= i <= e,
            r == spec_pow_wrap(base, i as nat),
        decreases e - i,
    {
        r = r.wrapping_mul(base);
        i = i + 1;
    }
    r
}

/// What a binary operator over two numbers yields: the additive and
/// multiplicative operators wrap in 64 bits, division and remainder truncate
/// toward zero and refuse a zero divisor, exponentiation refuses a negative
/// exponent, and the comparisons yield booleans.
pub open spec fn spec_num_binop(op: BinaryOp, a: i64, b: i64) -> Result<Value, EvalError> {
    match op {
        BinaryOp::Sum => Ok(Value::Num(vstd::wrapping::i64_specs::wrapping_add(a, b))),
        BinaryOp::Sub => Ok(Value::Num(vstd::wrapping::i64_specs::wrapping_sub(a, b))),
        BinaryOp::Mul => Ok(Value::Num(vstd::wrapping::i64_specs::wrapping_mul(a, b))),
        BinaryOp::Div => if b == 0 {
            Err(EvalError::TypeMismatch)
        } else {
            Ok(Value::Num((spec_div_wrap(a as int, b as int)) as i64))
        },
        BinaryOp::Mod => if b == 0 {
            Err(EvalError::TypeMismatch)
        } else {
            Ok(Value::Num((spec_rem_trunc(a as int, b as int)) as i64))
        },
        BinaryOp::Pow => if b < 0 {
            Err(EvalError::TypeMismatch)
        } else {
            Ok(Value::Num(spec_pow_wrap(a, b as nat)))
        },
        BinaryOp::Less => Ok(Value::Bool(a < b)),
        BinaryOp::Great => Ok(Value::Bool(a > b)),
        _ => Err(EvalError::TypeMismatch),
    }
}

/// Apply a numeric binary operator.
pub fn num_binop(op: BinaryOp, a: i64, b: i64) -> (r: Result<Value, EvalError>)
    ensures
        r == spec_num_binop(op, a, b),
{
    match op {
        BinaryOp::Sum => Ok(Value::Num(a.wrapping_add(b))),
        BinaryOp::Sub => Ok(Value::Num(a.wrapping_sub(b))),
        BinaryOp::Mul => Ok(Value::Num(a.wrapping_mul(b))),
        BinaryOp::Div => if b == 0 {
            Err(EvalError::TypeMismatch)
        } else {
            let q = num_div(a, b);
            proof {
                assert(q as int == spec_div_wrap(a as int, b as int));
                assert(q == (spec_div_wrap(a as int, b as int)) as i64);
            }
            Ok(Value::Num(q))
        },
        BinaryOp::Mod => if b == 0 {
            Err(EvalError::TypeMismatch)
        } else {
            let m = num_rem(a, b);
            proof {
                assert(m == (spec_rem_trunc(a as int, b as int)) as i64);
            }
            Ok(Value::Num(m))
        },
        BinaryOp::Pow => if b < 0 {
            Err(EvalError::TypeMismatch)
        } else {
            Ok(Value::Num(num_pow(a, b)))
        },
        BinaryOp::Less => Ok(Value::Bool(a < b)),
        BinaryOp::Great => Ok(Value::Bool(a > b)),
        _ => Err(EvalError::TypeMismatch),
    }
}

/// The ascending integers of the half-open interval `[l, r)`.
pub open spec fn range_seq(l: int, r: int) -> Seq<int> {
    if l <= r {
        Seq::new((r - l) as nat, |i: int| l + i)
    } else {
        Seq::empty()
    }
}

/// The ascending integers of the half-open interval `[l, r)`: exactly
/// `r - l` of them when `l <= r`, nothing otherwise.
pub fn range_items(l: i64, r: i64) -> (v: Vec<i64>)
    ensures
        l <= r ==> v@.len() == r - l,
        l > r ==> v@.len() == 0,
        forall|i: int| 0 <= i < v@.len() ==> v@[i] == l + i,
        v@.map_values(|x: i64| x as int) == range_seq(l as int, r as int),
{
    let mut v: Vec<i64> = Vec::new();
    if l >= r {
        return v;
    }
    let mut x = l;
    while x < r
        invariant
            l <= x <= r,
            v@.len() == x - l,
            forall|i: int| 0 <= i < v@.len() ==> v@[i] == l + i,
        decreases r - x,
    {
        v.push(x);
        x = x + 1;
    }
    proof {
        assert(v@.map_values(|x: i64| x as int) =~= range_seq(l as int, r as int));
    }
    v
}

/// Updating the winning entry for `key` redirects that key's lookup and
/// leaves every other key alone.
proof fn lemma_dict_update_lookup(f: Seq<(String, Value)>, ei: int, val: Value, key: Seq<char>)
    requires
        0 <= ei < f.len(),
        f[ei].0@ == key,
        forall|j: int| ei < j < f.len() ==> #[trigger] f[j].0@ != key,
    ensures
        dict_lookup(f.update(ei, (f[ei].0, val)), key) == Some(val),
        forall|other: Seq<char>| other != key ==> dict_lookup(f.update(ei, (f[ei].0, val)), other)
            == dict_lookup(f, other),
    decreases f.len(),
{
    let f2 = f.update(ei, (f[ei].0, val));
    if ei == f.len() - 1 {
        assert(f2.last() == (f[ei].0, val));
        assert(f2.drop_last() =~= f.drop_last());
    } else {
        assert(f2.last() == f.last());
        assert(f2.drop_last() =~= f.drop_last().update(ei, (f[ei].0, val)));
        lemma_dict_update_lookup(f.drop_last(), ei, val, key);
        assert(dict_lookup(f2, key) == Some(val));
        assert forall|other: Seq<char>| other != key implies dict_lookup(f2, other) == dict_lookup(
            f,
            other,
        ) by {
            if f.last().0@ == other {
            } else {
                assert(dict_lookup(f2, other) == dict_lookup(f2.drop_last(), other));
                assert(dict_lookup(f, other) == dict_lookup(f.drop_last(), other));
            }
        }
    }
}


/// The unquoted rendering of a value. A vector renders as `[e1, e2, ...]`
/// and a dictionary as `{k: v, ...}`, each element quoted when it is a
/// string; a walk deeper than the depth budget — a cycle, or nesting deeper
/// than the budget — renders as `...`.
pub open spec fn spec_display(
    v: Value,
    vecs: Seq<Seq<Value>>,
    dicts: Seq<Seq<(String, Value)>>,
    depth: nat,
) -> Seq<char>
    decreases depth, 0int, 0int,
{
    match v {
        Value::Nil => "nil"@,
        Value::Num(n) => spec_num_str(n as int),
        Value::String(s) => s@,
        Value::Bool(b) => if b { "true"@ } else { "false"@ },
        Value::Vec(h) => if depth == 0 {
            "..."@
        } else if h < vecs.len() {
            "["@ + spec_display_list(vecs[h as int], vecs, dicts, (depth - 1) as nat) + "]"@
        } else {
            Seq::empty()
        },
        Value::Dict(h) => if depth == 0 {
            "..."@
        } else if h < dicts.len() {
            "{"@ + spec_display_entries(dicts[h as int], vecs, dicts, (depth - 1) as nat) + "}"@
        } else {
            Seq::empty()
        },
        Value::Range(l, r) => spec_num_str(l as int) + ".."@ + spec_num_str(r as int),
        Value::Func(f) => match f {
            Func::User { name: Some(n), .. } => "<func "@ + n@ + ">"@,
            Func::User { name: None, .. } => "<lambda func>"@,
            Func::Native { name, .. } => "<native func "@ + name@ + ">"@,
        },
    }
}

/// The rendering used for elements inside a container: a string is wrapped
/// in single quotes to tell its contents from bare words, everything else
/// renders as usual.
pub open spec fn spec_display_quoted(
    v: Value,
    vecs: Seq<Seq<Value>>,
    dicts: Seq<Seq<(String, Value)>>,
    depth: nat,
) -> Seq<char>
    decreases depth, 1int, 0int,
{
    match v {
        Value::String(s) => "'"@ + s@ + "'"@,
        _ => spec_display(v, vecs, dicts, depth),
    }
}

pub open spec fn spec_display_list(
    elems: Seq<Value>,
    vecs: Seq<Seq<Value>>,
    dicts: Seq<Seq<(String, Value)>>,
    depth: nat,
) -> Seq<char>
    decreases depth, 2int, elems.len(),
{
    if elems.len() == 0 {
        Seq::empty()
    } else if elems.len() == 1 {
        spec_display_quoted(elems[0], vecs, dicts, depth)
    } else {
        spec_display_quoted(elems[0], vecs, dicts, depth) + ", "@ + spec_display_list(
            elems.subrange(1, elems.len() as int),
            vecs,
            dicts,
            depth,
        )
    }
}

pub open spec fn spec_display_entries(
    entries: Seq<(String, Value)>,
    vecs: Seq<Seq<Value>>,
    dicts: Seq<Seq<(String, Value)>>,
    depth: nat,
) -> Seq<char>
    decreases depth, 2int, entries.len(),
{
    if entries.len() == 0 {
        Seq::empty()
    } else if entries.len() == 1 {
        entries[0].0@ + ": "@ + spec_display_quoted(entries[0].1, vecs, dicts, depth)
    } else {
        entries[0].0@ + ": "@ + spec_display_quoted(entries[0].1, vecs, dicts, depth) + ", "@
            + spec_display_entries(entries.subrange(1, entries.len() as int), vecs, dicts, depth)
    }
}

impl Interpreter {
    /// Render a value as `spec_display` describes.
    pub fn display_value(&self, v: &Value, depth: u64) -> (r: String)
        requires
            self.wf(),
            value_wf(*v, self.nv(), self.nd(), self.ne()),
        ensures
            r@ == spec_display(*v, store_view(self.vecs), dict_store_view(self.dicts), depth as nat),
        decreases depth, 0int, 0int,
    {
        match v {
            Value::Nil => "nil".to_owned(),
            Value::Num(n) => num_to_string(*n),
            Value::String(s) => s.clone(),
            Value::Bool(b) => if *b {
                "true".to_owned()
            } else {
                "false".to_owned()
            },
            Value::Vec(h) => {
                if depth == 0 {
                    "...".to_owned()
                } else {
                    let mut out = "[".to_owned();
                    let body = self.display_list_from(*h, 0, depth - 1);
                    out.append(body.as_str());
                    out.append("]");
                    proof {
                        let elems = store_view(self.vecs)[*h as int];
                        assert(elems.subrange(0, elems.len() as int) =~= elems);
                        assert(out@ =~= spec_display(
                            *v, store_view(self.vecs), dict_store_view(self.dicts), depth as nat,
                        ));
                    }
                    out
                }
            },
            Value::Dict(h) => {
                if depth == 0 {
                    "...".to_owned()
                } else {
                    let mut out = "{".to_owned();
                    let body = self.display_entries_from(*h, 0, depth - 1);
                    out.append(body.as_str());
                    out.append("}");
                    proof {
                        let entries = dict_store_view(self.dicts)[*h as int];
                        assert(entries.subrange(0, entries.len() as int) =~= entries);
                        assert(out@ =~= spec_display(
                            *v, store_view(self.vecs), dict_store_view(self.dicts), depth as nat,
                        ));
                    }
                    out
                }
            },
            Value::Range(l, r2) => {
                let mut out = num_to_string(*l);
                out.append("..");
                let rs = num_to_string(*r2);
                out.append(rs.as_str());
                out
            },
            Value::Func(f) => match f {
                Func::User { name: Some(n), .. } => {
                    let mut out = "<func ".to_owned();
                    out.append(n.as_str());
                    out.append(">");
                    out
                },
                Func::User { name: None, .. } => "<lambda func>".to_owned(),
                Func::Native { name, .. } => {
                    let mut out = "<native func ".to_owned();
                    out.append(name.as_str());
                    out.append(">");
                    out
                },
            },
        }
    }

    /// Render a value the way containers show their elements: strings in
    /// single quotes, everything else as usual.
    pub fn display_quoted(&self, v: &Value, depth: u64) -> (r: String)
        requires
            self.wf(),
            value_wf(*v, self.nv(), self.nd(), self.ne()),
        ensures
            r@ == spec_display_quoted(
                *v, store_view(self.vecs), dict_store_view(self.dicts), depth as nat,
            ),
        decreases depth, 1int, 0int,
    {
        match v {
            Value::String(s) => {
                let mut out = "'".to_owned();
                out.append(s.as_str());
                out.append("'");
                out
            },
            _ => self.display_value(v, depth),
        }
    }

    fn display_list_from(&self, h: usize, i: usize, depth: u64) -> (r: String)
        requires
            self.wf(),
            h < self.nv(),
            i <= store_view(self.vecs)[h as int].len(),
        ensures
            r@ == spec_display_list(
                store_view(self.vecs)[h as int].subrange(
                    i as int,
                    store_view(self.vecs)[h as int].len() as int,
                ),
                store_view(self.vecs),
                dict_store_view(self.dicts),
                depth as nat,
            ),
        decreases depth, 2int, store_view(self.vecs)[h as int].len() - i,
    {
        let ghost elems = store_view(self.vecs)[h as int];
        let ghost sub = elems.subrange(i as int, elems.len() as int);
        let n = self.vecs[h].len();
        proof {
            assert(elems == self.vecs@[h as int]@);
        }
        if i >= n {
            String::new()
        } else {
            proof {
                assert(vals_wf(elems, self.nv(), self.nd(), self.ne()));
                assert(value_wf(elems[i as int], self.nv(), self.nd(), self.ne()));
                assert(sub[0] == elems[i as int]);
            }
            let mut out = self.display_quoted(&self.vecs[h][i], depth);
            if i + 1 < n {
                out.append(", ");
                let rest = self.display_list_from(h, i + 1, depth);
                out.append(rest.as_str());
                proof {
                    assert(sub.subrange(1, sub.len() as int) =~= elems.subrange(
                        i + 1,
                        elems.len() as int,
                    ));
                    assert(out@ =~= spec_display_list(
                        sub, store_view(self.vecs), dict_store_view(self.dicts), depth as nat,
                    ));
                }
            } else {
                proof {
                    assert(sub.len() == 1);
                }
            }
            out
        }
    }

    fn display_entries_from(&self, h: usize, i: usize, depth: u64) -> (r: String)
        requires
            self.wf(),
            h < self.nd(),
            i <= dict_store_view(self.dicts)[h as int].len(),
        ensures
            r@ == spec_display_entries(
                dict_store_view(self.dicts)[h as int].subrange(
                    i as int,
                    dict_store_view(self.dicts)[h as int].len() as int,
                ),
                store_view(self.vecs),
                dict_store_view(self.dicts),
                depth as nat,
            ),
        decreases depth, 2int, dict_store_view(self.dicts)[h as int].len() - i,
    {
        let ghost entries = dict_store_view(self.dicts)[h as int];
        let ghost sub = entries.subrange(i as int, entries.len() as int);
        let n = self.dicts[h].len();
        proof {
            assert(entries == self.dicts@[h as int]@);
        }
        if i >= n {
            String::new()
        } else {
            proof {
                assert(dict_entries_wf(entries, self.nv(), self.nd(), self.ne()));
                assert(value_wf(entries[i as int].1, self.nv(), self.nd(), self.ne()));
                assert(sub[0] == entries[i as int]);
            }
            let mut out = self.dicts[h][i].0.clone();
            out.append(": ");
            let vs = self.display_quoted(&self.dicts[h][i].1, depth);
            out.append(vs.as_str());
            if i + 1 < n {
                out.append(", ");
                let rest = self.display_entries_from(h, i + 1, depth);
                out.append(rest.as_str());
                proof {
                    assert(sub.subrange(1, sub.len() as int) =~= entries.subrange(
                        i + 1,
                        entries.len() as int,
                    ));
                    assert(out@ =~= spec_display_entries(
                        sub, store_view(self.vecs), dict_store_view(self.dicts), depth as nat,
                    ));
                }
            } else {
                proof {
                    assert(sub.len() == 1);
                    assert(out@ =~= spec_display_entries(
                        sub, store_view(self.vecs), dict_store_view(self.dicts), depth as nat,
                    ));
                }
            }
            out
        }
    }
}

impl Value {
    /// The quoted rendering of this value against the interpreter that owns
    /// its containers: string values come back wrapped in single quotes.
    pub fn to_string_quoted(&self, it: &Interpreter) -> (r: String)
        requires
            it.wf(),
            value_wf(*self, it.nv(), it.nd(), it.ne()),
        ensures
            r@ == spec_display_quoted(
                *self,
                store_view(it.vecs),
                dict_store_view(it.dicts),
                CONTAINER_DEPTH as nat,
            ),
    {
        it.display_quoted(self, CONTAINER_DEPTH)
    }
}


/// A binding handed back by a lookup is itself well formed.
pub proof fn lemma_frame_lookup_wf(f: Seq<(String, Var)>, name: Seq<char>, nv: nat, nd: nat, ne: nat)
    requires
        frame_wf(f, nv, nd, ne),
        frame_lookup(f, name) is Some,
    ensures
        var_wf(frame_lookup(f, name)->0, nv, nd, ne),
    decreases f.len(),
{
    if f.len() > 0 && f.last().0@ != name {
        assert(frame_wf(f.drop_last(), nv, nd, ne));
        lemma_frame_lookup_wf(f.drop_last(), name, nv, nd, ne);
    }
}

pub proof fn lemma_stack_lookup_wf(
    fs: Seq<Seq<(String, Var)>>,
    name: Seq<char>,
    nv: nat, nd: nat, ne: nat,
)
    requires
        stack_wf(fs, nv, nd, ne),
        stack_lookup(fs, name) is Some,
    ensures
        var_wf(stack_lookup(fs, name)->0, nv, nd, ne),
    decreases fs.len(),
{
    if fs.len() > 0 {
        if frame_lookup(fs.last(), name) is Some {
            lemma_frame_lookup_wf(fs.last(), name, nv, nd, ne);
        } else {
            assert(stack_wf(fs.drop_last(), nv, nd, ne));
            lemma_stack_lookup_wf(fs.drop_last(), name, nv, nd, ne);
        }
    }
}


/// Looking a name up in a flattened frame chain finds the same binding the
/// stack lookup finds: the flattening keeps the innermost binding last, so
/// the latest entry still wins.
pub proof fn lemma_concat_lookup(a: Seq<(String, Var)>, b: Seq<(String, Var)>, name: Seq<char>)
    ensures
        frame_lookup(a + b, name) == match frame_lookup(b, name) {
            Some(v) => Some(v),
            None => frame_lookup(a, name),
        },
    decreases b.len(),
{
    if b.len() == 0 {
        assert(a + b =~= a);
    } else {
        assert((a + b).last() == b.last());
        assert((a + b).drop_last() =~= a + b.drop_last());
        lemma_concat_lookup(a, b.drop_last(), name);
    }
}

pub proof fn lemma_flatten_lookup(fs: Seq<Seq<(String, Var)>>, name: Seq<char>)
    ensures
        frame_lookup(fs.flatten_alt(), name) == stack_lookup(fs, name),
    decreases fs.len(),
{
    if fs.len() == 0 {
        assert(fs.flatten_alt() =~= Seq::<(String, Var)>::empty());
    } else {
        lemma_flatten_lookup(fs.drop_last(), name);
        lemma_concat_lookup(fs.drop_last().flatten_alt(), fs.last(), name);
    }
}

/// Structural equality of two values, walking shared containers through the
/// stores: numbers, booleans, strings and ranges compare by contents,
/// vectors and dictionaries by their elements, functions by `spec_func_eq`.
/// A walk deeper than the depth budget — a cycle, or nesting deeper than the
/// budget — compares unequal.
pub open spec fn spec_value_eq(
    a: Value,
    b: Value,
    vecs: Seq<Seq<Value>>,
    dicts: Seq<Seq<(String, Value)>>,
    depth: nat,
) -> bool
    decreases depth, 0int, 0int,
{
    match (a, b) {
        (Value::Nil, Value::Nil) => true,
        (Value::Num(x), Value::Num(y)) => x == y,
        (Value::String(x), Value::String(y)) => x@ == y@,
        (Value::Bool(x), Value::Bool(y)) => x == y,
        (Value::Range(l1, r1), Value::Range(l2, r2)) => l1 == l2 && r1 == r2,
        (Value::Func(f), Value::Func(g)) => spec_func_eq(f, g),
        (Value::Vec(h1), Value::Vec(h2)) => if depth == 0 {
            false
        } else if h1 < vecs.len() && h2 < vecs.len() {
            spec_vals_eq(vecs[h1 as int], vecs[h2 as int], vecs, dicts, (depth - 1) as nat)
        } else {
            false
        },
        (Value::Dict(h1), Value::Dict(h2)) => if depth == 0 {
            false
        } else if h1 < dicts.len() && h2 < dicts.len() {
            dicts[h1 as int].len() == dicts[h2 as int].len() && spec_dict_le(
                dicts[h1 as int],
                dicts[h2 as int],
                vecs,
                dicts,
                (depth - 1) as nat,
            )
        } else {
            false
        },
        _ => false,
    }
}

pub open spec fn spec_vals_eq(
    x: Seq<Value>,
    y: Seq<Value>,
    vecs: Seq<Seq<Value>>,
    dicts: Seq<Seq<(String, Value)>>,
    depth: nat,
) -> bool
    decreases depth, 1int, x.len(),
{
    x.len() == y.len() && (x.len() == 0 || (spec_value_eq(x[0], y[0], vecs, dicts, depth)
        && spec_vals_eq(
        x.subrange(1, x.len() as int),
        y.subrange(1, y.len() as int),
        vecs,
        dicts,
        depth,
    )))
}

/// Every entry of `x` maps, in `y`, to an equal value. With the unique keys
/// well-formedness carries, this together with equal lengths is dictionary
/// equality.
pub open spec fn spec_dict_le(
    x: Seq<(String, Value)>,
    y: Seq<(String, Value)>,
    vecs: Seq<Seq<Value>>,
    dicts: Seq<Seq<(String, Value)>>,
    depth: nat,
) -> bool
    decreases depth, 1int, x.len(),
{
    if x.len() == 0 {
        true
    } else {
        (match dict_lookup(y, x[0].0@) {
            Some(v) => spec_value_eq(x[0].1, v, vecs, dicts, depth),
            None => false,
        }) && spec_dict_le(x.subrange(1, x.len() as int), y, vecs, dicts, depth)
    }
}

impl Interpreter {
    /// Decide structural equality as `spec_value_eq` describes.
    pub fn value_eq(&self, a: &Value, b: &Value, depth: u64) -> (r: bool)
        requires
            self.wf(),
        ensures
            r == spec_value_eq(*a, *b, store_view(self.vecs), dict_store_view(self.dicts), depth as nat),
        decreases depth, 0int, 0int,
    {
        match (a, b) {
            (Value::Nil, Value::Nil) => true,
            (Value::Num(x), Value::Num(y)) => *x == *y,
            (Value::String(x), Value::String(y)) => *x == *y,
            (Value::Bool(x), Value::Bool(y)) => *x == *y,
            (Value::Range(l1, r1), Value::Range(l2, r2)) => *l1 == *l2 && *r1 == *r2,
            (Value::Func(f), Value::Func(g)) => func_eq(f, g),
            (Value::Vec(h1), Value::Vec(h2)) => {
                if depth == 0 {
                    false
                } else if *h1 < self.vecs.len() && *h2 < self.vecs.len() {
                    if self.vecs[*h1].len() == self.vecs[*h2].len() {
                        let e = self.vals_eq_from(*h1, *h2, 0, depth - 1);
                        proof {
                            let x = store_view(self.vecs)[*h1 as int];
                            let y = store_view(self.vecs)[*h2 as int];
                            assert(x.subrange(0, x.len() as int) =~= x);
                            assert(y.subrange(0, y.len() as int) =~= y);
                        }
                        e
                    } else {
                        proof {
                            assert(store_view(self.vecs)[*h1 as int].len() != store_view(
                                self.vecs,
                            )[*h2 as int].len());
                        }
                        false
                    }
                } else {
                    false
                }
            },
            (Value::Dict(h1), Value::Dict(h2)) => {
                if depth == 0 {
                    false
                } else if *h1 < self.dicts.len() && *h2 < self.dicts.len() {
                    if self.dicts[*h1].len() == self.dicts[*h2].len() {
                        let e = self.dict_le_from(*h1, *h2, 0, depth - 1);
                        proof {
                            let x = dict_store_view(self.dicts)[*h1 as int];
                            assert(x.subrange(0, x.len() as int) =~= x);
                            assert(dict_store_view(self.dicts)[*h1 as int].len()
                                == dict_store_view(self.dicts)[*h2 as int].len());
                        }
                        e
                    } else {
                        false
                    }
                } else {
                    false
                }
            },
            _ => false,
        }
    }

    fn vals_eq_from(&self, h1: usize, h2: usize, i: usize, depth: u64) -> (r: bool)
        requires
            self.wf(),
            h1 < self.nv(),
            h2 < self.nv(),
            store_view(self.vecs)[h1 as int].len() == store_view(self.vecs)[h2 as int].len(),
            i <= store_view(self.vecs)[h1 as int].len(),
        ensures
            r == spec_vals_eq(
                store_view(self.vecs)[h1 as int].subrange(
                    i as int,
                    store_view(self.vecs)[h1 as int].len() as int,
                ),
                store_view(self.vecs)[h2 as int].subrange(
                    i as int,
                    store_view(self.vecs)[h2 as int].len() as int,
                ),
                store_view(self.vecs),
                dict_store_view(self.dicts),
                depth as nat,
            ),
        decreases depth, 1int, store_view(self.vecs)[h1 as int].len() - i,
    {
        let ghost x = store_view(self.vecs)[h1 as int];
        let ghost y = store_view(self.vecs)[h2 as int];
        let ghost sx = x.subrange(i as int, x.len() as int);
        let ghost sy = y.subrange(i as int, y.len() as int);
        let n = self.vecs[h1].len();
        proof {
            assert(x == self.vecs@[h1 as int]@);
            assert(y == self.vecs@[h2 as int]@);
        }
        if i >= n {
            true
        } else {
            let e = self.value_eq(&self.vecs[h1][i], &self.vecs[h2][i], depth);
            proof {
                assert(sx[0] == x[i as int]);
                assert(sy[0] == y[i as int]);
                assert(sx.subrange(1, sx.len() as int) =~= x.subrange(i + 1, x.len() as int));
                assert(sy.subrange(1, sy.len() as int) =~= y.subrange(i + 1, y.len() as int));
            }
            if e {
                self.vals_eq_from(h1, h2, i + 1, depth)
            } else {
                false
            }
        }
    }

    fn dict_le_from(&self, h1: usize, h2: usize, i: usize, depth: u64) -> (r: bool)
        requires
            self.wf(),
            h1 < self.nd(),
            h2 < self.nd(),
            i <= dict_store_view(self.dicts)[h1 as int].len(),
        ensures
            r == spec_dict_le(
                dict_store_view(self.dicts)[h1 as int].subrange(
                    i as int,
                    dict_store_view(self.dicts)[h1 as int].len() as int,
                ),
                dict_store_view(self.dicts)[h2 as int],
                store_view(self.vecs),
                dict_store_view(self.dicts),
                depth as nat,
            ),
        decreases depth, 1int, dict_store_view(self.dicts)[h1 as int].len() - i,
    {
        let ghost x = dict_store_view(self.dicts)[h1 as int];
        let ghost sx = x.subrange(i as int, x.len() as int);
        let n = self.dicts[h1].len();
        proof {
            assert(x == self.dicts@[h1 as int]@);
        }
        if i >= n {
            true
        } else {
            proof {
                assert(sx[0] == x[i as int]);
                assert(sx.subrange(1, sx.len() as int) =~= x.subrange(i + 1, x.len() as int));
            }
            let key = self.dicts[h1][i].0.clone();
            match self.dict_find(h2, &key) {
                Some(ei) => {
                    let e = self.value_eq(&self.dicts[h1][i].1, &self.dicts[h2][ei].1, depth);
                    if e {
                        self.dict_le_from(h1, h2, i + 1, depth)
                    } else {
                        false
                    }
                },
                None => false,
            }
        }
    }

    /// Snapshot the visible bindings into one flattened frame in the store of
    /// captured environments; the handle names it from now on.
    pub fn capture_env(&mut self) -> (h: usize)
        requires
            old(self).wf(),
        ensures
            final(self).wf(),
            h == old(self).ne(),
            final(self).ne() == old(self).ne() + 1,
            env_store_view(final(self).envs) == env_store_view(old(self).envs).push(
                old(self).stack@.flatten_alt(),
            ),
            final(self).stack == old(self).stack,
            final(self).collector == old(self).collector,
            final(self).vecs == old(self).vecs,
            final(self).dicts == old(self).dicts,
    {
        let ghost pre = *self;
        let ghost fs = pre.stack@;
        let mut snap: Frame = Vec::new();
        proof {
            assert(fs.take(0).flatten_alt() =~= Seq::<(String, Var)>::empty());
        }
        let nf = self.stack.frames.len();
        let mut fi: usize = 0;
        while fi < nf
            invariant
                *self == pre,
                nf == fs.len(),
                fi <= nf,
                fs == self.stack@,
                snap@ == fs.take(fi as int).flatten_alt(),
            decreases nf - fi,
        {
            let ghost f = fs[fi as int];
            let ne = self.stack.frames[fi].len();
            let mut ei: usize = 0;
            while ei < ne
                invariant
                    *self == pre,
                    fi < fs.len(),
                    nf == fs.len(),
                    fs == self.stack@,
                    f == fs[fi as int],
                    ne == f.len(),
                    ei <= ne,
                    snap@ == fs.take(fi as int).flatten_alt() + f.take(ei as int),
                decreases ne - ei,
            {
                let entry_name = self.stack.frames[fi][ei].0.clone();
                let var = clone_var(&self.stack.frames[fi][ei].1);
                snap.push((entry_name, var));
                proof {
                    assert(f.take(ei + 1) =~= f.take(ei as int).push(f[ei as int]));
                    assert(snap@ =~= fs.take(fi as int).flatten_alt() + f.take(ei + 1));
                }
                ei = ei + 1;
            }
            proof {
                assert(f.take(ne as int) =~= f);
                assert(fs.take(fi + 1).drop_last() =~= fs.take(fi as int));
                assert(fs.take(fi + 1).last() == f);
                assert(fs.take(fi + 1).flatten_alt() =~= fs.take(fi as int).flatten_alt() + f);
            }
            fi = fi + 1;
        }
        proof {
            assert(fs.take(nf as int) =~= fs);
        }
        let h = self.envs.len();
        self.envs.push(snap);
        proof {
            assert(env_store_view(self.envs) =~= env_store_view(pre.envs).push(fs.flatten_alt()));
            assert forall|i: int| 0 <= i < fs.len() implies frame_wf(
                #[trigger] fs[i],
                pre.nv(), pre.nd(), pre.ne(),
            ) by {}
            lemma_flatten_wf(fs, pre.nv(), pre.nd(), pre.ne());
            lemma_frame_wf_mono(
                fs.flatten_alt(), pre.nv(), pre.nd(), pre.ne(), self.nv(), self.nd(), self.ne(),
            );
            lemma_wf_grow(pre, *self);
        }
        h
    }
}

/// A flattened well-formed frame chain is a well-formed frame.
proof fn lemma_flatten_wf(fs: Seq<Seq<(String, Var)>>, nv: nat, nd: nat, ne: nat)
    requires
        forall|i: int| 0 <= i < fs.len() ==> frame_wf(#[trigger] fs[i], nv, nd, ne),
    ensures
        frame_wf(fs.flatten_alt(), nv, nd, ne),
    decreases fs.len(),
{
    if fs.len() == 0 {
        assert(fs.flatten_alt() =~= Seq::<(String, Var)>::empty());
    } else {
        assert(forall|i: int| 0 <= i < fs.drop_last().len() ==> frame_wf(
            #[trigger] fs.drop_last()[i], nv, nd, ne,
        ));
        lemma_flatten_wf(fs.drop_last(), nv, nd, ne);
        let flat = fs.drop_last().flatten_alt() + fs.last();
        assert forall|i: int| 0 <= i < flat.len() implies var_wf(#[trigger] flat[i].1, nv, nd, ne) by {
            if i < fs.drop_last().flatten_alt().len() {
                assert(flat[i] == fs.drop_last().flatten_alt()[i]);
            } else {
                assert(flat[i] == fs.last()[i - fs.drop_last().flatten_alt().len()]);
            }
        }
    }
}


/// Arguments rendered unquoted and joined with single spaces, as the
/// built-in `print` shows them.
pub open spec fn spec_join_vals(
    args: Seq<Value>,
    vecs: Seq<Seq<Value>>,
    dicts: Seq<Seq<(String, Value)>>,
) -> Seq<char>
    decreases args.len(),
{
    if args.len() == 0 {
        Seq::empty()
    } else if args.len() == 1 {
        spec_display(args[0], vecs, dicts, CONTAINER_DEPTH as nat)
    } else {
        spec_display(args[0], vecs, dicts, CONTAINER_DEPTH as nat) + " "@ + spec_join_vals(
            args.subrange(1, args.len() as int),
            vecs,
            dicts,
        )
    }
}

} // verus!
