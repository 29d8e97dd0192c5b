//! Statement execution and expression evaluation: the recursive walk over
//! the syntax tree, threading the environment stack, the container stores,
//! the capture buffer and the process launcher.

use vstd::prelude::*;
use vstd::string::StringExecFns;
use crate::ast::{BinaryOp, Cmd, Expr, Lit, Prog, Stmt, UnaryOp};
use crate::display::{interp_concat, spec_interleave};
use crate::interp::{
    cmd_ops, dict_lookup, dict_store_view, env_store_view, lemma_stack_lookup_wf, num_binop,
    range_items, run_cmd_ops, spec_display, spec_join_vals, spec_num_binop, store_view, vals_wf,
    dict_entries_wf, Interpreter, Launcher, RunCmd, CONTAINER_DEPTH, RUN_FUEL,
};
use crate::stack::stack_lookup;
use crate::value::{
    clone_value, clone_var, rc_clone, frame_wf, func_wf, spec_truthy, value_wf, var_wf, Escape,
    EvalError, Flow, Func, NativeFn, Value, Var,
};

verus! {

/// The value a literal denotes.
pub open spec fn lit_value(l: Lit) -> Value {
    match l {
        Lit::Nil => Value::Nil,
        Lit::Num(n) => Value::Num(n),
        Lit::String(s) => Value::String(s),
        Lit::Bool(b) => Value::Bool(b),
    }
}

pub fn lit_to_value(l: &Lit) -> (v: Value)
    ensures
        v == lit_value(*l),
{
    match l {
        Lit::Nil => Value::Nil,
        Lit::Num(n) => Value::Num(*n),
        Lit::String(s) => Value::String(s.clone()),
        Lit::Bool(b) => Value::Bool(*b),
    }
}

/// A name stands somewhere in a list of seen names.
pub open spec fn seen_has(seen: Seq<String>, nm: Seq<char>) -> bool {
    exists|k: int| 0 <= k < seen.len() && (#[trigger] seen[k])@ == nm
}

/// A name is covered by an environment listing: if its visible binding is
/// exported, some pair of the listing carries it.
pub open spec fn env_covers(
    fs: Seq<Seq<(String, Var)>>,
    out: Seq<(String, String)>,
    nm: Seq<char>,
) -> bool {
    (stack_lookup(fs, nm) matches Some(var) && var.is_exp) ==> exists|j: int| 0 <= j < out.len()
        && (#[trigger] out[j]).0@ == nm
}

/// The two interpreter states hold the very same script-visible data: the
/// same bindings frame for frame, the same capture buffer, and the same
/// stores. (The stack is compared by its view: entering and leaving a scope
/// restores the bindings, not the buffer's allocation identity.)
pub open spec fn same_state(pre: Interpreter, post: Interpreter) -> bool {
    &&& post.stack@ == pre.stack@
    &&& post.collector == pre.collector
    &&& post.vecs == pre.vecs
    &&& post.dicts == pre.dicts
    &&& post.envs == pre.envs
}

/// A command of one word built from one literal fragment: the simplest
/// command whose text the contracts can fix exactly.
pub open spec fn lit_word_cmd(c: Cmd) -> bool {
    c matches Cmd::Atom(segments) && segments@.len() == 1 && segments@[0]@.len() == 1
        && exists|lv: Lit| segments@[0]@[0] == Expr::Literal(lv)
}

/// An expression whose evaluation can signal no escape: a literal or a bare
/// name. A loop whose header is such an expression absorbs every `Break` and
/// `Continue` its body raises; only errors and `Return` flow out of it.
pub open spec fn non_escaping_expr(e: Expr) -> bool {
    match e {
        Expr::Literal(_) => true,
        Expr::Get(_) => true,
        _ => false,
    }
}

/// The value of a simple, effect-free fragment: a literal, or a numeric
/// binary operator over two number literals that succeeds. Anything else —
/// a name, a call, a failing operator — has no simple value.
pub open spec fn simple_frag_val(e: Expr) -> Option<Value> {
    match e {
        Expr::Literal(l) => Some(lit_value(l)),
        Expr::Binary(l, op, r) => match (*l, *r) {
            (Expr::Literal(la), Expr::Literal(lb)) => match (lit_value(la), lit_value(lb)) {
                (Value::Num(a), Value::Num(b)) => match crate::interp::spec_num_binop(op, a, b) {
                    Ok(v) => if op == BinaryOp::And || op == BinaryOp::Or || op == BinaryOp::Equal {
                        None
                    } else {
                        Some(v)
                    },
                    Err(_) => None,
                },
                _ => None,
            },
            _ => None,
        },
        _ => None,
    }
}

/// What resolving a name yields: the bound value, or the unbound-name error.
pub open spec fn spec_get_result(fs: Seq<Seq<(String, Var)>>, name: Seq<char>) -> Result<
    Value,
    Flow,
> {
    match stack_lookup(fs, name) {
        Some(var) => Ok(var.val),
        None => Err(Flow::Fail(EvalError::UnboundName)),
    }
}

impl Interpreter {
    /// Define a binding in the innermost frame.
    pub fn def_var(&mut self, name: String, var: Var)
        requires
            old(self).wf(),
            var_wf(var, old(self).nv(), old(self).nd(), old(self).ne()),
        ensures
            final(self).wf(),
            final(self).stack@ == old(self).stack@.update(
                old(self).stack@.len() - 1,
                old(self).stack@.last().push((name, var)),
            ),
            final(self).stack@.len() == old(self).stack@.len(),
            stack_lookup(final(self).stack@, name@) == Some(var),
            forall|other: Seq<char>| other != name@ ==> stack_lookup(final(self).stack@, other)
                == stack_lookup(old(self).stack@, other),
            final(self).collector == old(self).collector,
            final(self).vecs == old(self).vecs,
            final(self).dicts == old(self).dicts,
            final(self).envs == old(self).envs,
    {
        let ghost pre = *self;
        self.stack.def(name, var);
        proof {
            let fs = pre.stack@;
            let top2 = fs.last().push((name, var));
            assert forall|j: int| 0 <= j < self.stack@.len() implies frame_wf(
                #[trigger] self.stack@[j],
                self.nv(),
                self.nd(),
                self.ne(),
            ) by {
                assert(frame_wf(fs[j], pre.nv(), pre.nd(), pre.ne()));
                if j == fs.len() - 1 {
                    assert(self.stack@[j] == top2);
                    assert forall|k: int| 0 <= k < top2.len() implies var_wf(
                        #[trigger] top2[k].1,
                        self.nv(),
                        self.nd(),
                        self.ne(),
                    ) by {
                        if k < fs.last().len() {
                            assert(top2[k] == fs.last()[k]);
                        }
                    }
                } else {
                    assert(self.stack@[j] == fs[j]);
                }
            }
        }
    }

    /// Overwrite the visible binding for `name`, keeping its export flag;
    /// false, and no change, when the name is unbound.
    pub fn assign_var(&mut self, name: &String, val: Value) -> (found: bool)
        requires
            old(self).wf(),
            value_wf(val, old(self).nv(), old(self).nd(), old(self).ne()),
        ensures
            final(self).wf(),
            found == (stack_lookup(old(self).stack@, name@) is Some),
            !found ==> *final(self) == *old(self),
            final(self).stack@.len() == old(self).stack@.len(),
            final(self).collector == old(self).collector,
            final(self).vecs == old(self).vecs,
            final(self).dicts == old(self).dicts,
            final(self).envs == old(self).envs,
            found ==> {
                &&& stack_lookup(final(self).stack@, name@) matches Some(v2) && v2.val == val
                &&& forall|other: Seq<char>| other != name@ ==> stack_lookup(
                    final(self).stack@,
                    other,
                ) == stack_lookup(old(self).stack@, other)
                &&& crate::stack::frame_lookup(old(self).stack@.last(), name@) is Some
                    ==> forall|j: int| 0 <= j < old(self).stack@.len() - 1
                        ==> final(self).stack@[j] == old(self).stack@[j]
            },
    {
        let found = self.stack.assign(name, val);
        found
    }

    /// Enter a lexical scope.
    pub fn push_frame(&mut self)
        requires
            old(self).wf(),
        ensures
            final(self).wf(),
            final(self).stack@ == old(self).stack@.push(Seq::empty()),
            final(self).stack@.len() == old(self).stack@.len() + 1,
            final(self).collector == old(self).collector,
            final(self).vecs == old(self).vecs,
            final(self).dicts == old(self).dicts,
            final(self).envs == old(self).envs,
    {
        let ghost pre = *self;
        self.stack.push();
        proof {
            assert forall|j: int| 0 <= j < self.stack@.len() implies frame_wf(
                #[trigger] self.stack@[j],
                self.nv(),
                self.nd(),
                self.ne(),
            ) by {
                if j < pre.stack@.len() {
                    assert(self.stack@[j] == pre.stack@[j]);
                } else {
                    assert(self.stack@[j] =~= Seq::<(String, Var)>::empty());
                }
            }
        }
    }

    /// Leave the innermost scope, discarding its bindings.
    pub fn pop_frame(&mut self)
        requires
            old(self).wf(),
            old(self).stack@.len() > 1,
        ensures
            final(self).wf(),
            final(self).stack@ == old(self).stack@.drop_last(),
            final(self).stack@.len() == old(self).stack@.len() - 1,
            final(self).collector == old(self).collector,
            final(self).vecs == old(self).vecs,
            final(self).dicts == old(self).dicts,
            final(self).envs == old(self).envs,
    {
        let ghost pre = *self;
        self.stack.pop();
        proof {
            assert forall|j: int| 0 <= j < self.stack@.len() implies frame_wf(
                #[trigger] self.stack@[j],
                self.nv(),
                self.nd(),
                self.ne(),
            ) by {
                assert(self.stack@[j] == pre.stack@[j]);
            }
        }
    }

    /// The subprocess environment: one pair for every visible exported
    /// binding, its value rendered as display text. Sound and complete: each
    /// pair is such a binding, and every name whose visible binding is
    /// exported appears.
    #[verifier::loop_isolation(false)]
    pub fn os_env(&self) -> (r: Vec<(String, String)>)
        requires
            self.wf(),
        ensures
            forall|i: int| 0 <= i < r@.len() ==> {
                &&& #[trigger] stack_lookup(self.stack@, r@[i].0@) is Some
                &&& stack_lookup(self.stack@, r@[i].0@)->0.is_exp
                &&& r@[i].1@ == spec_display(
                    stack_lookup(self.stack@, r@[i].0@)->0.val,
                    store_view(self.vecs),
                    dict_store_view(self.dicts),
                    CONTAINER_DEPTH as nat,
                )
            },
            forall|fi: int, ei: int| 0 <= fi < self.stack@.len() && 0 <= ei
                < self.stack@[fi].len() ==> env_covers(
                self.stack@,
                r@,
                (#[trigger] self.stack@[fi][ei]).0@,
            ),
            forall|i: int, j: int| 0 <= i < j < r@.len() ==> (#[trigger] r@[i]).0@ != (
            #[trigger] r@[j]).0@,
    {
        let ghost fs = self.stack@;
        let mut out: Vec<(String, String)> = Vec::new();
        let mut seen: Vec<String> = Vec::new();
        let nf = self.stack.frames.len();
        let mut fi: usize = 0;
        while fi < nf
            invariant
                fi <= nf,
                forall|i: int| 0 <= i < out@.len() ==> {
                    &&& #[trigger] stack_lookup(fs, out@[i].0@) is Some
                    &&& stack_lookup(fs, out@[i].0@)->0.is_exp
                    &&& out@[i].1@ == spec_display(
                        stack_lookup(fs, out@[i].0@)->0.val,
                        store_view(self.vecs),
                        dict_store_view(self.dicts),
                        CONTAINER_DEPTH as nat,
                    )
                },
                forall|k: int| 0 <= k < seen@.len() ==> env_covers(fs, out@, (#[trigger] seen@[k])@),
                forall|gi: int, gj: int| 0 <= gi < fi && 0 <= gj < fs[gi].len() ==> env_covers(
                    fs,
                    out@,
                    (#[trigger] fs[gi][gj]).0@,
                ),
                forall|i: int, j: int| 0 <= i < j < out@.len() ==> (#[trigger] out@[i]).0@ != (
                #[trigger] out@[j]).0@,
                forall|i: int| 0 <= i < out@.len() ==> seen_has(seen@, (#[trigger] out@[i]).0@),
            decreases nf - fi,
        {
            let ne = self.stack.frames[fi].len();
            let mut ei: usize = 0;
            while ei < ne
                invariant
                    fi < nf,
                    ei <= ne,
                    ne == fs[fi as int].len(),
                    forall|i: int| 0 <= i < out@.len() ==> {
                        &&& #[trigger] stack_lookup(fs, out@[i].0@) is Some
                        &&& stack_lookup(fs, out@[i].0@)->0.is_exp
                        &&& out@[i].1@ == spec_display(
                            stack_lookup(fs, out@[i].0@)->0.val,
                            store_view(self.vecs),
                            dict_store_view(self.dicts),
                            CONTAINER_DEPTH as nat,
                        )
                    },
                    forall|k: int| 0 <= k < seen@.len() ==> env_covers(
                        fs,
                        out@,
                        (#[trigger] seen@[k])@,
                    ),
                    forall|gi: int, gj: int| 0 <= gi < fi && 0 <= gj < fs[gi].len() ==> env_covers(
                        fs,
                        out@,
                        (#[trigger] fs[gi][gj]).0@,
                    ),
                    forall|gj: int| 0 <= gj < ei ==> env_covers(
                        fs,
                        out@,
                        (#[trigger] fs[fi as int][gj]).0@,
                    ),
                    forall|i: int, j: int| 0 <= i < j < out@.len() ==> (#[trigger] out@[i]).0@ != (
                    #[trigger] out@[j]).0@,
                    forall|i: int| 0 <= i < out@.len() ==> seen_has(
                        seen@,
                        (#[trigger] out@[i]).0@,
                    ),
                decreases ne - ei,
            {
                let ghost out0 = out@;
                let ghost seen0 = seen@;
                let name = self.stack.frames[fi][ei].0.clone();
                let was_seen = contains_name(&seen, &name);
                if !was_seen {
                    seen.push(name.clone());
                    match self.stack.get(&name) {
                        Some(var) => {
                            if var.is_exp {
                                proof {
                                    lemma_stack_lookup_wf(
                                        self.stack@, name@, self.nv(), self.nd(), self.ne(),
                                    );
                                }
                                let text = self.display_value(&var.val, CONTAINER_DEPTH);
                                out.push((name, text));
                            }
                        },
                        None => {},
                    }
                }
                proof {
                    assert forall|i: int| 0 <= i < out@.len() implies seen_has(
                        seen@,
                        (#[trigger] out@[i]).0@,
                    ) by {
                        if i < out0.len() {
                            assert(seen_has(seen0, out0[i].0@));
                            let k0 = choose|k: int| 0 <= k < seen0.len() && (#[trigger] seen0[k])@
                                == out0[i].0@;
                            assert((seen@[k0])@ == out@[i].0@);
                        } else {
                            assert((seen@[seen@.len() - 1])@ == out@[i].0@);
                        }
                    }
                    assert forall|i: int, j: int| 0 <= i < j < out@.len() implies (
                    #[trigger] out@[i]).0@ != (#[trigger] out@[j]).0@ by {
                        if j >= out0.len() {
                            assert(seen_has(seen0, out0[i].0@));
                            let k0 = choose|k: int| 0 <= k < seen0.len() && (#[trigger] seen0[k])@
                                == out0[i].0@;
                            assert(seen0[k0]@ != name@);
                            assert(out@[j].0@ == name@);
                        }
                    }
                    assert forall|nm: Seq<char>| env_covers(fs, out0, nm) implies env_covers(
                        fs,
                        out@,
                        nm,
                    ) by {
                        if stack_lookup(fs, nm) matches Some(v) && v.is_exp {
                            let j = choose|j: int| 0 <= j < out0.len() && (#[trigger] out0[j]).0@
                                == nm;
                            assert(out@[j].0@ == nm);
                        }
                    }
                    if was_seen {
                        let k = choose|k: int| 0 <= k < seen0.len() && (#[trigger] seen0[k])@
                            == name@;
                        assert(env_covers(fs, out0, seen0[k]@));
                    } else {
                        if stack_lookup(fs, name@) matches Some(v) && v.is_exp {
                            assert(out@[out@.len() - 1].0@ == name@);
                        }
                    }
                    assert(env_covers(fs, out@, fs[fi as int][ei as int].0@));
                }
                ei = ei + 1;
            }
            fi = fi + 1;
        }
        out
    }

    /// The built-in `print`: arguments rendered unquoted, joined by single
    /// spaces, followed by a line break; appended to the capture buffer in
    /// capture mode, handed to the launcher's sink otherwise.
    fn native_print<L: Launcher>(&mut self, args: &Vec<Value>, launcher: &mut L) -> (r: Value)
        requires
            old(self).wf(),
            vals_wf(args@, old(self).nv(), old(self).nd(), old(self).ne()),
        ensures
            final(self).wf(),
            r == Value::Nil,
            final(self).stack == old(self).stack,
            final(self).vecs == old(self).vecs,
            final(self).dicts == old(self).dicts,
            final(self).envs == old(self).envs,
            old(self).collector matches Some(buf) ==> final(self).collector matches Some(b2)
                && b2@ == buf@ + spec_join_vals(
                args@,
                store_view(old(self).vecs),
                dict_store_view(old(self).dicts),
            ) + "\n"@,
            old(self).collector is Some ==> *final(launcher) == *old(launcher),
            old(self).collector is None ==> final(self).collector is None,
    {
        let line = self.join_args_from(args, 0);
        proof {
            assert(args@.subrange(0, args@.len() as int) =~= args@);
        }
        match &mut self.collector {
            Some(buf) => {
                buf.append(line.as_str());
                buf.append("\n");
            },
            None => {
                launcher.print_line(line.as_str());
            },
        }
        Value::Nil
    }

    fn join_args_from(&self, args: &Vec<Value>, i: usize) -> (r: String)
        requires
            self.wf(),
            vals_wf(args@, self.nv(), self.nd(), self.ne()),
            i <= args@.len(),
        ensures
            r@ == spec_join_vals(
                args@.subrange(i as int, args@.len() as int),
                store_view(self.vecs),
                dict_store_view(self.dicts),
            ),
        decreases args@.len() - i,
    {
        let ghost sub = args@.subrange(i as int, args@.len() as int);
        let n = args.len();
        if i >= n {
            String::new()
        } else {
            proof {
                assert(value_wf(args@[i as int], self.nv(), self.nd(), self.ne()));
                assert(sub[0] == args@[i as int]);
            }
            let mut out = self.display_value(&args[i], CONTAINER_DEPTH);
            if i + 1 < n {
                out.append(" ");
                let rest = self.join_args_from(args, i + 1);
                out.append(rest.as_str());
                proof {
                    assert(sub.subrange(1, sub.len() as int) =~= args@.subrange(
                        i + 1,
                        args@.len() as int,
                    ));
                    assert(out@ =~= spec_join_vals(
                        sub,
                        store_view(self.vecs),
                        dict_store_view(self.dicts),
                    ));
                }
            } else {
                proof {
                    assert(sub.len() == 1);
                }
            }
            out
        }
    }
}

fn contains_name(v: &Vec<String>, name: &String) -> (b: bool)
    ensures
        b == exists|i: int| 0 <= i < v@.len() && v@[i]@ == name@,
{
    let n = v.len();
    let mut i: usize = 0;
    while i < n
        invariant
            i <= n,
            n == v@.len(),
            forall|j: int| 0 <= j < i ==> v@[j]@ != name@,
        decreases n - i,
    {
        if v[i] == *name {
            return true;
        }
        i = i + 1;
    }
    false
}


impl Interpreter {
    /// A fresh interpreter over the given ambient environment: one open
    /// scope holding the `print` native and, after it, every inherited
    /// environment variable as a string-valued, non-exported binding.
    pub fn new(os_env: Vec<(String, String)>) -> (r: Interpreter)
        ensures
            r.wf(),
            r.collector is None,
            r.nv() == 0,
            r.nd() == 0,
            r.ne() == 0,
            r.stack@.len() == 1,
            r.stack@[0].len() == 1 + os_env@.len(),
            r.stack@[0][0].0@ == "print"@,
            !r.stack@[0][0].1.is_exp,
            r.stack@[0][0].1.val matches Value::Func(f) && f matches Func::Native {
                name,
                params,
                func,
                receiver,
            } && name@ == "print"@ && params is None && func == NativeFn::Print
                && receiver is None,
            forall|i: int| 0 <= i < os_env@.len() ==> r.stack@[0][i + 1] == (
                os_env@[i].0,
                Var { val: Value::String(os_env@[i].1), is_exp: false },
            ),
    {
        let mut it = Interpreter {
            stack: crate::stack::Stack::new(),
            collector: None,
            vecs: Vec::new(),
            dicts: Vec::new(),
            envs: Vec::new(),
        };
        proof {
            assert(it.wf());
        }
        it.init_native_funcs();
        let ghost base = it.stack@;
        let n = os_env.len();
        let mut i: usize = 0;
        while i < n
            invariant
                it.wf(),
                n == os_env@.len(),
                i <= n,
                it.collector is None,
                it.nv() == 0,
                it.nd() == 0,
                it.ne() == 0,
                it.stack@.len() == 1,
                it.stack@[0].len() == 1 + i,
                it.stack@[0][0] == base[0][0],
                base.len() == 1,
                base[0].len() == 1,
                base[0][0].0@ == "print"@,
                !base[0][0].1.is_exp,
                base[0][0].1.val matches Value::Func(f) && f matches Func::Native {
                    name,
                    params,
                    func,
                    receiver,
                } && name@ == "print"@ && params is None && func == NativeFn::Print
                    && receiver is None,
                forall|j: int| 0 <= j < i ==> it.stack@[0][j + 1] == (
                    os_env@[j].0,
                    Var { val: Value::String(os_env@[j].1), is_exp: false },
                ),
            decreases n - i,
        {
            let name = os_env[i].0.clone();
            let val = os_env[i].1.clone();
            let ghost prev = it.stack@;
            it.def_var(name, Var { val: Value::String(val), is_exp: false });
            proof {
                assert(it.stack@[0] == prev[0].push((
                    os_env@[i as int].0,
                    Var { val: Value::String(os_env@[i as int].1), is_exp: false },
                )));
            }
            i = i + 1;
        }
        it
    }

    /// Register the built-in native functions: `print`, in the current frame.
    pub fn init_native_funcs(&mut self)
        requires
            old(self).wf(),
        ensures
            final(self).wf(),
            final(self).stack@.len() == old(self).stack@.len(),
            forall|j: int| 0 <= j < old(self).stack@.len() - 1 ==> final(self).stack@[j] == old(
                self,
            ).stack@[j],
            stack_lookup(final(self).stack@, "print"@) == Some(final(self).stack@.last().last().1),
            forall|other: Seq<char>| other != "print"@ ==> stack_lookup(final(self).stack@, other)
                == stack_lookup(old(self).stack@, other),
            final(self).stack@.last().len() == old(self).stack@.last().len() + 1,
            final(self).stack@.last().drop_last() == old(self).stack@.last(),
            final(self).stack@.last().last().0@ == "print"@,
            !final(self).stack@.last().last().1.is_exp,
            final(self).stack@.last().last().1.val matches Value::Func(f) && f
                matches Func::Native { name, params, func, receiver } && name@ == "print"@
                && params is None && func == NativeFn::Print && receiver is None,
            final(self).collector == old(self).collector,
            final(self).vecs == old(self).vecs,
            final(self).dicts == old(self).dicts,
            final(self).envs == old(self).envs,
    {
        let var = Var {
            val: Value::Func(
                Func::Native {
                    name: "print".to_owned(),
                    params: None,
                    func: NativeFn::Print,
                    receiver: None,
                },
            ),
            is_exp: false,
        };
        self.def_var("print".to_owned(), var);
        proof {
            assert(final(self).stack@.last() == old(self).stack@.last().push(
                final(self).stack@.last().last(),
            ));
            assert(final(self).stack@.last().drop_last() =~= old(self).stack@.last());
        }
    }

    /// Enter capture mode with an empty buffer.
    pub fn do_collect(&mut self)
        ensures
            final(self).collector matches Some(s) && s@ == Seq::<char>::empty(),
            final(self).stack == old(self).stack,
            final(self).vecs == old(self).vecs,
            final(self).dicts == old(self).dicts,
            final(self).envs == old(self).envs,
    {
        self.collector = Some(String::new());
    }

    /// Run a program, statement by statement. A local evaluation failure
    /// aborts the run with its error; an escape signal reaching this loop is
    /// the fatal configuration error.
    #[verifier::loop_isolation(false)]
    pub fn run<L: Launcher>(&mut self, prog: &Prog, launcher: &mut L) -> (r: Result<
        (),
        EvalError,
    >)
        requires
            old(self).wf(),
        ensures
            final(self).wf(),
            old(self).evolves_to(*final(self)),
            prog@.len() == 0 ==> r == Ok::<(), EvalError>(()) && *final(self) == *old(self),
            prog@.len() > 0 ==> (prog@[0] matches Stmt::Break ==> r == Err::<(), EvalError>(
                EvalError::EscapeAtTopLevel,
            ) && *final(self) == *old(self)),
            prog@.len() > 0 ==> (prog@[0] matches Stmt::Continue ==> r == Err::<(), EvalError>(
                EvalError::EscapeAtTopLevel,
            ) && *final(self) == *old(self)),
            prog@.len() > 0 ==> (prog@[0] matches Stmt::Return(None) ==> r == Err::<
                (),
                EvalError,
            >(EvalError::EscapeAtTopLevel) && *final(self) == *old(self)),
            prog@.len() > 0 ==> (prog@[0] matches Stmt::Return(Some(e)) ==> (e
                matches Expr::Literal(_) ==> r == Err::<(), EvalError>(EvalError::EscapeAtTopLevel)
                && *final(self) == *old(self))),
            prog@.len() == 1 ==> (prog@[0] matches Stmt::Let { name, init: None, is_exp } ==> r
                == Ok::<(), EvalError>(()) && final(self).stack@ == old(self).stack@.update(
                old(self).stack@.len() - 1,
                old(self).stack@.last().push((name, Var { val: Value::Nil, is_exp })),
            ) && final(self).collector == old(self).collector && final(self).vecs == old(self).vecs
                && final(self).dicts == old(self).dicts && final(self).envs == old(self).envs),
    {
        let ghost pre = *self;
        let n = prog.len();
        let mut i: usize = 0;
        while i < n
            invariant
                self.wf(),
                pre.evolves_to(*self),
                n == prog@.len(),
                i <= n,
                i == 0 ==> *self == pre,
                i > 0 ==> !(prog@[0] matches Stmt::Break),
                i > 0 ==> !(prog@[0] matches Stmt::Continue),
                i > 0 ==> !(prog@[0] matches Stmt::Return(None)),
                i > 0 ==> (prog@[0] matches Stmt::Return(Some(e)) ==> !(e
                    matches Expr::Literal(_))),
                n == 1 ==> (prog@[0] matches Stmt::Let { name, init: None, is_exp } ==> (i == 1
                    ==> self.stack@ == pre.stack@.update(
                    pre.stack@.len() - 1,
                    pre.stack@.last().push((name, Var { val: Value::Nil, is_exp })),
                ) && self.collector == pre.collector && self.vecs == pre.vecs && self.dicts
                    == pre.dicts && self.envs == pre.envs)),
            decreases n - i,
        {
            match self.run_stmt(&prog[i], launcher, RUN_FUEL) {
                Ok(()) => {},
                Err(Flow::Fail(e)) => {
                    return Err(e);
                },
                Err(Flow::Esc(_)) => {
                    return Err(EvalError::EscapeAtTopLevel);
                },
            }
            i = i + 1;
        }
        Ok(())
    }

    /// Evaluate each expression of a list, left to right, into a list of
    /// values.
    #[verifier::loop_isolation(false)]
    fn eval_list<L: Launcher>(
        &mut self,
        exprs: &Vec<Expr>,
        launcher: &mut L,
        fuel: u64,
    ) -> (r: Result<Vec<Value>, Flow>)
        requires
            old(self).wf(),
        ensures
            final(self).wf(),
            old(self).evolves_to(*final(self)),
            r matches Ok(vs) ==> vs@.len() == exprs@.len() && vals_wf(
                vs@,
                final(self).nv(),
                final(self).nd(),
                final(self).ne(),
            ),
            r matches Err(Flow::Esc(Escape::Return(v))) ==> value_wf(
                v,
                final(self).nv(),
                final(self).nd(),
                final(self).ne(),
            ),
            exprs@.len() == 0 ==> *final(self) == *old(self) && r is Ok,
        decreases fuel, exprs, 0int,
    {
        let ghost pre = *self;
        let mut vs: Vec<Value> = Vec::new();
        let n = exprs.len();
        let mut i: usize = 0;
        while i < n
            invariant
                self.wf(),
                pre.evolves_to(*self),
                n == exprs@.len(),
                i <= n,
                i == 0 ==> *self == pre,
                vs@.len() == i,
                vals_wf(vs@, self.nv(), self.nd(), self.ne()),
            decreases n - i,
        {
            let ghost mid = *self;
            proof {
                assert(decreases_to!(*exprs => (*exprs)[i as int]));
            }
            let v = match self.eval(&exprs[i], launcher, fuel) {
                Ok(v) => v,
                Err(e) => {
                    return Err(e);
                },
            };
            proof {
                crate::interp::lemma_vals_wf_mono(
                    vs@, mid.nv(), mid.nd(), mid.ne(), self.nv(), self.nd(), self.ne(),
                );
            }
            vs.push(v);
            i = i + 1;
        }
        Ok(vs)
    }

    /// Evaluate a command tree into an executable command: each atom's word
    /// segments are evaluated and concatenated into plain words; the operator
    /// structure is kept as it is.
    #[verifier::loop_isolation(false)]
    fn eval_cmd<L: Launcher>(&mut self, cmd: &Cmd, launcher: &mut L, fuel: u64) -> (r: Result<
        RunCmd,
        Flow,
    >)
        requires
            old(self).wf(),
        ensures
            final(self).wf(),
            old(self).evolves_to(*final(self)),
            r matches Ok(rc) ==> run_cmd_ops(rc) == cmd_ops(*cmd),
            r matches Err(Flow::Esc(Escape::Return(v))) ==> value_wf(
                v,
                final(self).nv(),
                final(self).nd(),
                final(self).ne(),
            ),
            lit_word_cmd(*cmd) ==> *final(self) == *old(self) && (r matches Ok(rc) && rc
                matches RunCmd::Atom(words) && words@.len() == 1 && (forall|lv: Lit|
                (*cmd)->Atom_0@[0]@[0] == Expr::Literal(lv) ==> words@[0]@ == spec_display(
                    lit_value(lv),
                    store_view(old(self).vecs),
                    dict_store_view(old(self).dicts),
                    CONTAINER_DEPTH as nat,
                ))),
        decreases fuel, cmd, 0int,
    {
        let ghost pre = *self;
        match cmd {
            Cmd::Atom(segments) => {
                let mut words: Vec<String> = Vec::new();
                let ns = segments.len();
                let mut si: usize = 0;
                while si < ns
                    invariant
                        self.wf(),
                        pre.evolves_to(*self),
                        ns == segments@.len(),
                        si <= ns,
                        lit_word_cmd(*cmd) ==> *self == pre && words@.len() == si,
                        lit_word_cmd(*cmd) && si == 1 ==> (forall|lv: Lit| segments@[0]@[0]
                            == Expr::Literal(lv) ==> words@[0]@ == spec_display(
                            lit_value(lv),
                            store_view(pre.vecs),
                            dict_store_view(pre.dicts),
                            CONTAINER_DEPTH as nat,
                        )),
                    decreases ns - si,
                {
                    let mut word = String::new();
                    let nf = segments[si].len();
                    let mut fi: usize = 0;
                    while fi < nf
                        invariant
                            self.wf(),
                            pre.evolves_to(*self),
                            si < segments@.len(),
                            nf == segments@[si as int]@.len(),
                            fi <= nf,
                            lit_word_cmd(*cmd) ==> *self == pre && si == 0,
                            lit_word_cmd(*cmd) && fi == 0 ==> word@ == Seq::<char>::empty(),
                            lit_word_cmd(*cmd) && fi == 1 ==> (forall|lv: Lit| segments@[0]@[0]
                                == Expr::Literal(lv) ==> word@ == spec_display(
                                lit_value(lv),
                                store_view(pre.vecs),
                                dict_store_view(pre.dicts),
                                CONTAINER_DEPTH as nat,
                            )),
                        decreases nf - fi,
                    {
                        proof {
                            assert(decreases_to!(*cmd => *segments));
                            assert(decreases_to!(*segments => (*segments)[si as int]));
                            assert(decreases_to!((*segments)[si as int] => (*segments)[si as int][fi as int]));
                        }
                        let v = match self.eval(&segments[si][fi], launcher, fuel) {
                            Ok(v) => v,
                            Err(e) => {
                                return Err(e);
                            },
                        };
                        let text = self.display_value(&v, CONTAINER_DEPTH);
                        word.append(text.as_str());
                        fi = fi + 1;
                    }
                    words.push(word);
                    si = si + 1;
                }
                Ok(RunCmd::Atom(words))
            },
            Cmd::Op(l, op, r2) => {
                let lc = match self.eval_cmd(l, launcher, fuel) {
                    Ok(c) => c,
                    Err(e) => {
                        return Err(e);
                    },
                };
                let rc = match self.eval_cmd(r2, launcher, fuel) {
                    Ok(c) => c,
                    Err(e) => {
                        return Err(e);
                    },
                };
                let out = RunCmd::Op(Box::new(lc), *op, Box::new(rc));
                proof {
                    assert(run_cmd_ops(out) =~= cmd_ops(*cmd));
                }
                Ok(out)
            },
        }
    }
}


impl Interpreter {
    /// Evaluate an expression to a value. Most of what this promises case by
    /// case: a literal is its value with no effect; a name resolves through
    /// the environment stack or fails with the unbound-name error; `&&` and
    /// `||` with a decided left side return that side's value untouched and
    /// evaluate nothing else; a function literal captures a snapshot of the
    /// visible bindings at this very point.
    #[verifier::loop_isolation(false)]
    pub fn eval<L: Launcher>(&mut self, expr: &Expr, launcher: &mut L, fuel: u64) -> (r: Result<
        Value,
        Flow,
    >)
        requires
            old(self).wf(),
        ensures
            final(self).wf(),
            old(self).evolves_to(*final(self)),
            r matches Ok(v) ==> value_wf(v, final(self).nv(), final(self).nd(), final(self).ne()),
            r matches Err(Flow::Esc(Escape::Return(v))) ==> value_wf(
                v,
                final(self).nv(),
                final(self).nd(),
                final(self).ne(),
            ),
            non_escaping_expr(*expr) ==> (match r {
                Err(Flow::Esc(_)) => false,
                _ => true,
            }),
            *expr matches Expr::Literal(l) ==> *final(self) == *old(self) && *final(launcher)
                == *old(launcher) && r == Ok::<Value, Flow>(lit_value(l)),
            *expr matches Expr::Get(name) ==> *final(self) == *old(self) && *final(launcher)
                == *old(launcher) && r == spec_get_result(old(self).stack@, name@),
            *expr matches Expr::Assign(name, e) ==> *e matches Expr::Literal(lv) ==> (
            match stack_lookup(old(self).stack@, name@) {
                Some(_) => {
                    &&& r == Ok::<Value, Flow>(lit_value(lv))
                    &&& stack_lookup(final(self).stack@, name@) matches Some(v2) && v2.val
                        == lit_value(lv)
                    &&& forall|other: Seq<char>| other != name@ ==> stack_lookup(
                        final(self).stack@,
                        other,
                    ) == stack_lookup(old(self).stack@, other)
                    &&& final(self).collector == old(self).collector
                    &&& final(self).vecs == old(self).vecs
                    &&& final(self).dicts == old(self).dicts
                    &&& final(self).envs == old(self).envs
                },
                None => r == Err::<Value, Flow>(Flow::Fail(EvalError::UnboundName)) && *final(self)
                    == *old(self),
            }),
            *expr matches Expr::Lambda(d) ==> {
                &&& final(self).stack == old(self).stack
                &&& final(self).collector == old(self).collector
                &&& final(self).vecs == old(self).vecs
                &&& final(self).dicts == old(self).dicts
                &&& env_store_view(final(self).envs) == env_store_view(old(self).envs).push(
                    old(self).stack@.flatten_alt(),
                )
                &&& r == Ok::<Value, Flow>(
                    Value::Func(
                        Func::User {
                            name: d.name,
                            params: d.params,
                            body: d.body,
                            captured_env: Some(old(self).envs@.len() as usize),
                        },
                    ),
                )
            },
            *expr matches Expr::Binary(l, BinaryOp::And, _) ==> (simple_frag_val(*l)
                matches Some(lv) ==> !spec_truthy(lv) ==> (*final(self) == *old(self) && *final(launcher) == *old(launcher) && r == Ok::<Value, Flow>(lv))),
            *expr matches Expr::Binary(l, BinaryOp::Or, _) ==> (simple_frag_val(*l)
                matches Some(lv) ==> spec_truthy(lv) ==> (*final(self) == *old(self) && *final(launcher) == *old(launcher) && r == Ok::<Value, Flow>(lv))),
            *expr matches Expr::Binary(l, BinaryOp::Sum, rh) ==> *l matches Expr::Literal(la)
                ==> *rh matches Expr::Literal(lb) ==> (*final(self) == *old(self) && *final(launcher) == *old(launcher) && (match (
                lit_value(la),
                lit_value(lb),
            ) {
                (Value::Num(a), Value::Num(b)) => r == Ok::<Value, Flow>(
                    Value::Num(vstd::wrapping::i64_specs::wrapping_add(a, b)),
                ),
                (Value::String(x), Value::String(y)) => r matches Ok(v) && v
                    matches Value::String(s2) && s2@ == x@ + y@,
                _ => r == Err::<Value, Flow>(Flow::Fail(EvalError::TypeMismatch)),
            })),
            *expr matches Expr::Binary(l, op, rh) ==> (op == BinaryOp::Sub || op == BinaryOp::Mul
                || op == BinaryOp::Div || op == BinaryOp::Mod || op == BinaryOp::Pow || op
                == BinaryOp::Less || op == BinaryOp::Great) ==> (*l matches Expr::Literal(la)
                ==> *rh matches Expr::Literal(lb) ==> (*final(self) == *old(self) && *final(launcher) == *old(launcher) && (match (
                lit_value(la),
                lit_value(lb),
            ) {
                (Value::Num(a), Value::Num(b)) => r == (match spec_num_binop(op, a, b) {
                    Ok(v) => Ok::<Value, Flow>(v),
                    Err(e) => Err::<Value, Flow>(Flow::Fail(e)),
                }),
                _ => r == Err::<Value, Flow>(Flow::Fail(EvalError::TypeMismatch)),
            }))),
            *expr matches Expr::Unary(UnaryOp::Neg, e) ==> *e matches Expr::Literal(lv) ==> (
            *final(self) == *old(self) && (match lit_value(lv) {
                Value::Num(n) => r == Ok::<Value, Flow>(
                    Value::Num(vstd::wrapping::i64_specs::wrapping_sub(0, n)),
                ),
                _ => r == Err::<Value, Flow>(Flow::Fail(EvalError::TypeMismatch)),
            })),
            *expr matches Expr::Binary(l, BinaryOp::Equal, rh) ==> *l matches Expr::Literal(la)
                ==> *rh matches Expr::Literal(lb) ==> (*final(self) == *old(self) && r == Ok::<
                Value,
                Flow,
            >(
                Value::Bool(
                    crate::interp::spec_value_eq(
                        lit_value(la),
                        lit_value(lb),
                        store_view(old(self).vecs),
                        dict_store_view(old(self).dicts),
                        CONTAINER_DEPTH as nat,
                    ),
                ),
            )),
            *expr matches Expr::Unary(UnaryOp::Not, e) ==> *e matches Expr::Literal(lv) ==> (
                *final(self) == *old(self) && r == Ok::<Value, Flow>(
                    Value::Bool(!spec_truthy(lit_value(lv))),
                )),
            *expr matches Expr::Range { l, r: rb, inclusive } ==> *l matches Expr::Literal(la)
                ==> *rb matches Expr::Literal(lb) ==> (*final(self) == *old(self) && (match (
                la,
                lb,
            ) {
                (Lit::Num(a), Lit::Num(b)) => if inclusive {
                    if b < i64::MAX {
                        r == Ok::<Value, Flow>(Value::Range(a, (b + 1) as i64))
                    } else {
                        r == Err::<Value, Flow>(Flow::Fail(EvalError::RangeTypeError))
                    }
                } else {
                    r == Ok::<Value, Flow>(Value::Range(a, b))
                },
                _ => r == Err::<Value, Flow>(Flow::Fail(EvalError::RangeTypeError)),
            })),
            *expr matches Expr::GetField { base, index } ==> *base matches Expr::Get(name)
                ==> *index matches Expr::Literal(ix) ==> (match stack_lookup(
                old(self).stack@,
                name@,
            ) {
                Some(var) => *final(self) == *old(self) && (match var.val {
                    Value::Vec(h) => match ix {
                        Lit::Num(i) => if 0 <= i < store_view(old(self).vecs)[h as int].len() {
                            r == Ok::<Value, Flow>(store_view(old(self).vecs)[h as int][i as int])
                        } else {
                            r == Err::<Value, Flow>(Flow::Fail(EvalError::IndexOutOfBounds))
                        },
                        _ => r == Err::<Value, Flow>(Flow::Fail(EvalError::BadIndex)),
                    },
                    Value::Dict(h) => match ix {
                        Lit::String(k) => match dict_lookup(
                            dict_store_view(old(self).dicts)[h as int],
                            k@,
                        ) {
                            Some(v) => r == Ok::<Value, Flow>(v),
                            None => r == Err::<Value, Flow>(Flow::Fail(EvalError::MissingKey)),
                        },
                        _ => r == Err::<Value, Flow>(Flow::Fail(EvalError::BadIndex)),
                    },
                    _ => r == Err::<Value, Flow>(Flow::Fail(EvalError::TypeMismatch)),
                }),
                None => r == Err::<Value, Flow>(Flow::Fail(EvalError::UnboundName)) && *final(self)
                    == *old(self),
            }),
            *expr matches Expr::SetField { base, index, value } ==> *base matches Expr::Get(name)
                ==> *index matches Expr::Literal(ix) ==> (*value matches Expr::Literal(vx) ==> (
            match stack_lookup(old(self).stack@, name@) {
                Some(var) => match var.val {
                    Value::Vec(h) => match ix {
                        Lit::Num(i) => if 0 <= i < store_view(old(self).vecs)[h as int].len() {
                            &&& r == Ok::<Value, Flow>(lit_value(vx))
                            &&& store_view(final(self).vecs) == store_view(old(self).vecs).update(
                                h as int,
                                store_view(old(self).vecs)[h as int].update(i as int, lit_value(vx)),
                            )
                            &&& final(self).stack == old(self).stack
                            &&& final(self).collector == old(self).collector
                            &&& final(self).dicts == old(self).dicts
                            &&& final(self).envs == old(self).envs
                        } else {
                            r == Err::<Value, Flow>(Flow::Fail(EvalError::IndexOutOfBounds))
                                && *final(self) == *old(self)
                        },
                        _ => r == Err::<Value, Flow>(Flow::Fail(EvalError::BadIndex)) && *final(self)
                            == *old(self),
                    },
                    Value::Dict(h) => match ix {
                        Lit::String(k) => {
                            &&& r == Ok::<Value, Flow>(lit_value(vx))
                            &&& dict_lookup(dict_store_view(final(self).dicts)[h as int], k@)
                                == Some(lit_value(vx))
                            &&& forall|other: Seq<char>| other != k@ ==> dict_lookup(
                                #[trigger] dict_store_view(final(self).dicts)[h as int],
                                other,
                            ) == dict_lookup(dict_store_view(old(self).dicts)[h as int], other)
                            &&& forall|j: int| 0 <= j < old(self).nd() && j != h
                                ==> dict_store_view(final(self).dicts)[j] == dict_store_view(
                                old(self).dicts,
                            )[j]
                            &&& final(self).stack == old(self).stack
                            &&& final(self).collector == old(self).collector
                            &&& final(self).vecs == old(self).vecs
                            &&& final(self).envs == old(self).envs
                        },
                        _ => r == Err::<Value, Flow>(Flow::Fail(EvalError::BadIndex)) && *final(self)
                            == *old(self),
                    },
                    _ => r == Err::<Value, Flow>(Flow::Fail(EvalError::BadAssignTarget))
                        && *final(self) == *old(self),
                },
                None => r == Err::<Value, Flow>(Flow::Fail(EvalError::UnboundName)) && *final(self)
                    == *old(self),
            })),
            *expr matches Expr::Cmd(_) ==> (r matches Ok(v) ==> v matches Value::String(_)),
            *expr matches Expr::Cmd(c) ==> crate::eval::lit_word_cmd(c) ==> (r is Err ==> r
                == Err::<Value, Flow>(Flow::Fail(EvalError::ProcessError))),
            *expr matches Expr::Call { func, args } ==> *func matches Expr::Literal(_)
                ==> args@.len() == 0 ==> r == Err::<Value, Flow>(Flow::Fail(EvalError::NotCallable))
                && *final(self) == *old(self),
            *expr matches Expr::Interp { strings, exprs } ==> strings@.len() == exprs@.len() + 1
                ==> (forall|k: int| 0 <= k < exprs@.len() ==> (#[trigger] simple_frag_val(
                exprs@[k],
            )) is Some)
                ==> (*final(self) == *old(self) && (r matches Ok(v) && v matches Value::String(s2)
                && s2@ == spec_interleave(
                strings@.map_values(|x: String| x@),
                exprs@.map_values(
                    |e: Expr| spec_display(
                        simple_frag_val(e)->0,
                        store_view(old(self).vecs),
                        dict_store_view(old(self).dicts),
                        CONTAINER_DEPTH as nat,
                    ),
                ),
            ))),
        decreases fuel, expr, 0int,
    {
        match expr {
            Expr::Literal(l) => Ok(lit_to_value(l)),
            Expr::Get(name) => match self.stack.get(name) {
                Some(var) => {
                    proof {
                        lemma_stack_lookup_wf(self.stack@, name@, self.nv(), self.nd(), self.ne());
                    }
                    Ok(var.val)
                },
                None => Err(Flow::Fail(EvalError::UnboundName)),
            },
            Expr::Assign(name, e) => {
                let v = match self.eval(e, launcher, fuel) {
                    Ok(v) => v,
                    Err(e) => {
                        return Err(e);
                    },
                };
                let found = self.assign_var(name, clone_value(&v));
                if found {
                    Ok(v)
                } else {
                    Err(Flow::Fail(EvalError::UnboundName))
                }
            },
            Expr::Unary(op, e) => {
                let v = match self.eval(e, launcher, fuel) {
                    Ok(v) => v,
                    Err(e) => {
                        return Err(e);
                    },
                };
                match op {
                    UnaryOp::Not => Ok(Value::Bool(!v.is_truthy())),
                    UnaryOp::Neg => match v {
                        Value::Num(n) => Ok(Value::Num((0i64).wrapping_sub(n))),
                        _ => Err(Flow::Fail(EvalError::TypeMismatch)),
                    },
                    _ => Err(Flow::Fail(EvalError::TypeMismatch)),
                }
            },
            Expr::Binary(l, op, r2) => match op {
                BinaryOp::And => {
                    let lv = match self.eval(l, launcher, fuel) {
                        Ok(v) => v,
                        Err(e) => {
                            return Err(e);
                        },
                    };
                    if lv.is_truthy() {
                        self.eval(r2, launcher, fuel)
                    } else {
                        Ok(lv)
                    }
                },
                BinaryOp::Or => {
                    let lv = match self.eval(l, launcher, fuel) {
                        Ok(v) => v,
                        Err(e) => {
                            return Err(e);
                        },
                    };
                    if lv.is_truthy() {
                        Ok(lv)
                    } else {
                        self.eval(r2, launcher, fuel)
                    }
                },
                BinaryOp::Equal => {
                    let a = match self.eval(l, launcher, fuel) {
                        Ok(v) => v,
                        Err(e) => {
                            return Err(e);
                        },
                    };
                    let b = match self.eval(r2, launcher, fuel) {
                        Ok(v) => v,
                        Err(e) => {
                            return Err(e);
                        },
                    };
                    Ok(Value::Bool(self.value_eq(&a, &b, CONTAINER_DEPTH)))
                },
                BinaryOp::Sum => {
                    let a = match self.eval(l, launcher, fuel) {
                        Ok(v) => v,
                        Err(e) => {
                            return Err(e);
                        },
                    };
                    let b = match self.eval(r2, launcher, fuel) {
                        Ok(v) => v,
                        Err(e) => {
                            return Err(e);
                        },
                    };
                    match (a, b) {
                        (Value::Num(x), Value::Num(y)) => Ok(Value::Num(x.wrapping_add(y))),
                        (Value::String(x), Value::String(y)) => Ok(
                            Value::String(x.concat(y.as_str())),
                        ),
                        _ => Err(Flow::Fail(EvalError::TypeMismatch)),
                    }
                },
                _ => {
                    let a = match self.eval(l, launcher, fuel) {
                        Ok(v) => v,
                        Err(e) => {
                            return Err(e);
                        },
                    };
                    let b = match self.eval(r2, launcher, fuel) {
                        Ok(v) => v,
                        Err(e) => {
                            return Err(e);
                        },
                    };
                    match (a, b) {
                        (Value::Num(x), Value::Num(y)) => match num_binop(*op, x, y) {
                            Ok(v) => Ok(v),
                            Err(e) => Err(Flow::Fail(e)),
                        },
                        _ => Err(Flow::Fail(EvalError::TypeMismatch)),
                    }
                },
            },
            Expr::Interp { strings, exprs } => {
                let ghost pre = *self;
                let ghost all_simple = forall|k: int| 0 <= k < exprs@.len() ==> (
                #[trigger] simple_frag_val(exprs@[k])) is Some;
                let ghost disp = exprs@.map_values(
                    |e: Expr| spec_display(
                        simple_frag_val(e)->0,
                        store_view(pre.vecs),
                        dict_store_view(pre.dicts),
                        CONTAINER_DEPTH as nat,
                    ),
                );
                let mut parts: Vec<String> = Vec::new();
                let n = exprs.len();
                let mut i: usize = 0;
                while i < n
                    invariant
                        self.wf(),
                        pre.evolves_to(*self),
                        n == exprs@.len(),
                        i <= n,
                        parts@.len() == i,
                        all_simple ==> *self == pre && parts@.map_values(|x: String| x@)
                            == disp.take(i as int),
                    decreases n - i,
                {
                    proof {
                        assert(decreases_to!(*expr => *exprs));
                        assert(decreases_to!(*exprs => (*exprs)[i as int]));
                    }
                    let v = match self.eval(&exprs[i], launcher, fuel) {
                        Ok(v) => v,
                        Err(e) => {
                            return Err(e);
                        },
                    };
                    let text = self.display_value(&v, CONTAINER_DEPTH);
                    parts.push(text);
                    proof {
                        if all_simple {
                            assert(simple_frag_val(exprs@[i as int]) is Some);
                            assert(v == simple_frag_val(exprs@[i as int])->0);
                            assert(disp.take(i + 1) =~= disp.take(i as int).push(disp[i as int]));
                            assert(parts@.map_values(|x: String| x@) =~= disp.take(i + 1));
                        }
                    }
                    i = i + 1;
                }
                proof {
                    if all_simple {
                        assert(disp.take(n as int) =~= disp);
                    }
                }
                if strings.len() >= 1 && strings.len() - 1 == parts.len() {
                    Ok(Value::String(interp_concat(strings, &parts)))
                } else {
                    Err(Flow::Fail(EvalError::TypeMismatch))
                }
            },
            Expr::VecLit(exprs) => {
                let elems = match self.eval_list(exprs, launcher, fuel) {
                    Ok(vs) => vs,
                    Err(e) => {
                        return Err(e);
                    },
                };
                let h = self.new_vec(elems);
                Ok(Value::Vec(h))
            },
            Expr::DictLit(pairs) => {
                let ghost pre = *self;
                let mut entries: Vec<(String, Value)> = Vec::new();
                let n = pairs.len();
                let mut i: usize = 0;
                while i < n
                    invariant
                        self.wf(),
                        pre.evolves_to(*self),
                        n == pairs@.len(),
                        i <= n,
                        dict_entries_wf(entries@, self.nv(), self.nd(), self.ne()),
                    decreases n - i,
                {
                    let ghost mid = *self;
                    proof {
                        assert(decreases_to!(*expr => *pairs));
                        assert(decreases_to!(*pairs => (*pairs)[i as int]));
                        assert(decreases_to!((*pairs)[i as int] => (*pairs)[i as int].1));
                    }
                    let v = match self.eval(&pairs[i].1, launcher, fuel) {
                        Ok(v) => v,
                        Err(e) => {
                            return Err(e);
                        },
                    };
                    proof {
                        crate::interp::lemma_dict_entries_wf_mono(
                            entries@, mid.nv(), mid.nd(), mid.ne(), self.nv(), self.nd(), self.ne(),
                        );
                    }
                    entries.push((pairs[i].0.clone(), v));
                    i = i + 1;
                }
                let h = self.new_dict(entries);
                Ok(Value::Dict(h))
            },
            Expr::GetField { base, index } => {
                let b = match self.eval(base, launcher, fuel) {
                    Ok(v) => v,
                    Err(e) => {
                        return Err(e);
                    },
                };
                let ix = match self.eval(index, launcher, fuel) {
                    Ok(v) => v,
                    Err(e) => {
                        return Err(e);
                    },
                };
                match b {
                    Value::Vec(h) => match ix {
                        Value::Num(n) => match self.vec_get(h, n) {
                            Ok(v) => Ok(v),
                            Err(e) => Err(Flow::Fail(e)),
                        },
                        _ => Err(Flow::Fail(EvalError::BadIndex)),
                    },
                    Value::Dict(h) => match ix {
                        Value::String(key) => match self.dict_get_value(h, &key) {
                            Ok(v) => Ok(v),
                            Err(e) => Err(Flow::Fail(e)),
                        },
                        _ => Err(Flow::Fail(EvalError::BadIndex)),
                    },
                    _ => Err(Flow::Fail(EvalError::TypeMismatch)),
                }
            },
            Expr::SetField { base, index, value } => {
                let b = match self.eval(base, launcher, fuel) {
                    Ok(v) => v,
                    Err(e) => {
                        return Err(e);
                    },
                };
                let ix = match self.eval(index, launcher, fuel) {
                    Ok(v) => v,
                    Err(e) => {
                        return Err(e);
                    },
                };
                let v = match self.eval(value, launcher, fuel) {
                    Ok(v) => v,
                    Err(e) => {
                        return Err(e);
                    },
                };
                match b {
                    Value::Vec(h) => match ix {
                        Value::Num(n) => match self.vec_set(h, n, clone_value(&v)) {
                            Ok(()) => Ok(v),
                            Err(e) => Err(Flow::Fail(e)),
                        },
                        _ => Err(Flow::Fail(EvalError::BadIndex)),
                    },
                    Value::Dict(h) => match ix {
                        Value::String(key) => {
                            self.dict_set_entry(h, key, clone_value(&v));
                            Ok(v)
                        },
                        _ => Err(Flow::Fail(EvalError::BadIndex)),
                    },
                    _ => Err(Flow::Fail(EvalError::BadAssignTarget)),
                }
            },
            Expr::Range { l, r: r2, inclusive } => {
                let lv = match self.eval(l, launcher, fuel) {
                    Ok(v) => v,
                    Err(e) => {
                        return Err(e);
                    },
                };
                let rv = match self.eval(r2, launcher, fuel) {
                    Ok(v) => v,
                    Err(e) => {
                        return Err(e);
                    },
                };
                match (lv, rv) {
                    (Value::Num(a), Value::Num(b)) => {
                        if *inclusive {
                            match b.checked_add(1) {
                                Some(b2) => Ok(Value::Range(a, b2)),
                                None => Err(Flow::Fail(EvalError::RangeTypeError)),
                            }
                        } else {
                            Ok(Value::Range(a, b))
                        }
                    },
                    _ => Err(Flow::Fail(EvalError::RangeTypeError)),
                }
            },
            Expr::Cmd(c) => {
                let rc = match self.eval_cmd(c, launcher, fuel) {
                    Ok(rc) => rc,
                    Err(e) => {
                        return Err(e);
                    },
                };
                let env = self.os_env();
                match launcher.run_capture(&rc, &env) {
                    Ok(out) => Ok(Value::String(out)),
                    Err(_) => Err(Flow::Fail(EvalError::ProcessError)),
                }
            },
            Expr::Call { func, args } => {
                let fv = match self.eval(func, launcher, fuel) {
                    Ok(v) => v,
                    Err(e) => {
                        return Err(e);
                    },
                };
                let ghost midf = *self;
                let argv = match self.eval_list(args, launcher, fuel) {
                    Ok(vs) => vs,
                    Err(e) => {
                        return Err(e);
                    },
                };
                proof {
                    crate::value::lemma_value_wf_mono(
                        fv, midf.nv(), midf.nd(), midf.ne(), self.nv(), self.nd(), self.ne(),
                    );
                }
                match fv {
                    Value::Func(f) => {
                        if fuel == 0 {
                            Err(Flow::Fail(EvalError::FuelExhausted))
                        } else {
                            self.call_func(f, argv, launcher, fuel - 1)
                        }
                    },
                    _ => Err(Flow::Fail(EvalError::NotCallable)),
                }
            },
            Expr::Lambda(d) => {
                let h = self.capture_env();
                Ok(
                    Value::Func(
                        Func::User {
                            name: match &d.name {
                                Some(s) => Some(s.clone()),
                                None => None,
                            },
                            params: rc_clone(&d.params),
                            body: rc_clone(&d.body),
                            captured_env: Some(h),
                        },
                    ),
                )
            },
        }
    }

    /// Call a function value on evaluated arguments. A user function gets a
    /// fresh frame seeded from its captured environment and the parameters
    /// bound positionally; its `Return` escape becomes the call's value and
    /// falling off the end yields `Nil`. A native function dispatches to its
    /// built-in, with the bound receiver, if any, as leading argument.
    #[verifier::loop_isolation(false)]
    fn call_func<L: Launcher>(
        &mut self,
        f: Func,
        args: Vec<Value>,
        launcher: &mut L,
        fuel: u64,
    ) -> (r: Result<Value, Flow>)
        requires
            old(self).wf(),
            func_wf(f, old(self).nv(), old(self).nd(), old(self).ne()),
            vals_wf(args@, old(self).nv(), old(self).nd(), old(self).ne()),
        ensures
            final(self).wf(),
            old(self).evolves_to(*final(self)),
            r matches Ok(v) ==> value_wf(v, final(self).nv(), final(self).nd(), final(self).ne()),
            r matches Err(Flow::Esc(Escape::Return(v))) ==> value_wf(
                v,
                final(self).nv(),
                final(self).nd(),
                final(self).ne(),
            ),
            f matches Func::User { .. } ==> fuel == 0 ==> r == Err::<Value, Flow>(
                Flow::Fail(EvalError::FuelExhausted),
            ) && *final(self) == *old(self),
            f matches Func::User { params, .. } ==> fuel > 0 ==> args@.len() != params@.len()
                ==> r == Err::<Value, Flow>(Flow::Fail(EvalError::CallArityError)) && *final(self)
                == *old(self),
            f matches Func::User { .. } ==> (match r {
                Err(Flow::Esc(Escape::Return(_))) => false,
                _ => true,
            }),
            f matches Func::Native { params: Some(arity), receiver: None, .. } ==> args@.len()
                != arity ==> r == Err::<Value, Flow>(Flow::Fail(EvalError::CallArityError))
                && *final(self) == *old(self),
            f matches Func::Native { func: NativeFn::Print, params: None, receiver: None, .. }
                ==> {
                &&& r == Ok::<Value, Flow>(Value::Nil)
                &&& final(self).stack == old(self).stack
                &&& final(self).vecs == old(self).vecs
                &&& final(self).dicts == old(self).dicts
                &&& final(self).envs == old(self).envs
                &&& old(self).collector matches Some(buf) ==> (final(self).collector
                    matches Some(b2) && b2@ == buf@ + spec_join_vals(
                    args@,
                    store_view(old(self).vecs),
                    dict_store_view(old(self).dicts),
                ) + "\n"@)
                &&& old(self).collector is Some ==> *final(launcher) == *old(launcher)
                &&& old(self).collector is None ==> final(self).collector is None
            },
        decreases fuel, f, 1int,
    {
        let ghost gf = f;
        match f {
            Func::Native { params, func, receiver, .. } => {
                proof {
                    assert(func_wf(f, old(self).nv(), old(self).nd(), old(self).ne()));
                }
                let mut full_args: Vec<Value> = Vec::new();
                match receiver {
                    Some(b) => {
                        full_args.push(*b);
                    },
                    None => {},
                }
                proof {
                    assert forall|j: int| 0 <= j < full_args@.len() implies value_wf(
                        #[trigger] full_args@[j],
                        self.nv(),
                        self.nd(),
                        self.ne(),
                    ) by {}
                }
                let ghost no_receiver = (gf matches Func::Native { receiver: None, .. });
                let n = args.len();
                let mut i: usize = 0;
                while i < n
                    invariant
                        self.wf(),
                        *self == *old(self),
                        n == args@.len(),
                        i <= n,
                        vals_wf(args@, self.nv(), self.nd(), self.ne()),
                        vals_wf(full_args@, self.nv(), self.nd(), self.ne()),
                        no_receiver ==> full_args@ == args@.take(i as int),
                    decreases n - i,
                {
                    full_args.push(clone_value(&args[i]));
                    proof {
                        if no_receiver {
                            assert(full_args@ =~= args@.take(i + 1));
                        }
                    }
                    i = i + 1;
                }
                proof {
                    if no_receiver {
                        assert(args@.take(n as int) =~= args@);
                    }
                }
                proof {
                    assert(vals_wf(args@, self.nv(), self.nd(), self.ne()));
                }
                match params {
                    Some(arity) => {
                        if full_args.len() != arity {
                            return Err(Flow::Fail(EvalError::CallArityError));
                        }
                    },
                    None => {},
                }
                match func {
                    NativeFn::Print => Ok(self.native_print(&full_args, launcher)),
                }
            },
            Func::User { params, body, captured_env, .. } => {
                if fuel == 0 {
                    return Err(Flow::Fail(EvalError::FuelExhausted));
                }
                if args.len() != params.len() {
                    return Err(Flow::Fail(EvalError::CallArityError));
                }
                self.push_frame();
                match captured_env {
                    Some(h) => {
                        let ghost mid = *self;
                        let n = self.envs[h].len();
                        let mut i: usize = 0;
                        while i < n
                            invariant
                                self.wf(),
                                mid.evolves_to(*self),
                                self.envs == mid.envs,
                                self.vecs == mid.vecs,
                                self.dicts == mid.dicts,
                                self.collector == mid.collector,
                                h < self.ne(),
                                n == env_store_view(self.envs)[h as int].len(),
                                i <= n,
                                self.stack@.len() == mid.stack@.len(),
                            decreases n - i,
                        {
                            let name = self.envs[h][i].0.clone();
                            let var = clone_var(&self.envs[h][i].1);
                            proof {
                                assert(frame_wf(
                                    env_store_view(self.envs)[h as int],
                                    self.nv(),
                                    self.nd(),
                                    self.ne(),
                                ));
                                assert(var == env_store_view(self.envs)[h as int][i as int].1);
                            }
                            self.def_var(name, var);
                            i = i + 1;
                        }
                    },
                    None => {},
                }
                let ghost mid2 = *self;
                let np = params.len();
                let mut i: usize = 0;
                while i < np
                    invariant
                        self.wf(),
                        mid2.evolves_to(*self),
                        self.envs == mid2.envs,
                        self.vecs == mid2.vecs,
                        self.dicts == mid2.dicts,
                        self.collector == mid2.collector,
                        np == params@.len(),
                        i <= np,
                        np == args@.len(),
                        vals_wf(args@, self.nv(), self.nd(), self.ne()),
                        self.stack@.len() == mid2.stack@.len(),
                    decreases np - i,
                {
                    let name = params[i].clone();
                    let val = clone_value(&args[i]);
                    self.def_var(name, Var { val, is_exp: false });
                    i = i + 1;
                }
                let res = self.run_stmt(&body, launcher, fuel - 1);
                self.pop_frame();
                match res {
                    Ok(()) => Ok(Value::Nil),
                    Err(Flow::Esc(Escape::Return(v))) => Ok(v),
                    Err(other) => Err(other),
                }
            },
        }
    }

    /// Execute one statement: either it completes, or an escape signal or an
    /// error flows out. `Break` and `Continue` escape untouched with no
    /// effect; a `Let` without initializer binds `Nil` in the innermost
    /// frame; a `Block` opens a frame and closes it again on every exit path.
    #[verifier::loop_isolation(false)]
    #[verifier::rlimit(100)]
    pub fn run_stmt<L: Launcher>(&mut self, stmt: &Stmt, launcher: &mut L, fuel: u64) -> (r: Result<
        (),
        Flow,
    >)
        requires
            old(self).wf(),
        ensures
            final(self).wf(),
            old(self).evolves_to(*final(self)),
            r matches Err(Flow::Esc(Escape::Return(v))) ==> value_wf(
                v,
                final(self).nv(),
                final(self).nd(),
                final(self).ne(),
            ),
            *stmt matches Stmt::Break ==> *final(self) == *old(self) && r == Err::<(), Flow>(
                Flow::Esc(Escape::Break),
            ),
            *stmt matches Stmt::Continue ==> *final(self) == *old(self) && r == Err::<(), Flow>(
                Flow::Esc(Escape::Continue),
            ),
            *stmt matches Stmt::Let { name, init: None, is_exp } ==> r == Ok::<(), Flow>(())
                && final(self).stack@ == old(self).stack@.update(
                old(self).stack@.len() - 1,
                old(self).stack@.last().push((name, Var { val: Value::Nil, is_exp })),
            ) && final(self).collector == old(self).collector && final(self).vecs == old(
                self,
            ).vecs && final(self).dicts == old(self).dicts && final(self).envs == old(self).envs,
            *stmt matches Stmt::Let { name, init: Some(e), is_exp } ==> e matches Expr::Literal(
                lv,
            ) ==> r == Ok::<(), Flow>(()) && final(self).stack@ == old(self).stack@.update(
                old(self).stack@.len() - 1,
                old(self).stack@.last().push((name, Var { val: lit_value(lv), is_exp })),
            ) && final(self).collector == old(self).collector && final(self).vecs == old(
                self,
            ).vecs && final(self).dicts == old(self).dicts && final(self).envs == old(self).envs,
            *stmt matches Stmt::Expr(e) ==> e matches Expr::Literal(_) ==> r == Ok::<(), Flow>(())
                && *final(self) == *old(self),
            *stmt matches Stmt::Return(None) ==> r == Err::<(), Flow>(
                Flow::Esc(Escape::Return(Value::Nil)),
            ) && *final(self) == *old(self),
            *stmt matches Stmt::Return(Some(e)) ==> e matches Expr::Literal(lv) ==> r == Err::<
                (),
                Flow,
            >(Flow::Esc(Escape::Return(lit_value(lv)))) && *final(self) == *old(self),
            *stmt matches Stmt::Block(stmts) ==> stmts@.len() == 0 ==> r == Ok::<(), Flow>(())
                && same_state(*old(self), *final(self)),
            *stmt matches Stmt::Block(stmts) ==> stmts@.len() == 1 ==> (stmts@[0]
                matches Stmt::Break ==> r == Err::<(), Flow>(Flow::Esc(Escape::Break))
                && same_state(*old(self), *final(self))),
            *stmt matches Stmt::While { cond, .. } ==> non_escaping_expr(cond) ==> (match r {
                Err(Flow::Esc(Escape::Break)) => false,
                Err(Flow::Esc(Escape::Continue)) => false,
                _ => true,
            }),
            *stmt matches Stmt::For { iterated, .. } ==> non_escaping_expr(iterated) ==> (match r {
                Err(Flow::Esc(Escape::Break)) => false,
                Err(Flow::Esc(Escape::Continue)) => false,
                _ => true,
            }),
            *stmt matches Stmt::While { cond, .. } ==> cond matches Expr::Literal(lv)
                ==> !spec_truthy(lit_value(lv)) ==> r == Ok::<(), Flow>(()) && *final(self)
                == *old(self),
            *stmt matches Stmt::While { cond, then_do } ==> cond matches Expr::Literal(lv)
                ==> spec_truthy(lit_value(lv)) ==> (*then_do matches Stmt::Break ==> fuel > 0
                ==> r == Ok::<(), Flow>(()) && *final(self) == *old(self)),
            *stmt matches Stmt::If { cond, else_do: None, .. } ==> cond matches Expr::Literal(lv)
                ==> !spec_truthy(lit_value(lv)) ==> r == Ok::<(), Flow>(()) && *final(self)
                == *old(self),
            *stmt matches Stmt::If { cond, then_do, .. } ==> cond matches Expr::Literal(lv)
                ==> spec_truthy(lit_value(lv)) ==> (*then_do matches Stmt::Break ==> r == Err::<
                (),
                Flow,
            >(Flow::Esc(Escape::Break)) && *final(self) == *old(self)),
            *stmt matches Stmt::If { cond, else_do: Some(el), .. } ==> cond matches Expr::Literal(
                lv,
            ) ==> !spec_truthy(lit_value(lv)) ==> (*el matches Stmt::Break ==> r == Err::<
                (),
                Flow,
            >(Flow::Esc(Escape::Break)) && *final(self) == *old(self)),
            *stmt matches Stmt::Cmd(c) ==> lit_word_cmd(c) ==> (old(self).collector matches Some(
                buf,
            ) ==> {
                &&& r is Ok ==> (final(self).collector matches Some(b2) && exists|out: Seq<char>|
                    b2@ == buf@ + out + "\n"@)
                &&& r is Err ==> r == Err::<(), Flow>(Flow::Fail(EvalError::ProcessError))
            }),
            *stmt matches Stmt::For { rvar, iterated, .. } ==> iterated matches Expr::Range {
                l,
                r: rb,
                inclusive: false,
            } ==> *l matches Expr::Literal(Lit::Num(a)) ==> *rb matches Expr::Literal(Lit::Num(b))
                ==> rvar is Some ==> r == Err::<(), Flow>(Flow::Fail(EvalError::TypeMismatch))
                && *final(self) == *old(self),
            *stmt matches Stmt::For { rvar: None, iterated, .. } ==> iterated matches Expr::Range {
                l,
                r: rb,
                inclusive: false,
            } ==> *l matches Expr::Literal(Lit::Num(a)) ==> *rb matches Expr::Literal(Lit::Num(b))
                ==> a >= b ==> r == Ok::<(), Flow>(()) && same_state(*old(self), *final(self)),
            *stmt matches Stmt::For { rvar: None, iterated, .. } ==> iterated matches Expr::Get(
                name,
            ) ==> (stack_lookup(old(self).stack@, name@) matches Some(var) ==> ((var.val
                matches Value::Vec(_) || var.val matches Value::Dict(_)) ==> r == Err::<
                (),
                Flow,
            >(Flow::Fail(EvalError::TypeMismatch)) && *final(self) == *old(self))),
            *stmt matches Stmt::For { rvar: Some(_), iterated, .. } ==> iterated
                matches Expr::Get(name) ==> (stack_lookup(old(self).stack@, name@) matches Some(
                var,
            ) ==> (var.val matches Value::Vec(h) ==> (store_view(old(self).vecs)[h as int].len()
                == 0 ==> r == Ok::<(), Flow>(()) && same_state(*old(self), *final(self))))),
            *stmt matches Stmt::For { rvar: Some(_), iterated, .. } ==> iterated
                matches Expr::Get(name) ==> (stack_lookup(old(self).stack@, name@) matches Some(
                var,
            ) ==> (var.val matches Value::Dict(h) ==> (dict_store_view(old(self).dicts)[h as int].len()
                == 0 ==> r == Ok::<(), Flow>(()) && same_state(*old(self), *final(self))))),
        decreases fuel, stmt, 0int,
    {
        match stmt {
            Stmt::Break => Err(Flow::Esc(Escape::Break)),
            Stmt::Continue => Err(Flow::Esc(Escape::Continue)),
            Stmt::Expr(e) => match self.eval(e, launcher, fuel) {
                Ok(_) => Ok(()),
                Err(e) => Err(e),
            },
            Stmt::Let { name, init, is_exp } => {
                let v = match init {
                    Some(e) => match self.eval(e, launcher, fuel) {
                        Ok(v) => v,
                        Err(e) => {
                            return Err(e);
                        },
                    },
                    None => Value::Nil,
                };
                self.def_var(name.clone(), Var { val: v, is_exp: *is_exp });
                Ok(())
            },
            Stmt::Block(stmts) => {
                self.push_frame();
                let n = stmts.len();
                let ghost entered = *self;
                let mut i: usize = 0;
                while i < n
                    invariant
                        self.wf(),
                        entered.evolves_to(*self),
                        n == stmts@.len(),
                        i <= n,
                        i == 0 ==> *self == entered,
                        stmts@.len() == 1 ==> (stmts@[0] matches Stmt::Break ==> i == 0),
                        self.stack@.len() == entered.stack@.len(),
                        self.stack@.len() > 1,
                    decreases n - i,
                {
                    proof {
                        assert(decreases_to!(*stmt => *stmts));
                        assert(decreases_to!(*stmts => (*stmts)[i as int]));
                    }
                    match self.run_stmt(&stmts[i], launcher, fuel) {
                        Ok(()) => {},
                        Err(e) => {
                            self.pop_frame();
                            proof {
                                assert(entered.stack@.len() == old(self).stack@.len() + 1);
                                assert forall|j: int| 0 <= j < old(self).stack@.len() implies
                                    entered.stack@[j] == old(self).stack@[j] by {}
                                assert(entered.stack@.drop_last() =~= old(self).stack@);
                            }
                            return Err(e);
                        },
                    }
                    i = i + 1;
                }
                self.pop_frame();
                proof {
                    assert(entered.stack@.len() == old(self).stack@.len() + 1);
                    assert forall|j: int| 0 <= j < old(self).stack@.len() implies
                        entered.stack@[j] == old(self).stack@[j] by {}
                    assert(entered.stack@.drop_last() =~= old(self).stack@);
                }
                Ok(())
            },
            Stmt::If { cond, then_do, else_do } => {
                let c = match self.eval(cond, launcher, fuel) {
                    Ok(v) => v,
                    Err(e) => {
                        return Err(e);
                    },
                };
                if c.is_truthy() {
                    self.run_stmt(then_do, launcher, fuel)
                } else {
                    match else_do {
                        Some(el) => self.run_stmt(el, launcher, fuel),
                        None => Ok(()),
                    }
                }
            },
            Stmt::While { cond, then_do } => {
                let ghost pre = *self;
                let mut fl = fuel;
                loop
                    invariant
                        self.wf(),
                        pre.evolves_to(*self),
                        ((*cond) matches Expr::Literal(lv) && !spec_truthy(lit_value(lv)))
                            ==> *self == *old(self),
                        ((*cond) matches Expr::Literal(lv) && spec_truthy(lit_value(lv))
                            && *(*then_do) matches Stmt::Break) ==> (*self == *old(self) && fl
                            == fuel),
                    decreases fl,
                {
                    let c = match self.eval(cond, launcher, fuel) {
                        Ok(v) => v,
                        Err(e) => {
                            return Err(e);
                        },
                    };
                    if !c.is_truthy() {
                        break;
                    }
                    if fl == 0 {
                        return Err(Flow::Fail(EvalError::FuelExhausted));
                    }
                    match self.run_stmt(then_do, launcher, fuel) {
                        Ok(()) => {},
                        Err(Flow::Esc(Escape::Continue)) => {},
                        Err(Flow::Esc(Escape::Break)) => {
                            break;
                        },
                        Err(e) => {
                            return Err(e);
                        },
                    }
                    fl = fl - 1;
                }
                Ok(())
            },
            Stmt::Return(init) => {
                let v = match init {
                    Some(e) => match self.eval(e, launcher, fuel) {
                        Ok(v) => v,
                        Err(e) => {
                            return Err(e);
                        },
                    },
                    None => Value::Nil,
                };
                Err(Flow::Esc(Escape::Return(v)))
            },
            Stmt::Cmd(c) => {
                let rc = match self.eval_cmd(c, launcher, fuel) {
                    Ok(rc) => rc,
                    Err(e) => {
                        return Err(e);
                    },
                };
                let env = self.os_env();
                if self.collector.is_some() {
                    match launcher.run_capture(&rc, &env) {
                        Ok(out) => {
                            match &mut self.collector {
                                Some(buf) => {
                                    buf.append(out.as_str());
                                    buf.append("\n");
                                },
                                None => {},
                            }
                            Ok(())
                        },
                        Err(_) => Err(Flow::Fail(EvalError::ProcessError)),
                    }
                } else {
                    match launcher.run_pipe(&rc, &env) {
                        Ok(()) => Ok(()),
                        Err(_) => Err(Flow::Fail(EvalError::ProcessError)),
                    }
                }
            },
            Stmt::For { lvar, rvar, iterated, each_do } => {
                let it = match self.eval(iterated, launcher, fuel) {
                    Ok(v) => v,
                    Err(e) => {
                        return Err(e);
                    },
                };
                match it {
                    Value::Range(l, r2) => {
                        if rvar.is_some() {
                            return Err(Flow::Fail(EvalError::TypeMismatch));
                        }
                        let ghost before_push = *self;
                        self.push_frame();
                        self.def_var(lvar.clone(), Var { val: Value::Nil, is_exp: false });
                        let items = range_items(l, r2);
                        let ghost entered = *self;
                        let n = items.len();
                        let mut i: usize = 0;
                        while i < n
                            invariant
                                self.wf(),
                                entered.evolves_to(*self),
                                n == items@.len(),
                                i <= n,
                                n == 0 ==> *self == entered,
                                self.stack@.len() == entered.stack@.len(),
                                self.stack@.len() > 1,
                            decreases n - i,
                        {
                            let _found = self.assign_var(lvar, Value::Num(items[i]));
                            match self.run_stmt(each_do, launcher, fuel) {
                                Ok(()) => {},
                                Err(Flow::Esc(Escape::Continue)) => {},
                                Err(Flow::Esc(Escape::Break)) => {
                                    break;
                                },
                                Err(e) => {
                                    self.pop_frame();
                                    return Err(e);
                                },
                            }
                            i = i + 1;
                        }
                        self.pop_frame();
                        proof {
                            if items@.len() == 0 {
                                assert(entered.stack@.len() == before_push.stack@.len() + 1);
                                assert forall|j: int| 0 <= j < before_push.stack@.len() implies
                                    entered.stack@[j] == before_push.stack@[j] by {}
                                assert(entered.stack@.drop_last() =~= before_push.stack@);
                                assert(self.stack@ =~= before_push.stack@);
                            }
                        }
                        Ok(())
                    },
                    Value::Vec(h) => {
                        let rv = match rvar {
                            Some(rv) => rv,
                            None => {
                                return Err(Flow::Fail(EvalError::TypeMismatch));
                            },
                        };
                        if h >= self.vecs.len() {
                            return Err(Flow::Fail(EvalError::TypeMismatch));
                        }
                        let ghost before_push = *self;
                        let items = self.vec_items(h);
                        let n = items.len();
                        proof {
                            assert(vals_wf(items@, self.nv(), self.nd(), self.ne()));
                        }
                        self.push_frame();
                        self.def_var(lvar.clone(), Var { val: Value::Nil, is_exp: false });
                        self.def_var(rv.clone(), Var { val: Value::Nil, is_exp: false });
                        let ghost entered = *self;
                        let mut i: usize = 0;
                        while i < n
                            invariant
                                self.wf(),
                                entered.evolves_to(*self),
                                n == items@.len(),
                                i <= n,
                                n == 0 ==> *self == entered,
                                vals_wf(items@, self.nv(), self.nd(), self.ne()),
                                self.stack@.len() == entered.stack@.len(),
                                self.stack@.len() > 1,
                            decreases n - i,
                        {
                            let ghost mid = *self;
                            let _f1 = self.assign_var(lvar, Value::Num(#[verifier::truncate] (i as i64)));
                            let _f2 = self.assign_var(rv, clone_value(&items[i]));
                            match self.run_stmt(each_do, launcher, fuel) {
                                Ok(()) => {},
                                Err(Flow::Esc(Escape::Continue)) => {},
                                Err(Flow::Esc(Escape::Break)) => {
                                    break;
                                },
                                Err(e) => {
                                    self.pop_frame();
                                    return Err(e);
                                },
                            }
                            proof {
                                crate::interp::lemma_vals_wf_mono(
                                    items@, mid.nv(), mid.nd(), mid.ne(), self.nv(), self.nd(), self.ne(),
                                );
                            }
                            i = i + 1;
                        }
                        self.pop_frame();
                        proof {
                            if items@.len() == 0 {
                                assert(entered.stack@.len() == before_push.stack@.len() + 1);
                                assert forall|j: int| 0 <= j < before_push.stack@.len() implies
                                    entered.stack@[j] == before_push.stack@[j] by {}
                                assert(entered.stack@.drop_last() =~= before_push.stack@);
                                assert(self.stack@ =~= before_push.stack@);
                            }
                        }
                        Ok(())
                    },
                    Value::Dict(h) => {
                        let rv = match rvar {
                            Some(rv) => rv,
                            None => {
                                return Err(Flow::Fail(EvalError::TypeMismatch));
                            },
                        };
                        if h >= self.dicts.len() {
                            return Err(Flow::Fail(EvalError::TypeMismatch));
                        }
                        let ghost before_push = *self;
                        let items = self.dict_items(h);
                        let n = items.len();
                        proof {
                            assert(dict_entries_wf(items@, self.nv(), self.nd(), self.ne()));
                        }
                        self.push_frame();
                        self.def_var(lvar.clone(), Var { val: Value::Nil, is_exp: false });
                        self.def_var(rv.clone(), Var { val: Value::Nil, is_exp: false });
                        let ghost entered = *self;
                        let mut i: usize = 0;
                        while i < n
                            invariant
                                self.wf(),
                                entered.evolves_to(*self),
                                n == items@.len(),
                                i <= n,
                                n == 0 ==> *self == entered,
                                dict_entries_wf(items@, self.nv(), self.nd(), self.ne()),
                                self.stack@.len() == entered.stack@.len(),
                                self.stack@.len() > 1,
                            decreases n - i,
                        {
                            let ghost mid = *self;
                            let _f1 = self.assign_var(lvar, Value::String(items[i].0.clone()));
                            let _f2 = self.assign_var(rv, clone_value(&items[i].1));
                            match self.run_stmt(each_do, launcher, fuel) {
                                Ok(()) => {},
                                Err(Flow::Esc(Escape::Continue)) => {},
                                Err(Flow::Esc(Escape::Break)) => {
                                    break;
                                },
                                Err(e) => {
                                    self.pop_frame();
                                    return Err(e);
                                },
                            }
                            proof {
                                crate::interp::lemma_dict_entries_wf_mono(
                                    items@, mid.nv(), mid.nd(), mid.ne(), self.nv(), self.nd(), self.ne(),
                                );
                            }
                            i = i + 1;
                        }
                        self.pop_frame();
                        proof {
                            if items@.len() == 0 {
                                assert(entered.stack@.len() == before_push.stack@.len() + 1);
                                assert forall|j: int| 0 <= j < before_push.stack@.len() implies
                                    entered.stack@[j] == before_push.stack@[j] by {}
                                assert(entered.stack@.drop_last() =~= before_push.stack@);
                                assert(self.stack@ =~= before_push.stack@);
                            }
                        }
                        Ok(())
                    },
                    _ => Err(Flow::Fail(EvalError::TypeMismatch)),
                }
            },
        }
    }
}

} // verus!
