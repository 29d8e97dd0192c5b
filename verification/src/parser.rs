//! The command parser: precedence climbing over the fixed binding-power
//! table of the command operators. One recursive routine builds the whole
//! operator tree, with correct precedence across tiers and left-associative
//! grouping inside a tier; a recursive atom reader collects the
//! space-separated words.

use vstd::prelude::*;
use std::rc::Rc;
use crate::ast::{Cmd, CmdOp, Expr, Lit};
use crate::token::{binding_power, spec_binding_power, Token, TokenKind};
use crate::interp::cmd_ops;
use crate::value::rc_clone;

verus! {

/// The binding powers of a command operator: redirections (7, 8), pipes
/// (5, 6), `&&` (3, 4), `||` (1, 2). Left one below right makes each
/// operator left-associative with itself.
pub open spec fn op_bp(op: CmdOp) -> (u8, u8) {
    match op {
        CmdOp::Or => (1u8, 2u8),
        CmdOp::And => (3u8, 4u8),
        CmdOp::OutPipe | CmdOp::ErrPipe | CmdOp::AllPipe => (5u8, 6u8),
        _ => (7u8, 8u8),
    }
}

/// The shape a tree built with minimum binding power `min_bp` has: every
/// operator binds at least that strongly; each right subtree was built with
/// the operator's right power as its minimum, so it never holds an operator
/// of the same tier or weaker at its top; and along the left spine each
/// operator binds more weakly than the right power of the operator under it,
/// which is exactly what the climb's left-to-right accumulation maintains.
/// Together these pin the grouping: same-tier chains associate to the left,
/// and a weaker operator stands only above a tighter one.
pub open spec fn cmd_respects(c: Cmd, min_bp: int) -> bool
    decreases c,
{
    match c {
        Cmd::Atom(_) => true,
        Cmd::Op(l, op, r) => {
            &&& op_bp(op).0 >= min_bp
            &&& (*l matches Cmd::Op(_, lop, _) ==> op_bp(op).0 < op_bp(lop).1)
            &&& cmd_respects(*l, min_bp)
            &&& cmd_respects(*r, op_bp(op).1 as int)
        },
    }
}

/// Where a parse stops: either the stream's end, or a newline, or an
/// operator that binds more weakly than the parse's minimum. In particular a
/// parse never stops in front of word text or a space.
pub open spec fn parse_stop(tokens: Seq<Token>, pos: int, min_bp: int) -> bool {
    pos < tokens.len() ==> (tokens[pos].kind matches TokenKind::Newline || (spec_binding_power(
        tokens[pos].kind,
    ) matches Some(bp) && bp.0 < min_bp))
}

/// The command operator a token stands for, if it is an operator token.
pub open spec fn spec_cmd_op_of(kind: TokenKind) -> Option<CmdOp> {
    match kind {
        TokenKind::PipePipe => Some(CmdOp::Or),
        TokenKind::AmperAmper => Some(CmdOp::And),
        TokenKind::Pipe => Some(CmdOp::OutPipe),
        TokenKind::StarPipe => Some(CmdOp::ErrPipe),
        TokenKind::AmperPipe => Some(CmdOp::AllPipe),
        TokenKind::Great => Some(CmdOp::OutWrite),
        TokenKind::StarGreat => Some(CmdOp::ErrWrite),
        TokenKind::AmperGreat => Some(CmdOp::AllWrite),
        TokenKind::Less => Some(CmdOp::OutRead),
        TokenKind::StarLess => Some(CmdOp::ErrRead),
        TokenKind::AmperLess => Some(CmdOp::AllRead),
        _ => None,
    }
}

/// A token that contributes a fragment to a word: plain text, a quoted
/// string, or an interpolated expression.
pub open spec fn word_token(kind: TokenKind) -> bool {
    match kind {
        TokenKind::Text => true,
        TokenKind::Quoted => true,
        TokenKind::Interp(_) => true,
        _ => false,
    }
}

/// The fragment a word token turns into: an interpolated token hands over
/// its already-parsed expression, any other word token becomes the string
/// literal of its lexeme.
pub open spec fn frag_matches(f: Rc<Expr>, t: Token) -> bool {
    match t.kind {
        TokenKind::Interp(e) => f == e,
        TokenKind::Text => f == Expr::Literal(Lit::String(t.lexeme)),
        TokenKind::Quoted => f == Expr::Literal(Lit::String(t.lexeme)),
        _ => false,
    }
}

/// Position `j` of a segment holds the fragment of the word token at
/// `base + j`.
pub open spec fn word_frag_at(seg: Seq<Rc<Expr>>, tokens: Seq<Token>, base: int, j: int) -> bool {
    word_token(tokens[base + j].kind) && frag_matches(seg[j], tokens[base + j])
}

/// The open segment `seg`, followed by the segments `rest`, is what reading
/// `tokens[from..to)` yields: the open segment's fragments match the leading
/// word tokens one for one, a space closes it (it must be complete by then),
/// and the remaining range yields `rest`.
pub open spec fn seg_and_rest_match(
    seg: Seq<Rc<Expr>>,
    rest: Seq<Vec<Rc<Expr>>>,
    tokens: Seq<Token>,
    from: int,
    to: int,
) -> bool
    decreases to - from, 0int,
{
    if from >= to {
        seg.len() == 0 && rest.len() == 0
    } else if word_token(tokens[from].kind) {
        seg.len() > 0 && frag_matches(seg[0], tokens[from]) && seg_and_rest_match(
            seg.subrange(1, seg.len() as int),
            rest,
            tokens,
            from + 1,
            to,
        )
    } else if (tokens[from].kind matches TokenKind::Space) {
        seg.len() == 0 && atom_matches(rest, tokens, from + 1, to)
    } else {
        false
    }
}

/// The segments `segs` are what reading `tokens[from..to)` yields: one
/// segment per maximal run of word tokens, each segment the in-order
/// fragments of its run, spaces separating (and otherwise ignored), and
/// nothing else in the range.
pub open spec fn atom_matches(
    segs: Seq<Vec<Rc<Expr>>>,
    tokens: Seq<Token>,
    from: int,
    to: int,
) -> bool
    decreases to - from, 1int,
{
    if from >= to {
        segs.len() == 0
    } else if word_token(tokens[from].kind) {
        segs.len() > 0 && seg_and_rest_match(
            segs[0]@,
            segs.subrange(1, segs.len() as int),
            tokens,
            from,
            to,
        )
    } else if (tokens[from].kind matches TokenKind::Space) {
        atom_matches(segs, tokens, from + 1, to)
    } else {
        false
    }
}

/// The tree `c` is what parsing `tokens[from..to)` yields: an atom covers
/// its whole range as `atom_matches` says, and an operator node splits its
/// range at the token of its own operator, each side parsed from its part.
pub open spec fn cmd_matches(c: Cmd, tokens: Seq<Token>, from: int, to: int) -> bool
    decreases c,
{
    match c {
        Cmd::Atom(segs) => atom_matches(segs@, tokens, from, to),
        Cmd::Op(l, op, r) => exists|k: int|
            from <= k < to && (#[trigger] spec_cmd_op_of(tokens[k].kind)) == Some(op)
                && cmd_matches(*l, tokens, from, k) && cmd_matches(*r, tokens, k + 1, to),
    }
}

/// A token has a command operator exactly when it has binding powers.
proof fn lemma_op_of_bp(k: TokenKind)
    ensures
        (spec_cmd_op_of(k) is Some) == (spec_binding_power(k) is Some),
{
}

/// The operators of the op-tokens in `tokens[from..to)`, in stream order.
pub open spec fn consumed_ops(tokens: Seq<Token>, from: int, to: int) -> Seq<CmdOp>
    decreases to - from,
{
    if from < 0 || from >= to || to > tokens.len() {
        Seq::empty()
    } else {
        match spec_cmd_op_of(tokens[from].kind) {
            Some(op) => seq![op] + consumed_ops(tokens, from + 1, to),
            None => consumed_ops(tokens, from + 1, to),
        }
    }
}

/// Extending a consumed range by one token appends that token's operator, if
/// it is one.
proof fn lemma_consumed_snoc(tokens: Seq<Token>, from: int, to: int)
    requires
        0 <= from <= to < tokens.len(),
    ensures
        consumed_ops(tokens, from, to + 1) == consumed_ops(tokens, from, to) + (
        match spec_cmd_op_of(tokens[to].kind) {
            Some(op) => seq![op],
            None => Seq::empty(),
        }),
    decreases to - from,
{
    if from == to {
        assert(consumed_ops(tokens, from, to) =~= Seq::empty());
        assert(consumed_ops(tokens, to + 1, to + 1) =~= Seq::<CmdOp>::empty());
        match spec_cmd_op_of(tokens[to].kind) {
            Some(op) => {
                assert(consumed_ops(tokens, from, to + 1) =~= seq![op]);
                assert(consumed_ops(tokens, from, to) + seq![op] =~= seq![op]);
            },
            None => {
                assert(consumed_ops(tokens, from, to + 1) =~= consumed_ops(tokens, to + 1, to + 1));
                assert(consumed_ops(tokens, from, to) + Seq::<CmdOp>::empty() =~= Seq::<
                    CmdOp,
                >::empty());
            },
        }
    } else {
        lemma_consumed_snoc(tokens, from + 1, to);
        match spec_cmd_op_of(tokens[from].kind) {
            Some(op) => {
                assert(consumed_ops(tokens, from, to + 1) =~= consumed_ops(tokens, from, to) + (
                match spec_cmd_op_of(tokens[to].kind) {
                    Some(op2) => seq![op2],
                    None => Seq::empty(),
                }));
            },
            None => {
                assert(consumed_ops(tokens, from, to + 1) =~= consumed_ops(tokens, from, to) + (
                match spec_cmd_op_of(tokens[to].kind) {
                    Some(op2) => seq![op2],
                    None => Seq::empty(),
                }));
            },
        }
    }
}

/// Consumed ranges concatenate.
proof fn lemma_consumed_concat(tokens: Seq<Token>, a: int, b: int, c: int)
    requires
        0 <= a <= b <= c <= tokens.len(),
    ensures
        consumed_ops(tokens, a, b) + consumed_ops(tokens, b, c) == consumed_ops(tokens, a, c),
    decreases b - a,
{
    if a == b {
        assert(consumed_ops(tokens, a, b) =~= Seq::empty());
        assert(consumed_ops(tokens, a, b) + consumed_ops(tokens, b, c) =~= consumed_ops(
            tokens,
            b,
            c,
        ));
    } else {
        lemma_consumed_concat(tokens, a + 1, b, c);
        match spec_cmd_op_of(tokens[a].kind) {
            Some(op) => {
                assert(consumed_ops(tokens, a, b) + consumed_ops(tokens, b, c) =~= consumed_ops(
                    tokens,
                    a,
                    c,
                ));
            },
            None => {},
        }
    }
}

/// A range of word tokens holds no operators.
proof fn lemma_words_no_ops(tokens: Seq<Token>, from: int, to: int)
    requires
        0 <= from <= to <= tokens.len(),
        forall|p: int| from <= p < to ==> word_token((#[trigger] tokens[p]).kind),
    ensures
        consumed_ops(tokens, from, to) == Seq::<CmdOp>::empty(),
    decreases to - from,
{
    if from < to {
        lemma_words_no_ops(tokens, from + 1, to);
    }
}

/// A complete segment over the word run `tokens[from..mid)`, followed by
/// whatever `tokens[mid..to)` yields (starting, if anything, at a space), is
/// what the whole range yields.
proof fn lemma_seg_compose(
    seg: Seq<Rc<Expr>>,
    rest: Seq<Vec<Rc<Expr>>>,
    tokens: Seq<Token>,
    from: int,
    mid: int,
    to: int,
)
    requires
        0 <= from <= mid <= to <= tokens.len(),
        seg.len() == mid - from,
        forall|j: int| 0 <= j < seg.len() ==> #[trigger] word_frag_at(seg, tokens, from, j),
        mid < to ==> tokens[mid].kind matches TokenKind::Space,
        atom_matches(rest, tokens, mid, to),
    ensures
        seg_and_rest_match(seg, rest, tokens, from, to),
    decreases mid - from,
{
    if from == mid {
        if mid >= to {
            assert(rest.len() == 0);
        }
    } else {
        assert(word_frag_at(seg, tokens, from, 0));
        assert(word_token(tokens[from].kind) && frag_matches(seg[0], tokens[from]));
        let tail = seg.subrange(1, seg.len() as int);
        assert forall|j: int| 0 <= j < tail.len() implies #[trigger] word_frag_at(
            tail,
            tokens,
            from + 1,
            j,
        ) by {
            assert(word_frag_at(seg, tokens, from, j + 1));
            assert(tail[j] == seg[j + 1]);
        }
        lemma_seg_compose(tail, rest, tokens, from + 1, mid, to);
    }
}

/// The command operator a token stands for, with the same binding powers the
/// token has.
pub fn cmd_op_of(kind: &TokenKind) -> (r: Option<CmdOp>)
    ensures
        r == spec_cmd_op_of(*kind),
        (r is Some) == (spec_binding_power(*kind) is Some),
        r matches Some(op) ==> spec_binding_power(*kind) matches Some(bp) && bp.0 == op_bp(op).0
            && bp.1 == op_bp(op).1,
{
    match kind {
        TokenKind::PipePipe => Some(CmdOp::Or),
        TokenKind::AmperAmper => Some(CmdOp::And),
        TokenKind::Pipe => Some(CmdOp::OutPipe),
        TokenKind::StarPipe => Some(CmdOp::ErrPipe),
        TokenKind::AmperPipe => Some(CmdOp::AllPipe),
        TokenKind::Great => Some(CmdOp::OutWrite),
        TokenKind::StarGreat => Some(CmdOp::ErrWrite),
        TokenKind::AmperGreat => Some(CmdOp::AllWrite),
        TokenKind::Less => Some(CmdOp::OutRead),
        TokenKind::StarLess => Some(CmdOp::ErrRead),
        TokenKind::AmperLess => Some(CmdOp::AllRead),
        _ => None,
    }
}

/// The command parser's cursor over the token stream.
pub struct Parser {
    pub tokens: Vec<Token>,
    pub pos: usize,
}

impl Parser {
    pub fn new(tokens: Vec<Token>) -> (r: Parser)
        ensures
            r.tokens == tokens,
            r.pos == 0,
    {
        Parser { tokens, pos: 0 }
    }

    /// Read one word segment: the maximal run of word tokens at the cursor,
    /// each turned into its fragment.
    fn parse_segment(&mut self) -> (seg: Vec<Rc<Expr>>)
        requires
            old(self).pos < old(self).tokens@.len(),
            word_token(old(self).tokens@[old(self).pos as int].kind),
        ensures
            final(self).tokens == old(self).tokens,
            old(self).pos < final(self).pos,
            final(self).pos <= final(self).tokens@.len(),
            seg@.len() == final(self).pos - old(self).pos,
            forall|j: int| 0 <= j < seg@.len() ==> #[trigger] word_frag_at(
                seg@,
                final(self).tokens@,
                old(self).pos as int,
                j,
            ),
            final(self).pos < final(self).tokens@.len() ==> !word_token(
                final(self).tokens@[final(self).pos as int].kind,
            ),
    {
        let ghost p0 = self.pos;
        let n = self.tokens.len();
        let mut seg: Vec<Rc<Expr>> = Vec::new();
        loop
            invariant
                p0 == old(self).pos,
                p0 <= self.pos <= n,
                n == self.tokens@.len(),
                self.tokens == old(self).tokens,
                word_token(self.tokens@[p0 as int].kind),
                seg@.len() == self.pos - p0,
                forall|j: int| 0 <= j < seg@.len() ==> #[trigger] word_frag_at(
                    seg@,
                    self.tokens@,
                    p0 as int,
                    j,
                ),
            ensures
                p0 == old(self).pos,
                p0 <= self.pos <= n,
                n == self.tokens@.len(),
                self.tokens == old(self).tokens,
                seg@.len() == self.pos - p0,
                forall|j: int| 0 <= j < seg@.len() ==> #[trigger] word_frag_at(
                    seg@,
                    self.tokens@,
                    p0 as int,
                    j,
                ),
                self.pos < n ==> !word_token(self.tokens@[self.pos as int].kind),
            decreases n - self.pos,
        {
            if self.pos >= n {
                break;
            }
            let frag: Rc<Expr> = match &self.tokens[self.pos].kind {
                TokenKind::Interp(e) => rc_clone(e),
                TokenKind::Text => Rc::new(
                    Expr::Literal(Lit::String(self.tokens[self.pos].lexeme.clone())),
                ),
                TokenKind::Quoted => Rc::new(
                    Expr::Literal(Lit::String(self.tokens[self.pos].lexeme.clone())),
                ),
                _ => {
                    break;
                },
            };
            proof {
                assert(word_token(self.tokens@[self.pos as int].kind));
                assert(frag_matches(frag, self.tokens@[self.pos as int]));
            }
            let ghost seg0 = seg@;
            seg.push(frag);
            proof {
                assert forall|j: int| 0 <= j < seg@.len() implies #[trigger] word_frag_at(
                    seg@,
                    self.tokens@,
                    p0 as int,
                    j,
                ) by {
                    if j < seg0.len() {
                        assert(word_frag_at(seg0, self.tokens@, p0 as int, j));
                        assert(seg@[j] == seg0[j]);
                    } else {
                        assert(seg@[j] == frag);
                        assert(p0 + j == self.pos as int);
                    }
                }
            }
            self.pos = self.pos + 1;
        }
        seg
    }

    /// Read one atom: the space-separated word segments at the cursor, up to
    /// (and not including) the first operator or newline, or the stream's
    /// end. What comes back is exactly what the consumed range holds
    /// (`atom_matches`), and the range holds no operators.
    fn parse_atom(&mut self) -> (segs: Vec<Vec<Rc<Expr>>>)
        requires
            old(self).pos <= old(self).tokens@.len(),
        ensures
            final(self).tokens == old(self).tokens,
            old(self).pos <= final(self).pos,
            final(self).pos <= final(self).tokens@.len(),
            atom_matches(segs@, final(self).tokens@, old(self).pos as int, final(self).pos as int),
            consumed_ops(final(self).tokens@, old(self).pos as int, final(self).pos as int)
                == Seq::<CmdOp>::empty(),
            final(self).pos < final(self).tokens@.len() ==> (
            final(self).tokens@[final(self).pos as int].kind matches TokenKind::Newline
                || spec_binding_power(final(self).tokens@[final(self).pos as int].kind) is Some),
            final(self).pos > old(self).pos ==> (
            final(self).tokens@[old(self).pos as int].kind matches TokenKind::Space || word_token(
                final(self).tokens@[old(self).pos as int].kind,
            )),
        decreases self.tokens@.len() - self.pos,
    {
        let ghost p0 = self.pos;
        let n = self.tokens.len();
        if self.pos >= n {
            let segs: Vec<Vec<Rc<Expr>>> = Vec::new();
            proof {
                assert(consumed_ops(self.tokens@, p0 as int, p0 as int) =~= Seq::<CmdOp>::empty());
            }
            return segs;
        }
        let is_space = match &self.tokens[self.pos].kind {
            TokenKind::Space => true,
            _ => false,
        };
        if is_space {
            self.pos = self.pos + 1;
            let segs = self.parse_atom();
            proof {
                assert(spec_cmd_op_of(self.tokens@[p0 as int].kind) is None);
                assert(consumed_ops(self.tokens@, p0 as int, self.pos as int) =~= Seq::<
                    CmdOp,
                >::empty());
            }
            return segs;
        }
        let is_word = match &self.tokens[self.pos].kind {
            TokenKind::Text => true,
            TokenKind::Quoted => true,
            TokenKind::Interp(_) => true,
            _ => false,
        };
        if !is_word {
            let segs: Vec<Vec<Rc<Expr>>> = Vec::new();
            proof {
                lemma_op_of_bp(self.tokens@[self.pos as int].kind);
                assert(consumed_ops(self.tokens@, p0 as int, p0 as int) =~= Seq::<CmdOp>::empty());
            }
            return segs;
        }
        let seg = self.parse_segment();
        let ghost mid = self.pos;
        let mut segs = self.parse_atom();
        let ghost rest = segs@;
        segs.insert(0, seg);
        proof {
            let toks = self.tokens@;
            let to = self.pos as int;
            if mid < to {
                assert(toks[mid as int].kind matches TokenKind::Space);
            }
            lemma_seg_compose(seg@, rest, toks, p0 as int, mid as int, to);
            assert(segs@[0] == seg);
            assert(segs@.subrange(1, segs@.len() as int) =~= rest);
            assert(atom_matches(segs@, toks, p0 as int, to));
            assert forall|p: int| p0 <= p < mid implies word_token((#[trigger] toks[p]).kind) by {
                assert(word_frag_at(seg@, toks, p0 as int, p - p0));
            }
            lemma_words_no_ops(toks, p0 as int, mid as int);
            lemma_consumed_concat(toks, p0 as int, mid as int, to);
            assert(consumed_ops(toks, p0 as int, to) =~= Seq::<CmdOp>::empty());
        }
        segs
    }

    /// Parse one command with precedence climbing: first an atom of
    /// space-separated word segments, then, as long as the next operator
    /// binds at least as strongly as `min_bp`, consume it and parse its
    /// right-hand side with the operator's right power as the new minimum.
    /// The tree that comes back has the `cmd_respects` shape for `min_bp`,
    /// matches the consumed token range word for word and operator for
    /// operator (`cmd_matches`, `cmd_ops`), and the cursor stops at the
    /// stream's end or on the first token that is no command operator or
    /// binds more weakly.
    pub fn parse_cmd(&mut self, min_bp: u8) -> (c: Cmd)
        requires
            old(self).pos <= old(self).tokens@.len(),
        ensures
            final(self).tokens == old(self).tokens,
            old(self).pos <= final(self).pos,
            final(self).pos <= final(self).tokens@.len(),
            cmd_respects(c, min_bp as int),
            parse_stop(final(self).tokens@, final(self).pos as int, min_bp as int),
            cmd_ops(c) == consumed_ops(final(self).tokens@, old(self).pos as int, final(self).pos as int),
            cmd_matches(c, final(self).tokens@, old(self).pos as int, final(self).pos as int),
        decreases self.tokens@.len() - self.pos, 0int,
    {
        let ghost p0 = self.pos;
        let n = self.tokens.len();
        let segments = self.parse_atom();
        let mut lhs = Cmd::Atom(segments);
        loop
            invariant
                p0 == old(self).pos,
                p0 <= self.pos <= n,
                n == self.tokens@.len(),
                self.tokens == old(self).tokens,
                cmd_respects(lhs, min_bp as int),
                cmd_matches(lhs, self.tokens@, p0 as int, self.pos as int),
                lhs matches Cmd::Op(_, lop, _) ==> parse_stop(
                    self.tokens@,
                    self.pos as int,
                    op_bp(lop).1 as int,
                ),
                cmd_ops(lhs) == consumed_ops(self.tokens@, p0 as int, self.pos as int),
                self.pos < n ==> (self.tokens@[self.pos as int].kind matches TokenKind::Newline
                    || spec_binding_power(self.tokens@[self.pos as int].kind) is Some),
            ensures
                cmd_respects(lhs, min_bp as int),
                self.pos <= n,
                p0 == old(self).pos,
                self.tokens == old(self).tokens,
                cmd_ops(lhs) == consumed_ops(self.tokens@, p0 as int, self.pos as int),
                cmd_matches(lhs, self.tokens@, p0 as int, self.pos as int),
                parse_stop(self.tokens@, self.pos as int, min_bp as int),
            decreases n - self.pos, 1int,
        {
            if self.pos >= n {
                break;
            }
            let bp = match binding_power(&self.tokens[self.pos].kind) {
                Some(bp) => bp,
                None => {
                    break;
                },
            };
            if bp.0 < min_bp {
                break;
            }
            let op = match cmd_op_of(&self.tokens[self.pos].kind) {
                Some(op) => op,
                None => {
                    break;
                },
            };
            let ghost opat = self.pos;
            proof {
                lemma_consumed_snoc(self.tokens@, p0 as int, self.pos as int);
            }
            self.pos = self.pos + 1;
            let rhs = self.parse_cmd(bp.1);
            proof {
                lemma_consumed_concat(self.tokens@, p0 as int, opat + 1, self.pos as int);
                assert(cmd_ops(Cmd::Op(Box::new(lhs), op, Box::new(rhs))) =~= consumed_ops(
                    self.tokens@,
                    p0 as int,
                    self.pos as int,
                ));
                assert(spec_cmd_op_of(self.tokens@[opat as int].kind) == Some(op));
                assert(cmd_matches(
                    Cmd::Op(Box::new(lhs), op, Box::new(rhs)),
                    self.tokens@,
                    p0 as int,
                    self.pos as int,
                ));
            }
            lhs = Cmd::Op(Box::new(lhs), op, Box::new(rhs));
        }
        lhs
    }
}


} // verus!
