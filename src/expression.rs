//! An expression: its source tokens, its postfix program and its last result.
use crate::catalog::{EvalContext, FuCoOpDef};
use crate::error::{LexErr, ParErr, RpnError};
use crate::lexer::{get_token, kinds_and_texts, lex_all, lexeme_ok, user_defs};
use crate::token::{Def, TokKind, Token, TokenView};
use crate::value::{chars_of, decimal_digits, digits_of, string_of, value_text, EVar};
use vstd::prelude::*;

verus! {

pub struct Expression<'a> {
    /// The postfix program.
    pub parse_stack: Vec<Token>,
    /// The tokens, in source order.
    pub tokens: Vec<Token>,
    pub tokenized: bool,
    pub parsed: bool,
    /// The outcome of the last tokenize, parse or evaluation.
    pub res: Result<Option<EVar>, RpnError>,
    pub context: Option<&'a EvalContext>,
}

/// The change in parenthesis depth that a token brings.
pub open spec fn depth_step(t: Token) -> int {
    if t.kind == TokKind::OPar {
        1
    } else if t.kind == TokKind::CPar {
        -1
    } else {
        0
    }
}

/// The parenthesis depth after a sequence of tokens.
pub open spec fn depth(ts: Seq<Token>) -> int
    decreases ts.len(),
{
    if ts.len() == 0 {
        0
    } else {
        depth(ts.drop_last()) + depth_step(ts.last())
    }
}

/// Every `)` closes an earlier `(`, and every `(` is closed.
pub open spec fn balanced(ts: Seq<Token>) -> bool {
    &&& forall|k: int| 0 <= k <= ts.len() ==> depth(#[trigger] ts.subrange(0, k)) >= 0
    &&& depth(ts) == 0
}

/// The number of `(` in a sequence of tokens.
pub open spec fn opar_count(ts: Seq<Token>) -> int
    decreases ts.len(),
{
    if ts.len() == 0 {
        0
    } else {
        opar_count(ts.drop_last()) + if ts.last().kind == TokKind::OPar {
            1int
        } else {
            0
        }
    }
}

/// What the postfix program holds: no parenthesis, and each operator with the operand
/// count its form gives it.
pub open spec fn postfix_token_ok(t: Token) -> bool {
    &&& t.kind != TokKind::OPar && t.kind != TokKind::CPar && t.kind != TokKind::Void
    &&& t.kind == TokKind::Operator ==> t.nb_param == if t.unary {
        1u32
    } else {
        2u32
    }
}

proof fn lemma_opar_count_nonneg(ts: Seq<Token>)
    ensures
        opar_count(ts) >= 0,
    decreases ts.len(),
{
    if ts.len() > 0 {
        lemma_opar_count_nonneg(ts.drop_last());
    }
}

proof fn lemma_push_counts(ts: Seq<Token>, t: Token)
    ensures
        opar_count(ts.push(t)) == opar_count(ts) + if t.kind == TokKind::OPar {
            1int
        } else {
            0
        },
        depth(ts.push(t)) == depth(ts) + depth_step(t),
{
    assert(ts.push(t).drop_last() =~= ts);
}

impl<'a> Expression<'a> {
    pub open spec fn user(&self) -> Seq<crate::catalog::FuCoOpDef> {
        user_defs(self.context)
    }

    /// Tokenizes `exp` into `self.tokens`.
    pub fn tokenize(&mut self, exp: &str) -> (r: Result<(), RpnError>)
        ensures
            final(self).context == old(self).context,
            final(self).parse_stack@ == old(self).parse_stack@,
            final(self).parsed == old(self).parsed,
            r is Ok <==> final(self).tokenized,
            r is Ok ==> final(self).res == Ok::<Option<EVar>, RpnError>(None),
            r is Ok ==> forall|i: int|
                0 <= i < final(self).tokens@.len() ==> lexeme_ok(
                    #[trigger] final(self).tokens@[i]@,
                    final(self).user(),
                ),
            r matches Err(e) ==> e is AnaLex && final(self).res == Err::<Option<EVar>, RpnError>(
                e,
            ),
            ({
                let lexed = lex_all(exp@, 0, final(self).user());
                &&& r is Ok <==> lexed is Ok
                &&& lexed matches Ok(ts) ==> kinds_and_texts(final(self).tokens@) == ts
                &&& lexed matches Err(e) ==> r == Err::<(), RpnError>(RpnError::AnaLex(e))
            }),
    {
        let s = chars_of(exp);
        let mut pos: usize = 0;
        self.tokens.clear();
        proof {
            assert(kinds_and_texts(self.tokens@) =~= Seq::<(TokKind, Seq<char>)>::empty());
            match lex_all(s@, 0, user_defs(self.context)) {
                Ok(ts) => {
                    assert(Seq::<(TokKind, Seq<char>)>::empty() + ts =~= ts);
                },
                Err(_) => {},
            }
        }
        loop
            invariant_except_break
                lex_all(s@, 0, user_defs(self.context)) == match lex_all(
                    s@,
                    pos as int,
                    user_defs(self.context),
                ) {
                    Ok(rest) => Ok(kinds_and_texts(self.tokens@) + rest),
                    Err(e) => Err(e),
                },
            invariant
                s@ == exp@,
                pos <= s@.len(),
                self.context == old(self).context,
                self.parse_stack@ == old(self).parse_stack@,
                self.parsed == old(self).parsed,
                forall|i: int|
                    0 <= i < self.tokens@.len() ==> lexeme_ok(
                        #[trigger] self.tokens@[i]@,
                        user_defs(self.context),
                    ),
            ensures
                lex_all(s@, 0, user_defs(self.context)) == Ok::<Seq<(TokKind, Seq<char>)>, LexErr>(
                    kinds_and_texts(self.tokens@),
                ),
            decreases s@.len() - pos,
        {
            let ghost k0 = kinds_and_texts(self.tokens@);
            match get_token(&s, &mut pos, self.context) {
                Ok(Some(t)) => {
                    proof {
                        match lex_all(s@, pos as int, user_defs(self.context)) {
                            Ok(rest) => {
                                assert(k0.push((t.kind, t.text@)) + rest =~= k0 + (seq![(t.kind, t.text@)] + rest));
                            },
                            Err(_) => {},
                        }
                    }
                    self.tokens.push(t);
                    proof {
                        assert(kinds_and_texts(self.tokens@) =~= k0.push((t.kind, t.text@)));
                    }
                },
                Ok(None) => {
                    proof {
                        assert(k0 + Seq::<(TokKind, Seq<char>)>::empty() =~= k0);
                    }
                    break ;
                },
                Err(e) => {
                    self.tokenized = false;
                    self.res = Err(e);
                    return Err(e);
                },
            }
        }
        self.tokenized = true;
        self.res = Ok(None);
        Ok(())
    }
}

/// The plain values of a sequence of tokens.
pub open spec fn views(ts: Seq<Token>) -> Seq<TokenView> {
    ts.map_values(|t: Token| t@)
}

proof fn lemma_views_push(ts: Seq<Token>, t: Token)
    ensures
        views(ts.push(t)) == views(ts).push(t@),
{
    assert(views(ts.push(t)) =~= views(ts).push(t@));
}

proof fn lemma_views_drop_last(ts: Seq<Token>)
    requires
        ts.len() > 0,
    ensures
        views(ts.drop_last()) == views(ts).drop_last(),
        views(ts).last() == ts.last()@,
{
    assert(views(ts.drop_last()) =~= views(ts).drop_last());
}

pub open spec fn view_prio(t: TokenView) -> u32 {
    match t.def {
        Def::Op(k) => k.spec_prio(),
        _ => 0,
    }
}

pub open spec fn view_is_unary(t: TokenView) -> bool {
    t.kind == TokKind::Operator && t.unary
}

pub open spec fn view_is_generic_sep(t: TokenView) -> bool {
    t.kind == TokKind::Separator || t.kind == TokKind::OPar || t.kind == TokKind::CPar
}

pub open spec fn view_is_operand(t: TokenView) -> bool {
    t.kind == TokKind::Number || t.kind == TokKind::Constant || t.kind == TokKind::CString
}

/// An operator marked unary (one operand) or binary (two).
pub open spec fn with_unary(t: TokenView, u: bool) -> TokenView {
    if t.kind == TokKind::Operator {
        TokenView { unary: u, nb_param: if u { 1 } else { 2 }, ..t }
    } else {
        t
    }
}

/// Before a separator: the operators on top of the pending stack go to the output.
pub open spec fn flush_operators(stack: Seq<TokenView>, out: Seq<TokenView>) -> (Seq<TokenView>, Seq<TokenView>)
    decreases stack.len(),
{
    if stack.len() > 0 && stack.last().kind == TokKind::Operator {
        flush_operators(stack.drop_last(), out.push(stack.last()))
    } else {
        (stack, out)
    }
}

/// Before the operator `t`: pending operators that bind at least as tightly, and unary
/// ones, go to the output, down to a parenthesis or separator.
pub open spec fn yield_to(stack: Seq<TokenView>, out: Seq<TokenView>, t: TokenView) -> (Seq<TokenView>, Seq<TokenView>)
    decreases stack.len(),
{
    if stack.len() == 0 || view_is_generic_sep(stack.last()) {
        (stack, out)
    } else if (view_prio(stack.last()) > 0 && view_prio(stack.last()) >= view_prio(t))
        || view_is_unary(stack.last()) {
        yield_to(stack.drop_last(), out.push(stack.last()), t)
    } else {
        (stack, out)
    }
}

/// At a `)`: what is above the matching `(` goes to the output, separators being counted
/// into `nb` and dropped; the `(` is dropped. Tells whether a `(` was found.
pub open spec fn close_spec(stack: Seq<TokenView>, out: Seq<TokenView>, nb: u32) -> (Seq<TokenView>, Seq<TokenView>, u32, bool)
    decreases stack.len(),
{
    if stack.len() == 0 {
        (stack, out, nb, false)
    } else if stack.last().kind == TokKind::OPar {
        (stack.drop_last(), out, nb, true)
    } else if stack.last().kind == TokKind::Separator {
        close_spec(stack.drop_last(), out, if nb < u32::MAX { (nb + 1) as u32 } else { nb })
    } else {
        close_spec(stack.drop_last(), out.push(stack.last()), nb)
    }
}

pub open spec fn def_params_spec(user: Seq<FuCoOpDef>, d: Def) -> Option<u32> {
    match d {
        Def::Func(k) => k.spec_params(),
        Def::User(i) => if i < user.len() {
            user[i as int].params
        } else {
            None
        },
        _ => None,
    }
}

/// The pending stack and output after one token `t`, the token before it being of kind
/// `prev`.
pub open spec fn parse_token_spec(
    t: TokenView,
    prev: TokKind,
    stack: Seq<TokenView>,
    out: Seq<TokenView>,
    user: Seq<FuCoOpDef>,
) -> Result<(Seq<TokenView>, Seq<TokenView>), ParErr> {
    if view_is_operand(t) {
        if stack.len() > 0 && view_is_unary(stack.last()) {
            Ok((stack.drop_last(), out.push(t).push(stack.last())))
        } else {
            Ok((stack, out.push(t)))
        }
    } else if t.kind == TokKind::Function || t.kind == TokKind::OPar {
        Ok((stack.push(t), out))
    } else if t.kind == TokKind::Separator {
        if stack.len() == 0 {
            Err(ParErr::ParamSep)
        } else {
            let (s1, o1) = flush_operators(stack, out);
            Ok((s1.push(t), o1))
        }
    } else if t.kind == TokKind::Operator {
        if stack.len() == 0 {
            Ok((stack.push(with_unary(t, prev == TokKind::Void)), out))
        } else {
            let u = with_unary(
                t,
                prev == TokKind::Void || prev == TokKind::Separator || prev == TokKind::Operator
                    || prev == TokKind::OPar,
            );
            let last = stack.last();
            let direct = last.kind == TokKind::OPar || last.kind == TokKind::Function || (view_prio(
                last,
            ) > 0 && view_prio(last) < view_prio(u) && !view_is_unary(last));
            let (s1, o1) = if direct {
                (stack, out)
            } else {
                yield_to(stack, out, u)
            };
            Ok((s1.push(u), o1))
        }
    } else if t.kind == TokKind::CPar {
        let (s1, o1, nb, found) = close_spec(stack, out, if prev == TokKind::OPar { 0 } else { 1 });
        if !found {
            Err(ParErr::MatchingPar)
        } else if s1.len() > 0 && s1.last().kind == TokKind::Function {
            let f = TokenView { nb_param: nb, ..s1.last() };
            match def_params_spec(user, f.def) {
                Some(p) => if p != nb {
                    Err(ParErr::ParamNb)
                } else {
                    Ok((s1.drop_last(), o1.push(f)))
                },
                None => Ok((s1.drop_last(), o1.push(f))),
            }
        } else {
            Ok((s1, o1))
        }
    } else {
        Ok((stack, out))
    }
}

/// At the end: what is still pending goes to the output; a `(` there was never closed.
pub open spec fn flush_end(stack: Seq<TokenView>, out: Seq<TokenView>) -> Result<Seq<TokenView>, ParErr>
    decreases stack.len(),
{
    if stack.len() == 0 {
        Ok(out)
    } else if stack.last().kind == TokKind::OPar {
        Err(ParErr::MatchingPar)
    } else {
        flush_end(stack.drop_last(), out.push(stack.last()))
    }
}

/// The postfix program of the tokens `ts` from position `i` on, or the first syntax error.
pub open spec fn parse_spec(
    ts: Seq<TokenView>,
    i: int,
    prev: TokKind,
    stack: Seq<TokenView>,
    out: Seq<TokenView>,
    user: Seq<FuCoOpDef>,
) -> Result<Seq<TokenView>, ParErr>
    decreases ts.len() - i,
{
    if i >= ts.len() || i < 0 {
        flush_end(stack, out)
    } else {
        match parse_token_spec(ts[i], prev, stack, out, user) {
            Ok((s, o)) => parse_spec(ts, i + 1, ts[i].kind, s, o, user),
            Err(e) => Err(e),
        }
    }
}

proof fn lemma_yield_keeps_output(stack: Seq<TokenView>, out: Seq<TokenView>, t: TokenView)
    ensures
        yield_to(stack, out, t).1.len() >= out.len(),
        forall|j: int| 0 <= j < out.len() ==> #[trigger] yield_to(stack, out, t).1[j] == out[j],
    decreases stack.len(),
{
    if stack.len() == 0 || view_is_generic_sep(stack.last()) {
    } else if (view_prio(stack.last()) > 0 && view_prio(stack.last()) >= view_prio(t))
        || view_is_unary(stack.last()) {
        lemma_yield_keeps_output(stack.drop_last(), out.push(stack.last()), t);
        let r = yield_to(stack.drop_last(), out.push(stack.last()), t).1;
        assert forall|j: int| 0 <= j < out.len() implies #[trigger] yield_to(stack, out, t).1[j] == out[j] by {
            assert(r[j] == out.push(stack.last())[j]);
        }
    }
}

/// Operators of equal precedence group from the left: a binary operator that meets a
/// pending binary operator of the same precedence sends that one to the output first, and
/// then waits in its place.
pub proof fn law_left_associative(
    t: TokenView,
    prev: TokKind,
    stack: Seq<TokenView>,
    out: Seq<TokenView>,
    user: Seq<FuCoOpDef>,
)
    requires
        t.kind == TokKind::Operator,
        prev == TokKind::Number || prev == TokKind::Constant || prev == TokKind::CString || prev
            == TokKind::CPar,
        stack.len() > 0,
        stack.last().kind == TokKind::Operator,
        !stack.last().unary,
        view_prio(stack.last()) == view_prio(t),
        view_prio(t) > 0,
    ensures
        parse_token_spec(t, prev, stack, out, user) matches Ok((s, o)) && o.len() > out.len() && o[out.len() as int]
            == stack.last() && s.last() == with_unary(t, false),
{
    let u = with_unary(t, false);
    assert(view_prio(u) == view_prio(t));
    lemma_yield_keeps_output(stack.drop_last(), out.push(stack.last()), u);
    let o = yield_to(stack, out, u).1;
    assert(o == yield_to(stack.drop_last(), out.push(stack.last()), u).1);
    assert(o[out.len() as int] == out.push(stack.last())[out.len() as int]);
}

/// A unary operator applies to the operand right after it: that operand, then the
/// operator, go to the output together.
pub proof fn law_unary_binds_next_operand(
    t: TokenView,
    prev: TokKind,
    stack: Seq<TokenView>,
    out: Seq<TokenView>,
    user: Seq<FuCoOpDef>,
)
    requires
        view_is_operand(t),
        stack.len() > 0,
        view_is_unary(stack.last()),
    ensures
        parse_token_spec(t, prev, stack, out, user) == Ok::<(Seq<TokenView>, Seq<TokenView>), ParErr>(
            (stack.drop_last(), out.push(t).push(stack.last())),
        ),
{
}

/// What the pending stack of the parser holds: no `)`, and each operator with the
/// operand count its form gives it.
pub open spec fn pending_token_ok(t: Token) -> bool {
    &&& t.kind != TokKind::CPar && t.kind != TokKind::Void
    &&& t.kind == TokKind::Operator ==> t.nb_param == if t.unary {
        1u32
    } else {
        2u32
    }
}

pub open spec fn all_pending_ok(ts: Seq<Token>) -> bool {
    forall|j: int| 0 <= j < ts.len() ==> pending_token_ok(#[trigger] ts[j])
}

pub open spec fn all_postfix_ok(ts: Seq<Token>) -> bool {
    forall|j: int| 0 <= j < ts.len() ==> postfix_token_ok(#[trigger] ts[j])
}

/// The fixed parameter count of a function definition, if it has one.
pub fn def_params(ctx: Option<&EvalContext>, d: Def) -> (r: Option<u32>)
    ensures
        d matches Def::Func(k) ==> r == k.spec_params(),
        d matches Def::User(i) ==> r == if i < user_defs(ctx).len() {
            user_defs(ctx)[i as int].params
        } else {
            None
        },
        !(d is Func) && !(d is User) ==> r is None,
{
    match d {
        Def::Func(k) => k.params(),
        Def::User(i) => match ctx {
            Some(c) => if i < c.user_fns.len() {
                c.user_fns[i].params
            } else {
                None
            },
            None => None,
        },
        _ => None,
    }
}

/// Moves the top of `op_stack` to the end of `out`.
fn move_top(op_stack: &mut Vec<Token>, out: &mut Vec<Token>)
    requires
        old(op_stack)@.len() > 0,
        all_pending_ok(old(op_stack)@),
        all_postfix_ok(old(out)@),
        old(op_stack)@.last().kind != TokKind::OPar,
    ensures
        final(op_stack)@ == old(op_stack)@.drop_last(),
        final(out)@ == old(out)@.push(old(op_stack)@.last()),
        views(final(op_stack)@) == views(old(op_stack)@).drop_last(),
        views(final(out)@) == views(old(out)@).push(views(old(op_stack)@).last()),
        opar_count(final(op_stack)@) == opar_count(old(op_stack)@),
        all_pending_ok(final(op_stack)@),
        all_postfix_ok(final(out)@),
{
    proof {
        lemma_views_drop_last(old(op_stack)@);
        lemma_views_push(old(out)@, old(op_stack)@.last());
    }
    let t = op_stack.pop().unwrap();
    proof {
        assert(old(op_stack)@.drop_last().push(t) =~= old(op_stack)@);
        lemma_push_counts(old(op_stack)@.drop_last(), t);
        assert(pending_token_ok(old(op_stack)@[old(op_stack)@.len() - 1]));
        assert(postfix_token_ok(t));
    }
    out.push(t);
    proof {
        assert forall|j: int| 0 <= j < out@.len() implies postfix_token_ok(#[trigger] out@[j]) by {
            if j < old(out)@.len() {
                assert(out@[j] == old(out)@[j]);
            }
        }
    }
}

/// Pushes `tok` on the pending stack.
fn push_pending(op_stack: &mut Vec<Token>, tok: Token)
    requires
        all_pending_ok(old(op_stack)@),
        pending_token_ok(tok),
    ensures
        final(op_stack)@ == old(op_stack)@.push(tok),
        views(final(op_stack)@) == views(old(op_stack)@).push(tok@),
        opar_count(final(op_stack)@) == opar_count(old(op_stack)@) + if tok.kind == TokKind::OPar {
            1int
        } else {
            0
        },
        all_pending_ok(final(op_stack)@),
{
    proof {
        lemma_push_counts(old(op_stack)@, tok);
        lemma_views_push(old(op_stack)@, tok);
    }
    op_stack.push(tok);
    proof {
        assert forall|j: int| 0 <= j < op_stack@.len() implies pending_token_ok(
            #[trigger] op_stack@[j],
        ) by {
            if j < old(op_stack)@.len() {
                assert(op_stack@[j] == old(op_stack)@[j]);
            }
        }
    }
}

/// Places one token of the source into the postfix output `out` or the pending stack
/// `op_stack`, following operator precedence. `prev` is the kind of the token before.
pub fn parse_token(
    token: Token,
    prev: TokKind,
    op_stack: &mut Vec<Token>,
    out: &mut Vec<Token>,
    ctx: Option<&EvalContext>,
) -> (r: Result<(), RpnError>)
    requires
        all_pending_ok(old(op_stack)@),
        all_postfix_ok(old(out)@),
        opar_count(old(op_stack)@) >= 0,
    ensures
        all_pending_ok(final(op_stack)@),
        all_postfix_ok(final(out)@),
        r is Ok ==> opar_count(final(op_stack)@) == opar_count(old(op_stack)@) + depth_step(token),
        r is Ok ==> opar_count(old(op_stack)@) + depth_step(token) >= 0,
        r == Err::<(), RpnError>(RpnError::Parse(ParErr::MatchingPar)) ==> opar_count(
            old(op_stack)@,
        ) + depth_step(token) < 0,
        r matches Err(e) ==> e == RpnError::Parse(ParErr::MatchingPar) || e == RpnError::Parse(
            ParErr::ParamNb,
        ) || e == RpnError::Parse(ParErr::ParamSep),
        match parse_token_spec(token@, prev, views(old(op_stack)@), views(old(out)@), user_defs(ctx)) {
            Ok((s, o)) => r is Ok && views(final(op_stack)@) == s && views(final(out)@) == o,
            Err(e) => r == Err::<(), RpnError>(RpnError::Parse(e)),
        },
{
    let ghost s0 = views(op_stack@);
    let ghost o0 = views(out@);
    let mut tok = token;
    if tok.is_operand() {
        // an operand goes straight to the output; a unary operator waiting for it follows
        proof {
            lemma_views_push(out@, tok);
        }
        out.push(tok);
        proof {
            assert forall|j: int| 0 <= j < out@.len() implies postfix_token_ok(
                #[trigger] out@[j],
            ) by {
                if j < old(out)@.len() {
                    assert(out@[j] == old(out)@[j]);
                }
            }
        }
        let n = op_stack.len();
        if n > 0 && op_stack[n - 1].is_unary() {
            proof {
                lemma_views_drop_last(op_stack@);
            }
            move_top(op_stack, out);
        }
        return Ok(());
    }
    match tok.kind {
        TokKind::Function | TokKind::OPar => {
            push_pending(op_stack, tok);
            return Ok(());
        },
        TokKind::Separator => {
            if op_stack.len() == 0 {
                return Err(RpnError::Parse(ParErr::ParamSep));
            }
            while op_stack.len() > 0 && op_stack[op_stack.len() - 1].is_operator()
                invariant
                    all_pending_ok(op_stack@),
                    all_postfix_ok(out@),
                    opar_count(op_stack@) == opar_count(old(op_stack)@),
                    s0 == views(old(op_stack)@),
                    o0 == views(old(out)@),
                    flush_operators(s0, o0) == flush_operators(views(op_stack@), views(out@)),
                decreases op_stack@.len(),
            {
                proof {
                    lemma_views_drop_last(op_stack@);
                }
                move_top(op_stack, out);
            }
            proof {
                if op_stack@.len() > 0 {
                    lemma_views_drop_last(op_stack@);
                }
            }
            push_pending(op_stack, tok);
            return Ok(());
        },
        TokKind::Operator => {
            if op_stack.len() == 0 {
                tok.set_unary(prev == TokKind::Void);
            } else {
                let unary = match prev {
                    TokKind::Void | TokKind::Separator | TokKind::Operator | TokKind::OPar => true,
                    _ => false,
                };
                tok.set_unary(unary);
                let n = op_stack.len();
                let to_stack_direct = match op_stack[n - 1].kind {
                    TokKind::OPar | TokKind::Function => true,
                    _ => {
                        let last_prio = op_stack[n - 1].prio();
                        last_prio > 0 && last_prio < tok.prio() && !op_stack[n - 1].is_unary()
                    },
                };
                proof {
                    lemma_views_drop_last(op_stack@);
                }
                if !to_stack_direct {
                    loop
                        invariant
                            all_pending_ok(op_stack@),
                            all_postfix_ok(out@),
                            opar_count(op_stack@) == opar_count(old(op_stack)@),
                            s0 == views(old(op_stack)@),
                            o0 == views(old(out)@),
                            yield_to(s0, o0, tok@) == yield_to(views(op_stack@), views(out@), tok@),
                        ensures
                            all_pending_ok(op_stack@),
                            all_postfix_ok(out@),
                            opar_count(op_stack@) == opar_count(old(op_stack)@),
                            yield_to(s0, o0, tok@) == (views(op_stack@), views(out@)),
                        decreases op_stack@.len(),
                    {
                        let m = op_stack.len();
                        if m == 0 {
                            break ;
                        }
                        proof {
                            lemma_views_drop_last(op_stack@);
                        }
                        let top = &op_stack[m - 1];
                        if top.is_generic_sep() {
                            break ;
                        }
                        let top_prio = top.prio();
                        if (top_prio > 0 && top_prio >= tok.prio()) || top.is_unary() {
                            move_top(op_stack, out);
                        } else {
                            break ;
                        }
                    }
                }
            }
            proof {
                assert(tok.kind == token.kind);
            }
            push_pending(op_stack, tok);
            return Ok(());
        },
        TokKind::CPar => {
            // `()` right after an opening parenthesis holds no parameter
            let mut nb_param: u32 = if prev == TokKind::OPar {
                0
            } else {
                1
            };
            let mut match_found = false;
            let ghost nb0 = nb_param;
            loop
                invariant_except_break
                    !match_found,
                    all_pending_ok(op_stack@),
                    all_postfix_ok(out@),
                    opar_count(op_stack@) == opar_count(old(op_stack)@),
                    close_spec(s0, o0, nb0) == close_spec(views(op_stack@), views(out@), nb_param),
                invariant
                    s0 == views(old(op_stack)@),
                    o0 == views(old(out)@),
                ensures
                    all_pending_ok(op_stack@),
                    all_postfix_ok(out@),
                    match_found ==> opar_count(op_stack@) == opar_count(old(op_stack)@) - 1,
                    !match_found ==> opar_count(old(op_stack)@) == 0,
                    close_spec(s0, o0, nb0) == (views(op_stack@), views(out@), nb_param, match_found),
                decreases op_stack@.len(),
            {
                let m = op_stack.len();
                if m == 0 {
                    break ;
                }
                proof {
                    lemma_views_drop_last(op_stack@);
                }
                let ghost before = op_stack@;
                if op_stack[m - 1].is_opar() {
                    let t = op_stack.pop().unwrap();
                    proof {
                        assert(before =~= op_stack@.push(t));
                        assert(t.kind == TokKind::OPar);
                        assert(opar_count(before) == opar_count(old(op_stack)@));
                        lemma_push_counts(op_stack@, t);
                        assert forall|j: int| 0 <= j < op_stack@.len() implies pending_token_ok(
                            #[trigger] op_stack@[j],
                        ) by {
                            assert(op_stack@[j] == before[j]);
                        }
                    }
                    match_found = true;
                    break ;
                } else if op_stack[m - 1].is_param_sep() {
                    nb_param = nb_param.saturating_add(1);
                    let t = op_stack.pop().unwrap();
                    proof {
                        assert(before =~= op_stack@.push(t));
                        lemma_push_counts(op_stack@, t);
                        assert forall|j: int| 0 <= j < op_stack@.len() implies pending_token_ok(
                            #[trigger] op_stack@[j],
                        ) by {
                            assert(op_stack@[j] == before[j]);
                        }
                    }
                } else {
                    move_top(op_stack, out);
                }
            }
            if !match_found {
                return Err(RpnError::Parse(ParErr::MatchingPar));
            }
            proof {
                lemma_opar_count_nonneg(op_stack@);
            }
            let m = op_stack.len();
            proof {
                if m > 0 {
                    lemma_views_drop_last(op_stack@);
                }
            }
            if m > 0 && op_stack[m - 1].is_function() {
                let mut op = op_stack[m - 1].duplicate();
                op.nb_param = nb_param;
                if let Some(params) = def_params(ctx, op.def) {
                    if params != nb_param {
                        return Err(RpnError::Parse(ParErr::ParamNb));
                    }
                }
                let ghost before = op_stack@;
                let top = op_stack.pop().unwrap();
                proof {
                    assert(before =~= op_stack@.push(top));
                    lemma_push_counts(op_stack@, top);
                    assert forall|j: int| 0 <= j < op_stack@.len() implies pending_token_ok(
                        #[trigger] op_stack@[j],
                    ) by {
                        assert(op_stack@[j] == before[j]);
                    }
                }
                let ghost out_before = out@;
                proof {
                    lemma_views_push(out@, op);
                }
                out.push(op);
                proof {
                    assert forall|j: int| 0 <= j < out@.len() implies postfix_token_ok(
                        #[trigger] out@[j],
                    ) by {
                        if j < out_before.len() {
                            assert(out@[j] == out_before[j]);
                        }
                    }
                }
            }
            return Ok(());
        },
        _ => {
            return Ok(());
        },
    }
}

proof fn lemma_depth_prefix(ts: Seq<Token>, i: int)
    requires
        0 <= i < ts.len(),
    ensures
        depth(ts.subrange(0, i + 1)) == depth(ts.subrange(0, i)) + depth_step(ts[i]),
{
    assert(ts.subrange(0, i + 1).drop_last() =~= ts.subrange(0, i));
}

impl<'a> Expression<'a> {
    /// Converts the tokens into the postfix program, tokenizing `exp` first if that has
    /// not been done.
    pub fn parse(&mut self, exp: &str) -> (r: Result<(), RpnError>)
        ensures
            final(self).context == old(self).context,
            old(self).tokenized ==> final(self).tokens@ == old(self).tokens@,
            old(self).tokenized ==> final(self).tokenized,
            r is Ok <==> final(self).parsed,
            r is Ok ==> final(self).tokenized,
            !old(self).tokenized && final(self).tokenized ==> forall|i: int|
                0 <= i < final(self).tokens@.len() ==> lexeme_ok(
                    #[trigger] final(self).tokens@[i]@,
                    final(self).user(),
                ),
            !old(self).tokenized ==> match lex_all(exp@, 0, final(self).user()) {
                Ok(ts) => final(self).tokenized && kinds_and_texts(final(self).tokens@) == ts,
                Err(e) => r == Err::<(), RpnError>(RpnError::AnaLex(e)) && !final(self).tokenized,
            },
            r is Ok ==> final(self).res == Ok::<Option<EVar>, RpnError>(None),
            final(self).tokenized ==> match parse_spec(
                views(final(self).tokens@),
                0,
                TokKind::Void,
                Seq::empty(),
                Seq::empty(),
                final(self).user(),
            ) {
                Ok(prog) => r is Ok && views(final(self).parse_stack@) == prog,
                Err(e) => r == Err::<(), RpnError>(RpnError::Parse(e)),
            },
            r is Ok ==> balanced(final(self).tokens@),
            r is Ok ==> all_postfix_ok(final(self).parse_stack@),
            final(self).tokenized && !balanced(final(self).tokens@) ==> r is Err,
            r == Err::<(), RpnError>(RpnError::Parse(ParErr::MatchingPar)) ==> !balanced(
                final(self).tokens@,
            ),
            r matches Err(e) ==> final(self).res == Err::<Option<EVar>, RpnError>(e),
            !old(self).tokenized && r is Err ==> final(self).res == Err::<Option<EVar>, RpnError>(
                RpnError::Parse(ParErr::MatchingPar),
            ) || r matches Err(RpnError::AnaLex(_)) || r matches Err(RpnError::Parse(_)),
    {
        self.parse_stack.clear();
        let mut op_stack: Vec<Token> = Vec::new();
        let mut prev_tok_kind = TokKind::Void;
        if !self.tokenized {
            if let Err(e) = self.tokenize(exp) {
                self.parsed = false;
                return Err(e);
            }
        }
        let ghost tokens0 = self.tokens@;
        let ghost spec = parse_spec(
            views(tokens0),
            0,
            TokKind::Void,
            Seq::empty(),
            Seq::empty(),
            user_defs(self.context),
        );
        let n = self.tokens.len();
        let mut i: usize = 0;
        proof {
            assert(views(op_stack@) =~= Seq::<TokenView>::empty());
            assert(views(self.parse_stack@) =~= Seq::<TokenView>::empty());
        }
        while i < n
            invariant
                self.tokens@ == tokens0,
                spec == parse_spec(
                    views(tokens0),
                    0,
                    TokKind::Void,
                    Seq::empty(),
                    Seq::empty(),
                    user_defs(self.context),
                ),
                spec == parse_spec(
                    views(tokens0),
                    i as int,
                    prev_tok_kind,
                    views(op_stack@),
                    views(self.parse_stack@),
                    user_defs(self.context),
                ),
                !old(self).tokenized ==> lex_all(exp@, 0, user_defs(self.context)) == Ok::<
                    Seq<(TokKind, Seq<char>)>,
                    LexErr,
                >(kinds_and_texts(tokens0)),
                n == self.tokens@.len(),
                i <= n,
                self.tokenized,
                self.context == old(self).context,
                old(self).tokenized ==> self.tokens@ == old(self).tokens@,
                !old(self).tokenized ==> forall|i: int|
                    0 <= i < self.tokens@.len() ==> lexeme_ok(
                        #[trigger] self.tokens@[i]@,
                        user_defs(self.context),
                    ),
                all_pending_ok(op_stack@),
                all_postfix_ok(self.parse_stack@),
                opar_count(op_stack@) == depth(self.tokens@.subrange(0, i as int)),
                forall|k: int| 0 <= k <= i ==> depth(#[trigger] self.tokens@.subrange(0, k)) >= 0,
            decreases n - i,
        {
            let tok = self.tokens[i].duplicate();
            let prev_kind = tok.kind;
            assert(views(tokens0)[i as int] == tok@);
            proof {
                lemma_depth_prefix(self.tokens@, i as int);
                assert(depth_step(tok) == depth_step(self.tokens@[i as int]));
                lemma_opar_count_nonneg(op_stack@);
            }
            proof {
                assert(spec == match parse_token_spec(
                    tok@,
                    prev_tok_kind,
                    views(op_stack@),
                    views(self.parse_stack@),
                    user_defs(self.context),
                ) {
                    Ok((s, o)) => parse_spec(views(tokens0), i + 1, tok@.kind, s, o, user_defs(self.context)),
                    Err(e) => Err(e),
                });
            }
            let step = parse_token(tok, prev_tok_kind, &mut op_stack, &mut self.parse_stack, self.context);
            if let Err(e) = step {
                proof {
                    if e == RpnError::Parse(ParErr::MatchingPar) {
                        assert(depth(self.tokens@.subrange(0, i + 1)) < 0);
                    }
                }
                self.parsed = false;
                self.res = Err(e);
                return Err(e);
            }
            prev_tok_kind = prev_kind;
            i = i + 1;
        }
        proof {
            assert(self.tokens@.subrange(0, n as int) =~= self.tokens@);
        }
        // what is left pending goes to the output; a `(` left there was never closed
        loop
            invariant
                self.tokens@ == tokens0,
                spec == parse_spec(
                    views(tokens0),
                    0,
                    TokKind::Void,
                    Seq::empty(),
                    Seq::empty(),
                    user_defs(self.context),
                ),
                spec == flush_end(views(op_stack@), views(self.parse_stack@)),
                !old(self).tokenized ==> lex_all(exp@, 0, user_defs(self.context)) == Ok::<
                    Seq<(TokKind, Seq<char>)>,
                    LexErr,
                >(kinds_and_texts(tokens0)),
                all_pending_ok(op_stack@),
                all_postfix_ok(self.parse_stack@),
                opar_count(op_stack@) == depth(self.tokens@),
                self.tokenized,
                self.context == old(self).context,
                old(self).tokenized ==> self.tokens@ == old(self).tokens@,
                !old(self).tokenized ==> forall|i: int|
                    0 <= i < self.tokens@.len() ==> lexeme_ok(
                        #[trigger] self.tokens@[i]@,
                        user_defs(self.context),
                    ),
                forall|k: int|
                    0 <= k <= self.tokens@.len() ==> depth(#[trigger] self.tokens@.subrange(0, k))
                        >= 0,
            ensures
                opar_count(op_stack@) == 0,
                spec == Ok::<Seq<TokenView>, ParErr>(views(self.parse_stack@)),
            decreases op_stack@.len(),
        {
            let m = op_stack.len();
            if m == 0 {
                assert(opar_count(op_stack@) == 0);
                assert(views(op_stack@).len() == 0);
                break ;
            }
            proof {
                lemma_views_drop_last(op_stack@);
            }
            if op_stack[m - 1].is_opar() {
                proof {
                    let ghost t = op_stack@[m - 1];
                    assert(op_stack@ =~= op_stack@.drop_last().push(t));
                    lemma_push_counts(op_stack@.drop_last(), t);
                    lemma_opar_count_nonneg(op_stack@.drop_last());
                }
                self.parsed = false;
                self.res = Err(RpnError::Parse(ParErr::MatchingPar));
                return Err(RpnError::Parse(ParErr::MatchingPar));
            }
            move_top(&mut op_stack, &mut self.parse_stack);
        }
        proof {
            assert(self.tokens@.subrange(0, self.tokens@.len() as int) =~= self.tokens@);
        }
        self.parsed = true;
        self.res = Ok(None);
        Ok(())
    }
}

/// The tokens' lexemes, each followed by a space.
pub open spec fn spaced_text(ts: Seq<Token>) -> Seq<char>
    decreases ts.len(),
{
    if ts.len() == 0 {
        Seq::empty()
    } else {
        spaced_text(ts.drop_last()) + ts.last().text@.push(' ')
    }
}

/// How a slot of the postfix program is shown: a function with its parameter count, an
/// operator with `un` or `bi`, anything else as written.
pub open spec fn slot_text(t: Token) -> Seq<char> {
    if t.kind == TokKind::Function {
        t.text@ + seq!['('] + digits_of(t.nb_param as nat) + seq![')', ' ']
    } else if t.kind == TokKind::Operator {
        t.text@ + (if t.unary {
            seq!['(', 'u', 'n', ')', ' ']
        } else {
            seq!['(', 'b', 'i', ')', ' ']
        })
    } else {
        t.text@.push(' ')
    }
}

pub open spec fn program_text(ts: Seq<Token>) -> Seq<char>
    decreases ts.len(),
{
    if ts.len() == 0 {
        Seq::empty()
    } else {
        program_text(ts.drop_last()) + slot_text(ts.last())
    }
}

fn append_chars(v: &mut Vec<char>, s: &Vec<char>)
    ensures
        final(v)@ == old(v)@ + s@,
{
    let mut i: usize = 0;
    while i < s.len()
        invariant
            i <= s@.len(),
            v@ == old(v)@ + s@.subrange(0, i as int),
        decreases s@.len() - i,
    {
        v.push(s[i]);
        i = i + 1;
        assert(v@ =~= old(v)@ + s@.subrange(0, i as int));
    }
    assert(s@.subrange(0, s@.len() as int) =~= s@);
}

impl<'a> Expression<'a> {
    /// Creates an expression from its text and, optionally, the host's functions, and
    /// tokenizes and parses it at once; a failure is kept as the expression's result.
    pub fn new(exp: &str, eval_context: Option<&'a EvalContext>) -> (r: Expression<'a>)
        ensures
            r.context == eval_context,
            match lex_all(exp@, 0, r.user()) {
                Ok(ts) => r.tokenized && kinds_and_texts(r.tokens@) == ts,
                Err(e) => r.res == Err::<Option<EVar>, RpnError>(RpnError::AnaLex(e)) && !r.tokenized,
            },
            r.tokenized ==> match parse_spec(
                views(r.tokens@),
                0,
                TokKind::Void,
                Seq::empty(),
                Seq::empty(),
                r.user(),
            ) {
                Ok(prog) => r.parsed && views(r.parse_stack@) == prog,
                Err(e) => r.res == Err::<Option<EVar>, RpnError>(RpnError::Parse(e)),
            },
            r.tokenized ==> forall|i: int|
                0 <= i < r.tokens@.len() ==> lexeme_ok(#[trigger] r.tokens@[i]@, r.user()),
            r.parsed ==> r.tokenized && balanced(r.tokens@) && all_postfix_ok(r.parse_stack@),
            r.parsed <==> r.res is Ok,
            r.parsed ==> r.res == Ok::<Option<EVar>, RpnError>(None),
            r.tokenized && !balanced(r.tokens@) ==> r.res is Err,
            r.res == Err::<Option<EVar>, RpnError>(RpnError::Parse(ParErr::MatchingPar)) ==> !balanced(
                r.tokens@,
            ),
    {
        let mut toks = Expression {
            parse_stack: Vec::new(),
            tokens: Vec::new(),
            tokenized: false,
            parsed: false,
            res: Ok(None),
            context: eval_context,
        };
        let _ = toks.parse(exp);
        toks
    }

    pub fn add_context(&mut self, eval_context: &'a EvalContext)
        ensures
            *final(self) == (Expression { context: Some(eval_context), ..*old(self) }),
    {
        self.context = Some(eval_context);
    }

    /// The tokens as written, each followed by a space.
    pub fn display_tokenized(&self) -> (r: String)
        ensures
            r@ == spaced_text(self.tokens@),
    {
        let mut msg: Vec<char> = Vec::new();
        let mut i: usize = 0;
        while i < self.tokens.len()
            invariant
                i <= self.tokens@.len(),
                msg@ == spaced_text(self.tokens@.subrange(0, i as int)),
            decreases self.tokens@.len() - i,
        {
            let ghost pre = self.tokens@.subrange(0, i as int);
            append_chars(&mut msg, &self.tokens[i].text);
            msg.push(' ');
            i = i + 1;
            proof {
                let cur = self.tokens@.subrange(0, i as int);
                assert(cur.drop_last() =~= pre);
                assert(msg@ =~= spaced_text(pre) + cur.last().text@.push(' '));
            }
        }
        assert(self.tokens@.subrange(0, i as int) =~= self.tokens@);
        string_of(msg.as_slice())
    }

    /// The postfix program: functions with their parameter count, operators marked unary
    /// (`un`) or binary (`bi`).
    pub fn display_parsed(&self) -> (r: String)
        ensures
            r@ == program_text(self.parse_stack@),
    {
        let mut msg: Vec<char> = Vec::new();
        let mut i: usize = 0;
        while i < self.parse_stack.len()
            invariant
                i <= self.parse_stack@.len(),
                msg@ == program_text(self.parse_stack@.subrange(0, i as int)),
            decreases self.parse_stack@.len() - i,
        {
            let ghost pre = self.parse_stack@.subrange(0, i as int);
            let ghost before = msg@;
            let t = &self.parse_stack[i];
            append_chars(&mut msg, &t.text);
            if t.kind == TokKind::Function {
                msg.push('(');
                append_chars(&mut msg, &decimal_digits(t.nb_param as u64));
                msg.push(')');
                msg.push(' ');
            } else if t.kind == TokKind::Operator {
                let tag = if t.unary {
                    vec!['(', 'u', 'n', ')', ' ']
                } else {
                    vec!['(', 'b', 'i', ')', ' ']
                };
                append_chars(&mut msg, &tag);
            } else {
                msg.push(' ');
            }
            i = i + 1;
            proof {
                let cur = self.parse_stack@.subrange(0, i as int);
                assert(cur.drop_last() =~= pre);
                assert(cur.last() == *t);
                assert(msg@ =~= before + slot_text(*t));
            }
        }
        assert(self.parse_stack@.subrange(0, i as int) =~= self.parse_stack@);
        string_of(msg.as_slice())
    }

    /// The last result as text: empty when there is none, the error's category on
    /// failure; `None` for a float, which the host writes.
    pub fn result(&self) -> (r: Option<String>)
        ensures
            self.res matches Ok(Some(v)) ==> (r matches Some(s) ==> value_text(v) == Some(s@)) && (r is None <==> v is FVal),
            self.res matches Ok(None) ==> (r matches Some(s) && s@.len() == 0),
            self.res matches Err(e) ==> (r matches Some(s) && s@ == e.spec_category()),
    {
        match &self.res {
            Ok(Some(v)) => v.text(),
            Ok(None) => Some(String::new()),
            Err(e) => Some(String::from_str(e.category())),
        }
    }
}

impl<'a> Expression<'a> {
    /// The expression as text: its postfix program once parsed, else its tokens.
    pub fn to_string(&self) -> (r: String)
        ensures
            self.parsed ==> r@ == program_text(self.parse_stack@),
            !self.parsed ==> r@ == spaced_text(self.tokens@),
    {
        if self.parsed {
            self.display_parsed()
        } else {
            self.display_tokenized()
        }
    }
}

} // verus!
