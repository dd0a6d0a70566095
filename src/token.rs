//! Tokens: the units produced by the lexer and rearranged by the parser.
use crate::catalog::{FnKind, OpKind};
use crate::value::EVar;
use vstd::prelude::*;

verus! {

#[derive(Debug, Clone, Copy, PartialEq, Eq, Structural)]
pub enum TokKind {
    Void,
    Operator,
    Number,
    Function,
    Constant,
    CString,
    Separator,
    OPar,
    CPar,
}

/// What a token refers to in the catalogs.
#[derive(Debug, Clone, Copy, PartialEq, Eq, Structural)]
pub enum Def {
    Null,
    Op(OpKind),
    Func(FnKind),
    /// A built-in constant, by catalog position.
    Const(usize),
    /// A host function, by position in the evaluation context.
    User(usize),
}

#[derive(Debug, Clone)]
pub struct Token {
    pub kind: TokKind,
    pub unary: bool,
    /// The lexeme, as written.
    pub text: Vec<char>,
    pub val: EVar,
    /// A float literal: `val` holds its text as a string, and its value is the binary64
    /// number that text writes, which the host reads (`FloatOp::ToFloat`).
    pub float_lit: bool,
    /// Operand count: 1 or 2 for an operator, the argument count for a function.
    pub nb_param: u32,
    /// Claimed as an operand during the current evaluation pass.
    pub consumed: bool,
    /// Executed during the current evaluation pass.
    pub executed: bool,
    pub def: Def,
}

/// A token seen as a plain value, its lexeme as a sequence of characters.
pub ghost struct TokenView {
    pub kind: TokKind,
    pub unary: bool,
    pub text: Seq<char>,
    pub val: EVar,
    pub float_lit: bool,
    pub nb_param: u32,
    pub consumed: bool,
    pub executed: bool,
    pub def: Def,
}

impl View for Token {
    type V = TokenView;

    open spec fn view(&self) -> TokenView {
        TokenView {
            kind: self.kind,
            unary: self.unary,
            text: self.text@,
            val: self.val,
            float_lit: self.float_lit,
            nb_param: self.nb_param,
            consumed: self.consumed,
            executed: self.executed,
            def: self.def,
        }
    }
}

impl Token {
    pub fn new() -> (r: Token)
        ensures
            r.kind == TokKind::Void,
            r.text@.len() == 0,
            r.val == EVar::IVal(0),
            !r.unary && !r.float_lit && !r.consumed && !r.executed,
            r.nb_param == 0,
            r.def == Def::Null,
    {
        Token {
            kind: TokKind::Void,
            unary: false,
            text: Vec::new(),
            val: EVar::IVal(0),
            float_lit: false,
            nb_param: 0,
            consumed: false,
            executed: false,
            def: Def::Null,
        }
    }

    /// A copy of the token.
    pub fn duplicate(&self) -> (r: Token)
        ensures
            r@ == self@,
    {
        let text = self.text.clone();
        assert(text@ =~= self.text@);
        Token {
            kind: self.kind,
            unary: self.unary,
            text,
            val: self.val.duplicate(),
            float_lit: self.float_lit,
            nb_param: self.nb_param,
            consumed: self.consumed,
            executed: self.executed,
            def: self.def,
        }
    }

    pub open spec fn spec_is_operand(&self) -> bool {
        self.kind == TokKind::Number || self.kind == TokKind::Constant || self.kind
            == TokKind::CString
    }

    pub open spec fn spec_is_unary(&self) -> bool {
        self.kind == TokKind::Operator && self.unary
    }

    pub open spec fn spec_is_generic_sep(&self) -> bool {
        self.kind == TokKind::Separator || self.kind == TokKind::OPar || self.kind
            == TokKind::CPar
    }

    pub fn is_operator(&self) -> (r: bool)
        ensures
            r == (self.kind == TokKind::Operator),
    {
        self.kind == TokKind::Operator
    }

    pub fn is_operand(&self) -> (r: bool)
        ensures
            r == self.spec_is_operand(),
    {
        match self.kind {
            TokKind::Number | TokKind::Constant | TokKind::CString => true,
            _ => false,
        }
    }

    pub fn is_generic_sep(&self) -> (r: bool)
        ensures
            r == self.spec_is_generic_sep(),
    {
        match self.kind {
            TokKind::Separator | TokKind::OPar | TokKind::CPar => true,
            _ => false,
        }
    }

    pub fn is_param_sep(&self) -> (r: bool)
        ensures
            r == (self.kind == TokKind::Separator),
    {
        self.kind == TokKind::Separator
    }

    pub fn is_opar(&self) -> (r: bool)
        ensures
            r == (self.kind == TokKind::OPar),
    {
        self.kind == TokKind::OPar
    }

    pub fn is_function(&self) -> (r: bool)
        ensures
            r == (self.kind == TokKind::Function),
    {
        self.kind == TokKind::Function
    }

    pub fn is_unary(&self) -> (r: bool)
        ensures
            r == self.spec_is_unary(),
    {
        match self.kind {
            TokKind::Operator => self.unary,
            _ => false,
        }
    }

    /// Marks an operator unary (one operand) or binary (two); other tokens are left
    /// as they are. Returns whether the token is now a unary operator.
    pub fn set_unary(&mut self, val: bool) -> (r: bool)
        ensures
            old(self).kind == TokKind::Operator ==> final(self)@ == (TokenView {
                unary: val,
                nb_param: if val { 1 } else { 2 },
                ..old(self)@
            }),
            old(self).kind != TokKind::Operator ==> final(self)@ == old(self)@,
            r == (val && old(self).kind == TokKind::Operator),
    {
        match self.kind {
            TokKind::Operator => {
                self.unary = val;
                self.nb_param = if val { 1 } else { 2 };
                val
            },
            _ => false,
        }
    }

    /// The lexeme, as written.
    pub fn to_string(&self) -> (r: String)
        ensures
            r@ == self.text@,
    {
        crate::value::string_of(self.text.as_slice())
    }

    /// The precedence of an operator token; 0 for any other token.
    pub open spec fn spec_prio(&self) -> u32 {
        match self.def {
            Def::Op(k) => k.spec_prio(),
            _ => 0,
        }
    }

    pub fn prio(&self) -> (r: u32)
        ensures
            r == self.spec_prio(),
    {
        match self.def {
            Def::Op(k) => k.prio(),
            _ => 0,
        }
    }
}

} // verus!
