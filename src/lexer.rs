//! The lexer: a finite-state machine over the characters of an expression.
use crate::catalog::{
    constant_at, constant_name, constant_value, find_constant, find_function, find_operator,
    EvalContext, FnKind, FuCoOpDef, OpKind, N_CONSTANTS,
};
use crate::error::{LexErr, RpnError};
use crate::token::{Def, TokKind, Token, TokenView};
use crate::value::{
    is_ascii_digit, parse_digits, parse_i64, parse_int, parse_unsigned, string_of, EVar,
};
use vstd::prelude::*;

verus! {

/// What `char::is_numeric` says of a character: whether it has one of Unicode's general
/// categories for numbers.
pub uninterp spec fn numeric_char(c: char) -> bool;

/// What `char::is_alphabetic` says of a character: whether it has Unicode's `Alphabetic`
/// property.
pub uninterp spec fn alphabetic_char(c: char) -> bool;

/// Relies on `char::is_numeric`, which consults Unicode's tables; the ASCII digits are
/// numbers (general category `Nd`).
#[verifier::external_body]
fn is_numeric(c: char) -> (r: bool)
    ensures
        r == numeric_char(c),
        '0' <= c <= '9' ==> r,
{
    c.is_numeric()
}

/// Relies on `char::is_alphabetic`, which consults Unicode's tables; the ASCII letters
/// are alphabetic.
#[verifier::external_body]
fn is_alphabetic(c: char) -> (r: bool)
    ensures
        r == alphabetic_char(c),
        ('a' <= c <= 'z') || ('A' <= c <= 'Z') ==> r,
{
    c.is_alphabetic()
}

/// A control character: Unicode's general category `Cc`.
pub open spec fn control_char(c: char) -> bool {
    (c as u32) <= 0x1f || (0x7f <= (c as u32) && (c as u32) <= 0x9f)
}

/// A character with Unicode's `White_Space` property.
pub open spec fn whitespace_char(c: char) -> bool {
    let u = c as u32;
    (0x09 <= u && u <= 0x0d) || u == 0x20 || u == 0x85 || u == 0xa0 || u == 0x1680 || (0x2000
        <= u && u <= 0x200a) || u == 0x2028 || u == 0x2029 || u == 0x202f || u == 0x205f || u
        == 0x3000
}

/// A character that separates tokens: whitespace or a control character.
pub fn is_blank(c: char) -> (r: bool)
    ensures
        r == (control_char(c) || whitespace_char(c)),
{
    let u = c as u32;
    u <= 0x1f || (0x7f <= u && u <= 0x9f) || (0x09 <= u && u <= 0x0d) || u == 0x20 || u == 0x85
        || u == 0xa0 || u == 0x1680 || (0x2000 <= u && u <= 0x200a) || u == 0x2028 || u
        == 0x2029 || u == 0x202f || u == 0x205f || u == 0x3000
}

pub open spec fn spec_is_operator(c: char) -> bool {
    c == '+' || c == '-' || c == '/' || c == '*' || c == '!' || c == '^' || c == '&' || c == '='
        || c == '|' || c == '<' || c == '>' || c == '~'
}

pub open spec fn spec_is_hexa_char(c: char) -> bool {
    ('0' <= c && c <= '9') || ('a' <= c && c <= 'f') || ('A' <= c && c <= 'F')
}

/// A character that may appear in an operator.
pub fn is_operator(c: char) -> (r: bool)
    ensures
        r == spec_is_operator(c),
{
    c == '+' || c == '-' || c == '/' || c == '*' || c == '!' || c == '^' || c == '&' || c == '='
        || c == '|' || c == '<' || c == '>' || c == '~'
}

/// A hexadecimal digit.
pub fn is_hexa_char(c: char) -> (r: bool)
    ensures
        r == spec_is_hexa_char(c),
{
    ('0' <= c && c <= '9') || ('a' <= c && c <= 'f') || ('A' <= c && c <= 'F')
}

/// The letter that introduces a decimal exponent.
pub fn is_exponent_char(c: char) -> (r: bool)
    ensures
        r == (c == 'e' || c == 'E'),
{
    c == 'e' || c == 'E'
}

/// The letter that follows the leading `0` of a hexadecimal number.
pub fn is_hexa_prefix(c: char) -> (r: bool)
    ensures
        r == (c == 'x' || c == 'X'),
{
    c == 'x' || c == 'X'
}

pub fn lex_error(code: LexErr) -> (r: Result<Option<Token>, RpnError>)
    ensures
        r == Err::<Option<Token>, RpnError>(RpnError::AnaLex(code)),
{
    Err(RpnError::AnaLex(code))
}

/// The characters that may follow a number or a name: an operator character, `)`, `,`
/// or a blank (already turned into a space).
pub open spec fn ends_number(c: char) -> bool {
    spec_is_operator(c) || c == ')' || c == ',' || c == ' '
}

/// The value of an integer literal: hexadecimal after a `0x` prefix, else decimal.
pub open spec fn int_literal_value(t: Seq<char>) -> Option<i64> {
    if t.len() >= 2 && (t[1] == 'x' || t[1] == 'X') {
        parse_unsigned(t.subrange(2, t.len() as int), 16)
    } else {
        parse_i64(t)
    }
}

/// The mantissa of a float literal holds a digit before any exponent letter.
pub open spec fn mantissa_has_digit(t: Seq<char>) -> bool {
    exists|i: int|
        0 <= i < t.len() && is_ascii_digit(#[trigger] t[i]) && forall|j: int|
            0 <= j < i ==> t[j] != 'e' && t[j] != 'E'
}

/// A float literal that reads as a binary64 number: ASCII digits only, and a digit in
/// its mantissa.
pub open spec fn float_literal_ok(t: Seq<char>) -> bool {
    &&& forall|i: int|
        0 <= i < t.len() ==> is_ascii_digit(#[trigger] t[i]) || t[i] == '.' || t[i] == 'e' || t[i]
            == 'E' || t[i] == '+' || t[i] == '-'
    &&& mantissa_has_digit(t)
}

fn float_literal_check(t: &Vec<char>) -> (r: bool)
    ensures
        r == float_literal_ok(t@),
{
    let mut i: usize = 0;
    let mut in_mantissa = true;
    let mut digit = false;
    while i < t.len()
        invariant
            i <= t@.len(),
            forall|j: int|
                0 <= j < i ==> is_ascii_digit(#[trigger] t@[j]) || t@[j] == '.' || t@[j] == 'e'
                    || t@[j] == 'E' || t@[j] == '+' || t@[j] == '-',
            in_mantissa == forall|j: int| 0 <= j < i ==> t@[j] != 'e' && t@[j] != 'E',
            digit == exists|j: int|
                0 <= j < i && is_ascii_digit(#[trigger] t@[j]) && forall|k: int|
                    0 <= k < j ==> t@[k] != 'e' && t@[k] != 'E',
        decreases t.len() - i,
    {
        let c = t[i];
        if !(('0' <= c && c <= '9') || c == '.' || c == 'e' || c == 'E' || c == '+' || c == '-') {
            return false;
        }
        if in_mantissa && '0' <= c && c <= '9' {
            digit = true;
        }
        if c == 'e' || c == 'E' {
            in_mantissa = false;
        }
        i = i + 1;
    }
    digit
}

/// What a token coming out of the lexer holds, given the host's functions `user`.
pub open spec fn lexeme_ok(t: TokenView, user: Seq<FuCoOpDef>) -> bool {
    &&& !t.unary && t.nb_param == 0 && !t.consumed && !t.executed
    &&& t.float_lit ==> t.kind == TokKind::Number
    &&& match t.kind {
        TokKind::Operator => (t.def matches Def::Op(k) && k.name() == t.text),
        TokKind::Number => if t.float_lit {
            float_literal_ok(t.text) && (t.val matches EVar::SVal(s) && s@ == t.text)
        } else {
            (t.val matches EVar::IVal(v) && int_literal_value(t.text) == Some(v))
        },
        TokKind::Function => (t.def matches Def::Func(k) && k.name() == t.text) || (
        t.def matches Def::User(i) && i < user.len() && user[i as int].name@ == t.text),
        TokKind::Constant => (t.def matches Def::Const(i) && i < N_CONSTANTS && constant_name(
            i as int,
        ) == t.text && t.val == constant_value(i as int)),
        TokKind::CString => t.text.len() >= 2 && t.text[0] == '"' && t.text.last() == '"' && (
        t.val matches EVar::SVal(s) && s@ == t.text.subrange(1, t.text.len() - 1)),
        TokKind::Separator => t.text == seq![','],
        TokKind::OPar => t.text == seq!['('],
        TokKind::CPar => t.text == seq![')'],
        TokKind::Void => false,
    }
}

pub open spec fn user_defs(ctx: Option<&EvalContext>) -> Seq<FuCoOpDef> {
    match ctx {
        Some(c) => c.user_fns@,
        None => Seq::empty(),
    }
}


/// The states of the lexer.
#[derive(Debug, Clone, Copy, PartialEq, Eq, Structural)]
pub enum Lex {
    Start,
    /// A leading `0`: a hexadecimal prefix may follow.
    NumHexInit,
    /// Digits before the decimal point.
    NumSigBdp,
    /// Digits after the decimal point.
    NumSigAdp,
    /// Just after the exponent letter.
    NumExpSign,
    /// Just after the exponent's sign.
    NumExpASign,
    /// Digits of the exponent.
    NumExpVal,
    /// Digits of a hexadecimal number.
    NumHex,
    CString,
    Operator,
    FuncConst,
}

#[derive(Debug, Clone, Copy, PartialEq, Eq, Structural)]
pub enum NumType {
    Integer,
    Hexa,
    Float,
}

/// A character that may follow a name: an operator character, a parenthesis, `,` or a
/// blank (already turned into a space).
pub open spec fn ends_name(c: char) -> bool {
    c == ',' || c == ')' || c == '(' || c == ' ' || spec_is_operator(c)
}

/// The text of a number of the given form reads as a value.
pub open spec fn number_ok(nt: NumType, t: Seq<char>) -> bool {
    match nt {
        NumType::Integer => parse_i64(t) is Some,
        NumType::Hexa => t.len() >= 2 && (t[1] == 'x' || t[1] == 'X') && parse_unsigned(t.subrange(2, t.len() as int), 16) is Some,
        NumType::Float => float_literal_ok(t),
    }
}

pub open spec fn is_operator_name(t: Seq<char>) -> bool {
    exists|k: OpKind| k.name() == t
}

pub open spec fn is_function_name(t: Seq<char>) -> bool {
    exists|k: FnKind| k.name() == t
}

pub open spec fn is_constant_name(t: Seq<char>) -> bool {
    exists|i: int| 0 <= i < N_CONSTANTS && constant_name(i) == t
}

pub open spec fn is_user_name(user: Seq<FuCoOpDef>, t: Seq<char>) -> bool {
    exists|i: int| 0 <= i < user.len() && user[i].name@ == t
}

/// A token under construction: nothing set but its text.
pub open spec fn blank_token(t: TokenView) -> bool {
    &&& t.kind == TokKind::Void && !t.unary && t.nb_param == 0 && !t.consumed && !t.executed
    &&& !t.float_lit && t.def == Def::Null && t.val == EVar::IVal(0)
}

/// Ends a name at `c`: resolves it against the functions, the constants, then the host's
/// functions.
pub fn get_token_fuco(c: char, token: Token, ctx: Option<&EvalContext>) -> (r: Result<
    Option<Token>,
    RpnError,
>)
    requires
        blank_token(token@),
        token.text@.len() > 0,
    ensures
        ({
            let name = token.text@.drop_last();
            &&& r is Ok <==> ends_name(c) && (is_function_name(name) || is_constant_name(name)
                || is_user_name(user_defs(ctx), name))
            &&& r matches Ok(Some(t)) ==> lexeme_ok(t@, user_defs(ctx)) && t.text@ == name && (if is_function_name(name) {
                t.kind == TokKind::Function && t.def is Func
            } else if is_constant_name(name) {
                t.kind == TokKind::Constant
            } else {
                t.kind == TokKind::Function && t.def is User
            })
            &&& r matches Ok(v) ==> v is Some
            &&& r matches Err(e) ==> e == RpnError::AnaLex(if ends_name(c) {
                LexErr::FunctionOrConstNotFound
            } else {
                LexErr::FunctionOrConst
            })
        }),
{
    let mut token = token;
    token.text.pop();
    if c == ',' || c == ')' || c == '(' || c == ' ' || is_operator(c) {
        if let Some(fu) = find_function(&token.text) {
            token.kind = TokKind::Function;
            token.def = Def::Func(fu);
            return Ok(Some(token));
        } else if let Some(co) = find_constant(&token.text) {
            let (_, val) = constant_at(co);
            token.kind = TokKind::Constant;
            token.val = val;
            token.def = Def::Const(co);
            return Ok(Some(token));
        } else if let Some(context) = ctx {
            if let Some(i) = context.find(&token.text) {
                token.kind = TokKind::Function;
                token.def = Def::User(i);
                return Ok(Some(token));
            } else {
                return lex_error(LexErr::FunctionOrConstNotFound);
            }
        } else {
            return lex_error(LexErr::FunctionOrConstNotFound);
        }
    }
    lex_error(LexErr::FunctionOrConst)
}

/// Ends a number at `c`, which must be able to follow a number, and reads its value.
pub fn get_token_number(c: char, numtype: NumType, errcode: LexErr, token: Token) -> (r: Result<
    Option<Token>,
    RpnError,
>)
    requires
        blank_token(token@),
        token.text@.len() > 0,
        numtype == NumType::Hexa ==> token.text@.len() >= 3,
    ensures
        r is Ok <==> ends_number(c) && number_ok(numtype, token.text@.drop_last()),
        r matches Ok(Some(t)) ==> (forall|u: Seq<FuCoOpDef>| lexeme_ok(t@, u)) && t.text@ == token.text@.drop_last()
            && t.kind == TokKind::Number && t.float_lit == (numtype == NumType::Float),
        r matches Ok(v) ==> v is Some,
        r matches Err(e) ==> e == RpnError::AnaLex(errcode),
{
    let mut token = token;
    if is_operator(c) || c == ')' || c == ',' || c == ' ' {
        token.text.pop();
        token.kind = TokKind::Number;
        match numtype {
            NumType::Integer => {
                if let Some(i) = parse_int(&token.text) {
                    proof {
                        let t = token.text@;
                        if t.len() >= 2 {
                            let body = if t[0] == '-' || t[0] == '+' { t.drop_first() } else { t };
                            assert(t[1] == body[if t[0] == '-' || t[0] == '+' { 0int } else { 1int }]);
                        }
                    }
                    token.val = EVar::IVal(i);
                } else {
                    return lex_error(errcode);
                }
            },
            NumType::Hexa => {
                if token.text[1] != 'x' && token.text[1] != 'X' {
                    return lex_error(errcode);
                }
                if let Some(i) = parse_digits(&token.text, 2, 16) {
                    token.val = EVar::IVal(i);
                } else {
                    return lex_error(errcode);
                }
            },
            NumType::Float => {
                if float_literal_check(&token.text) {
                    token.float_lit = true;
                    token.val = EVar::SVal(string_of(token.text.as_slice()));
                } else {
                    return lex_error(errcode);
                }
            },
        }
        return Ok(Some(token));
    }
    lex_error(errcode)
}

/// Ends an operator: its text must name one.
pub fn get_token_operator(errcode: LexErr, token: Token) -> (r: Result<Option<Token>, RpnError>)
    requires
        blank_token(token@),
    ensures
        r is Ok <==> is_operator_name(token.text@),
        r matches Ok(Some(t)) ==> (forall|u: Seq<FuCoOpDef>| lexeme_ok(t@, u)) && t.text@ == token.text@
            && t.kind == TokKind::Operator,
        r matches Ok(v) ==> v is Some,
        r matches Err(e) ==> e == RpnError::AnaLex(errcode),
{
    let mut token = token;
    if let Some(op) = find_operator(&token.text) {
        token.kind = TokKind::Operator;
        token.def = Def::Op(op);
        return Ok(Some(token));
    }
    lex_error(errcode)
}

/// What the lexer does on a character in a state.
#[derive(Debug, Clone, Copy, PartialEq, Eq, Structural)]
pub enum LexStep {
    /// Takes the character and moves to a state.
    Go(Lex),
    /// Takes the character, which is a token by itself.
    Single(TokKind),
    /// Ends a number before the character.
    Number(NumType, LexErr),
    /// Fails.
    Fail(LexErr),
    /// Meets a second operator character: the operator ends with it when the two name an
    /// operator, and before it otherwise.
    OpLong,
    /// Ends a one-character operator before the character.
    OpShort,
    /// Takes the closing quote of a string.
    CloseString,
    /// Ends a name before the character.
    Name,
}

/// The transitions of the lexer (`c` is a blank turned into a space, but in a string).
pub open spec fn lex_step(state: Lex, c: char) -> LexStep {
    match state {
        Lex::Start => if c == '0' {
            LexStep::Go(Lex::NumHexInit)
        } else if numeric_char(c) {
            LexStep::Go(Lex::NumSigBdp)
        } else if c == '.' {
            LexStep::Go(Lex::NumSigAdp)
        } else if c == '"' {
            LexStep::Go(Lex::CString)
        } else if spec_is_operator(c) {
            LexStep::Go(Lex::Operator)
        } else if alphabetic_char(c) {
            LexStep::Go(Lex::FuncConst)
        } else if c == '(' {
            LexStep::Single(TokKind::OPar)
        } else if c == ')' {
            LexStep::Single(TokKind::CPar)
        } else if c == ',' {
            LexStep::Single(TokKind::Separator)
        } else {
            LexStep::Fail(LexErr::BadStart)
        },
        Lex::NumHexInit => if c == 'x' || c == 'X' {
            LexStep::Go(Lex::NumHex)
        } else if numeric_char(c) {
            LexStep::Go(Lex::NumSigBdp)
        } else if c == '.' {
            LexStep::Go(Lex::NumSigAdp)
        } else {
            LexStep::Number(NumType::Integer, LexErr::BadHexInit)
        },
        Lex::NumSigBdp => if numeric_char(c) {
            LexStep::Go(Lex::NumSigBdp)
        } else if c == '.' {
            LexStep::Go(Lex::NumSigAdp)
        } else if c == 'e' || c == 'E' {
            LexStep::Go(Lex::NumExpSign)
        } else {
            LexStep::Number(NumType::Integer, LexErr::BadSigBdp)
        },
        Lex::NumSigAdp => if numeric_char(c) {
            LexStep::Go(Lex::NumSigAdp)
        } else if c == 'e' || c == 'E' {
            LexStep::Go(Lex::NumExpSign)
        } else {
            LexStep::Number(NumType::Float, LexErr::BadSigAdp)
        },
        Lex::NumExpSign => if numeric_char(c) {
            LexStep::Go(Lex::NumExpVal)
        } else if c == '+' || c == '-' {
            LexStep::Go(Lex::NumExpASign)
        } else {
            LexStep::Fail(LexErr::BadExpSign)
        },
        Lex::NumExpASign => if numeric_char(c) {
            LexStep::Go(Lex::NumExpVal)
        } else {
            LexStep::Fail(LexErr::BadExpASign)
        },
        Lex::NumExpVal => if numeric_char(c) {
            LexStep::Go(Lex::NumExpVal)
        } else {
            LexStep::Number(NumType::Float, LexErr::BadExpVal)
        },
        Lex::NumHex => if spec_is_hexa_char(c) {
            LexStep::Go(Lex::NumHex)
        } else {
            LexStep::Number(NumType::Hexa, LexErr::BadHex)
        },
        Lex::Operator => if spec_is_operator(c) {
            LexStep::OpLong
        } else if c == '"' {
            LexStep::Fail(LexErr::QuoteAfterOp)
        } else {
            LexStep::OpShort
        },
        Lex::CString => if c == '"' {
            LexStep::CloseString
        } else {
            LexStep::Go(Lex::CString)
        },
        Lex::FuncConst => if alphabetic_char(c) || numeric_char(c) {
            LexStep::Go(Lex::FuncConst)
        } else {
            LexStep::Name
        },
    }
}

pub fn next_step(state: Lex, c: char) -> (r: LexStep)
    ensures
        r == lex_step(state, c),
{
    match state {
        Lex::Start => if c == '0' {
            LexStep::Go(Lex::NumHexInit)
        } else if is_numeric(c) {
            LexStep::Go(Lex::NumSigBdp)
        } else if c == '.' {
            LexStep::Go(Lex::NumSigAdp)
        } else if c == '"' {
            LexStep::Go(Lex::CString)
        } else if is_operator(c) {
            LexStep::Go(Lex::Operator)
        } else if is_alphabetic(c) {
            LexStep::Go(Lex::FuncConst)
        } else if c == '(' {
            LexStep::Single(TokKind::OPar)
        } else if c == ')' {
            LexStep::Single(TokKind::CPar)
        } else if c == ',' {
            LexStep::Single(TokKind::Separator)
        } else {
            LexStep::Fail(LexErr::BadStart)
        },
        Lex::NumHexInit => if is_hexa_prefix(c) {
            LexStep::Go(Lex::NumHex)
        } else if is_numeric(c) {
            LexStep::Go(Lex::NumSigBdp)
        } else if c == '.' {
            LexStep::Go(Lex::NumSigAdp)
        } else {
            LexStep::Number(NumType::Integer, LexErr::BadHexInit)
        },
        Lex::NumSigBdp => if is_numeric(c) {
            LexStep::Go(Lex::NumSigBdp)
        } else if c == '.' {
            LexStep::Go(Lex::NumSigAdp)
        } else if is_exponent_char(c) {
            LexStep::Go(Lex::NumExpSign)
        } else {
            LexStep::Number(NumType::Integer, LexErr::BadSigBdp)
        },
        Lex::NumSigAdp => if is_numeric(c) {
            LexStep::Go(Lex::NumSigAdp)
        } else if is_exponent_char(c) {
            LexStep::Go(Lex::NumExpSign)
        } else {
            LexStep::Number(NumType::Float, LexErr::BadSigAdp)
        },
        Lex::NumExpSign => if is_numeric(c) {
            LexStep::Go(Lex::NumExpVal)
        } else if c == '+' || c == '-' {
            LexStep::Go(Lex::NumExpASign)
        } else {
            LexStep::Fail(LexErr::BadExpSign)
        },
        Lex::NumExpASign => if is_numeric(c) {
            LexStep::Go(Lex::NumExpVal)
        } else {
            LexStep::Fail(LexErr::BadExpASign)
        },
        Lex::NumExpVal => if is_numeric(c) {
            LexStep::Go(Lex::NumExpVal)
        } else {
            LexStep::Number(NumType::Float, LexErr::BadExpVal)
        },
        Lex::NumHex => if is_hexa_char(c) {
            LexStep::Go(Lex::NumHex)
        } else {
            LexStep::Number(NumType::Hexa, LexErr::BadHex)
        },
        Lex::Operator => if is_operator(c) {
            LexStep::OpLong
        } else if c == '"' {
            LexStep::Fail(LexErr::QuoteAfterOp)
        } else {
            LexStep::OpShort
        },
        Lex::CString => if c == '"' {
            LexStep::CloseString
        } else {
            LexStep::Go(Lex::CString)
        },
        Lex::FuncConst => if is_alphabetic(c) || is_numeric(c) {
            LexStep::Go(Lex::FuncConst)
        } else {
            LexStep::Name
        },
    }
}

/// Where the lexer stops, and with what: a text to finish as a token of some form, an
/// error, or nothing left.
pub ghost enum Lexed {
    Nothing,
    Failed(LexErr),
    Single(TokKind, Seq<char>),
    Number(NumType, LexErr, char, Seq<char>),
    Operator(LexErr, Seq<char>),
    Str(Seq<char>),
    Name(char, Seq<char>),
}

/// Runs the lexer over `s` from `pos` in `state`, having read `text`. The end of the text
/// acts as one trailing space. Gives where it stopped and the position it reached.
pub open spec fn lex_run(s: Seq<char>, pos: int, state: Lex, text: Seq<char>) -> (Lexed, int)
    decreases s.len() - pos,
{
    let last = pos >= s.len();
    let c0 = if last {
        ' '
    } else {
        s[pos]
    };
    let blank = control_char(c0) || whitespace_char(c0);
    if blank && state == Lex::Start {
        if last {
            (Lexed::Nothing, pos)
        } else {
            lex_run(s, pos + 1, state, text)
        }
    } else {
        let c = if blank && state != Lex::CString {
            ' '
        } else {
            c0
        };
        match lex_step(state, c) {
            LexStep::Go(next) => if last {
                // only a string still waits for a character at the end of the text
                (Lexed::Failed(LexErr::UnclosedString), pos)
            } else {
                lex_run(s, pos + 1, next, text.push(c))
            },
            LexStep::Single(k) => (Lexed::Single(k, text.push(c)), pos + 1),
            LexStep::Number(nt, e) => (Lexed::Number(nt, e, c, text), pos),
            LexStep::Fail(e) => (Lexed::Failed(e), pos),
            LexStep::OpLong => if is_operator_name(text.push(c)) {
                (Lexed::Operator(LexErr::BadOperatorLong, text.push(c)), pos + 1)
            } else {
                (Lexed::Operator(LexErr::BadOperatorLong, text), pos)
            },
            LexStep::OpShort => (Lexed::Operator(LexErr::BadOperatorShort, text), pos),
            LexStep::CloseString => (Lexed::Str(text.push(c)), pos + 1),
            LexStep::Name => (Lexed::Name(c, text), pos),
        }
    }
}

/// The token, error or end that `get_token` gives for what the lexer stopped at.
pub open spec fn lexed_matches(
    l: Lexed,
    p: int,
    r: Result<Option<Token>, RpnError>,
    end: int,
    user: Seq<FuCoOpDef>,
) -> bool {
    match l {
        Lexed::Nothing => r == Ok::<Option<Token>, RpnError>(None),
        Lexed::Failed(e) => r == Err::<Option<Token>, RpnError>(RpnError::AnaLex(e)),
        Lexed::Single(k, t) => r matches Ok(Some(tok)) && tok.kind == k && tok.text@ == t && end == p,
        Lexed::Number(nt, e, c, t) => if ends_number(c) && number_ok(nt, t) {
            r matches Ok(Some(tok)) && tok.kind == TokKind::Number && tok.text@ == t && tok.float_lit
                == (nt == NumType::Float) && end == p
        } else {
            r == Err::<Option<Token>, RpnError>(RpnError::AnaLex(e))
        },
        Lexed::Operator(e, t) => if is_operator_name(t) {
            r matches Ok(Some(tok)) && tok.kind == TokKind::Operator && tok.text@ == t && end == p
        } else {
            r == Err::<Option<Token>, RpnError>(RpnError::AnaLex(e))
        },
        Lexed::Str(t) => r matches Ok(Some(tok)) && tok.kind == TokKind::CString && tok.text@ == t
            && end == p,
        Lexed::Name(c, t) => if !ends_name(c) {
            r == Err::<Option<Token>, RpnError>(RpnError::AnaLex(LexErr::FunctionOrConst))
        } else if is_function_name(t) {
            r matches Ok(Some(tok)) && tok.kind == TokKind::Function && tok.def is Func && tok.text@ == t
                && end == p
        } else if is_constant_name(t) {
            r matches Ok(Some(tok)) && tok.kind == TokKind::Constant && tok.text@ == t && end == p
        } else if is_user_name(user, t) {
            r matches Ok(Some(tok)) && tok.kind == TokKind::Function && tok.def is User && tok.text@ == t
                && end == p
        } else {
            r == Err::<Option<Token>, RpnError>(RpnError::AnaLex(LexErr::FunctionOrConstNotFound))
        },
    }
}

/// Reads the next token of `s` from position `*pos`, skipping blanks before it.
///
/// `*pos` moves past the characters the token is made of; the character that ends a
/// number, a name or a one-character operator is left for the next call. The end of
/// the text acts as one trailing space. `Ok(None)` means that no token is left.
pub fn get_token(s: &Vec<char>, pos: &mut usize, ctx: Option<&EvalContext>) -> (r: Result<
    Option<Token>,
    RpnError,
>)
    requires
        *old(pos) <= s@.len(),
    ensures
        *old(pos) <= *final(pos) <= s@.len(),
        r matches Ok(Some(t)) ==> *final(pos) > *old(pos) && lexeme_ok(t@, user_defs(ctx)),
        r matches Err(e) ==> e is AnaLex,
        ({
            let (l, p) = lex_run(s@, *old(pos) as int, Lex::Start, Seq::empty());
            lexed_matches(l, p, r, *final(pos) as int, user_defs(ctx))
        }),
{
    let ghost start = *pos;
    let mut token = Token::new();
    let mut step = Lex::Start;
    assert(token.text@ =~= Seq::<char>::empty());
    loop
        invariant
            start == *old(pos),
            start <= *pos <= s@.len(),
            step != Lex::Start ==> *pos > start,
            blank_token(token@),
            step != Lex::Start ==> token.text@.len() > 0,
            step == Lex::Start ==> token.text@.len() == 0,
            step == Lex::CString ==> token.text@[0] == '"',
            step == Lex::NumHex ==> token.text@.len() >= 2,
            lex_run(s@, start as int, Lex::Start, Seq::empty()) == lex_run(
                s@,
                *pos as int,
                step,
                token.text@,
            ),
        ensures
            lex_run(s@, start as int, Lex::Start, Seq::empty()).0 == Lexed::Nothing,
            start <= *pos <= s@.len(),
        decreases s@.len() - *pos,
    {
        let last = *pos >= s.len();
        let mut c = ' ';
        if !last {
            c = s[*pos];
        }
        let blank = is_blank(c);
        if blank && step == Lex::Start {
            if last {
                break ;
            }
            *pos = *pos + 1;
            continue ;
        }
        if blank && step != Lex::CString {
            c = ' ';
        }
        match next_step(step, c) {
            LexStep::Go(next) => {
                if last {
                    return lex_error(LexErr::UnclosedString);
                }
                token.text.push(c);
                step = next;
                *pos = *pos + 1;
            },
            LexStep::Single(k) => {
                token.text.push(c);
                token.kind = k;
                assert(token.text@ =~= seq![c]);
                *pos = *pos + 1;
                return Ok(Some(token));
            },
            LexStep::Number(nt, e) => {
                let ghost before = token.text@;
                token.text.push(c);
                assert(token.text@.drop_last() =~= before);
                return get_token_number(c, nt, e, token);
            },
            LexStep::Fail(e) => {
                return lex_error(e);
            },
            LexStep::OpLong => {
                // the longest operator that the catalog knows: two characters, else one
                let ghost before = token.text@;
                token.text.push(c);
                if find_operator(&token.text).is_some() {
                    *pos = *pos + 1;
                } else {
                    token.text.pop();
                    assert(token.text@ =~= before);
                }
                return get_token_operator(LexErr::BadOperatorLong, token);
            },
            LexStep::OpShort => {
                return get_token_operator(LexErr::BadOperatorShort, token);
            },
            LexStep::CloseString => {
                token.text.push(c);
                token.kind = TokKind::CString;
                let n = token.text.len();
                let inner = string_of(&token.text.as_slice()[1..n - 1]);
                token.val = EVar::SVal(inner);
                *pos = *pos + 1;
                return Ok(Some(token));
            },
            LexStep::Name => {
                let ghost before = token.text@;
                token.text.push(c);
                assert(token.text@.drop_last() =~= before);
                return get_token_fuco(c, token, ctx);
            },
        }
    }
    Ok(None)
}

/// The token (its kind and text), the end, or the error that the lexer gives for what it
/// stopped at.
pub open spec fn lex_result(l: Lexed, user: Seq<FuCoOpDef>) -> Result<Option<(TokKind, Seq<char>)>, LexErr> {
    match l {
        Lexed::Nothing => Ok(None),
        Lexed::Failed(e) => Err(e),
        Lexed::Single(k, t) => Ok(Some((k, t))),
        Lexed::Number(nt, e, c, t) => if ends_number(c) && number_ok(nt, t) {
            Ok(Some((TokKind::Number, t)))
        } else {
            Err(e)
        },
        Lexed::Operator(e, t) => if is_operator_name(t) {
            Ok(Some((TokKind::Operator, t)))
        } else {
            Err(e)
        },
        Lexed::Str(t) => Ok(Some((TokKind::CString, t))),
        Lexed::Name(c, t) => if !ends_name(c) {
            Err(LexErr::FunctionOrConst)
        } else if is_function_name(t) {
            Ok(Some((TokKind::Function, t)))
        } else if is_constant_name(t) {
            Ok(Some((TokKind::Constant, t)))
        } else if is_user_name(user, t) {
            Ok(Some((TokKind::Function, t)))
        } else {
            Err(LexErr::FunctionOrConstNotFound)
        },
    }
}

/// The kinds and texts of the tokens of `s` from `pos` on, or the first lexical error.
pub open spec fn lex_all(s: Seq<char>, pos: int, user: Seq<FuCoOpDef>) -> Result<Seq<(TokKind, Seq<char>)>, LexErr>
    decreases s.len() - pos,
{
    let (l, p) = lex_run(s, pos, Lex::Start, Seq::empty());
    match lex_result(l, user) {
        Err(e) => Err(e),
        Ok(None) => Ok(Seq::empty()),
        Ok(Some(kt)) => if pos < p <= s.len() {
            match lex_all(s, p, user) {
                Ok(rest) => Ok(seq![kt] + rest),
                Err(e) => Err(e),
            }
        } else {
            Ok(seq![kt])
        },
    }
}

/// The kind and text of each token.
pub open spec fn kinds_and_texts(ts: Seq<Token>) -> Seq<(TokKind, Seq<char>)> {
    ts.map_values(|t: Token| (t.kind, t.text@))
}

} // verus!
