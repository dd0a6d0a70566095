//! The three tiers of failure: lexical, syntactic and execution errors.
use vstd::prelude::*;

verus! {

#[derive(Debug, Clone, Copy, PartialEq, Eq, Structural)]
pub enum LexErr {
    BadStart,
    FunctionOrConstNotFound,
    FunctionOrConst,
    BadHexInit,
    BadSigBdp,
    BadSigAdp,
    BadExpSign,
    BadExpASign,
    BadExpVal,
    BadHex,
    QuoteAfterOp,
    BadOperatorShort,
    BadOperatorLong,
    /// A string with no closing quote.
    UnclosedString,
}

#[derive(Debug, Clone, Copy, PartialEq, Eq, Structural)]
pub enum ParErr {
    ParamNb,
    MatchingPar,
    ParamSep,
}

#[derive(Debug, Clone, Copy, PartialEq, Eq, Structural)]
pub enum ExErr {
    NotParsed,
    EvalNullFn,
    TooManyParams,
    StartWrongToken,
    WrongStackLen,
    StartOperandMissing,
    TokenNotFound,
    GetOperandMissing,
    GetOperandStart,
    EvalDiv0,
    EvalMaxParam,
    EvalAvgParam,
}

#[derive(Debug, Clone, Copy, PartialEq, Eq, Structural)]
pub enum RpnError {
    NoError,
    AnaLex(LexErr),
    Parse(ParErr),
    Exec(ExErr),
}

impl RpnError {
    pub open spec fn spec_category(self) -> Seq<char> {
        match self {
            RpnError::AnaLex(_) => "rpn analex error"@,
            RpnError::Exec(_) => "rpn exec error"@,
            RpnError::Parse(_) => "rpn parsing error"@,
            RpnError::NoError => "no error"@,
        }
    }

    /// The error's category, as shown to a user.
    pub fn category(&self) -> (r: &'static str)
        ensures
            r@ == self.spec_category(),
    {
        match self {
            RpnError::AnaLex(_) => "rpn analex error",
            RpnError::Exec(_) => "rpn exec error",
            RpnError::Parse(_) => "rpn parsing error",
            RpnError::NoError => "no error",
        }
    }
}

} // verus!
