//! The built-in operators, functions and constants, and the host's own functions.
use crate::value::{chars_of, EVar};
use vstd::prelude::*;

verus! {

/// The operators, in catalog order.
#[derive(Debug, Clone, Copy, PartialEq, Eq, Structural)]
pub enum OpKind {
    Plus,
    Minus,
    Mul,
    Div,
    Eq,
    Neq,
    InfEq,
    SupEq,
    Inf,
    Sup,
    LogNot,
    BitNot,
    And,
    Or,
    BitXor,
    BitAnd,
    BitOr,
    Shl,
    Shr,
}

/// The built-in functions, in catalog order.
#[derive(Debug, Clone, Copy, PartialEq, Eq, Structural)]
pub enum FnKind {
    Sin,
    Cos,
    Tan,
    Pow,
    Sqrt,
    Cbrt,
    Exp,
    Ln,
    Log10,
    Max,
    Min,
    Avg,
    Now,
}

pub const N_OPERATORS: usize = 19;

pub const N_FUNCTIONS: usize = 13;

pub const N_CONSTANTS: usize = 20;

/// A function supplied by the host: its name and, when fixed, its parameter count.
/// The host evaluates it (see `eval::HostCall::User`).
#[derive(Debug, Clone)]
pub struct FuCoOpDef {
    pub name: String,
    pub params: Option<u32>,
}

/// The host's own functions, consulted after the built-in catalogs.
#[derive(Debug, Clone)]
pub struct EvalContext {
    pub user_fns: Vec<FuCoOpDef>,
}

impl OpKind {
    pub open spec fn name(self) -> Seq<char> {
        match self {
            OpKind::Plus => seq!['+'],
            OpKind::Minus => seq!['-'],
            OpKind::Mul => seq!['*'],
            OpKind::Div => seq!['/'],
            OpKind::Eq => seq!['=', '='],
            OpKind::Neq => seq!['!', '='],
            OpKind::InfEq => seq!['<', '='],
            OpKind::SupEq => seq!['>', '='],
            OpKind::Inf => seq!['<'],
            OpKind::Sup => seq!['>'],
            OpKind::LogNot => seq!['!'],
            OpKind::BitNot => seq!['~'],
            OpKind::And => seq!['&', '&'],
            OpKind::Or => seq!['|', '|'],
            OpKind::BitXor => seq!['^'],
            OpKind::BitAnd => seq!['&'],
            OpKind::BitOr => seq!['|'],
            OpKind::Shl => seq!['<', '<'],
            OpKind::Shr => seq!['>', '>'],
        }
    }

    /// Precedence; a higher value binds tighter.
    pub open spec fn spec_prio(self) -> u32 {
        match self {
            OpKind::Plus => 9,
            OpKind::Minus => 10,
            OpKind::Mul => 12,
            OpKind::Div => 11,
            OpKind::Eq | OpKind::Neq | OpKind::InfEq | OpKind::SupEq | OpKind::Inf
            | OpKind::Sup => 5,
            OpKind::LogNot | OpKind::BitNot => 13,
            OpKind::And | OpKind::Or => 2,
            OpKind::BitXor | OpKind::BitAnd | OpKind::BitOr => 3,
            OpKind::Shl | OpKind::Shr => 1,
        }
    }

    pub fn prio(self) -> (r: u32)
        ensures
            r == self.spec_prio(),
            r > 0,
    {
        match self {
            OpKind::Plus => 9,
            OpKind::Minus => 10,
            OpKind::Mul => 12,
            OpKind::Div => 11,
            OpKind::Eq | OpKind::Neq | OpKind::InfEq | OpKind::SupEq | OpKind::Inf
            | OpKind::Sup => 5,
            OpKind::LogNot | OpKind::BitNot => 13,
            OpKind::And | OpKind::Or => 2,
            OpKind::BitXor | OpKind::BitAnd | OpKind::BitOr => 3,
            OpKind::Shl | OpKind::Shr => 1,
        }
    }

    pub open spec fn index(self) -> int {
        match self {
            OpKind::Plus => 0,
            OpKind::Minus => 1,
            OpKind::Mul => 2,
            OpKind::Div => 3,
            OpKind::Eq => 4,
            OpKind::Neq => 5,
            OpKind::InfEq => 6,
            OpKind::SupEq => 7,
            OpKind::Inf => 8,
            OpKind::Sup => 9,
            OpKind::LogNot => 10,
            OpKind::BitNot => 11,
            OpKind::And => 12,
            OpKind::Or => 13,
            OpKind::BitXor => 14,
            OpKind::BitAnd => 15,
            OpKind::BitOr => 16,
            OpKind::Shl => 17,
            OpKind::Shr => 18,
        }
    }
}

/// The operator at position `i` of the catalog.
pub fn operator_at(i: usize) -> (r: OpKind)
    requires
        i < N_OPERATORS,
    ensures
        r.index() == i,
{
    match i {
        0 => OpKind::Plus,
        1 => OpKind::Minus,
        2 => OpKind::Mul,
        3 => OpKind::Div,
        4 => OpKind::Eq,
        5 => OpKind::Neq,
        6 => OpKind::InfEq,
        7 => OpKind::SupEq,
        8 => OpKind::Inf,
        9 => OpKind::Sup,
        10 => OpKind::LogNot,
        11 => OpKind::BitNot,
        12 => OpKind::And,
        13 => OpKind::Or,
        14 => OpKind::BitXor,
        15 => OpKind::BitAnd,
        16 => OpKind::BitOr,
        17 => OpKind::Shl,
        _ => OpKind::Shr,
    }
}

pub fn operator_name(k: OpKind) -> (r: Vec<char>)
    ensures
        r@ == k.name(),
{
    let r = match k {
        OpKind::Plus => vec!['+'],
        OpKind::Minus => vec!['-'],
        OpKind::Mul => vec!['*'],
        OpKind::Div => vec!['/'],
        OpKind::Eq => vec!['=', '='],
        OpKind::Neq => vec!['!', '='],
        OpKind::InfEq => vec!['<', '='],
        OpKind::SupEq => vec!['>', '='],
        OpKind::Inf => vec!['<'],
        OpKind::Sup => vec!['>'],
        OpKind::LogNot => vec!['!'],
        OpKind::BitNot => vec!['~'],
        OpKind::And => vec!['&', '&'],
        OpKind::Or => vec!['|', '|'],
        OpKind::BitXor => vec!['^'],
        OpKind::BitAnd => vec!['&'],
        OpKind::BitOr => vec!['|'],
        OpKind::Shl => vec!['<', '<'],
        OpKind::Shr => vec!['>', '>'],
    };
    assert(r@ =~= k.name());
    r
}

/// Whether two character sequences are equal.
pub fn same_chars(a: &Vec<char>, b: &Vec<char>) -> (r: bool)
    ensures
        r == (a@ == b@),
{
    if a.len() != b.len() {
        return false;
    }
    let mut i: usize = 0;
    while i < a.len()
        invariant
            a@.len() == b@.len(),
            i <= a@.len(),
            forall|j: int| 0 <= j < i ==> a@[j] == b@[j],
        decreases a.len() - i,
    {
        if a[i] != b[i] {
            return false;
        }
        i = i + 1;
    }
    assert(a@ =~= b@);
    true
}

/// The operator written `t`, if any.
pub fn find_operator(t: &Vec<char>) -> (r: Option<OpKind>)
    ensures
        r matches Some(k) ==> k.name() == t@,
        r is None ==> forall|k: OpKind| k.name() != t@,
{
    let mut i: usize = 0;
    while i < N_OPERATORS
        invariant
            forall|k: OpKind| k.index() < i ==> k.name() != t@,
        decreases N_OPERATORS - i,
    {
        let k = operator_at(i);
        if same_chars(&operator_name(k), t) {
            return Some(k);
        }
        i = i + 1;
    }
    None
}

impl FnKind {
    pub open spec fn name(self) -> Seq<char> {
        match self {
            FnKind::Sin => seq!['s', 'i', 'n'],
            FnKind::Cos => seq!['c', 'o', 's'],
            FnKind::Tan => seq!['t', 'a', 'n'],
            FnKind::Pow => seq!['p', 'o', 'w'],
            FnKind::Sqrt => seq!['s', 'q', 'r', 't'],
            FnKind::Cbrt => seq!['c', 'b', 'r', 't'],
            FnKind::Exp => seq!['e', 'x', 'p'],
            FnKind::Ln => seq!['l', 'n'],
            FnKind::Log10 => seq!['l', 'o', 'g', '1', '0'],
            FnKind::Max => seq!['m', 'a', 'x'],
            FnKind::Min => seq!['m', 'i', 'n'],
            FnKind::Avg => seq!['a', 'v', 'g'],
            FnKind::Now => seq!['n', 'o', 'w'],
        }
    }

    /// The fixed parameter count; `None` for a function taking one or more.
    pub open spec fn spec_params(self) -> Option<u32> {
        match self {
            FnKind::Sin => Some(1),
            FnKind::Cos => Some(1),
            FnKind::Tan => Some(1),
            FnKind::Pow => Some(2),
            FnKind::Sqrt => Some(1),
            FnKind::Cbrt => Some(1),
            FnKind::Exp => Some(1),
            FnKind::Ln => Some(1),
            FnKind::Log10 => Some(1),
            FnKind::Max => None,
            FnKind::Min => None,
            FnKind::Avg => None,
            FnKind::Now => Some(0),
        }
    }

    pub fn params(self) -> (r: Option<u32>)
        ensures
            r == self.spec_params(),
    {
        match self {
            FnKind::Sin => Some(1),
            FnKind::Cos => Some(1),
            FnKind::Tan => Some(1),
            FnKind::Pow => Some(2),
            FnKind::Sqrt => Some(1),
            FnKind::Cbrt => Some(1),
            FnKind::Exp => Some(1),
            FnKind::Ln => Some(1),
            FnKind::Log10 => Some(1),
            FnKind::Max => None,
            FnKind::Min => None,
            FnKind::Avg => None,
            FnKind::Now => Some(0),
        }
    }

    pub open spec fn index(self) -> int {
        match self {
            FnKind::Sin => 0,
            FnKind::Cos => 1,
            FnKind::Tan => 2,
            FnKind::Pow => 3,
            FnKind::Sqrt => 4,
            FnKind::Cbrt => 5,
            FnKind::Exp => 6,
            FnKind::Ln => 7,
            FnKind::Log10 => 8,
            FnKind::Max => 9,
            FnKind::Min => 10,
            FnKind::Avg => 11,
            FnKind::Now => 12,
        }
    }
}

/// The function at position `i` of the catalog.
pub fn function_at(i: usize) -> (r: FnKind)
    requires
        i < N_FUNCTIONS,
    ensures
        r.index() == i,
{
    match i {
        0 => FnKind::Sin,
        1 => FnKind::Cos,
        2 => FnKind::Tan,
        3 => FnKind::Pow,
        4 => FnKind::Sqrt,
        5 => FnKind::Cbrt,
        6 => FnKind::Exp,
        7 => FnKind::Ln,
        8 => FnKind::Log10,
        9 => FnKind::Max,
        10 => FnKind::Min,
        11 => FnKind::Avg,
        _ => FnKind::Now,
    }
}

pub fn function_name(k: FnKind) -> (r: Vec<char>)
    ensures
        r@ == k.name(),
{
    let r = match k {
        FnKind::Sin => vec!['s', 'i', 'n'],
        FnKind::Cos => vec!['c', 'o', 's'],
        FnKind::Tan => vec!['t', 'a', 'n'],
        FnKind::Pow => vec!['p', 'o', 'w'],
        FnKind::Sqrt => vec!['s', 'q', 'r', 't'],
        FnKind::Cbrt => vec!['c', 'b', 'r', 't'],
        FnKind::Exp => vec!['e', 'x', 'p'],
        FnKind::Ln => vec!['l', 'n'],
        FnKind::Log10 => vec!['l', 'o', 'g', '1', '0'],
        FnKind::Max => vec!['m', 'a', 'x'],
        FnKind::Min => vec!['m', 'i', 'n'],
        FnKind::Avg => vec!['a', 'v', 'g'],
        FnKind::Now => vec!['n', 'o', 'w'],
    };
    assert(r@ =~= k.name());
    r
}

/// The name of the constant at position `i` of the catalog.
pub open spec fn constant_name(i: int) -> Seq<char> {
    if i == 0 {
        seq!['p', 'i']
    }     else if i == 1 {
        seq!['\u{3c0}']
    }     else if i == 2 {
        seq!['e']
    }     else if i == 3 {
        seq!['p', 'h', 'i']
    }     else if i == 4 {
        seq!['\u{3a6}']
    }     else if i == 5 {
        seq!['r', 'h', 'o']
    }     else if i == 6 {
        seq!['\u{3c1}']
    }     else if i == 7 {
        seq!['c']
    }     else if i == 8 {
        seq!['G']
    }     else if i == 9 {
        seq!['h']
    }     else if i == 10 {
        seq!['p', 'm']
    }     else if i == 11 {
        seq!['p', 't']
    }     else if i == 12 {
        seq!['p', 'l']
    }     else if i == 13 {
        seq!['q', 'e']
    }     else if i == 14 {
        seq!['m', 'e']
    }     else if i == 15 {
        seq!['m', 'p']
    }     else if i == 16 {
        seq!['m', 'n']
    }     else if i == 17 {
        seq!['N', 'A']
    }     else if i == 18 {
        seq!['t', 'r', 'u', 'e']
    } else {
        seq!['f', 'a', 'l', 's', 'e']
    }
}

/// The value of the constant at position `i` of the catalog.
pub open spec fn constant_value(i: int) -> EVar {
    if i == 0 {
        EVar::FVal(0x4009_21fb_5444_2d18)
    }     else if i == 1 {
        EVar::FVal(0x4009_21fb_5444_2d18)
    }     else if i == 2 {
        EVar::FVal(0x4005_bf0a_8b14_5769)
    }     else if i == 3 {
        EVar::FVal(0x3ff9_e377_9b97_f4a8)
    }     else if i == 4 {
        EVar::FVal(0x3ff9_e377_9b97_f4a8)
    }     else if i == 5 {
        EVar::FVal(0x3ff5_320b_74ec_a44b)
    }     else if i == 6 {
        EVar::FVal(0x3ff5_320b_74ec_a44b)
    }     else if i == 7 {
        EVar::FVal(0x41b1_de78_4a00_0000)
    }     else if i == 8 {
        EVar::FVal(0x3dd2_589e_ffed_8acc)
    }     else if i == 9 {
        EVar::FVal(0x390b_860b_de02_3111)
    }     else if i == 10 {
        EVar::FVal(0x3e57_5e89_460e_4cc9)
    }     else if i == 11 {
        EVar::FVal(0x36f3_3c92_9c60_10e6)
    }     else if i == 12 {
        EVar::FVal(0x38b5_7bd4_ad4e_fa96)
    }     else if i == 13 {
        EVar::FVal(0x3c07_a4da_290c_1653)
    }     else if i == 14 {
        EVar::FVal(0x39b2_79dc_c8b6_b7ed)
    }     else if i == 15 {
        EVar::FVal(0x3a60_9099_b1ea_a2c5)
    }     else if i == 16 {
        EVar::FVal(0x3a60_9672_1929_c089)
    }     else if i == 17 {
        EVar::FVal(0x44df_e185_ca57_c517)
    }     else if i == 18 {
        EVar::BVal(true)
    } else {
        EVar::BVal(false)
    }
}

/// The constant at position `i`: its name and value (floats as binary64 bits).
pub fn constant_at(i: usize) -> (r: (Vec<char>, EVar))
    requires
        i < N_CONSTANTS,
    ensures
        r.0@ == constant_name(i as int),
        r.1 == constant_value(i as int),
{
    let r = match i {
        // pi, also written with the Greek letter
        0 => (vec!['p', 'i'], EVar::FVal(0x4009_21fb_5444_2d18)),
        1 => (vec!['\u{3c0}'], EVar::FVal(0x4009_21fb_5444_2d18)),
        // Euler's number
        2 => (vec!['e'], EVar::FVal(0x4005_bf0a_8b14_5769)),
        // golden ratio, also written with the Greek letter
        3 => (vec!['p', 'h', 'i'], EVar::FVal(0x3ff9_e377_9b97_f4a8)),
        4 => (vec!['\u{3a6}'], EVar::FVal(0x3ff9_e377_9b97_f4a8)),
        // plastic number, also written with the Greek letter
        5 => (vec!['r', 'h', 'o'], EVar::FVal(0x3ff5_320b_74ec_a44b)),
        6 => (vec!['\u{3c1}'], EVar::FVal(0x3ff5_320b_74ec_a44b)),
        // speed of light
        7 => (vec!['c'], EVar::FVal(0x41b1_de78_4a00_0000)),
        // gravitational constant
        8 => (vec!['G'], EVar::FVal(0x3dd2_589e_ffed_8acc)),
        // Planck constant
        9 => (vec!['h'], EVar::FVal(0x390b_860b_de02_3111)),
        // Planck mass
        10 => (vec!['p', 'm'], EVar::FVal(0x3e57_5e89_460e_4cc9)),
        // Planck time
        11 => (vec!['p', 't'], EVar::FVal(0x36f3_3c92_9c60_10e6)),
        // Planck length
        12 => (vec!['p', 'l'], EVar::FVal(0x38b5_7bd4_ad4e_fa96)),
        // elementary charge
        13 => (vec!['q', 'e'], EVar::FVal(0x3c07_a4da_290c_1653)),
        // electron rest mass
        14 => (vec!['m', 'e'], EVar::FVal(0x39b2_79dc_c8b6_b7ed)),
        // proton rest mass
        15 => (vec!['m', 'p'], EVar::FVal(0x3a60_9099_b1ea_a2c5)),
        // neutron rest mass
        16 => (vec!['m', 'n'], EVar::FVal(0x3a60_9672_1929_c089)),
        // Avogadro's number
        17 => (vec!['N', 'A'], EVar::FVal(0x44df_e185_ca57_c517)),
        18 => (vec!['t', 'r', 'u', 'e'], EVar::BVal(true)),
        _ => (vec!['f', 'a', 'l', 's', 'e'], EVar::BVal(false)),
    };
    assert(r.0@ =~= constant_name(i as int));
    r
}

/// The built-in function named `t`, if any.
pub fn find_function(t: &Vec<char>) -> (r: Option<FnKind>)
    ensures
        r matches Some(k) ==> k.name() == t@,
        r is None ==> forall|k: FnKind| k.name() != t@,
{
    let mut i: usize = 0;
    while i < N_FUNCTIONS
        invariant
            forall|k: FnKind| k.index() < i ==> k.name() != t@,
        decreases N_FUNCTIONS - i,
    {
        let k = function_at(i);
        if same_chars(&function_name(k), t) {
            return Some(k);
        }
        i = i + 1;
    }
    None
}

/// The position of the first constant named `t`, if any.
pub fn find_constant(t: &Vec<char>) -> (r: Option<usize>)
    ensures
        r matches Some(i) ==> i < N_CONSTANTS && constant_name(i as int) == t@,
        r is None ==> forall|i: int| 0 <= i < N_CONSTANTS ==> constant_name(i) != t@,
{
    let mut i: usize = 0;
    while i < N_CONSTANTS
        invariant
            i <= N_CONSTANTS,
            forall|j: int| 0 <= j < i ==> constant_name(j) != t@,
        decreases N_CONSTANTS - i,
    {
        let (name, _) = constant_at(i);
        if same_chars(&name, t) {
            return Some(i);
        }
        i = i + 1;
    }
    None
}

impl EvalContext {
    /// The position of the first host function named `t`, if any.
    pub fn find(&self, t: &Vec<char>) -> (r: Option<usize>)
        ensures
            r matches Some(i) ==> i < self.user_fns@.len() && self.user_fns@[i as int].name@ == t@,
            r is None ==> forall|i: int|
                0 <= i < self.user_fns@.len() ==> self.user_fns@[i].name@ != t@,
    {
        let mut i: usize = 0;
        while i < self.user_fns.len()
            invariant
                i <= self.user_fns@.len(),
                forall|j: int| 0 <= j < i ==> self.user_fns@[j].name@ != t@,
            decreases self.user_fns.len() - i,
        {
            let name = chars_of(self.user_fns[i].name.as_str());
            if same_chars(&name, t) {
                return Some(i);
            }
            i = i + 1;
        }
        None
    }
}

} // verus!
