//! Shared vocabulary of the pipeline: operators, literal values, variable
//! names (including the deterministic `tmp.<n>` naming of generated
//! temporaries), the trivial terms of the final intermediate language, the
//! placeholder storage-location vocabulary, and the program container.

use vstd::prelude::*;
use vstd::string::StringExecFns;

verus! {

/// The closed operator set. `Add` and `Sub` are arithmetic (value-producing);
/// `Eq` and `Neq` are relational (truthy-coded downstream).
#[derive(Debug, Clone, Copy, PartialEq, Eq, Structural)]
pub enum Op {
    Add,
    Sub,
    Eq,
    Neq,
}

impl Op {
    /// An operator that produces a number.
    pub open spec fn is_arith(self) -> bool {
        self == Op::Add || self == Op::Sub
    }

    /// An operator that compares and steers control flow.
    pub open spec fn is_relational(self) -> bool {
        self == Op::Eq || self == Op::Neq
    }
}

/// Literal runtime values: byte-ranged integer constants plus the canonical
/// `True`/`False` constants that encode boolean results. Booleans are not a
/// distinct runtime type: truthiness is "is this value the `False` constant
/// or not".
#[derive(Debug, Clone, Copy, PartialEq, Eq, Structural)]
pub enum Value {
    Int(u8),
    True,
    False,
}

/// Variable names are opaque string identifiers. Source names are carried
/// through unchanged; generated temporaries are named `tmp.<n>`.
pub type Var = String;

/// Trivial terms of the calling-convention language: a literal, a variable
/// reference, or the distinguished return-slot pseudo-variable. The return
/// slot is a reserved sentinel case so it cannot collide with any name.
#[derive(Debug, PartialEq, Eq)]
pub enum Triv {
    Value(Value),
    Var(Var),
    Return,
}

/// Mathematical model of [`Triv`]: the variable name abstracted to its
/// character sequence.
pub enum SpecTriv {
    Value(Value),
    Var(Seq<char>),
    Return,
}

pub open spec fn view_triv(t: Triv) -> SpecTriv {
    match t {
        Triv::Value(v) => SpecTriv::Value(v),
        Triv::Var(x) => SpecTriv::Var(x@),
        Triv::Return => SpecTriv::Return,
    }
}

/// Placeholder storage-location vocabulary for a later code-generation
/// backend; present in the shared vocabulary but not wired into any pass.
#[derive(Debug, Clone, Copy, PartialEq, Eq, Structural)]
pub enum Loc {
    Memory(u8),
    A,
    B,
    X,
}

/// A program: function names mapped to function bodies in whichever
/// intermediate language is current. Names are expected to be globally
/// unique; the container owns every body exclusively, and each pass consumes
/// a whole program and builds a new, disjoint one.
#[derive(Debug, PartialEq, Eq)]
pub struct Program<Body> {
    pub funcs: Vec<(Var, Body)>,
}

/// The decimal digits of `n`, most significant first.
pub open spec fn spec_digits(n: nat) -> Seq<char>
    decreases n,
{
    if n < 10 {
        seq![digit_char(n)]
    } else {
        spec_digits(n / 10) + seq![digit_char(n % 10)]
    }
}

/// The character for a single decimal digit.
pub open spec fn digit_char(d: nat) -> char {
    if d == 0 {
        '0'
    } else if d == 1 {
        '1'
    } else if d == 2 {
        '2'
    } else if d == 3 {
        '3'
    } else if d == 4 {
        '4'
    } else if d == 5 {
        '5'
    } else if d == 6 {
        '6'
    } else if d == 7 {
        '7'
    } else if d == 8 {
        '8'
    } else {
        '9'
    }
}

/// The deterministic name of the `n`-th generated temporary.
pub open spec fn spec_tmp_name(n: nat) -> Seq<char> {
    seq!['t', 'm', 'p', '.'] + spec_digits(n)
}

fn digit_str(d: u64) -> (s: &'static str)
    requires
        d < 10,
    ensures
        s@ == seq![digit_char(d as nat)],
{
    proof {
        reveal_strlit("0");
        reveal_strlit("1");
        reveal_strlit("2");
        reveal_strlit("3");
        reveal_strlit("4");
        reveal_strlit("5");
        reveal_strlit("6");
        reveal_strlit("7");
        reveal_strlit("8");
        reveal_strlit("9");
    }
    let s = match d {
        0 => "0",
        1 => "1",
        2 => "2",
        3 => "3",
        4 => "4",
        5 => "5",
        6 => "6",
        7 => "7",
        8 => "8",
        _ => "9",
    };
    proof {
        assert(s@ =~= seq![digit_char(d as nat)]);
    }
    s
}

fn digits_string(n: u64) -> (s: String)
    ensures
        s@ == spec_digits(n as nat),
    decreases n,
{
    if n < 10 {
        String::from_str(digit_str(n))
    } else {
        let mut s = digits_string(n / 10);
        s.append(digit_str(n % 10));
        s
    }
}

/// The executable form of [`spec_tmp_name`].
pub fn tmp_name_of(n: u64) -> (s: String)
    ensures
        s@ == spec_tmp_name(n as nat),
{
    proof {
        reveal_strlit("tmp.");
    }
    let mut s = String::from_str("tmp.");
    s.append(digits_string(n).as_str());
    proof {
        assert(s@ =~= spec_tmp_name(n as nat));
    }
    s
}

/// The canonical text of an operator.
pub open spec fn render_op(op: Op) -> Seq<char> {
    match op {
        Op::Add => "+"@,
        Op::Sub => "-"@,
        Op::Eq => "=="@,
        Op::Neq => "!="@,
    }
}

impl Op {
    /// The canonical text of this operator.
    pub fn render(&self) -> (r: &'static str)
        ensures
            r@ == render_op(*self),
    {
        match self {
            Op::Add => "+",
            Op::Sub => "-",
            Op::Eq => "==",
            Op::Neq => "!=",
        }
    }
}

/// The canonical text of a literal value: its digits, or the `TRUE` /
/// `FALSE` constants.
pub open spec fn render_value(v: Value) -> Seq<char> {
    match v {
        Value::Int(n) => spec_digits(n as nat),
        Value::True => "TRUE"@,
        Value::False => "FALSE"@,
    }
}

impl Value {
    /// The canonical text of this literal value.
    pub fn render(&self) -> (r: String)
        ensures
            r@ == render_value(*self),
    {
        match self {
            Value::Int(n) => digits_string(*n as u64),
            Value::True => String::from_str("TRUE"),
            Value::False => String::from_str("FALSE"),
        }
    }
}

/// The canonical text of a trivial term; the return slot renders as the
/// reserved `%ret`.
pub open spec fn render_triv(t: SpecTriv) -> Seq<char> {
    match t {
        SpecTriv::Value(v) => render_value(v),
        SpecTriv::Var(x) => x,
        SpecTriv::Return => "%ret"@,
    }
}

impl Triv {
    /// The canonical text of this trivial term.
    pub fn render(&self) -> (r: String)
        ensures
            r@ == render_triv(view_triv(*self)),
    {
        match self {
            Triv::Value(v) => v.render(),
            Triv::Var(x) => x.clone(),
            Triv::Return => String::from_str("%ret"),
        }
    }
}

/// The canonical text of a storage location.
pub open spec fn render_loc(l: Loc) -> Seq<char> {
    match l {
        Loc::Memory(n) => "@"@ + spec_digits(n as nat),
        Loc::A => "%a"@,
        Loc::B => "%b"@,
        Loc::X => "%x"@,
    }
}

impl Loc {
    /// The canonical text of this storage location.
    pub fn render(&self) -> (r: String)
        ensures
            r@ == render_loc(*self),
    {
        match self {
            Loc::Memory(n) => {
                let mut s = String::from_str("@");
                s.append(digits_string(*n as u64).as_str());
                s
            },
            Loc::A => String::from_str("%a"),
            Loc::B => String::from_str("%b"),
            Loc::X => String::from_str("%x"),
        }
    }
}

pub proof fn lemma_digits_len(n: nat)
    ensures
        spec_digits(n).len() >= 1,
        n < 10 <==> spec_digits(n).len() == 1,
    decreases n,
{
    if n >= 10 {
        lemma_digits_len(n / 10);
    }
}

pub proof fn lemma_digits_injective(m: nat, n: nat)
    requires
        spec_digits(m) == spec_digits(n),
    ensures
        m == n,
    decreases m,
{
    lemma_digits_len(m);
    lemma_digits_len(n);
    if m < 10 && n < 10 {
        assert(spec_digits(m)[0] == digit_char(m));
        assert(spec_digits(n)[0] == digit_char(n));
    } else if m >= 10 && n >= 10 {
        let pm = spec_digits(m / 10);
        let pn = spec_digits(n / 10);
        lemma_digits_len(m / 10);
        lemma_digits_len(n / 10);
        assert((pm + seq![digit_char(m % 10)]).last() == digit_char(m % 10));
        assert((pn + seq![digit_char(n % 10)]).last() == digit_char(n % 10));
        assert(pm.len() == pn.len());
        assert(pm =~= (pm + seq![digit_char(m % 10)]).subrange(0, pm.len() as int));
        assert(pn =~= (pn + seq![digit_char(n % 10)]).subrange(0, pn.len() as int));
        lemma_digits_injective(m / 10, n / 10);
        vstd::arithmetic::div_mod::lemma_fundamental_div_mod(m as int, 10);
        vstd::arithmetic::div_mod::lemma_fundamental_div_mod(n as int, 10);
    }
}

/// Freshness of generated names: distinct counter values always yield
/// distinct `tmp.<n>` names, so the temporaries minted during one pass over
/// one function body never collide with each other.
pub proof fn lemma_tmp_name_injective(m: nat, n: nat)
    ensures
        spec_tmp_name(m) == spec_tmp_name(n) ==> m == n,
{
    if spec_tmp_name(m) == spec_tmp_name(n) {
        assert(spec_digits(m) =~= spec_tmp_name(m).subrange(4, spec_tmp_name(m).len() as int));
        assert(spec_digits(n) =~= spec_tmp_name(n).subrange(4, spec_tmp_name(n).len() as int));
        lemma_digits_injective(m, n);
    }
}

} // verus!
