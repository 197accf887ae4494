//! Euclidean division and remainder of binary32 values, with the bit-level
//! decomposition and formatting that the strategies are checked against.
use vstd::prelude::*;
use vstd::string::{StrSliceExecFns, StringExecFns};

pub mod bigrational;
pub mod binary32;
pub mod bitexact;
pub mod bits;
pub mod digits;
pub mod float_rep;
pub mod float_utils;
pub mod frame;
pub mod fraction;
pub mod range;
pub mod rational;
pub mod report;

verus! {

/// A way of computing Euclidean quotient and remainder.
#[derive(Clone, Copy, Debug, PartialEq, Eq, Structural)]
pub enum Strategy {
    /// The platform's own Euclidean division and remainder.
    Native,
    /// Rounded division, and a remainder from one fused multiply-add.
    Fma,
    /// Exact fractions, converted to binary32 as they are.
    RationalApprox,
    /// Exact fractions, rounded onto a grid before conversion.
    RationalExact,
    /// Integer arithmetic on decomposed significands.
    BitExact,
}

/// What a lookup can fail with.
#[derive(Debug)]
pub enum DivModError {
    /// No strategy is registered under the name.
    Unknown(String),
}

/// The strategy registered under a name. Names match exactly, letter case
/// included.
pub open spec fn registered(name: Seq<char>) -> Option<Strategy> {
    if name == "native"@ {
        Some(Strategy::Native)
    } else if name == "fma"@ {
        Some(Strategy::Fma)
    } else if name == "rational-approx"@ {
        Some(Strategy::RationalApprox)
    } else if name == "rational-exact"@ {
        Some(Strategy::RationalExact)
    } else if name == "bitexact"@ {
        Some(Strategy::BitExact)
    } else {
        None
    }
}

impl Strategy {
    /// The name that the strategy is registered under.
    pub open spec fn name_spec(self) -> Seq<char> {
        match self {
            Strategy::Native => "native"@,
            Strategy::Fma => "fma"@,
            Strategy::RationalApprox => "rational-approx"@,
            Strategy::RationalExact => "rational-exact"@,
            Strategy::BitExact => "bitexact"@,
        }
    }

    /// The name that the strategy is registered under.
    pub fn name(&self) -> (r: &'static str)
        ensures
            r@ == self.name_spec(),
    {
        match self {
            Strategy::Native => "native",
            Strategy::Fma => "fma",
            Strategy::RationalApprox => "rational-approx",
            Strategy::RationalExact => "rational-exact",
            Strategy::BitExact => "bitexact",
        }
    }
}

impl DivModError {
    /// The message of the error.
    pub fn to_string(&self) -> (r: String)
        ensures
            self matches DivModError::Unknown(name) && r@ == "unknown divmod "@ + name@,
    {
        match self {
            DivModError::Unknown(name) => String::from_str("unknown divmod ").concat(
                name.as_str(),
            ),
        }
    }
}

/// Whether two strings hold the same characters.
fn same_text(a: &str, b: &str) -> (r: bool)
    ensures
        r == (a@ == b@),
{
    let n = a.unicode_len();
    if n != b.unicode_len() {
        return false;
    }
    let mut i: usize = 0;
    while i < n
        invariant
            i <= n,
            n == a@.len(),
            n == b@.len(),
            forall|j: int| 0 <= j < i ==> a@[j] == b@[j],
        decreases n - i,
    {
        if a.get_char(i) != b.get_char(i) {
            return false;
        }
        i = i + 1;
    }
    assert(a@ =~= b@);
    true
}

/// Every strategy is registered under its own name, so the five names are
/// distinct and each resolves.
pub proof fn lemma_names_resolve(s: Strategy)
    ensures
        registered(s.name_spec()) == Some(s),
{
    reveal_strlit("native");
    reveal_strlit("fma");
    reveal_strlit("rational-approx");
    reveal_strlit("rational-exact");
    reveal_strlit("bitexact");
    assert("native"@.len() == 6);
    assert("fma"@.len() == 3);
    assert("rational-approx"@.len() == 15);
    assert("rational-exact"@.len() == 14);
    assert("bitexact"@.len() == 8);
}

/// Looks a strategy up by its name, and fails with the name that was asked
/// for where none is registered under it.
pub fn get_op(name: &str) -> (r: Result<Strategy, DivModError>)
    ensures
        match r {
            Ok(s) => registered(name@) == Some(s),
            Err(DivModError::Unknown(n)) => registered(name@) is None && n@ == name@,
        },
{
    if same_text(name, "native") {
        Ok(Strategy::Native)
    } else if same_text(name, "fma") {
        Ok(Strategy::Fma)
    } else if same_text(name, "rational-approx") {
        Ok(Strategy::RationalApprox)
    } else if same_text(name, "rational-exact") {
        Ok(Strategy::RationalExact)
    } else if same_text(name, "bitexact") {
        Ok(Strategy::BitExact)
    } else {
        Err(DivModError::Unknown(String::from_str(name)))
    }
}

} // verus!
