use vstd::prelude::*;
use vstd::string::StrSliceExecFns;
use vstd::string::StringExecFns;

verus! {

/// The characters `str::trim` strips: the 25 code points with the Unicode
/// `White_Space` property, as `char::is_whitespace` documents them.
pub open spec fn is_space(c: char) -> bool {
    ||| c == '\u{0009}'
    ||| c == '\u{000A}'
    ||| c == '\u{000B}'
    ||| c == '\u{000C}'
    ||| c == '\u{000D}'
    ||| c == '\u{0020}'
    ||| c == '\u{0085}'
    ||| c == '\u{00A0}'
    ||| c == '\u{1680}'
    ||| c == '\u{2000}'
    ||| c == '\u{2001}'
    ||| c == '\u{2002}'
    ||| c == '\u{2003}'
    ||| c == '\u{2004}'
    ||| c == '\u{2005}'
    ||| c == '\u{2006}'
    ||| c == '\u{2007}'
    ||| c == '\u{2008}'
    ||| c == '\u{2009}'
    ||| c == '\u{200A}'
    ||| c == '\u{2028}'
    ||| c == '\u{2029}'
    ||| c == '\u{202F}'
    ||| c == '\u{205F}'
    ||| c == '\u{3000}'
}

/// Decides `is_space`.
fn char_is_space(c: char) -> (r: bool)
    ensures
        r == is_space(c),
{
    c == '\u{0009}' || c == '\u{000A}' || c == '\u{000B}' || c == '\u{000C}'
        || c == '\u{000D}' || c == '\u{0020}' || c == '\u{0085}' || c == '\u{00A0}'
        || c == '\u{1680}' || c == '\u{2000}' || c == '\u{2001}' || c == '\u{2002}'
        || c == '\u{2003}' || c == '\u{2004}' || c == '\u{2005}' || c == '\u{2006}'
        || c == '\u{2007}' || c == '\u{2008}' || c == '\u{2009}' || c == '\u{200A}'
        || c == '\u{2028}' || c == '\u{2029}' || c == '\u{202F}' || c == '\u{205F}'
        || c == '\u{3000}'
}

/// A currency identifier is acceptable when it holds at least one
/// non-whitespace character; an empty or whitespace-only identifier is not.
pub open spec fn currency_ok(s: Seq<char>) -> bool {
    exists|i: int| 0 <= i < s.len() && !is_space(s[i])
}

/// Decides `currency_ok` for a currency identifier.
pub(crate) fn currency_is_valid(c: &str) -> (r: bool)
    ensures
        r == currency_ok(c@),
{
    let n = c.unicode_len();
    let mut i: usize = 0;
    while i < n
        invariant
            n == c@.len(),
            i <= n,
            forall|j: int| 0 <= j < i ==> is_space(c@[j]),
        decreases n - i,
    {
        if !char_is_space(c.get_char(i)) {
            return true;
        }
        i = i + 1;
    }
    false
}

/// An amount of one currency, in minor units.  It serves both as a
/// value-transfer request and as a balance snapshot.
#[derive(Clone, Debug, PartialEq, Eq)]
pub struct Money {
    pub currency: String,
    pub amount: i64,
}

impl Money {
    /// Builds a `Money` value from a currency identifier and an amount in
    /// minor units.
    pub fn new(currency: &str, amount: i64) -> (m: Money)
        ensures
            m.currency@ == currency@,
            m.amount == amount,
    {
        Money { currency: String::from_str(currency), amount }
    }

    pub fn is_positive(&self) -> (r: bool)
        ensures
            r == (self.amount > 0),
    {
        self.amount > 0
    }

    pub fn is_zero(&self) -> (r: bool)
        ensures
            r == (self.amount == 0),
    {
        self.amount == 0
    }

    /// An equal copy, so that callers never alias engine state.
    pub(crate) fn duplicate(&self) -> (m: Money)
        ensures
            m == *self,
    {
        Money { currency: self.currency.clone(), amount: self.amount }
    }
}

} // verus!
