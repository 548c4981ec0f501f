//! Small language examples: a generic minimum, factorials with and without
//! overflow checks, a lookup by year, and a few plain structs and enums.

use vstd::prelude::*;
use vstd::std_specs::cmp::{PartialOrdIs, PartialOrdSpec};
use vstd::string::*;

verus! {

/// The smaller of `a` and `b`: `a` when it compares less than `b`, else `b`.
pub fn min<T: PartialOrd>(a: T, b: T) -> (r: T)
    ensures
        r == a || r == b,
        T::obeys_partial_cmp_spec() ==> r == (if a.is_lt(&b) {
            a
        } else {
            b
        }),
{
    if a < b {
        a
    } else {
        b
    }
}

/// n! = 1 * 2 * ... * n, with 0! = 1.
pub open spec fn fact(n: nat) -> nat
    decreases n,
{
    if n == 0 {
        1
    } else {
        n * fact((n - 1) as nat)
    }
}

/// The factorial never decreases and is at least 1.
pub proof fn lemma_fact_monotone(i: nat, j: nat)
    requires
        i <= j,
    ensures
        1 <= fact(i) <= fact(j),
    decreases j,
{
    if j > 0 {
        if i < j {
            lemma_fact_monotone(i, (j - 1) as nat);
        } else {
            lemma_fact_monotone((j - 1) as nat, (j - 1) as nat);
        }
        let p = fact((j - 1) as nat);
        assert(j * p >= p) by (nonlinear_arith)
            requires
                j >= 1,
                p >= 1,
        ;
    }
}

/// One step of the factorial, with the new factor on the right.
proof fn lemma_fact_unfold(n: nat)
    requires
        n >= 1,
    ensures
        fact(n) == fact((n - 1) as nat) * n,
{
    let p = fact((n - 1) as nat);
    assert(fact(n) == n * p);
    assert(n * p == p * n) by (nonlinear_arith);
}

/// n!, for an `n` whose factorial fits in a `u64`.
pub fn factorial(n: u64) -> (r: u64)
    requires
        fact(n as nat) <= u64::MAX,
    ensures
        r == fact(n as nat),
{
    let mut result: u64 = 1;
    let mut current: u64 = 1;
    proof {
        lemma_fact_unfold(1);
    }
    while current < n
        invariant
            1 <= current,
            current <= n || current == 1,
            result == fact(current as nat),
            fact(n as nat) <= u64::MAX,
        decreases n - current,
    {
        current = current + 1;
        proof {
            lemma_fact_monotone(current as nat, n as nat);
            lemma_fact_unfold(current as nat);
        }
        result = result * current;
    }
    proof {
        if n == 0 {
            lemma_fact_unfold(1);
        }
    }
    result
}

/// n! when it fits in a `u64`, else `None`.
pub open spec fn checked_fact(n: nat) -> Option<u64> {
    if fact(n) <= u64::MAX {
        Some(fact(n) as u64)
    } else {
        None
    }
}

/// If (n-1)! does not fit in a `u64`, n! does not either.
proof fn lemma_fact_overflow_grows(n: nat)
    requires
        n >= 1,
        fact((n - 1) as nat) > u64::MAX,
    ensures
        fact(n) > u64::MAX,
{
    lemma_fact_monotone((n - 1) as nat, n);
}

/// n!, or `None` where it does not fit in a `u64`; recursive, with a match
/// on the result of the smaller factorial.
pub fn factorial2(n: u64) -> (r: Option<u64>)
    ensures
        r == checked_fact(n as nat),
    decreases n,
{
    match n {
        0 => Some(1),
        _ => match factorial2(n - 1) {
            Some(prev) => {
                proof {
                    lemma_fact_unfold(n as nat);
                }
                prev.checked_mul(n)
            },
            None => {
                proof {
                    lemma_fact_overflow_grows(n as nat);
                }
                None
            },
        },
    }
}

/// n!, or `None` where it does not fit in a `u64`; recursive, with `?` on the
/// result of the smaller factorial.
pub fn factorial2_2(n: u64) -> (r: Option<u64>)
    ensures
        r == checked_fact(n as nat),
    decreases n,
{
    match n {
        0 => Some(1),
        _ => {
            proof {
                lemma_fact_unfold(n as nat);
                if fact((n - 1) as nat) > u64::MAX {
                    lemma_fact_overflow_grows(n as nat);
                }
            }
            factorial2_2(n - 1)?.checked_mul(n)
        },
    }
}

/// n!, or `None` where it does not fit in a `u64`; recursive, with
/// `and_then` on the result of the smaller factorial.
pub fn factorial3(n: u64) -> (r: Option<u64>)
    ensures
        r == checked_fact(n as nat),
    decreases n,
{
    if n == 0 {
        Some(1)
    } else {
        proof {
            lemma_fact_unfold(n as nat);
            if fact((n - 1) as nat) > u64::MAX {
                lemma_fact_overflow_grows(n as nat);
            }
        }
        let times_n = |prev: u64| -> (p: Option<u64>)
            ensures
                p == prev.checked_mul(n),
            {
                prev.checked_mul(n)
            };
        factorial3(n - 1).and_then(times_n)
    }
}

/// A gift of one holiday season.
#[derive(Debug, PartialEq, Eq, Structural)]
pub enum Gift {
    Phone,
    Watch,
    Cash(u64),
}

/// The gift given in `year`, if any.
pub open spec fn gift_of(year: int) -> Option<Gift> {
    if 1998 <= year <= 2007 {
        Some(Gift::Cash(1000))
    } else if 2008 <= year <= 2013 {
        Some(Gift::Phone)
    } else if year == 2014 {
        Some(Gift::Watch)
    } else if year == 2015 {
        Some(Gift::Phone)
    } else {
        None
    }
}

/// Looks up the gift given in `year`.
pub fn holiday_gift(year: i32) -> (r: Option<Gift>)
    ensures
        r == gift_of(year as int),
{
    match year {
        1998..=2007 => Some(Gift::Cash(1000)),
        2008..=2013 => Some(Gift::Phone),
        2014 => Some(Gift::Watch),
        2015 => Some(Gift::Phone),
        2016..=2019 => None,
        _ => None,
    }
}

/// Somewhere to rant when there is no gift.
pub struct Memegen;

impl Memegen {
    /// Does nothing.
    pub fn rant() {
    }
}

/// A named character of a given age.
pub struct Character {
    pub name: String,
    pub age: u32,
}

impl Character {
    /// The character as `Character(<name> is <age>)`, the age in the form
    /// that `to_string` gives it.
    pub fn describe(&self) -> (r: String)
        ensures
            exists|age: String|
                to_string_from_display_ensures::<u32>(&self.age, age) && r@ == "Character("@ + self.name@
                    + " is "@ + age@ + ")"@,
    {
        let age = self.age.to_string();
        let mut out = String::new();
        out.append("Character(");
        out.append(self.name.as_str());
        out.append(" is ");
        out.append(age.as_str());
        out.append(")");
        proof {
            reveal_strlit("Character(");
            reveal_strlit(" is ");
            reveal_strlit(")");
            assert(out@ == "Character("@ + self.name@ + " is "@ + age@ + ")"@);
        }
        out
    }
}

/// A unit struct: a type with one value.
pub struct Thing;

/// A tuple struct holding an identifier.
pub struct Id(pub u64);

/// An enum whose variants carry no data.
pub enum Decision {
    Undecided,
    Approved,
    Rejected,
}

/// An enum whose variants carry no data, a tuple, or named fields.
pub enum WebEvent {
    PageLoad,
    KeyPress(char),
    Click { x: i64, y: i64 },
}

} // verus!
