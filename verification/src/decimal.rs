//! Decimal numerals, read and written by whoever uses this crate.

use vstd::prelude::*;
use vstd::string::StringExecFns;

use crate::num::{Num, ONE, ZERO};

verus! {

/// What every text says as a real number, where it says one.
pub type Numerals = spec_fn(Seq<char>) -> Option<Num>;

/// The number that a text says. A text that says none, or is not there, stands for zero.
pub open spec fn number_or_zero(numerals: Numerals, text: Option<Seq<char>>) -> Num {
    match text {
        Some(t) => match numerals(t) {
            Some(x) => x,
            None => Num { bits: ZERO },
        },
        None => Num { bits: ZERO },
    }
}

/// Reads decimal numerals.
pub struct DecimalReader<G: Fn(&String) -> Option<Num>> {
    pub read: G,
}

impl<G: Fn(&String) -> Option<Num>> DecimalReader<G> {
    /// Every text can be read, and the same text gives the same answer.
    pub open spec fn reliable(&self) -> bool {
        &&& forall|s: String| call_requires(self.read, (&s,))
        &&& forall|s: String, t: String, x: Option<Num>, y: Option<Num>|
            s@ == t@ && #[trigger] call_ensures(self.read, (&s,), x) && #[trigger] call_ensures(self.read, (&t,), y)
                ==> x == y
    }

    /// What this reader answers.
    pub open spec fn meaning(&self) -> Numerals {
        |t: Seq<char>| choose|x: Option<Num>| self.answers(t, x)
    }

    /// May a text that says `t` be read as `x`?
    pub open spec fn answers(&self, t: Seq<char>, x: Option<Num>) -> bool {
        exists|s: String| s@ == t && #[trigger] call_ensures(self.read, (&s,), x)
    }

    /// A reader that asks the given function.
    pub fn new(read: G) -> (r: Self)
        ensures
            r.read == read,
    {
        DecimalReader { read }
    }

    /// The number that a text says.
    pub fn number(&self, text: &String) -> (r: Option<Num>)
        requires
            self.reliable(),
        ensures
            r == (self.meaning())(text@),
    {
        let r: Option<Num> = (self.read)(text);
        proof {
            assert(self.answers(text@, r));
        }
        r
    }

    /// The number that a text says, or zero.
    pub fn number_or_zero(&self, text: &Option<String>) -> (r: Num)
        requires
            self.reliable(),
        ensures
            r == number_or_zero(
                self.meaning(),
                match *text {
                    Some(t) => Some(t@),
                    None => None,
                },
            ),
    {
        match text {
            Some(t) => match self.number(t) {
                Some(x) => x,
                None => Num { bits: ZERO },
            },
            None => Num { bits: ZERO },
        }
    }
}

/// The text of every number with so many decimals, with a plus sign before numbers that are not
/// negative where asked for.
pub type Figures = spec_fn(Num, u8, bool) -> Seq<char>;

/// Writes decimal numerals.
pub struct DecimalWriter<W: Fn(Num, u8, bool) -> String> {
    pub write: W,
}

impl<W: Fn(Num, u8, bool) -> String> DecimalWriter<W> {
    /// Every number can be written, and the same request gives the same text.
    pub open spec fn reliable(&self) -> bool {
        &&& forall|x: Num, decimals: u8, signed: bool| call_requires(self.write, (x, decimals, signed))
        &&& forall|x: Num, decimals: u8, signed: bool, a: String, b: String| #[trigger]
            call_ensures(self.write, (x, decimals, signed), a) && #[trigger] call_ensures(
                self.write,
                (x, decimals, signed),
                b,
            ) ==> a@ == b@
    }

    /// What this writer answers.
    pub open spec fn meaning(&self) -> Figures {
        |x: Num, decimals: u8, signed: bool| choose|t: Seq<char>| self.answers(x, decimals, signed, t)
    }

    /// May the number be written as `t`?
    pub open spec fn answers(&self, x: Num, decimals: u8, signed: bool, t: Seq<char>) -> bool {
        exists|s: String| s@ == t && #[trigger] call_ensures(self.write, (x, decimals, signed), s)
    }

    /// A writer that asks the given function.
    pub fn new(write: W) -> (r: Self)
        ensures
            r.write == write,
    {
        DecimalWriter { write }
    }

    /// The text of a number.
    pub fn figure(&self, x: Num, decimals: u8, signed: bool) -> (r: String)
        requires
            self.reliable(),
        ensures
            r@ == (self.meaning())(x, decimals, signed),
    {
        let r: String = (self.write)(x, decimals, signed);
        proof {
            assert(self.answers(x, decimals, signed, r@));
        }
        r
    }
}

/// `1000.0`
pub const THOUSAND: u64 = 0x408f_4000_0000_0000;

/// How many decimals a price is shown with: the smaller the price, the more.
pub open spec fn price_decimals(p: Num) -> u8 {
    if (Num { bits: THOUSAND }).at_most(p) {
        2
    } else if (Num { bits: ONE }).at_most(p) {
        4
    } else {
        8
    }
}

/// How many decimals a quantity is shown with.
pub open spec fn qty_decimals(q: Num) -> u8 {
    if (Num { bits: ONE }).at_most(q) {
        4
    } else {
        8
    }
}

/// A profit or loss in dollars, with its sign in front.
pub open spec fn pnl_text(figures: Figures, pnl: Num) -> Seq<char> {
    if (Num { bits: ZERO }).at_most(pnl) {
        "+$"@ + figures(pnl, 4, false)
    } else {
        "-$"@ + figures(pnl.absolute(), 4, false)
    }
}

/// A half-life in whole periods, or the sign of infinity.
pub open spec fn half_life_text(figures: Figures, half_life: Num) -> Seq<char> {
    if half_life.finite() {
        figures(half_life, 0, false)
    } else {
        "∞"@
    }
}

/// The text of a half-life.
pub fn format_half_life<W: Fn(Num, u8, bool) -> String>(half_life: Num, writer: &DecimalWriter<W>) -> (r: String)
    requires
        writer.reliable(),
    ensures
        r@ == half_life_text(writer.meaning(), half_life),
{
    if half_life.is_finite() {
        writer.figure(half_life, 0, false)
    } else {
        "∞".to_owned()
    }
}

/// The text of a price.
pub fn format_price<W: Fn(Num, u8, bool) -> String>(p: Num, writer: &DecimalWriter<W>) -> (r: String)
    requires
        writer.reliable(),
    ensures
        r@ == (writer.meaning())(p, price_decimals(p), false),
{
    let decimals: u8 = if (Num { bits: THOUSAND }).le(p) {
        2
    } else if (Num { bits: ONE }).le(p) {
        4
    } else {
        8
    };
    writer.figure(p, decimals, false)
}

/// The text of a quantity.
pub fn format_qty<W: Fn(Num, u8, bool) -> String>(q: Num, writer: &DecimalWriter<W>) -> (r: String)
    requires
        writer.reliable(),
    ensures
        r@ == (writer.meaning())(q, qty_decimals(q), false),
{
    writer.figure(q, if (Num { bits: ONE }).le(q) { 4 } else { 8 }, false)
}

/// The text of a profit or loss.
pub fn format_pnl<W: Fn(Num, u8, bool) -> String>(pnl: Num, writer: &DecimalWriter<W>) -> (r: String)
    requires
        writer.reliable(),
    ensures
        r@ == pnl_text(writer.meaning(), pnl),
{
    if (Num { bits: ZERO }).le(pnl) {
        let mut out: String = "+$".to_owned();
        out.append(writer.figure(pnl, 4, false).as_str());
        out
    } else {
        let mut out: String = "-$".to_owned();
        out.append(writer.figure(pnl.abs(), 4, false).as_str());
        out
    }
}

} // verus!
