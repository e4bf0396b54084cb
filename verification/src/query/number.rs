//! Numbers of the evaluator. A number is held as the bits of its IEEE 754
//! double; reading, computing and writing it is left to functions that the
//! caller supplies. Order, equality and wholeness are read off the bits.
use vstd::prelude::*;

verus! {

/// What the evaluator computes with numbers.
#[derive(Copy, Clone, Debug, PartialEq, Eq, Structural)]
pub enum NumOp {
    Add,
    Sub,
    Mul,
    Div,
    /// The negation of the first operand.
    Neg,
    /// The number of the first operand, taken as an integer.
    OfInt,
    /// The first operand, rounded to as many decimal places as the second.
    Round,
    Abs,
    Floor,
    Ceil,
    Sqrt,
    Pow,
    /// The remainder; not a number where the second operand is zero.
    Mod,
}

/// The arithmetic that an evaluation runs on.
pub trait Numbers {
    /// The functions are total, and each gives one result.
    spec fn wf(&self) -> bool;

    /// The number that a text spells.
    spec fn read(&self, text: Seq<u8>) -> Option<u64>;

    spec fn apply(&self, op: NumOp, a: u64, b: u64) -> u64;

    /// The text of a number.
    spec fn text(&self, n: u64) -> Seq<char>;

    fn parse(&self, text: &[u8]) -> (r: Option<u64>)
        requires
            self.wf(),
        ensures
            r == self.read(text@),
    ;

    fn arith(&self, op: NumOp, a: u64, b: u64) -> (r: u64)
        requires
            self.wf(),
        ensures
            r == self.apply(op, a, b),
    ;

    fn write(&self, n: u64) -> (r: String)
        requires
            self.wf(),
        ensures
            r@ == self.text(n),
    ;
}

/// Arithmetic given by three functions.
pub struct FloatFns<
    P: Fn(&[u8]) -> Option<u64>,
    A: Fn(NumOp, u64, u64) -> u64,
    W: Fn(u64) -> String,
> {
    pub parse: P,
    pub arith: A,
    pub write: W,
}

impl<
    P: Fn(&[u8]) -> Option<u64>,
    A: Fn(NumOp, u64, u64) -> u64,
    W: Fn(u64) -> String,
> Numbers for FloatFns<P, A, W> {
    open spec fn wf(&self) -> bool {
        &&& forall|s: &[u8]| #[trigger] self.parse.requires((s,))
        &&& forall|op: NumOp, a: u64, b: u64| #[trigger] self.arith.requires((op, a, b))
        &&& forall|n: u64| #[trigger] self.write.requires((n,))
        &&& forall|s: &[u8], t: &[u8], x: Option<u64>, y: Option<u64>|
            s@ == t@ && #[trigger] self.parse.ensures((s,), x) && #[trigger] self.parse.ensures(
                (t,),
                y,
            ) ==> x == y
        &&& forall|op: NumOp, a: u64, b: u64, x: u64, y: u64|
            #[trigger] self.arith.ensures((op, a, b), x) && #[trigger] self.arith.ensures(
                (op, a, b),
                y,
            ) ==> x == y
        &&& forall|n: u64, x: String, y: String|
            #[trigger] self.write.ensures((n,), x) && #[trigger] self.write.ensures((n,), y)
                ==> x@ == y@
    }

    open spec fn read(&self, text: Seq<u8>) -> Option<u64> {
        (choose|p: (&[u8], Option<u64>)|
            (p.0)@ == text && #[trigger] self.parse.ensures((p.0,), p.1)).1
    }

    open spec fn apply(&self, op: NumOp, a: u64, b: u64) -> u64 {
        choose|r: u64| self.arith.ensures((op, a, b), r)
    }

    open spec fn text(&self, n: u64) -> Seq<char> {
        (choose|r: String| self.write.ensures((n,), r))@
    }

    fn parse(&self, text: &[u8]) -> (r: Option<u64>) {
        let r = (self.parse)(text);
        proof {
            let mine = (text, r);
            assert((mine.0)@ == text@ && self.parse.ensures((mine.0,), mine.1));
            let p = choose|p: (&[u8], Option<u64>)|
                (p.0)@ == text@ && #[trigger] self.parse.ensures((p.0,), p.1);
            assert(self.parse.ensures((p.0,), p.1));
        }
        r
    }

    fn arith(&self, op: NumOp, a: u64, b: u64) -> (r: u64) {
        let r = (self.arith)(op, a, b);
        proof {
            assert(self.arith.ensures((op, a, b), r));
            assert(self.arith.ensures((op, a, b), self.apply(op, a, b)));
        }
        r
    }

    fn write(&self, n: u64) -> (r: String) {
        let r = (self.write)(n);
        proof {
            let q = choose|q: String| self.write.ensures((n,), q);
            assert(self.write.ensures((n,), r));
            assert(self.write.ensures((n,), q));
        }
        r
    }
}

/// The arithmetic in mathematical form.
pub struct Nums {
    pub read: spec_fn(Seq<u8>) -> Option<u64>,
    pub apply: spec_fn(NumOp, u64, u64) -> u64,
    pub text: spec_fn(u64) -> Seq<char>,
}

pub open spec fn nums<N: Numbers>(n: &N) -> Nums {
    Nums {
        read: |s: Seq<u8>| n.read(s),
        apply: |op: NumOp, a: u64, b: u64| n.apply(op, a, b),
        text: |x: u64| n.text(x),
    }
}

/// The biased exponent.
pub open spec fn exponent(n: u64) -> int {
    (n / 0x10_0000_0000_0000) as int % 2048
}

pub open spec fn mantissa(n: u64) -> int {
    n as int % 0x10_0000_0000_0000
}

pub open spec fn negative(n: u64) -> bool {
    n >= 0x8000_0000_0000_0000
}

/// Neither infinite nor not-a-number.
pub open spec fn finite(n: u64) -> bool {
    exponent(n) != 2047
}

pub open spec fn nan(n: u64) -> bool {
    exponent(n) == 2047 && mantissa(n) != 0
}

/// Either zero.
pub open spec fn zero(n: u64) -> bool {
    n == 0 || n == 0x8000_0000_0000_0000
}

/// Doubles that are numbers stand to each other as these integers do.
pub open spec fn magnitude_key(n: u64) -> int {
    if negative(n) {
        0x8000_0000_0000_0000 - n as int
    } else {
        n as int
    }
}

pub open spec fn num_eq(a: u64, b: u64) -> bool {
    !nan(a) && !nan(b) && magnitude_key(a) == magnitude_key(b)
}

pub open spec fn num_lt(a: u64, b: u64) -> bool {
    !nan(a) && !nan(b) && magnitude_key(a) < magnitude_key(b)
}

pub fn is_finite(n: u64) -> (b: bool)
    ensures
        b == finite(n),
{
    (n / 0x10_0000_0000_0000) % 2048 != 2047
}

pub fn is_nan(n: u64) -> (b: bool)
    ensures
        b == nan(n),
{
    (n / 0x10_0000_0000_0000) % 2048 == 2047 && n % 0x10_0000_0000_0000 != 0
}

pub fn is_zero(n: u64) -> (b: bool)
    ensures
        b == zero(n),
{
    n == 0 || n == 0x8000_0000_0000_0000
}

fn order_key(n: u64) -> (k: i128)
    ensures
        k == magnitude_key(n),
{
    if n >= 0x8000_0000_0000_0000 {
        0x8000_0000_0000_0000i128 - (n as i128)
    } else {
        n as i128
    }
}

pub fn numbers_equal(a: u64, b: u64) -> (r: bool)
    ensures
        r == num_eq(a, b),
{
    !is_nan(a) && !is_nan(b) && order_key(a) == order_key(b)
}

pub fn number_less(a: u64, b: u64) -> (r: bool)
    ensures
        r == num_lt(a, b),
{
    !is_nan(a) && !is_nan(b) && order_key(a) < order_key(b)
}

/// `m` halved `k` times, where that leaves nothing over.
pub open spec fn halved(m: int, k: nat) -> Option<int>
    decreases k,
{
    if k == 0 {
        Some(m)
    } else if m % 2 != 0 {
        None
    } else {
        halved(m / 2, (k - 1) as nat)
    }
}

/// `m` doubled `k` times.
pub open spec fn doubled(m: int, k: nat) -> int
    decreases k,
{
    if k == 0 {
        m
    } else {
        2 * doubled(m, (k - 1) as nat)
    }
}

/// The integer that a double is, where it is one that a 64-bit integer holds.
pub open spec fn whole_of(n: u64) -> Option<int> {
    let e = exponent(n);
    let m = mantissa(n) + 0x10_0000_0000_0000;
    let size: Option<int> = if zero(n) {
        Some(0)
    } else if e < 1023 || e > 1085 {
        None
    } else if e < 1075 {
        halved(m, (1075 - e) as nat)
    } else {
        Some(doubled(m, (e - 1075) as nat))
    };
    match size {
        Some(s) => Some(
            if negative(n) {
                -s
            } else {
                s
            },
        ),
        None => if n == 0xC3E0_0000_0000_0000 {
            Some(-0x8000_0000_0000_0000)
        } else {
            None
        },
    }
}

/// The integer that a double is.
pub fn whole_number(n: u64) -> (r: Option<i64>)
    ensures
        match whole_of(n) {
            Some(i) => r matches Some(x) && x == i,
            None => r is None,
        },
{
    if is_zero(n) {
        return Some(0);
    }
    let e: u64 = (n / 0x10_0000_0000_0000) % 2048;
    let sign = n >= 0x8000_0000_0000_0000;
    if e < 1023 || e > 1085 {
        return if n == 0xC3E0_0000_0000_0000 {
            Some(i64::MIN)
        } else {
            None
        };
    }
    let mut m: u64 = n % 0x10_0000_0000_0000 + 0x10_0000_0000_0000;
    let ghost whole = m as int;
    if e < 1075 {
        let mut k: u64 = 1075 - e;
        while k > 0
            invariant
                1023 <= e < 1075,
                e == exponent(n),
                !zero(n),
                whole == mantissa(n) + 0x10_0000_0000_0000,
                k <= 52,
                m < 0x20_0000_0000_0000,
                halved(whole, (1075 - e) as nat) == halved(m as int, k as nat),
            decreases k,
        {
            if m % 2 != 0 {
                return None;
            }
            m = m / 2;
            k = k - 1;
        }
    } else {
        let mut k: u64 = 0;
        while k < e - 1075
            invariant
                1075 <= e <= 1085,
                k <= e - 1075,
                m == doubled(whole, k as nat),
                k == 0 ==> m < 0x20_0000_0000_0000,
                k == 1 ==> m < 0x40_0000_0000_0000,
                k == 2 ==> m < 0x80_0000_0000_0000,
                k == 3 ==> m < 0x100_0000_0000_0000,
                k == 4 ==> m < 0x200_0000_0000_0000,
                k == 5 ==> m < 0x400_0000_0000_0000,
                k == 6 ==> m < 0x800_0000_0000_0000,
                k == 7 ==> m < 0x1000_0000_0000_0000,
                k == 8 ==> m < 0x2000_0000_0000_0000,
                k == 9 ==> m < 0x4000_0000_0000_0000,
                k == 10 ==> m < 0x8000_0000_0000_0000,
            decreases e - k,
        {
            m = 2 * m;
            k = k + 1;
        }
    }
    Some(
        if sign {
            -(m as i64)
        } else {
            m as i64
        },
    )
}

} // verus!
