use vstd::prelude::*;

verus! {

/// An element of the stack. May be either integer or boolean.
#[derive(Eq, PartialEq, Structural, Ord, PartialOrd, Debug)]
pub enum Elt {
    Int(i32),
    Bool(bool),
}

/// An RPN calculator error.
#[derive(Debug)]
pub enum Error {
    /// Tried to pop from an empty stack.
    Underflow,
    /// Tried to operate on invalid types (e.g. 4 + true).
    Type,
    /// Unable to parse the input.
    Syntax,
    /// Some IO error occurred.
    IO,
    /// The user quit the program (with `quit`).
    Quit,
}

/// Types of RPN calculator operations.
#[derive(Debug)]
pub enum Op {
    /// Adds two numbers: pop x, pop y, push x + y.
    Add,
    /// Checks equality of two values: pop x, pop y, push x == y.
    Eq,
    /// Negates a value: pop x, push ~x.
    Neg,
    /// Swaps two values: pop x, pop y, push x, push y.
    Swap,
    /// Halves a number: pop x, push a number in [0, x).
    Rand,
    /// Quit the calculator.
    Quit,
}

/// Popping an integer: the top element leaves the stack whether or not it is
/// an integer; a boolean top is a type error, an empty stack an underflow.
pub open spec fn pop_int_step(s: Seq<Elt>) -> (Seq<Elt>, Result<i32, Error>) {
    if s.len() == 0 {
        (s, Err(Error::Underflow))
    } else {
        match s.last() {
            Elt::Int(x) => (s.drop_last(), Ok(x)),
            Elt::Bool(_) => (s.drop_last(), Err(Error::Type)),
        }
    }
}

/// The sum of the two integers on top fits in `i32` (vacuous when the
/// operands are not there).
pub open spec fn add_fits(s: Seq<Elt>) -> bool {
    s.len() >= 2 ==> match (s[s.len() - 1], s[s.len() - 2]) {
        (Elt::Int(x), Elt::Int(y)) => i32::MIN <= x + y <= i32::MAX,
        _ => true,
    }
}

/// What `Add` does to the stack: pop x, pop y, push x + y; a failed pop
/// leaves the partial pops in place.
pub open spec fn add_step(s: Seq<Elt>) -> (Seq<Elt>, Result<(), Error>) {
    let (s1, r1) = pop_int_step(s);
    match r1 {
        Err(e) => (s1, Err(e)),
        Ok(x) => {
            let (s2, r2) = pop_int_step(s1);
            match r2 {
                Err(e) => (s2, Err(e)),
                Ok(y) => (s2.push(Elt::Int((x + y) as i32)), Ok(())),
            }
        },
    }
}

/// What `Eq` does to the stack: pop x, pop y, push x == y.
pub open spec fn eq_step(s: Seq<Elt>) -> (Seq<Elt>, Result<(), Error>) {
    let (s1, r1) = pop_int_step(s);
    match r1 {
        Err(e) => (s1, Err(e)),
        Ok(x) => {
            let (s2, r2) = pop_int_step(s1);
            match r2 {
                Err(e) => (s2, Err(e)),
                Ok(y) => (s2.push(Elt::Bool(x == y)), Ok(())),
            }
        },
    }
}

/// The integer on top may be negated without overflow.
pub open spec fn neg_fits(s: Seq<Elt>) -> bool {
    s.len() >= 1 ==> match s.last() {
        Elt::Int(x) => x != i32::MIN,
        Elt::Bool(_) => true,
    }
}

/// What `Neg` does to the stack: an integer is negated, a boolean inverted.
pub open spec fn neg_step(s: Seq<Elt>) -> (Seq<Elt>, Result<(), Error>) {
    if s.len() == 0 {
        (s, Err(Error::Underflow))
    } else {
        match s.last() {
            Elt::Int(x) => (s.drop_last().push(Elt::Int((0 - x) as i32)), Ok(())),
            Elt::Bool(b) => (s.drop_last().push(Elt::Bool(!b)), Ok(())),
        }
    }
}

/// What `Swap` does to the stack: the two top elements trade places; with
/// one element only, that element is consumed by the failed second pop.
pub open spec fn swap_step(s: Seq<Elt>) -> (Seq<Elt>, Result<(), Error>) {
    if s.len() == 0 {
        (s, Err(Error::Underflow))
    } else if s.len() == 1 {
        (s.drop_last(), Err(Error::Underflow))
    } else {
        (s.drop_last().drop_last().push(s.last()).push(s[s.len() - 2]), Ok(()))
    }
}

/// Integer halving, rounding toward zero.
pub open spec fn half_toward_zero(x: int) -> int {
    if x >= 0 {
        x / 2
    } else {
        -((-x) / 2)
    }
}

/// What `Rand` does to the stack: pop an integer x, push x / 2.
pub open spec fn rand_step(s: Seq<Elt>) -> (Seq<Elt>, Result<(), Error>) {
    let (s1, r1) = pop_int_step(s);
    match r1 {
        Err(e) => (s1, Err(e)),
        Ok(x) => (s1.push(Elt::Int(half_toward_zero(x as int) as i32)), Ok(())),
    }
}

/// What evaluating `op` does to the stack.
pub open spec fn eval_step(s: Seq<Elt>, op: Op) -> (Seq<Elt>, Result<(), Error>) {
    match op {
        Op::Add => add_step(s),
        Op::Eq => eq_step(s),
        Op::Neg => neg_step(s),
        Op::Swap => swap_step(s),
        Op::Rand => rand_step(s),
        Op::Quit => (s, Err(Error::Quit)),
    }
}

/// Evaluating `op` on this stack stays within machine integer bounds.
pub open spec fn eval_fits(s: Seq<Elt>, op: Op) -> bool {
    match op {
        Op::Add => add_fits(s),
        Op::Neg => neg_fits(s),
        _ => true,
    }
}

/// An RPN calculator's stack of values.
pub struct Stack {
    vec: Vec<Elt>,
}

impl View for Stack {
    type V = Seq<Elt>;

    closed spec fn view(&self) -> Seq<Elt> {
        self.vec@
    }
}

impl Stack {
    /// Creates a new Stack.
    pub fn new() -> (s: Stack)
        ensures
            s@ == Seq::<Elt>::empty(),
    {
        let vec: Vec<Elt> = Vec::new();
        proof {
            assert(vec@ =~= Seq::<Elt>::empty());
        }
        Stack { vec }
    }

    /// Pushes a value onto the stack.
    pub fn push(&mut self, val: Elt) -> (r: Result<(), Error>)
        ensures
            final(self)@ == old(self)@.push(val),
            r == Ok::<(), Error>(()),
    {
        self.vec.push(val);
        Ok(())
    }

    /// Tries to pop a value off of the stack; an empty stack underflows.
    pub fn pop(&mut self) -> (r: Result<Elt, Error>)
        ensures
            old(self)@.len() == 0 ==> r == Err::<Elt, Error>(Error::Underflow) && final(self)@
                == old(self)@,
            old(self)@.len() > 0 ==> r == Ok::<Elt, Error>(old(self)@.last()) && final(self)@
                == old(self)@.drop_last(),
    {
        match self.vec.pop() {
            Some(e) => Ok(e),
            None => Err(Error::Underflow),
        }
    }

    /// Tries to evaluate an operator using values on the stack.
    pub fn eval(&mut self, op: Op) -> (r: Result<(), Error>)
        requires
            eval_fits(old(self)@, op),
        ensures
            (final(self)@, r) == eval_step(old(self)@, op),
    {
        match op {
            Op::Add => self.do_add(),
            Op::Eq => self.do_eq(),
            Op::Neg => self.do_neg(),
            Op::Swap => self.do_swap(),
            Op::Rand => self.do_rand(),
            Op::Quit => Err(Error::Quit),
        }
    }

    /// Pops a value that must be an integer.
    pub fn pop_int(&mut self) -> (r: Result<i32, Error>)
        ensures
            (final(self)@, r) == pop_int_step(old(self)@),
    {
        match self.vec.pop() {
            None => Err(Error::Underflow),
            Some(Elt::Int(x)) => Ok(x),
            Some(Elt::Bool(_)) => Err(Error::Type),
        }
    }

    fn do_add(&mut self) -> (r: Result<(), Error>)
        requires
            add_fits(old(self)@),
        ensures
            (final(self)@, r) == add_step(old(self)@),
    {
        let x = match self.pop_int() {
            Ok(x) => x,
            Err(e) => {
                return Err(e);
            },
        };
        let y = match self.pop_int() {
            Ok(y) => y,
            Err(e) => {
                return Err(e);
            },
        };
        self.vec.push(Elt::Int(x + y));
        Ok(())
    }

    fn do_eq(&mut self) -> (r: Result<(), Error>)
        ensures
            (final(self)@, r) == eq_step(old(self)@),
    {
        let x = match self.pop_int() {
            Ok(x) => x,
            Err(e) => {
                return Err(e);
            },
        };
        let y = match self.pop_int() {
            Ok(y) => y,
            Err(e) => {
                return Err(e);
            },
        };
        self.vec.push(Elt::Bool(x == y));
        Ok(())
    }

    fn do_neg(&mut self) -> (r: Result<(), Error>)
        requires
            neg_fits(old(self)@),
        ensures
            (final(self)@, r) == neg_step(old(self)@),
    {
        let e = match self.pop() {
            Ok(e) => e,
            Err(e) => {
                return Err(e);
            },
        };
        match e {
            Elt::Int(x) => self.vec.push(Elt::Int(0 - x)),
            Elt::Bool(b) => self.vec.push(Elt::Bool(!b)),
        }
        Ok(())
    }

    fn do_swap(&mut self) -> (r: Result<(), Error>)
        ensures
            (final(self)@, r) == swap_step(old(self)@),
    {
        let e1 = match self.pop() {
            Ok(e) => e,
            Err(e) => {
                return Err(e);
            },
        };
        let e2 = match self.pop() {
            Ok(e) => e,
            Err(e) => {
                return Err(e);
            },
        };
        self.vec.push(e1);
        self.vec.push(e2);
        proof {
            assert(self@ =~= swap_step(old(self)@).0);
        }
        Ok(())
    }

    fn do_rand(&mut self) -> (r: Result<(), Error>)
        ensures
            (final(self)@, r) == rand_step(old(self)@),
    {
        let x = match self.pop_int() {
            Ok(x) => x,
            Err(e) => {
                return Err(e);
            },
        };
        let h = if x >= 0 {
            x / 2
        } else {
            let m = (0i64 - (x as i64)) as u32;
            0 - ((m / 2) as i32)
        };
        self.vec.push(Elt::Int(h));
        Ok(())
    }
}

} // verus!
