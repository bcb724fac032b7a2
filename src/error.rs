use vstd::prelude::*;

verus! {

/// Failures reported by the queues.
#[derive(Debug, Clone, Copy, PartialEq, Eq, Structural)]
pub enum PriorityQueueError {
    /// The priority is not below the number of levels.
    BadPriority(usize),
    /// The protecting mutex was poisoned.
    LockError,
    /// The queue has been shut down.
    Closed,
    /// A bounded shutdown expired with items still queued.
    Timeout,
    /// The operation is not provided.
    NotImplemented,
}

pub type Result<T> = core::result::Result<T, PriorityQueueError>;

/// The character of a decimal digit.
pub open spec fn digit_char(d: nat) -> char {
    if d == 0 {
        '0'
    } else if d == 1 {
        '1'
    } else if d == 2 {
        '2'
    } else if d == 3 {
        '3'
    } else if d == 4 {
        '4'
    } else if d == 5 {
        '5'
    } else if d == 6 {
        '6'
    } else if d == 7 {
        '7'
    } else if d == 8 {
        '8'
    } else {
        '9'
    }
}

/// The decimal writing of `n`, most significant digit first, without leading zeros.
pub open spec fn decimal(n: nat) -> Seq<char>
    decreases n,
{
    if n < 10 {
        seq![digit_char(n)]
    } else {
        decimal(n / 10).push(digit_char(n % 10))
    }
}

/// The one-character text of the decimal digit `d`.
fn digit_str(d: usize) -> (r: &'static str)
    requires
        d < 10,
    ensures
        r@ == seq![digit_char(d as nat)],
{
    proof {
        reveal_strlit("0");
        reveal_strlit("1");
        reveal_strlit("2");
        reveal_strlit("3");
        reveal_strlit("4");
        reveal_strlit("5");
        reveal_strlit("6");
        reveal_strlit("7");
        reveal_strlit("8");
        reveal_strlit("9");
    }
    if d == 0 {
        "0"
    } else if d == 1 {
        "1"
    } else if d == 2 {
        "2"
    } else if d == 3 {
        "3"
    } else if d == 4 {
        "4"
    } else if d == 5 {
        "5"
    } else if d == 6 {
        "6"
    } else if d == 7 {
        "7"
    } else if d == 8 {
        "8"
    } else {
        "9"
    }
}

/// Appends the decimal writing of `n` to `out`.
pub fn write_decimal(out: &mut String, n: usize)
    ensures
        final(out)@ == old(out)@ + decimal(n as nat),
    decreases n,
{
    if n >= 10 {
        write_decimal(out, n / 10);
    }
    out.append(digit_str(n % 10));
    proof {
        if n >= 10 {
            assert(decimal(n as nat) == decimal((n / 10) as nat).push(digit_char((n % 10) as nat)));
            assert(out@ =~= old(out)@ + decimal(n as nat));
        } else {
            assert(out@ =~= old(out)@ + decimal(n as nat));
        }
    }
}

impl PriorityQueueError {
    /// Human-readable description of the error.
    pub fn to_string(&self) -> (r: String)
        ensures
            self is BadPriority ==> r@ == "bad priority "@ + decimal(self->BadPriority_0 as nat),
            self is LockError ==> r@ == "lock failed"@,
            self is Closed ==> r@ == "closed"@,
            self is Timeout ==> r@ == "timeout"@,
            self is NotImplemented ==> r@ == "not implemented"@,
    {
        match self {
            PriorityQueueError::BadPriority(prio) => {
                let mut r = String::from_str("bad priority ");
                write_decimal(&mut r, *prio);
                r
            },
            PriorityQueueError::LockError => String::from_str("lock failed"),
            PriorityQueueError::Closed => String::from_str("closed"),
            PriorityQueueError::Timeout => String::from_str("timeout"),
            PriorityQueueError::NotImplemented => String::from_str("not implemented"),
        }
    }
}

} // verus!
