//! Triples, updates, deltas and lists.

use vstd::prelude::*;
use vstd::string::StringExecFns;

verus! {

/// `(subject, predicate, object)`.
pub type Triple = (u32, u32, u32);

/// A pair of identifiers: what a join hands on of a triple once its key is known.
pub type Tuple = (u32, u32);

/// A triple with one of its positions in front, as the key of a join.
pub type KeyedTriple = (u32, (u32, u32));

/// A triple with the change of its multiplicity: positive asserts, negative retracts.
pub type Update = (Triple, i64);

/// A change of the closure: the triple, the epoch of the batch that caused it, and +1 or -1.
pub type Delta = (Triple, usize, i64);

/// The head of an RDF collection with its members in cell order.
pub type List = (u32, Vec<u32>);

/// One line of the run log: what one worker did in one phase.
pub struct RuntimeLog {
    pub file: usize,
    pub latency: u128,
    pub added: usize,
    pub removed: usize,
    pub worker: usize,
}

/// The character that writes the digit `d`.
pub open spec fn digit_char(d: int) -> char {
    if d == 0 {
        '0'
    } else if d == 1 {
        '1'
    } else if d == 2 {
        '2'
    } else if d == 3 {
        '3'
    } else if d == 4 {
        '4'
    } else if d == 5 {
        '5'
    } else if d == 6 {
        '6'
    } else if d == 7 {
        '7'
    } else if d == 8 {
        '8'
    } else {
        '9'
    }
}

/// `n` in base ten, without sign or padding.
pub open spec fn digits(n: nat) -> Seq<char>
    decreases n,
{
    if n < 10 {
        seq![digit_char(n as int)]
    } else {
        digits(n / 10).push(digit_char((n % 10) as int))
    }
}

/// Appends `n` in base ten to `out`.
pub fn write_number(n: u128, out: &mut String)
    ensures
        final(out)@ == old(out)@ + digits(n as nat),
    decreases n,
{
    if n >= 10 {
        write_number(n / 10, out);
    }
    let ghost before = out@;
    let d = n % 10;
    if d == 0 {
        proof {
            reveal_strlit("0");
        }
        out.append("0");
        assert("0"@ =~= seq!['0']);
    } else if d == 1 {
        proof {
            reveal_strlit("1");
        }
        out.append("1");
        assert("1"@ =~= seq!['1']);
    } else if d == 2 {
        proof {
            reveal_strlit("2");
        }
        out.append("2");
        assert("2"@ =~= seq!['2']);
    } else if d == 3 {
        proof {
            reveal_strlit("3");
        }
        out.append("3");
        assert("3"@ =~= seq!['3']);
    } else if d == 4 {
        proof {
            reveal_strlit("4");
        }
        out.append("4");
        assert("4"@ =~= seq!['4']);
    } else if d == 5 {
        proof {
            reveal_strlit("5");
        }
        out.append("5");
        assert("5"@ =~= seq!['5']);
    } else if d == 6 {
        proof {
            reveal_strlit("6");
        }
        out.append("6");
        assert("6"@ =~= seq!['6']);
    } else if d == 7 {
        proof {
            reveal_strlit("7");
        }
        out.append("7");
        assert("7"@ =~= seq!['7']);
    } else if d == 8 {
        proof {
            reveal_strlit("8");
        }
        out.append("8");
        assert("8"@ =~= seq!['8']);
    } else {
        proof {
            reveal_strlit("9");
        }
        out.append("9");
        assert("9"@ =~= seq!['9']);
    }
    proof {
        assert(out@ =~= before + seq![digit_char(d as int)]);
        if n >= 10 {
            assert(digits(n as nat) =~= digits((n / 10) as nat) + seq![digit_char(d as int)]);
        } else {
            assert(digits(n as nat) =~= seq![digit_char(d as int)]);
        }
    }
}

impl RuntimeLog {
    /// The record of phase number `file` of worker number `worker`.
    pub fn new(file: usize, latency: u128, added: usize, removed: usize, worker: usize) -> (log:
        RuntimeLog)
        ensures
            log.file == file,
            log.latency == latency,
            log.added == added,
            log.removed == removed,
            log.worker == worker,
    {
        RuntimeLog { file, latency, added, removed, worker }
    }

    /// The line as text: the five numbers in base ten with commas between them.
    pub open spec fn line(&self) -> Seq<char> {
        digits(self.file as nat) + seq![','] + digits(self.latency as nat) + seq![','] + digits(
            self.added as nat,
        ) + seq![','] + digits(self.removed as nat) + seq![','] + digits(self.worker as nat)
    }

    /// Renders the line in the order of the log's header: `file,latency,added,removed,worker`.
    pub fn to_string(&self) -> (s: String)
        ensures
            s@ == self.line(),
    {
        proof {
            reveal_strlit(",");
        }
        assert(","@ =~= seq![',']);
        let mut s = String::new();
        write_number(self.file as u128, &mut s);
        s.append(",");
        write_number(self.latency, &mut s);
        s.append(",");
        write_number(self.added as u128, &mut s);
        s.append(",");
        write_number(self.removed as u128, &mut s);
        s.append(",");
        write_number(self.worker as u128, &mut s);
        proof {
            assert(s@ =~= self.line());
        }
        s
    }
}

} // verus!
