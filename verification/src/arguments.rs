//! The command line: the force flag, the sources and the destination.

use crate::expression::texts;
use vstd::prelude::*;
use vstd::string::*;

verus! {

/// The text of the force flag, `-f`.
pub open spec fn force_flag() -> Seq<char> {
    seq!['-', 'f']
}

/// The arguments but for the first `-f` among them; a second `-f` is an
/// argument like any other.
pub open spec fn positional(arguments: Seq<Seq<char>>) -> Seq<Seq<char>>
    decreases arguments.len(),
{
    if arguments.len() == 0 {
        Seq::empty()
    } else {
        let earlier = arguments.drop_last();
        if arguments.last() == force_flag() && !earlier.contains(force_flag()) {
            positional(earlier)
        } else {
            positional(earlier).push(arguments.last())
        }
    }
}

/// What a command line asks for.
#[derive(Clone, Debug, PartialEq, Eq)]
pub struct Invocation {
    /// The source expressions, in the order given.
    pub sources: Vec<String>,
    /// The destination, as written.
    pub destination: String,
    /// Whether errors that are not fatal leave the run a success.
    pub forced: bool,
}

/// Why a command line was turned down.
#[derive(Clone, Copy, Debug, PartialEq, Eq, Structural)]
pub enum ArgumentError {
    /// Fewer than a source and a destination were given.
    NotEnoughArguments,
}

impl ArgumentError {
    /// The error in words.
    pub fn message(&self) -> (text: String)
        ensures
            text@ == "Not enough args specified"@,
    {
        String::from_str("Not enough args specified")
    }
}

/// Whether `argument` is the force flag.
pub fn is_force_flag(argument: &str) -> (flag: bool)
    ensures
        flag == (argument@ == force_flag()),
{
    let n = argument.unicode_len();
    if n == 2 && argument.get_char(0) == '-' && argument.get_char(1) == 'f' {
        assert(argument@ =~= force_flag());
        true
    } else {
        proof {
            if argument@ == force_flag() {
                assert(force_flag().len() == 2);
                assert(force_flag()[0] == '-' && force_flag()[1] == 'f');
            }
        }
        false
    }
}

/// Reads a command line, the program's own name left out.
///
/// The first `-f` sets the force flag. Of what is left, the last argument
/// is the destination and those before it are the sources; at least one
/// source is asked for.
pub fn parse_args(arguments: Vec<String>) -> (parsed: Result<Invocation, ArgumentError>)
    ensures
        parsed.is_ok() == (positional(texts(arguments@)).len() >= 2),
        parsed matches Ok(invocation) ==> {
            &&& texts(invocation.sources@) == positional(texts(arguments@)).drop_last()
            &&& invocation.destination@ == positional(texts(arguments@)).last()
            &&& invocation.forced == texts(arguments@).contains(force_flag())
        },
{
    let ghost all = texts(arguments@);
    let mut kept: Vec<String> = Vec::new();
    let mut forced = false;
    let mut i: usize = 0;
    assert(all.take(0) =~= Seq::<Seq<char>>::empty());
    assert(texts(kept@) =~= Seq::<Seq<char>>::empty());
    while i < arguments.len()
        invariant
            i <= arguments.len(),
            all == texts(arguments@),
            texts(kept@) == positional(all.take(i as int)),
            forced == all.take(i as int).contains(force_flag()),
        decreases arguments.len() - i,
    {
        let ghost before = texts(kept@);
        let ghost seen = all.take(i as int);
        proof {
            assert(all.take(i + 1).drop_last() =~= seen);
            assert(all.take(i + 1).last() == arguments@[i as int]@);
        }
        let is_flag = is_force_flag(arguments[i].as_str());
        if is_flag && !forced {
            forced = true;
            proof {
                assert(all.take(i + 1)[i as int] == force_flag());
            }
        } else {
            kept.push(arguments[i].clone());
            proof {
                assert(texts(kept@) =~= before.push(arguments@[i as int]@));
                if forced {
                    let k = choose|k: int| 0 <= k < seen.len() && seen[k] == force_flag();
                    assert(all.take(i + 1)[k] == force_flag());
                } else {
                    let longer = all.take(i + 1);
                    assert forall|k: int| 0 <= k < longer.len() implies #[trigger] longer[k]
                        != force_flag() by {
                        if k < i {
                            assert(seen[k] == longer[k]);
                            assert(!seen.contains(force_flag()));
                        }
                    }
                }
            }
        }
        i += 1;
    }
    assert(all.take(arguments.len() as int) =~= all);
    if kept.len() < 2 {
        return Err(ArgumentError::NotEnoughArguments);
    }
    let ghost before = texts(kept@);
    let destination = kept.pop().unwrap();
    assert(texts(kept@) =~= before.drop_last());
    assert(destination@ == before.last());
    Ok(Invocation { sources: kept, destination, forced })
}

} // verus!
