//! The arguments of the program that shows what the compositor does.
use vstd::prelude::*;

use crate::globals::ewc_debug::{either, no_interest, Interest};

verus! {

/// What an argument asks for.
pub open spec fn interest_named(arg: Seq<char>) -> Option<Interest> {
    if arg == "frame"@ {
        Some(Interest { frame_stat: true, messages: false })
    } else if arg == "message"@ {
        Some(Interest { frame_stat: false, messages: true })
    } else {
        None
    }
}

/// What the first arguments ask for, if all of them ask for something.
pub open spec fn interests_named(args: Seq<String>) -> Option<Interest>
    decreases args.len(),
{
    if args.len() == 0 {
        Some(no_interest())
    } else {
        match (interests_named(args.drop_last()), interest_named(args.last()@)) {
            (Some(a), Some(b)) => Some(either(a, b)),
            _ => None,
        }
    }
}

proof fn lemma_bad_argument(args: Seq<String>, n: int)
    requires
        0 <= n <= args.len(),
        interests_named(args.take(n)) is None,
    ensures
        interests_named(args) is None,
    decreases args.len() - n,
{
    if n == args.len() {
        assert(args.take(n) =~= args);
    } else {
        assert(args.take(n + 1).drop_last() =~= args.take(n));
        lemma_bad_argument(args, n + 1);
    }
}

/// What the arguments ask for. Without any, or with one that asks for nothing, the usage is shown.
pub fn parse_interests(args: &Vec<String>) -> (r: Option<Interest>)
    ensures
        r == (if args@.len() == 0 {
            None
        } else {
            interests_named(args@)
        }),
{
    if args.len() == 0 {
        return None;
    }
    let frame: String = "frame".to_owned();
    let message: String = "message".to_owned();
    let mut interest = Interest { frame_stat: false, messages: false };
    let mut i: usize = 0;
    assert(args@.take(0) =~= Seq::<String>::empty());
    while i < args.len()
        invariant
            i <= args.len(),
            frame@ == "frame"@,
            message@ == "message"@,
            interests_named(args@.take(i as int)) == Some(interest),
        decreases args.len() - i,
    {
        assert(args@.take(i + 1).drop_last() =~= args@.take(i as int));
        if args[i] == frame {
            interest = interest.or(Interest { frame_stat: true, messages: false });
        } else if args[i] == message {
            interest = interest.or(Interest { frame_stat: false, messages: true });
        } else {
            proof {
                lemma_bad_argument(args@, i + 1);
            }
            return None;
        }
        i = i + 1;
    }
    assert(args@.take(i as int) =~= args@);
    Some(interest)
}

} // verus!
