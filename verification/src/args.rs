//! Small command-line helpers the surrounding tooling uses: a flag test,
//! a keyed option lookup, and the repeatable input option.

use vstd::prelude::*;
use crate::codec::str_eq;

verus! {

/// Is `flag` among the arguments?
pub open spec fn spec_has_flag(args: Seq<Seq<char>>, flag: Seq<char>) -> bool {
    exists|i: int| 0 <= i < args.len() && args[i] == flag
}

/// The value after the first occurrence of `key`, where one follows.
pub open spec fn spec_first_opt(args: Seq<Seq<char>>, key: Seq<char>) -> Option<Seq<char>>
    decreases args.len(),
{
    if args.len() < 2 {
        None
    } else if args[0] == key {
        Some(args[1])
    } else {
        spec_first_opt(args.drop_first(), key)
    }
}

/// The values that follow each `--input`, scanning left to right and
/// stepping over each consumed value.
pub open spec fn spec_multi_inputs(args: Seq<Seq<char>>, i: int) -> Seq<Seq<char>>
    decreases args.len() - i,
{
    if i < 0 || i + 1 >= args.len() {
        Seq::empty()
    } else if args[i] == "--input"@ {
        seq![args[i + 1]] + spec_multi_inputs(args, i + 2)
    } else {
        spec_multi_inputs(args, i + 1)
    }
}

/// True exactly when some argument equals `flag`.
pub fn parse_flag(args: &[String], flag: &str) -> (r: bool)
    ensures
        r == spec_has_flag(args@.map_values(|s: String| s@), flag@),
{
    let ghost av = args@.map_values(|s: String| s@);
    let n = args.len();
    let mut i: usize = 0;
    while i < n
        invariant
            0 <= i <= n,
            n == args@.len(),
            av == args@.map_values(|s: String| s@),
            forall|j: int| 0 <= j < i ==> av[j] != flag@,
        decreases n - i,
    {
        let hit = str_eq(args[i].as_str(), flag);
        if hit {
            proof {
                assert(av[i as int] == flag@);
            }
            return true;
        }
        i = i + 1;
    }
    proof {
        if spec_has_flag(av, flag@) {
            let j = choose|j: int| 0 <= j < av.len() && av[j] == flag@;
            assert(av[j] != flag@);
        }
    }
    false
}

/// The argument after the first occurrence of `key`, if one follows it.
pub fn parse_opt(args: &[String], key: &str) -> (r: Option<String>)
    ensures
        r matches Some(v) ==> spec_first_opt(args@.map_values(|s: String| s@), key@) == Some(v@),
        r is None ==> spec_first_opt(args@.map_values(|s: String| s@), key@) is None,
{
    let ghost av = args@.map_values(|s: String| s@);
    let n = args.len();
    let mut i: usize = 0;
    proof {
        assert(av.skip(0) =~= av);
    }
    while i < n && i + 1 < n
        invariant
            0 <= i <= n,
            n == args@.len(),
            av == args@.map_values(|s: String| s@),
            spec_first_opt(av, key@) == spec_first_opt(av.skip(i as int), key@),
        decreases n - i,
    {
        proof {
            assert(av.skip(i as int).len() >= 2);
            assert(av.skip(i as int)[0] == av[i as int]);
            assert(av.skip(i as int)[1] == av[i as int + 1]);
            assert(av.skip(i as int).drop_first() =~= av.skip(i as int + 1));
        }
        let hit = str_eq(args[i].as_str(), key);
        if hit {
            let v = args[i + 1].clone();
            return Some(v);
        }
        i = i + 1;
    }
    proof {
        assert(av.skip(i as int).len() < 2);
    }
    None
}

/// Every value that follows an `--input` argument, in order.
pub fn parse_multi_inputs(args: &[String]) -> (r: Vec<String>)
    ensures
        r@.map_values(|s: String| s@) == spec_multi_inputs(
            args@.map_values(|s: String| s@),
            0,
        ),
{
    let ghost sv = |s: String| s@;
    let ghost av = args@.map_values(sv);
    let mut inputs: Vec<String> = Vec::new();
    let n = args.len();
    let mut i: usize = 0;
    proof {
        assert(inputs@.map_values(sv) + spec_multi_inputs(av, 0) =~= spec_multi_inputs(av, 0));
    }
    while i < n && i + 1 < n
        invariant
            0 <= i <= n,
            n == args@.len(),
            sv == (|s: String| s@),
            av == args@.map_values(sv),
            spec_multi_inputs(av, 0) == inputs@.map_values(sv) + spec_multi_inputs(av, i as int),
        decreases n - i,
    {
        let hit = str_eq(args[i].as_str(), "--input");
        if hit {
            let ghost pre = inputs@.map_values(sv);
            let v = args[i + 1].clone();
            proof {
                assert(av[i as int] == "--input"@);
                assert(spec_multi_inputs(av, i as int) == seq![av[i as int + 1]]
                    + spec_multi_inputs(av, i as int + 2));
            }
            inputs.push(v);
            proof {
                assert(inputs@.map_values(sv) =~= pre.push(av[i as int + 1]));
                assert(pre + (seq![av[i as int + 1]] + spec_multi_inputs(av, i as int + 2))
                    =~= inputs@.map_values(sv) + spec_multi_inputs(av, i as int + 2));
            }
            i = i + 2;
        } else {
            proof {
                assert(av[i as int] != "--input"@);
            }
            i = i + 1;
        }
    }
    proof {
        assert(spec_multi_inputs(av, i as int) =~= Seq::<Seq<char>>::empty());
        assert(inputs@.map_values(sv) + Seq::<Seq<char>>::empty() =~= inputs@.map_values(sv));
    }
    inputs
}

} // verus!
