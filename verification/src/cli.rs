use vstd::prelude::*;

use crate::number::parse_unsigned;
use crate::text::{chars_of, same_chars};

verus! {

/// The value that follows the first occurrence of option `name` in `args`, when
/// some occurrence of `name` has a following argument. An occurrence as the last
/// argument does not count.
pub open spec fn option_value(args: Seq<Seq<char>>, name: Seq<char>) -> Option<Seq<char>>
    decreases args.len(),
{
    if args.len() < 2 {
        None
    } else {
        match option_value(args.drop_last(), name) {
            Some(v) => Some(v),
            None => if args[args.len() - 2] == name {
                Some(args.last())
            } else {
                None
            },
        }
    }
}

proof fn lemma_option_value_prefix(args: Seq<Seq<char>>, name: Seq<char>, k: int)
    requires
        0 <= k <= args.len(),
        option_value(args.take(k), name) is Some,
    ensures
        option_value(args, name) == option_value(args.take(k), name),
    decreases args.len(),
{
    if k < args.len() {
        assert(args.drop_last().take(k) =~= args.take(k));
        lemma_option_value_prefix(args.drop_last(), name, k);
    } else {
        assert(args.take(k) =~= args);
    }
}

/// The option value is the argument right after the first argument equal to the
/// option name that has an argument after it; there is none exactly when no
/// argument before the last equals the name.
pub proof fn lemma_option_value_first(args: Seq<Seq<char>>, name: Seq<char>)
    ensures
        option_value(args, name) is None <==> forall|i: int|
            0 <= i < args.len() - 1 ==> #[trigger] args[i] != name,
        option_value(args, name) matches Some(v) ==> exists|i: int|
            0 <= i < args.len() - 1 && #[trigger] args[i] == name && args[i + 1] == v && forall|j: int|
                0 <= j < i ==> #[trigger] args[j] != name,
    decreases args.len(),
{
    if args.len() >= 2 {
        let init = args.drop_last();
        lemma_option_value_first(init, name);
        assert forall|i: int| 0 <= i < init.len() implies init[i] == args[i] by {}
        match option_value(init, name) {
            Some(v) => {
                let i = choose|i: int|
                    0 <= i < init.len() - 1 && #[trigger] init[i] == name && init[i + 1] == v && forall|j: int|
                        0 <= j < i ==> #[trigger] init[j] != name;
                assert(args[i] == name && args[i + 1] == v);
                assert forall|j: int| 0 <= j < i implies #[trigger] args[j] != name by {
                    assert(init[j] != name);
                }
            },
            None => {
                if args[args.len() - 2] == name {
                    let i = args.len() - 2;
                    assert(args[i + 1] == args.last());
                    assert forall|j: int| 0 <= j < i implies #[trigger] args[j] != name by {
                        assert(init[j] == args[j]);
                    }
                } else {
                    assert forall|i: int| 0 <= i < args.len() - 1 implies #[trigger] args[i] != name by {
                        if i < args.len() - 2 {
                            assert(init[i] == args[i]);
                        }
                    }
                }
            },
        }
    }
}

/// The character sequences of a slice of strings.
pub open spec fn arg_rows(args: Seq<String>) -> Seq<Seq<char>> {
    args.map_values(|s: String| s@)
}

/// The value following option `name` on a command line, e.g. `--top-n 5`.
pub fn value_arg(args: &[String], name: &str) -> (value: Option<String>)
    ensures
        match option_value(arg_rows(args@), name@) {
            Some(v) => value matches Some(s) && s@ == v,
            None => value is None,
        },
{
    let target = chars_of(name);
    let n = args.len();
    if n < 2 {
        return None;
    }
    let ghost rows = arg_rows(args@);
    let mut i: usize = 0;
    while i + 1 < n
        invariant
            n == args@.len(),
            n >= 2,
            rows == arg_rows(args@),
            target@ == name@,
            i + 1 <= n,
            option_value(rows.take(i + 1), name@) is None,
        decreases n - i,
    {
        let current = chars_of(args[i].as_str());
        assert(rows.take(i + 2).drop_last() =~= rows.take(i + 1));
        assert(rows.take(i + 2)[i as int] == rows[i as int]);
        assert(rows.take(i + 2).last() == rows[i + 1]);
        if same_chars(&current, &target) {
            let v = args[i + 1].clone();
            proof {
                assert(option_value(rows.take(i + 2), name@) == Some(rows[i + 1]));
                lemma_option_value_prefix(rows, name@, i + 2);
            }
            return Some(v);
        }
        i = i + 1;
    }
    assert(rows.take(n as int) =~= rows);
    None
}

/// A numeric option: the value following `name` read as a `usize`, or `default`
/// when the option is missing or its value is not a number.
pub fn usize_arg(args: &[String], name: &str, default: usize) -> (n: usize)
    ensures
        n == match option_value(arg_rows(args@), name@) {
            Some(v) => match parse_unsigned(v, usize::MAX as nat) {
                Some(x) => x as usize,
                None => default,
            },
            None => default,
        },
{
    match value_arg(args, name) {
        Some(v) => match crate::number::parse_usize(v.as_str()) {
            Some(x) => x,
            None => default,
        },
        None => default,
    }
}

/// Whether the data directory must be (re)prepared: unless both the rating file
/// and the catalogue file exist.
pub fn ensure_data(ratings_exist: bool, items_exist: bool) -> (prepare: bool)
    ensures
        prepare == !(ratings_exist && items_exist),
{
    !ratings_exist || !items_exist
}

} // verus!
