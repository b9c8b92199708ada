//! The arguments of an export.
use vstd::prelude::*;

use crate::replay::argument_views;
use crate::text::same_text;

verus! {

/// What an export is asked to do.
#[derive(Debug, Eq, PartialEq)]
pub struct Arguments {
    pub capture_directory: String,
    pub output_directory: String,
    pub allow_incomplete: bool,
}

/// The first argument that starts with a hyphen and is no option, if there is one.
pub open spec fn unknown_option(arguments: Seq<Seq<char>>) -> Option<Seq<char>>
    decreases arguments.len(),
{
    if arguments.len() == 0 {
        None
    } else {
        match unknown_option(arguments.drop_last()) {
            Some(option) => Some(option),
            None => if is_unknown(arguments.last()) {
                Some(arguments.last())
            } else {
                None
            },
        }
    }
}

/// Whether an argument starts with a hyphen and is no option.
pub open spec fn is_unknown(argument: Seq<char>) -> bool {
    argument != "--allow-incomplete"@ && argument.len() > 0 && argument[0] == '-'
}

/// The arguments that are no options.
pub open spec fn positional(arguments: Seq<Seq<char>>) -> Seq<Seq<char>>
    decreases arguments.len(),
{
    if arguments.len() == 0 {
        Seq::empty()
    } else if arguments.last() == "--allow-incomplete"@ {
        positional(arguments.drop_last())
    } else {
        positional(arguments.drop_last()).push(arguments.last())
    }
}

proof fn lemma_unknown_stays(arguments: Seq<Seq<char>>, length: int)
    requires
        0 <= length <= arguments.len(),
        unknown_option(arguments.take(length)) is Some,
    ensures
        unknown_option(arguments) == unknown_option(arguments.take(length)),
    decreases arguments.len(),
{
    if length == arguments.len() {
        assert(arguments.take(length) =~= arguments);
    } else {
        assert(arguments.drop_last().take(length) =~= arguments.take(length));
        lemma_unknown_stays(arguments.drop_last(), length);
    }
}

impl Arguments {
    /// Reads the arguments of an export: two directories, and whether an incomplete capture is
    /// welcome.
    pub fn parse(arguments: Vec<String>) -> (result: Result<Self, String>)
        ensures
            ({
                let all = argument_views(arguments@);
                match result {
                    Ok(read) => {
                        &&& unknown_option(all) is None
                        &&& positional(all) == seq![
                            read.capture_directory@,
                            read.output_directory@,
                        ]
                        &&& read.allow_incomplete == all.contains("--allow-incomplete"@)
                    },
                    Err(error) => match unknown_option(all) {
                        Some(option) => error@ == "unknown option: "@ + option,
                        None => {
                            &&& positional(all).len() != 2
                            &&& error@
                                == "usage: export-parquet <capture-directory> <new-dataset-directory> [--allow-incomplete]"@
                        },
                    },
                }
            }),
    {
        let ghost all = argument_views(arguments@);
        let mut directories: Vec<String> = Vec::new();
        let mut allow_incomplete: bool = false;
        let mut i: usize = 0;
        proof {
            assert(all.take(0) =~= Seq::<Seq<char>>::empty());
            assert(argument_views(directories@) =~= Seq::<Seq<char>>::empty());
        }
        while i < arguments.len()
            invariant
                i <= arguments.len(),
                all == argument_views(arguments@),
                unknown_option(all.take(i as int)) is None,
                positional(all.take(i as int)) == argument_views(directories@),
                allow_incomplete == all.take(i as int).contains("--allow-incomplete"@),
            decreases arguments.len() - i,
        {
            let argument: &str = arguments[i].as_str();
            let ghost next = all.take(i + 1);
            proof {
                assert(all[i as int] == argument@);
                assert(next.drop_last() =~= all.take(i as int));
                assert(next.last() == argument@);
            }
            if same_text(argument, "--allow-incomplete") {
                allow_incomplete = true;
                assert(next.contains(next[i as int]));
            } else {
                if argument.unicode_len() > 0 && argument.get_char(0) == '-' {
                    proof {
                        lemma_unknown_stays(all, i + 1);
                    }
                    let mut error: String = "unknown option: ".to_owned();
                    error.append(argument);
                    return Err(error);
                }
                let ghost earlier = directories@;
                directories.push(argument.to_owned());
                proof {
                    assert(argument_views(directories@) =~= argument_views(earlier).push(
                        argument@,
                    ));
                    let before = all.take(i as int);
                    assert forall|t: Seq<char>| t != argument@ implies next.contains(t)
                        == before.contains(t) by {
                        if before.contains(t) {
                            let j = choose|j: int| 0 <= j < before.len() && before[j] == t;
                            assert(next[j] == t);
                        }
                        if next.contains(t) {
                            let j = choose|j: int| 0 <= j < next.len() && next[j] == t;
                            assert(before[j] == t);
                        }
                    }
                }
            }
            i = i + 1;
        }
        assert(all.take(i as int) =~= all);
        assert(argument_views(directories@).len() == directories@.len());
        if directories.len() != 2 {
            return Err(
                "usage: export-parquet <capture-directory> <new-dataset-directory> [--allow-incomplete]".to_owned(),
            );
        }
        let ghost read = argument_views(directories@);
        let output_directory: String = directories.remove(1);
        let capture_directory: String = directories.remove(0);
        assert(read =~= seq![capture_directory@, output_directory@]);
        Ok(Arguments { capture_directory, output_directory, allow_incomplete })
    }
}

/// Options and directories may stand in any order: what is read of arguments that follow
/// others is added to what was read before.
pub proof fn lemma_arguments_add_up(first: Seq<Seq<char>>, second: Seq<Seq<char>>)
    ensures
        positional(first + second) == positional(first) + positional(second),
    decreases second.len(),
{
    if second.len() == 0 {
        assert(first + second =~= first);
        assert(positional(first) + positional(second) =~= positional(first));
    } else {
        let whole = first + second;
        assert(whole.drop_last() =~= first + second.drop_last());
        assert(whole.last() == second.last());
        lemma_arguments_add_up(first, second.drop_last());
        assert(positional(whole) =~= positional(first) + positional(second));
    }
}

/// The option alone is no directory, and anything else is one.
pub proof fn lemma_directories_are_no_options(argument: Seq<char>)
    ensures
        positional(seq![argument]) == if argument == "--allow-incomplete"@ {
            Seq::<Seq<char>>::empty()
        } else {
            seq![argument]
        },
{
    let alone = seq![argument];
    assert(alone.drop_last() =~= Seq::<Seq<char>>::empty());
    assert(alone.last() == argument);
    assert(positional(alone.drop_last()) =~= Seq::<Seq<char>>::empty());
    if argument != "--allow-incomplete"@ {
        assert(positional(alone) =~= alone);
    }
}

/// Arguments are turned down for an unknown option if and only if there is one: an argument
/// that starts with a hyphen and does not allow incomplete captures.
pub proof fn lemma_unknown_option_found(arguments: Seq<Seq<char>>)
    ensures
        unknown_option(arguments) is Some <==> exists|i: int|
            0 <= i < arguments.len() && (#[trigger] arguments[i]).len() > 0 && arguments[i][0]
                == '-' && arguments[i] != "--allow-incomplete"@,
    decreases arguments.len(),
{
    if arguments.len() > 0 {
        let earlier = arguments.drop_last();
        lemma_unknown_option_found(earlier);
        assert(arguments[arguments.len() - 1] == arguments.last());
        if unknown_option(earlier) is Some {
            let k = choose|i: int|
                0 <= i < earlier.len() && (#[trigger] earlier[i]).len() > 0 && earlier[i][0] == '-'
                    && earlier[i] != "--allow-incomplete"@;
            assert(arguments[k] == earlier[k]);
        }
        if exists|i: int|
            0 <= i < arguments.len() && (#[trigger] arguments[i]).len() > 0 && arguments[i][0]
                == '-' && arguments[i] != "--allow-incomplete"@ {
            let k = choose|i: int|
                0 <= i < arguments.len() && (#[trigger] arguments[i]).len() > 0 && arguments[i][0]
                    == '-' && arguments[i] != "--allow-incomplete"@;
            if k < earlier.len() {
                assert(earlier[k] == arguments[k]);
            }
        }
    }
}

} // verus!
