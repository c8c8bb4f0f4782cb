//! How the app starts, starts again and ends: its arguments, and what keeps it
//! running.

use crate::text::{
    decimal, is_ascii_digit, law_decimal_reads_back, law_prefix_comes_off, parse_u32, parsed_u32,
    str_eq, strip_prefix, stripped_prefix, texts, to_decimal,
};
use vstd::prelude::*;

verus! {

/// The argument that tells a new process which one it must wait for.
pub const RELAUNCH_ARG: &'static str = "--relaunch-after=";

/// The argument that the system starts the app with.
pub const HIDDEN_ARG: &'static str = "--hidden";

/// How long a process that does not end is waited for, in milliseconds.
pub const PREDECESSOR_WAIT_MS: u32 = 10_000;

/// The argument for the successor of a process.
pub open spec fn argument_for(pid: u32) -> Seq<char> {
    RELAUNCH_ARG@ + decimal(pid as nat)
}

pub fn relaunch_argument(pid: u32) -> (r: String)
    ensures
        r@ == argument_for(pid),
{
    let mut arg = RELAUNCH_ARG.to_string();
    let digits = to_decimal(pid as u128);
    arg.append(digits.as_str());
    arg
}

/// The process that an argument names.
pub open spec fn named_process(arg: Seq<char>) -> Option<u32> {
    match stripped_prefix(arg, RELAUNCH_ARG@) {
        Some(value) => parsed_u32(value),
        None => None,
    }
}

/// The process that the first argument that names one names.
pub open spec fn predecessor_in(args: Seq<Seq<char>>) -> Option<u32>
    decreases args.len(),
{
    if args.len() == 0 {
        None
    } else {
        match named_process(args.first()) {
            Some(pid) => Some(pid),
            None => predecessor_in(args.drop_first()),
        }
    }
}

/// The process that must end before this one goes on.
pub fn relaunch_predecessor(args: &[String]) -> (r: Option<u32>)
    ensures
        r == predecessor_in(texts(args@)),
{
    let ghost all = texts(args@);
    assert(all.skip(0) =~= all);
    for i in 0..args.len()
        invariant
            all == texts(args@),
            predecessor_in(all) == predecessor_in(all.skip(i as int)),
    {
        let ghost rest = all.skip(i as int);
        assert(rest.first() == args@[i as int]@);
        assert(rest.drop_first() =~= all.skip(i + 1));
        match strip_prefix(args[i].as_str(), RELAUNCH_ARG) {
            Some(value) => match parse_u32(value.as_str()) {
                Some(pid) => {
                    return Some(pid);
                },
                None => {},
            },
            None => {},
        }
    }
    None
}

/// Whether the app starts without showing its window.
pub fn starts_hidden(args: &[String]) -> (r: bool)
    ensures
        r == texts(args@).contains(HIDDEN_ARG@),
{
    let ghost all = texts(args@);
    for i in 0..args.len()
        invariant
            all == texts(args@),
            forall|j: int| 0 <= j < i ==> all[j] != HIDDEN_ARG@,
    {
        assert(all[i as int] == args@[i as int]@);
        if str_eq(args[i].as_str(), HIDDEN_ARG) {
            return true;
        }
    }
    false
}

/// Whether the variable `WA_LITE_DEVTOOLS` asks for the developer tools.
pub fn wants_devtools(variable: Option<&str>) -> (r: bool)
    ensures
        r == (variable is Some && variable->0@ == "1"@),
{
    match variable {
        Some(value) => str_eq(value, "1"),
        None => false,
    }
}

/// Whether a request to end is refused. The app lives in the tray: the loss of
/// its last window, which comes without a code, does not end it.
pub fn prevents_exit(code: Option<i32>) -> (r: bool)
    ensures
        r == (code is None),
{
    code.is_none()
}

/// The argument that one process makes is the one that its successor reads, with
/// whatever other arguments before it name no process.
pub proof fn law_successor_finds_its_predecessor(
    before: Seq<Seq<char>>,
    pid: u32,
    after: Seq<Seq<char>>,
)
    requires
        forall|i: int| 0 <= i < before.len() ==> named_process(#[trigger] before[i]) is None,
    ensures
        predecessor_in(before.push(argument_for(pid)) + after) == Some(pid),
    decreases before.len(),
{
    let args = before.push(argument_for(pid)) + after;
    if before.len() == 0 {
        let arg = argument_for(pid);
        let digits = decimal(pid as nat);
        assert(args.first() == arg);
        assert(arg.take(RELAUNCH_ARG@.len() as int) =~= RELAUNCH_ARG@);
        assert(arg.skip(RELAUNCH_ARG@.len() as int) =~= digits);
        law_decimal_reads_back(pid as nat);
        assert(is_ascii_digit(digits[0]));
    } else {
        assert(args.first() == before[0]);
        let rest = before.drop_first();
        assert forall|i: int| 0 <= i < rest.len() implies named_process(
            #[trigger] rest[i],
        ) is None by {
            assert(rest[i] == before[i + 1]);
        }
        law_successor_finds_its_predecessor(rest, pid, after);
        assert(args.drop_first() =~= rest.push(argument_for(pid)) + after);
    }
}

/// The arguments that one process hands to another, by their letters.
pub proof fn law_arguments_of_the_app(pid: u32)
    ensures
        argument_for(pid) == "--relaunch-after="@ + decimal(pid as nat),
        RELAUNCH_ARG@ == "--relaunch-after="@,
        HIDDEN_ARG@ == "--hidden"@,
        PREDECESSOR_WAIT_MS == 10_000,
{
}

/// An argument names the process whose number stands behind the sign; without the
/// sign, or without a number behind it, it names none.
pub proof fn law_argument_names_its_number(value: Seq<char>, arg: Seq<char>)
    ensures
        named_process("--relaunch-after="@ + value) == parsed_u32(value),
        (forall|rest: Seq<char>| arg != #[trigger] ("--relaunch-after="@ + rest)) ==> named_process(
            arg,
        ) is None,
{
    law_prefix_comes_off(arg, "--relaunch-after="@, value);
    if stripped_prefix(arg, "--relaunch-after="@) is Some {
        let rest = stripped_prefix(arg, "--relaunch-after="@)->0;
        assert(arg == "--relaunch-after="@ + rest);
    }
}

/// The first argument that names a process decides, whatever comes before and behind
/// it; where none names one there is none to wait for.
pub proof fn law_first_named_process_counts(
    before: Seq<Seq<char>>,
    arg: Seq<char>,
    after: Seq<Seq<char>>,
)
    requires
        forall|i: int| 0 <= i < before.len() ==> named_process(#[trigger] before[i]) is None,
    ensures
        predecessor_in(before) is None,
        named_process(arg) is Some ==> predecessor_in(before.push(arg) + after) == named_process(
            arg,
        ),
    decreases before.len(),
{
    let args = before.push(arg) + after;
    if before.len() == 0 {
        assert(args.first() == arg);
    } else {
        assert(args.first() == before[0]);
        assert(named_process(before[0]) is None);
        let rest = before.drop_first();
        assert forall|i: int| 0 <= i < rest.len() implies named_process(
            #[trigger] rest[i],
        ) is None by {
            assert(rest[i] == before[i + 1]);
        }
        law_first_named_process_counts(rest, arg, after);
        assert(args.drop_first() =~= rest.push(arg) + after);
    }
}

} // verus!
