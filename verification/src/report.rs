//! The words in which a run that failed says why.
use vstd::prelude::*;
use vstd::string::StringExecFns;
use crate::machine::Fault;

verus! {

/// The character for the decimal digit `d`.
pub open spec fn digit(d: nat) -> char
    recommends
        d < 10,
{
    (48 + d) as char
}

/// The decimal numeral of `n`, most significant digit first, without leading
/// zeros.
pub open spec fn decimal(n: nat) -> Seq<char>
    decreases n,
{
    if n < 10 {
        seq![digit(n)]
    } else {
        decimal(n / 10).push(digit(n % 10))
    }
}

/// The message for `fault`, in a run under `budget`. Only the message for
/// the step limit names the budget.
pub open spec fn message(fault: Fault, budget: nat) -> Seq<char> {
    match fault {
        Fault::UnmatchedOpen => "A matching \"]\" could not be found."@,
        Fault::UnmatchedClose => "A matching \"[\" could not be found."@,
        Fault::StepLimit => "Exceeded maximum steps ("@ + decimal(budget)
            + "), the program may be stuck in a loop."@,
    }
}

/// A verdict as the caller gets it: the output as it is, a fault as its
/// message.
pub open spec fn reported(verdict: Result<Seq<char>, Fault>, budget: nat) -> Result<
    Seq<char>,
    Seq<char>,
> {
    match verdict {
        Ok(printed) => Ok(printed),
        Err(fault) => Err(message(fault, budget)),
    }
}

/// The characters of a result of strings.
pub open spec fn shown(result: Result<String, String>) -> Result<Seq<char>, Seq<char>> {
    match result {
        Ok(printed) => Ok(printed@),
        Err(words) => Err(words@),
    }
}

/// The message for a `[` without a partner.
pub fn unmatched_open_message() -> (words: String)
    ensures
        forall|budget: nat| words@ == #[trigger] message(Fault::UnmatchedOpen, budget),
{
    "A matching \"]\" could not be found.".to_owned()
}

/// The message for a `]` without a partner.
pub fn unmatched_close_message() -> (words: String)
    ensures
        forall|budget: nat| words@ == #[trigger] message(Fault::UnmatchedClose, budget),
{
    "A matching \"[\" could not be found.".to_owned()
}

/// The decimal numeral of `n`.
pub fn numeral(n: usize) -> (text: String)
    ensures
        text@ == decimal(n as nat),
    decreases n,
{
    let last: char = (48 + (n % 10) as u8) as char;
    if n < 10 {
        String::from(last)
    } else {
        let mut text = numeral(n / 10);
        text.append(String::from(last).as_str());
        text
    }
}

/// The message for a run that spent its budget of `budget` instructions.
pub fn step_limit_message(budget: usize) -> (words: String)
    ensures
        words@ == message(Fault::StepLimit, budget as nat),
{
    let mut words = "Exceeded maximum steps (".to_owned();
    words.append(numeral(budget).as_str());
    words.append("), the program may be stuck in a loop.");
    words
}

} // verus!
