//! The arguments of a spawned agent, and how much history it inherits.

use crate::state::optional_text;
use crate::text::decimal;
use crate::text::decimal_is_read_back;
use crate::text::digits_value;
use crate::text::is_digit;
use vstd::prelude::*;
use vstd::string::*;

verus! {

/// The arguments that an agent is spawned with.
#[derive(Debug, PartialEq, Eq)]
pub struct SpawnAgentArgs {
    pub message: String,
    pub task_name: String,
    pub agent_type: Option<String>,
    pub model: Option<String>,
    pub reasoning_effort: Option<String>,
    /// How much history the agent inherits: `none`, `all` or a number of turns.
    pub fork_turns: Option<String>,
    pub fork_context: Option<bool>,
}

/// How much of the history of its parent an agent inherits.
#[derive(Clone, Copy, Debug, PartialEq, Eq, Structural)]
pub enum SpawnAgentForkMode {
    /// All of it.
    FullHistory,
    /// The last turns, this many.
    LastNTurns(usize),
}

/// A `fork_turns` that is none of `none`, `all` and a positive number.
#[derive(Debug, PartialEq, Eq)]
pub struct InvalidForkTurns {
    pub fork_turns: String,
}

/// The number of turns that a text stands for: a positive number in decimal digits
/// that the machine can hold.
pub open spec fn turns(text: Seq<char>) -> Option<usize> {
    if (forall|i: int| 0 <= i < text.len() ==> is_digit(#[trigger] text[i])) && 1 <= digits_value(
        text,
    ) <= usize::MAX {
        Some(digits_value(text) as usize)
    } else {
        None
    }
}

/// The history that `fork_turns` asks for. Without it, nothing is inherited.
pub open spec fn requested_history(fork_turns: Option<Seq<char>>) -> Result<
    Option<SpawnAgentForkMode>,
    Seq<char>,
> {
    match fork_turns {
        None => Ok(None),
        Some(text) => if text == "none"@ {
            Ok(None)
        } else if text == "all"@ {
            Ok(Some(SpawnAgentForkMode::FullHistory))
        } else {
            match turns(text) {
                Some(n) => Ok(Some(SpawnAgentForkMode::LastNTurns(n))),
                None => Err(text),
            }
        },
    }
}

/// The arguments of a worker with a bounded task.
pub fn args(fork_turns: Option<&str>) -> (args: SpawnAgentArgs)
    ensures
        args.message@ == "bounded task"@,
        args.task_name@ == "worker"@,
        args.agent_type is None,
        args.model is None,
        args.reasoning_effort is None,
        optional_text(args.fork_turns) == match fork_turns {
            Some(text) => Some(text@),
            None => None,
        },
        args.fork_context is None,
{
    SpawnAgentArgs {
        message: "bounded task".to_owned(),
        task_name: "worker".to_owned(),
        agent_type: None,
        model: None,
        reasoning_effort: None,
        fork_turns: match fork_turns {
            Some(text) => Some(text.to_owned()),
            None => None,
        },
        fork_context: None,
    }
}

/// The first digits of a number stand for no more than the whole number.
proof fn prefix_value(digits: Seq<char>, count: int)
    requires
        0 <= count <= digits.len(),
    ensures
        digits_value(digits.take(count)) <= digits_value(digits),
    decreases digits.len() - count,
{
    if count < digits.len() {
        let next = digits.take(count + 1);
        assert(next.drop_last() =~= digits.take(count));
        prefix_value(digits, count + 1);
    } else {
        assert(digits.take(count) =~= digits);
    }
}

/// Reads a positive number of turns.
fn parse_turns(text: &str) -> (n: Option<usize>)
    ensures
        n == turns(text@),
{
    let mut value: usize = 0;
    let mut i: usize = 0;
    let length = text.unicode_len();
    assert(text@.take(0) =~= Seq::<char>::empty());
    while i < length
        invariant
            length == text@.len(),
            i <= length,
            value == digits_value(text@.take(i as int)),
            forall|k: int| 0 <= k < i ==> is_digit(#[trigger] text@[k]),
        decreases length - i,
    {
        let c = text.get_char(i);
        if !('0' <= c && c <= '9') {
            assert(!is_digit(text@[i as int]));
            return None;
        }
        let d: usize = (c as u32 - '0' as u32) as usize;
        proof {
            let next = text@.take(i + 1);
            assert(next.drop_last() =~= text@.take(i as int));
            assert(digits_value(next) == 10 * value + d);
            prefix_value(text@, i + 1);
        }
        match value.checked_mul(10) {
            None => return None,
            Some(tens) => match tens.checked_add(d) {
                None => return None,
                Some(sum) => {
                    value = sum;
                },
            },
        }
        i = i + 1;
    }
    assert(text@.take(i as int) =~= text@);
    if value == 0 {
        None
    } else {
        Some(value)
    }
}

impl SpawnAgentArgs {
    /// The history that the agent inherits. It has to be asked for: without
    /// `fork_turns` it is none.
    ///
    /// Only `fork_turns` decides; `fork_context` is not read. A number of turns is
    /// written in decimal digits alone and is positive, and the words are written in
    /// lower case: `"0"`, `""`, `" 3"`, `"+3"` and `"NONE"` are refused.
    pub fn fork_mode(&self) -> (mode: Result<Option<SpawnAgentForkMode>, InvalidForkTurns>)
        ensures
            match mode {
                Ok(mode) => requested_history(optional_text(self.fork_turns)) == Ok::<
                    Option<SpawnAgentForkMode>,
                    Seq<char>,
                >(mode),
                Err(error) => requested_history(optional_text(self.fork_turns)) == Err::<
                    Option<SpawnAgentForkMode>,
                    Seq<char>,
                >(error.fork_turns@),
            },
    {
        match &self.fork_turns {
            None => Ok(None),
            Some(text) => {
                if *text == "none".to_owned() {
                    Ok(None)
                } else if *text == "all".to_owned() {
                    Ok(Some(SpawnAgentForkMode::FullHistory))
                } else {
                    match parse_turns(text.as_str()) {
                        Some(n) => Ok(Some(SpawnAgentForkMode::LastNTurns(n))),
                        None => Err(InvalidForkTurns { fork_turns: text.clone() }),
                    }
                }
            },
        }
    }
}

/// History is inherited only where it is asked for: all of it for `all` alone, the
/// last turns for their number alone.
pub proof fn law_history_is_inherited_only_on_request(fork_turns: Option<Seq<char>>)
    ensures
        requested_history(fork_turns) == Ok::<Option<SpawnAgentForkMode>, Seq<char>>(
            Some(SpawnAgentForkMode::FullHistory),
        ) <==> fork_turns == Some("all"@),
        forall|n: usize| #[trigger]
            requested_history(fork_turns) == Ok::<Option<SpawnAgentForkMode>, Seq<char>>(
                Some(SpawnAgentForkMode::LastNTurns(n)),
            ) ==> fork_turns is Some && turns(fork_turns->0) == Some(n) && n >= 1,
        requested_history(fork_turns) == Ok::<Option<SpawnAgentForkMode>, Seq<char>>(None)
            <==> fork_turns is None || fork_turns == Some("none"@),
{
    reveal_strlit("none");
    reveal_strlit("all");
    assert("none"@.len() != "all"@.len());
}

/// A number of turns that is written in decimal notation is read back as it is.
pub proof fn law_number_of_turns_is_read_back(n: usize)
    requires
        n >= 1,
    ensures
        requested_history(Some(decimal(n as nat))) == Ok::<Option<SpawnAgentForkMode>, Seq<char>>(
            Some(SpawnAgentForkMode::LastNTurns(n)),
        ),
{
    decimal_is_read_back(n as nat);
    let text = decimal(n as nat);
    assert(is_digit(text[0]));
    reveal_strlit("none");
    reveal_strlit("all");
    assert("none"@[0] == 'n');
    assert("all"@[0] == 'a');
}

/// A number of turns is what the digits show. A text in which every character is a
/// decimal digit, and whose positional value is positive and can be held, asks for just
/// that many turns; every other text but `none` and `all` is refused as it stands.
pub proof fn law_turns_are_what_the_digits_show(text: Seq<char>)
    requires
        text != "none"@,
        text != "all"@,
    ensures
        ({
            let shown = (forall|i: int|
                0 <= i < text.len() ==> '0' <= (#[trigger] text[i]) && text[i] <= '9') && 1
                <= digits_value(text) <= usize::MAX;
            &&& shown ==> requested_history(Some(text)) == Ok::<
                Option<SpawnAgentForkMode>,
                Seq<char>,
            >(Some(SpawnAgentForkMode::LastNTurns(digits_value(text) as usize)))
            &&& !shown ==> requested_history(Some(text)) == Err::<
                Option<SpawnAgentForkMode>,
                Seq<char>,
            >(text)
        }),
{
    assert forall|i: int| 0 <= i < text.len() implies is_digit(#[trigger] text[i]) == ('0'
        <= text[i] && text[i] <= '9') by {}
}

/// One more digit asks for ten times as many turns and as many more as the digit shows.
pub proof fn law_one_more_digit_is_ten_times_as_many_turns(text: Seq<char>, n: usize, c: char)
    requires
        requested_history(Some(text)) == Ok::<Option<SpawnAgentForkMode>, Seq<char>>(
            Some(SpawnAgentForkMode::LastNTurns(n)),
        ),
        48 <= c as nat <= 57,
        10 * n + (c as nat - 48) <= usize::MAX,
    ensures
        requested_history(Some(text.push(c))) == Ok::<Option<SpawnAgentForkMode>, Seq<char>>(
            Some(SpawnAgentForkMode::LastNTurns((10 * n + (c as nat - 48)) as usize)),
        ),
{
    let longer = text.push(c);
    assert(longer.drop_last() =~= text);
    assert forall|i: int| 0 <= i < longer.len() implies is_digit(#[trigger] longer[i]) by {
        if i < text.len() {
            assert(is_digit(text[i]));
        }
    }
    reveal_strlit("none");
    reveal_strlit("all");
    assert(is_digit(longer[0]));
    assert("none"@[0] == 'n');
    assert("all"@[0] == 'a');
}

/// One digit asks for as many turns as it shows, if any.
pub proof fn law_one_digit_asks_for_as_many_turns(c: char)
    requires
        49 <= c as nat <= 57,
    ensures
        requested_history(Some(seq![c])) == Ok::<Option<SpawnAgentForkMode>, Seq<char>>(
            Some(SpawnAgentForkMode::LastNTurns((c as nat - 48) as usize)),
        ),
{
    let text = seq![c];
    assert(text.drop_last() =~= Seq::<char>::empty());
    reveal_with_fuel(digits_value, 2);
    reveal_strlit("none");
    reveal_strlit("all");
    assert("none"@.len() == 4);
    assert("all"@.len() == 3);
}

} // verus!
