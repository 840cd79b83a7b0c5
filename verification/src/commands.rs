//! The command language that edits the options of the selected tags.
//!
//! A command is a line of words. The first is the verb, the second its
//! argument; further words are ignored.
//!
//! | verb            | argument               | effect                                  |
//! |-----------------|------------------------|-----------------------------------------|
//! | `primary_ratio` | a decimal              | sets the ratio, held to `[0.1, 0.9]`    |
//! | `gap`           | an integer of 32 bits  | sets the gap, held to `[0, 100]`        |
//! | `layout`        | `tile` or `stack`      | sets the arrangement                    |
//!
//! A number with a sign is added to the current value; one without replaces
//! it. Anything else changes nothing.

use crate::numeral::{decimal, integer_32, is_signed, read_decimal, read_integer};
use crate::options::{
    clamp_gap, clamp_ratio, Layout, LayoutOptions, GAP_MAX, RATIO_MAX, RATIO_MIN,
};
use crate::state::{State, StateView};
use crate::tags::bit_index_or_shared;
use crate::text::{chars_of, lemma_words_unfold, next_word, word_is, words, words_from};
use vstd::prelude::*;

verus! {

/// How a number changes a value.
pub enum Amount {
    /// The value becomes the number.
    Absolute(int),
    /// The number is added to the value.
    Relative(int),
}

impl Amount {
    /// The amount that `argument` asks for, where it denotes `value`.
    pub open spec fn of(argument: Seq<char>, value: int) -> Amount {
        if is_signed(argument) {
            Amount::Relative(value)
        } else {
            Amount::Absolute(value)
        }
    }

    /// The value after the change, before it is held to any bounds.
    pub open spec fn apply(self, current: int) -> int {
        match self {
            Amount::Absolute(value) => value,
            Amount::Relative(change) => current + change,
        }
    }
}

/// What a command asks for.
pub enum Command {
    /// Change the primary ratio, by an amount in millionths.
    PrimaryRatio(Amount),
    /// Change the gap, by an amount in pixels.
    Gap(Amount),
    /// Use another arrangement.
    Layout(Layout),
}

impl Command {
    /// The command that `text` spells, if it spells one.
    pub open spec fn decode(text: Seq<char>) -> Option<Command> {
        let w = words(text);
        if w.len() < 2 {
            None
        } else if w[0] == "primary_ratio"@ {
            match decimal(w[1]) {
                Some(value) => Some(Command::PrimaryRatio(Amount::of(w[1], value))),
                None => None,
            }
        } else if w[0] == "gap"@ {
            match integer_32(w[1]) {
                Some(value) => Some(Command::Gap(Amount::of(w[1], value))),
                None => None,
            }
        } else if w[0] == "layout"@ {
            if w[1] == "tile"@ {
                Some(Command::Layout(Layout::Tile))
            } else if w[1] == "stack"@ {
                Some(Command::Layout(Layout::Stack))
            } else {
                None
            }
        } else {
            None
        }
    }

    /// The options after the command. The number it changes is held to its
    /// bounds; the rest stays as it is.
    pub open spec fn apply(self, options: LayoutOptions) -> LayoutOptions {
        match self {
            Command::PrimaryRatio(amount) => LayoutOptions {
                primary_ratio: clamp_ratio(amount.apply(options.primary_ratio as int)) as u32,
                ..options
            },
            Command::Gap(amount) => LayoutOptions {
                gap: clamp_gap(amount.apply(options.gap as int)) as u32,
                ..options
            },
            Command::Layout(layout) => LayoutOptions { layout, ..options },
        }
    }
}

/// The state after the line `text` was given as a command: where it spells a
/// command, the options that the current tags select are changed by it;
/// where it spells none, nothing is changed.
pub open spec fn run(state: StateView, text: Seq<char>) -> StateView {
    match Command::decode(text) {
        Some(command) => state.with_active(
            state.current_tag,
            command.apply(state.active(state.current_tag)),
        ),
        None => state,
    }
}

/// A command leaves every number within its bounds.
pub proof fn lemma_apply_keeps_bounds(command: Command, options: LayoutOptions)
    requires
        options.wf(),
    ensures
        command.apply(options).wf(),
{
}

/// Whatever the options were, the number that a command changes lies within
/// its bounds afterwards.
pub proof fn lemma_apply_bounds_changed_number(command: Command, options: LayoutOptions)
    ensures
        command is PrimaryRatio ==> RATIO_MIN <= command.apply(options).primary_ratio <= RATIO_MAX,
        command is Gap ==> command.apply(options).gap <= GAP_MAX,
{
}

/// A line of text in a state within bounds leads to a state within bounds.
pub proof fn lemma_run_keeps_bounds(state: StateView, text: Seq<char>)
    requires
        state.wf(),
    ensures
        run(state, text).wf(),
{
    match Command::decode(text) {
        Some(command) => {
            lemma_apply_keeps_bounds(command, state.active(state.current_tag));
        },
        None => {},
    }
}

/// A line that spells no command changes nothing.
pub proof fn lemma_run_without_command(state: StateView, text: Seq<char>)
    requires
        Command::decode(text) is None,
    ensures
        run(state, text) == state,
{
}

/// `value` held to the bounds of a ratio.
fn ratio_within_bounds(value: i64) -> (ratio: u32)
    ensures
        ratio == clamp_ratio(value as int),
{
    if value < RATIO_MIN as i64 {
        RATIO_MIN
    } else if value > RATIO_MAX as i64 {
        RATIO_MAX
    } else {
        value as u32
    }
}

/// `value` held to the bounds of a gap.
fn gap_within_bounds(value: i64) -> (gap: u32)
    ensures
        gap == clamp_gap(value as int),
{
    if value < 0 {
        0
    } else if value > GAP_MAX as i64 {
        GAP_MAX
    } else {
        value as u32
    }
}

/// Carries out the line `command` on the options that the current tags of
/// `output` select.
pub fn parse(command: String, output: &mut State)
    ensures
        final(output)@ == run(old(output)@, command@),
        Command::decode(command@) is None ==> final(output)@ == old(output)@,
        old(output).wf() ==> final(output).wf(),
{
    let text = chars_of(command.as_str());
    let (verb_start, verb_end) = next_word(&text, 0);
    let (start, end) = next_word(&text, verb_end);
    let ghost verb = text@.subrange(verb_start as int, verb_end as int);
    let ghost argument = text@.subrange(start as int, end as int);
    proof {
        lemma_words_unfold(text@, 0);
        lemma_words_unfold(text@, verb_end as int);
        if old(output).wf() {
            lemma_run_keeps_bounds(old(output)@, text@);
        }
        if start < text.len() {
            assert(words(text@)[0] == verb);
            assert(words(text@)[1] == words_from(text@, verb_end as int)[0]);
            assert(words(text@)[1] == argument);
        }
    }
    if start == text.len() {
        return ;
    }
    let relative = text[start] == '+' || text[start] == '-';
    assert(relative == is_signed(argument)) by {
        assert(argument[0] == text@[start as int]);
    }
    let index = bit_index_or_shared(output.current_tag);
    if word_is(&text, verb_start, verb_end, "primary_ratio") {
        match read_decimal(&text, start, end) {
            Some(value) => {
                let current = output.options[index].primary_ratio;
                let ratio = if relative {
                    ratio_within_bounds(current as i64 + value)
                } else {
                    ratio_within_bounds(value)
                };
                output.options[index].primary_ratio = ratio;
            },
            None => {},
        }
    } else if word_is(&text, verb_start, verb_end, "gap") {
        match read_integer(&text, start, end) {
            Some(value) => {
                let current = output.options[index].gap;
                let gap = if relative {
                    gap_within_bounds(current as i64 + value as i64)
                } else {
                    gap_within_bounds(value as i64)
                };
                output.options[index].gap = gap;
            },
            None => {},
        }
    } else if word_is(&text, verb_start, verb_end, "layout") {
        if word_is(&text, start, end, "tile") {
            output.options[index].layout = Layout::Tile;
        } else if word_is(&text, start, end, "stack") {
            output.options[index].layout = Layout::Stack;
        }
    }
    assert(final(output)@.options =~= run(old(output)@, command@).options);
}

} // verus!
