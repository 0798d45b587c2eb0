//! What an operator's answer to a menu means.
//!
//! Showing the menu and reading the answer are the caller's; the caller asks
//! again for as long as the answer is not a choice.

use vstd::prelude::*;
use vstd::string::StrSliceExecFns;
use crate::text::parse_usize;
use crate::text::parsed_usize;
use crate::text::trim;
use crate::text::trimmed;

verus! {

/// What a line that the operator entered at a menu amounts to.
#[derive(Clone, Copy, Debug, PartialEq, Eq)]
pub enum MenuAnswer {
    /// The operator chose the option with this index, counted from zero.
    Chosen(usize),
    /// The line is no number: the menu is to be shown again.
    Unparsable,
    /// The number names no option: the menu is to be shown again.
    OutOfBounds,
}

/// The meaning of a line entered at a menu of `option_count` options, which
/// are shown numbered from one. An empty line stands for the default where
/// there is one; otherwise the line has to hold the number of an option.
pub open spec fn menu_answer(input: Seq<char>, option_count: usize, default: Option<usize>)
    -> MenuAnswer {
    let choice = trimmed(input);
    if choice.len() == 0 && default is Some {
        MenuAnswer::Chosen(default->Some_0)
    } else {
        match parsed_usize(choice) {
            None => MenuAnswer::Unparsable,
            Some(number) => if number == 0 || number > option_count {
                MenuAnswer::OutOfBounds
            } else {
                MenuAnswer::Chosen((number - 1) as usize)
            },
        }
    }
}

/// Reads the operator's choice out of the line entered at a menu.
pub fn menu(input: &str, option_count: usize, default: Option<usize>) -> (answer: MenuAnswer)
    ensures
        answer == menu_answer(input@, option_count, default),
{
    let choice = trim(input);
    if choice.unicode_len() == 0 && default.is_some() {
        return MenuAnswer::Chosen(default.unwrap());
    }
    match parse_usize(choice) {
        None => MenuAnswer::Unparsable,
        Some(number) => {
            if number == 0 || number > option_count {
                MenuAnswer::OutOfBounds
            } else {
                MenuAnswer::Chosen(number - 1)
            }
        },
    }
}

/// A choice that a menu hands out without a default names one of its
/// options.
pub proof fn lemma_menu_choice_in_bounds(input: Seq<char>, option_count: usize)
    ensures
        menu_answer(input, option_count, None) matches MenuAnswer::Chosen(index) ==> index
            < option_count,
{
}

} // verus!
