use vstd::prelude::*;

verus! {

/// Argument flags that select the processing mode and rendering options.
///
/// The fields correspond to the switches `--count`, `--line-number`,
/// `--color`, `--ignore-case`, `--invert-match`, `--after-context`,
/// `--before-context` and `--context`.
#[derive(Clone, Copy, Debug)]
pub struct Flags {
    pub count: bool,
    pub line_number: bool,
    pub colorize: bool,
    pub ignore_case: bool,
    pub invert_match: bool,
    pub after_context: bool,
    pub before_context: bool,
    pub context: bool,
}

impl Flags {
    /// The value with every switch off.
    pub open spec fn all_off() -> Flags {
        Flags {
            count: false,
            line_number: false,
            colorize: false,
            ignore_case: false,
            invert_match: false,
            after_context: false,
            before_context: false,
            context: false,
        }
    }

    /// Returns the flag set with every switch off.
    pub fn new() -> (r: Self)
        ensures
            r == Flags::all_off(),
    {
        Flags::default()
    }
}

impl Default for Flags {
    fn default() -> (r: Self)
        ensures
            r == Flags::all_off(),
    {
        Flags {
            count: false,
            line_number: false,
            colorize: false,
            ignore_case: false,
            invert_match: false,
            after_context: false,
            before_context: false,
            context: false,
        }
    }
}

} // verus!
