//! The command line: one operand, the input file.

use vstd::prelude::*;

verus! {

broadcast use vstd::string::axiom_spec_iter, vstd::string::next_postcondition;

/// What the command line asks for.
pub struct Options {
    /// The file of records to read.
    pub input_file: String,
}

/// Whether `word` is an option rather than an operand: a dash followed by at
/// least one character.
pub open spec fn is_option(word: Seq<char>) -> bool {
    word.len() >= 2 && word[0] == '-'
}

/// The options that the command-line words `args` give, the program's name
/// left out: exactly one word, which is not an option, naming the input file.
pub fn get_options(args: &Vec<String>) -> (r: Option<Options>)
    ensures
        r is Some <==> args@.len() == 1 && !is_option(args@[0]@),
        r matches Some(o) ==> o.input_file@ == args@[0]@,
{
    if args.len() != 1 {
        return None;
    }
    let word = &args[0];
    let mut chars = word.as_str().chars();
    let first = chars.next();
    let second = chars.next();
    if first == Some('-') && second.is_some() {
        None
    } else {
        Some(Options { input_file: word.clone() })
    }
}

} // verus!
