//! Splitting a command line into words, and the command that the words make.

use vstd::prelude::*;

verus! {

/// The error of `shell_words::split`; nothing is read from it.
#[verifier::external_type_specification]
#[verifier::external_body]
pub struct ExParseError(shell_words::ParseError);

/// The words that `shell_words::split` finds in `text` by the rules of the
/// Unix shell, or `None` where it fails on `text`.
pub uninterp spec fn split_words(text: Seq<char>) -> Option<Seq<Seq<char>>>;

/// `shell_words::split` returns the words it finds in `s`, or its error. What
/// it returns depends on `s` alone; the rules by which it splits are not
/// stated here.
pub assume_specification[ shell_words::split ](s: &str) -> (r: Result<
    Vec<String>,
    shell_words::ParseError,
>)
    ensures
        match r {
            Ok(words) => split_words(s@) == Some(word_views(words@)),
            Err(_) => split_words(s@) is None,
        },
;

/// The texts of a list of words.
pub open spec fn word_views(words: Seq<String>) -> Seq<Seq<char>> {
    Seq::new(words.len(), |i: int| words[i]@)
}

/// Why a template with its arguments substituted gives no command.
#[derive(Clone, Copy, Debug, PartialEq, Eq)]
pub enum TemplateParseError {
    /// The text cannot be split into words: a quote in it is not closed.
    Untokenizable,
    /// The text holds no word, so there is no program to run.
    NoProgram,
}

/// Splits `text` into words as a Unix shell does, without any expansion.
pub fn tokenize(text: &str) -> (r: Result<Vec<String>, TemplateParseError>)
    ensures
        match r {
            Ok(words) => split_words(text@) == Some(word_views(words@)),
            Err(e) => split_words(text@) is None && e == TemplateParseError::Untokenizable,
        },
{
    match shell_words::split(text) {
        Ok(words) => Ok(words),
        Err(_) => Err(TemplateParseError::Untokenizable),
    }
}

/// A command to run: the program's name, then its arguments. It always holds
/// the program's name.
#[derive(Debug, PartialEq, Eq)]
pub struct ResolvedCommand {
    tokens: Vec<String>,
}

impl View for ResolvedCommand {
    type V = Seq<Seq<char>>;

    closed spec fn view(&self) -> Seq<Seq<char>> {
        word_views(self.tokens@)
    }
}

impl ResolvedCommand {
    #[verifier::type_invariant]
    spec fn has_program(&self) -> bool {
        self.tokens@.len() > 0
    }

    /// The command made of `tokens`, or `None` where there is no token.
    pub fn new(tokens: Vec<String>) -> (r: Option<ResolvedCommand>)
        ensures
            match r {
                Some(command) => tokens@.len() > 0 && command@ == word_views(tokens@),
                None => tokens@.len() == 0,
            },
    {
        if tokens.len() == 0 {
            None
        } else {
            Some(ResolvedCommand { tokens })
        }
    }

    /// The program's name: the first token.
    pub fn program(&self) -> (name: &String)
        ensures
            self@.len() > 0,
            name@ == self@[0],
    {
        proof {
            use_type_invariant(self);
        }
        &self.tokens[0]
    }

    /// The arguments of the program: the tokens after the first, in order.
    pub fn arguments(&self) -> (rest: Vec<String>)
        ensures
            word_views(rest@) == self@.skip(1),
    {
        proof {
            use_type_invariant(self);
        }
        let mut rest: Vec<String> = Vec::new();
        let mut i: usize = 1;
        while i < self.tokens.len()
            invariant
                1 <= i <= self.tokens.len(),
                rest@.len() == i - 1,
                forall|k: int| 0 <= k < rest@.len() ==> rest@[k]@ == self.tokens@[k + 1]@,
            decreases self.tokens.len() - i,
        {
            rest.push(self.tokens[i].clone());
            i += 1;
        }
        assert(word_views(rest@) =~= self@.skip(1));
        rest
    }

    /// All tokens: the program's name, then its arguments.
    pub fn tokens(&self) -> (all: &Vec<String>)
        ensures
            all@.len() > 0,
            word_views(all@) == self@,
    {
        proof {
            use_type_invariant(self);
        }
        &self.tokens
    }
}

} // verus!
