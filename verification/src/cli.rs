//! The command line: where the text to check comes from, and whether it is
//! divided into sentences.
use vstd::prelude::*;
use crate::patterns::regex_compiles;
use crate::sentences::{sentences_of, ABBREV_PATTERN, NUM_PATTERN, SPLIT_PATTERN};

pub use crate::sentences::split_sentences;

verus! {

broadcast use vstd::string::group_string_axioms;

/// The command-line options.
#[derive(Debug)]
pub struct Cli {
    pub file: Option<String>,
    pub divide: bool,
    pub input: Option<String>,
}

/// The text to check: whole, or divided into sentences.
#[derive(Debug)]
pub enum Input {
    Raw(String),
    Divided(Vec<String>),
}

/// Why no text to check could be had.
#[derive(Debug)]
pub enum InputError {
    /// Neither a file nor a text was given.
    MissingInput,
    /// The sentence patterns could not be compiled.
    Splitter(regex::Error),
}

/// The text to check when `self.file` names a file.
pub open spec fn content_of(cli: Cli, file_content: Option<Seq<char>>) -> Option<Seq<char>> {
    match file_content {
        Some(c) => Some(c),
        None => match cli.input {
            Some(i) => Some(i@),
            None => None,
        },
    }
}

/// Which text is checked depends neither on `--divide` nor on the file's
/// name: it is the file's content whenever some was read, else the raw
/// input, and there is none only where neither was given.
pub proof fn law_checked_text_ignores_divide(
    cli: Cli,
    divide: bool,
    file: Option<String>,
    file_content: Option<Seq<char>>,
)
    ensures
        content_of(cli, file_content) == content_of((Cli { file, divide, input: cli.input }), file_content),
        file_content matches Some(c) ==> content_of(cli, file_content) == Some(c),
        cli.input matches Some(i) ==> content_of(cli, file_content) is Some && (file_content is None
            ==> content_of(cli, file_content) == Some(i@)),
        content_of(cli, file_content) is None <==> file_content is None && cli.input is None,
{
}

impl Cli {
    /// The text to check: `file_content`, which holds what was read from
    /// `self.file` where it names a file, else the raw input; divided into
    /// sentences where `self.divide` is set.
    pub fn resolve_input(&self, file_content: Option<String>) -> (r: Result<Input, InputError>)
        ensures
            match (r, content_of(*self, match file_content { Some(c) => Some(c@), None => None })) {
                (Err(InputError::MissingInput), None) => true,
                (Ok(Input::Raw(t)), Some(c)) => !self.divide && t@ == c,
                (Ok(Input::Divided(parts)), Some(c)) => self.divide && parts@.map_values(|x: String| x@)
                    == sentences_of(c),
                (Err(InputError::Splitter(_)), Some(c)) => self.divide && !(regex_compiles(ABBREV_PATTERN@)
                    && regex_compiles(NUM_PATTERN@) && regex_compiles(SPLIT_PATTERN@)),
                _ => false,
            },
    {
        let content = match file_content {
            Some(c) => c,
            None => match &self.input {
                Some(i) => i.clone(),
                None => return Err(InputError::MissingInput),
            },
        };
        if self.divide {
            match split_sentences(content.as_str()) {
                Ok(parts) => Ok(Input::Divided(parts)),
                Err(e) => Err(InputError::Splitter(e)),
            }
        } else {
            Ok(Input::Raw(content))
        }
    }
}

/// `regex::Error`'s `Display`; what it shows depends on the error, and
/// nothing is claimed of it.
#[verifier::external_body]
fn regex_error_text(error: &regex::Error) -> String {
    error.to_string()
}

impl InputError {
    /// What the error shows.
    pub fn message(&self) -> (r: String)
        ensures
            self is MissingInput ==> r@ == "missing input text"@,
    {
        match self {
            InputError::MissingInput => "missing input text".to_string(),
            InputError::Splitter(e) => regex_error_text(e),
        }
    }
}

} // verus!
