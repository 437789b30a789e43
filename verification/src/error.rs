use vstd::prelude::*;

verus! {

/// The errors that the workspace operations report.
///
/// Variants that carry an underlying cause (`IoSource`, `Parse`) hold that
/// cause as the text it displays; `Other` holds the rendered text of any
/// error kind that has no dedicated diagnostic category.
#[derive(Clone, Debug, PartialEq, Eq)]
pub enum MonochangeError {
    Io(String),
    Config(String),
    Discovery(String),
    Diagnostic(String),
    Reported { output: String, diagnostic: String },
    IoSource { path: String, source: String },
    Parse { path: String, source: String },
    Interactive { message: String },
    Cancelled,
    Other(String),
}

} // verus!
verus! {

broadcast use vstd::string::group_string_axioms;

/// The text an error reports.
pub open spec fn error_text(e: MonochangeError) -> Seq<char> {
    match e {
        MonochangeError::Io(m) => m@,
        MonochangeError::Config(m) => m@,
        MonochangeError::Discovery(m) => m@,
        MonochangeError::Diagnostic(m) => m@,
        MonochangeError::Reported { output, diagnostic } => diagnostic@,
        MonochangeError::IoSource { path, source } => source@,
        MonochangeError::Parse { path, source } => source@,
        MonochangeError::Interactive { message } => message@,
        MonochangeError::Cancelled => "the operation was cancelled"@,
        MonochangeError::Other(m) => m@,
    }
}

impl MonochangeError {
    /// The text the error reports.
    pub fn render(&self) -> (r: String)
        ensures
            r@ == error_text(*self),
    {
        match self {
            MonochangeError::Io(m) => m.clone(),
            MonochangeError::Config(m) => m.clone(),
            MonochangeError::Discovery(m) => m.clone(),
            MonochangeError::Diagnostic(m) => m.clone(),
            MonochangeError::Reported { diagnostic, .. } => diagnostic.clone(),
            MonochangeError::IoSource { source, .. } => source.clone(),
            MonochangeError::Parse { source, .. } => source.clone(),
            MonochangeError::Interactive { message } => message.clone(),
            MonochangeError::Cancelled => "the operation was cancelled".to_string(),
            MonochangeError::Other(m) => m.clone(),
        }
    }
}

} // verus!
