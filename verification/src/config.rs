//! The editor's configuration: a theme, the languages it knows and the
//! terminal it starts.

use vstd::prelude::*;

verus! {

/// How a language indents.
#[derive(Debug, Clone)]
pub struct IndentConfig {
    pub width: i32,
    pub unit: String,
}

/// A language that the editor knows: its name, the file name endings that
/// it claims, and how to comment, analyse, indent and run it.
#[derive(Debug, Clone)]
pub struct Language {
    pub name: String,
    pub types: Vec<String>,
    pub comment: String,
    pub lsp: Option<Vec<String>>,
    pub indent: IndentConfig,
    pub executable: Option<bool>,
    pub exec_command: Option<String>,
    pub exectest: Option<String>,
}

/// The command that a terminal runs.
#[derive(Debug, Clone)]
pub struct Terminal {
    pub command: String,
}

/// The configuration as a whole.
#[derive(Debug, Clone)]
pub struct Config {
    pub theme: String,
    pub language: Vec<Language>,
    pub terminal: Option<Terminal>,
}

impl Config {
    /// The configuration of an editor that was given none: the theme
    /// `default`, no language and no terminal.
    pub fn default() -> (r: Config)
        ensures
            r.theme@ == "default"@,
            r.language@.len() == 0,
            r.terminal is None,
    {
        Config { theme: "default".to_string(), language: Vec::new(), terminal: None }
    }
}

} // verus!
