//! Languages the analyzer understands, and parsing source text with tree-sitter.

use vstd::prelude::*;
use crate::paths::extension;
use crate::text::{chars_of, eq_str};

verus! {

#[derive(Debug, Clone, Copy, PartialEq, Eq, Structural, Hash)]
pub enum Language {
    Rust,
    Python,
    TypeScript,
    TypeScriptTsx,
    CSharp,
    Java,
}

/// The language a file extension names.
pub open spec fn language_of_extension(ext: Seq<char>) -> Option<Language> {
    if ext == "rs"@ {
        Some(Language::Rust)
    } else if ext == "py"@ {
        Some(Language::Python)
    } else if ext == "ts"@ {
        Some(Language::TypeScript)
    } else if ext == "tsx"@ {
        Some(Language::TypeScriptTsx)
    } else if ext == "cs"@ {
        Some(Language::CSharp)
    } else if ext == "java"@ {
        Some(Language::Java)
    } else {
        None
    }
}

pub open spec fn language_name(l: Language) -> Seq<char> {
    match l {
        Language::Rust => "rust"@,
        Language::Python => "python"@,
        Language::TypeScript => "typescript"@,
        Language::TypeScriptTsx => "tsx"@,
        Language::CSharp => "csharp"@,
        Language::Java => "java"@,
    }
}

impl Language {
    pub fn from_extension(ext: &str) -> (r: Option<Language>)
        ensures
            r == language_of_extension(ext@),
    {
        let e = chars_of(ext);
        if eq_str(&e, "rs") {
            Some(Language::Rust)
        } else if eq_str(&e, "py") {
            Some(Language::Python)
        } else if eq_str(&e, "ts") {
            Some(Language::TypeScript)
        } else if eq_str(&e, "tsx") {
            Some(Language::TypeScriptTsx)
        } else if eq_str(&e, "cs") {
            Some(Language::CSharp)
        } else if eq_str(&e, "java") {
            Some(Language::Java)
        } else {
            None
        }
    }

    /// The language of a file, by the extension of its name.
    pub fn from_path(path: &str) -> (r: Option<Language>)
        ensures
            r == match extension(path@) {
                Some(e) => language_of_extension(e),
                None => None,
            },
    {
        let p = chars_of(path);
        match crate::paths::extension_exec(&p) {
            Some(e) => {
                let s = crate::unicode::string_of(&e);
                Language::from_extension(s.as_str())
            },
            None => None,
        }
    }

    pub fn name(self) -> (r: &'static str)
        ensures
            r@ == language_name(self),
    {
        match self {
            Language::Rust => "rust",
            Language::Python => "python",
            Language::TypeScript => "typescript",
            Language::TypeScriptTsx => "tsx",
            Language::CSharp => "csharp",
            Language::Java => "java",
        }
    }
}

} // verus!
