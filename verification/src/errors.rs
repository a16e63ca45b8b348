//! The ways a run can fail.

use vstd::prelude::*;
use vstd::string::StringExecFns;

verus! {

/// A failure that ends a run. Where a variant has two fields, the first is
/// the path or pattern and the second the cause.
#[derive(Debug, Clone)]
pub enum LintError {
    ConfigRead(String, String),
    ConfigParse(String, String),
    /// A model that is not supported, and the names of those that are.
    UnsupportedModel(String, Vec<String>),
    UnknownEncoding(String),
    Tokenizer(String),
    GlobPattern(String, String),
    GlobIteration(String),
    FileRead(String, String),
}

/// `head`, then `a` in single quotes, then a colon, a space and `b`.
pub open spec fn quoted_message(head: Seq<char>, a: Seq<char>, b: Seq<char>) -> Seq<char> {
    head + "'"@ + a + "': "@ + b
}

impl LintError {
    /// The text of this error.
    pub open spec fn spec_message(self) -> Seq<char> {
        match self {
            LintError::ConfigRead(p, e) => quoted_message("failed to read config file "@, p@, e@),
            LintError::ConfigParse(p, e) => quoted_message(
                "failed to parse config file "@,
                p@,
                e@,
            ),
            LintError::UnsupportedModel(m, names) => "unsupported model '"@ + m@
                + "' (supported: "@ + crate::text::join(
                names@.map_values(|n: String| n@),
                ", "@,
            ) + ")"@,
            LintError::UnknownEncoding(n) => "unknown encoding: "@ + n@,
            LintError::Tokenizer(e) => "tokenizer error: "@ + e@,
            LintError::GlobPattern(p, e) => quoted_message("invalid glob pattern "@, p@, e@),
            LintError::GlobIteration(e) => "glob iteration error: "@ + e@,
            LintError::FileRead(p, e) => quoted_message("failed to read file "@, p@, e@),
        }
    }

    /// The text of this error.
    pub fn message(&self) -> (s: String)
        ensures
            s@ == self.spec_message(),
    {
        match self {
            LintError::ConfigRead(p, e) => quote("failed to read config file ", p, e),
            LintError::ConfigParse(p, e) => quote("failed to parse config file ", p, e),
            LintError::UnsupportedModel(m, names) => {
                let mut s = "unsupported model '".to_string();
                s.append(m.as_str());
                s.append("' (supported: ");
                let list = crate::text::join_strings(names, ", ");
                s.append(list.as_str());
                s.append(")");
                s
            },
            LintError::UnknownEncoding(n) => "unknown encoding: ".to_string().concat(n.as_str()),
            LintError::Tokenizer(e) => "tokenizer error: ".to_string().concat(e.as_str()),
            LintError::GlobPattern(p, e) => quote("invalid glob pattern ", p, e),
            LintError::GlobIteration(e) => "glob iteration error: ".to_string().concat(
                e.as_str(),
            ),
            LintError::FileRead(p, e) => quote("failed to read file ", p, e),
        }
    }
}

fn quote(head: &str, a: &String, b: &String) -> (s: String)
    ensures
        s@ == quoted_message(head@, a@, b@),
{
    let mut s = head.to_string();
    s.append("'");
    s.append(a.as_str());
    s.append("': ");
    s.append(b.as_str());
    s
}

} // verus!
