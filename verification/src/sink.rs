//! The file at the end of the line: what is written to it, and when the
//! user is asked first.
//!
//! Nothing here touches a file. The host reads the target, hands its content
//! over, and carries out what comes back.

use crate::text::{chars_of, same_chars, trim, trimmed};
use vstd::prelude::*;
use vstd::string::StringExecFns;

verus! {

/// What to do with the target file once its present content is known.
#[derive(Clone, Debug, PartialEq, Eq)]
pub enum WritePlan {
    /// Write this content, replacing whatever the file holds.
    Write(String),
    /// The file holds something that would be lost: put this question to the
    /// user and write only if the answer confirms.
    Ask(String),
}

/// A [`WritePlan`] over plain sequences of characters.
pub enum WritePlanView {
    Write(Seq<char>),
    Ask(Seq<char>),
}

impl View for WritePlan {
    type V = WritePlanView;

    open spec fn view(&self) -> WritePlanView {
        match self {
            WritePlan::Write(content) => WritePlanView::Write(content@),
            WritePlan::Ask(question) => WritePlanView::Ask(question@),
        }
    }
}

/// The question put to the user before a file that is not empty is
/// overwritten.
pub open spec fn overwrite_question(path: Seq<char>) -> Seq<char> {
    path + " will be OVERWRITTEN. Are you sure? (YES)"@
}

/// The message that reports a finished write.
pub open spec fn done_text(path: Seq<char>) -> Seq<char> {
    "Done: "@ + path
}

/// The plan for writing `text` to the file at `path` that now holds
/// `existing`.
///
/// With `keep`, the text goes behind what is there, with nothing between
/// them. Without it, an empty file is written at once, and a file that holds
/// anything is overwritten only after the user has confirmed.
pub open spec fn write_plan(
    path: Seq<char>,
    text: Seq<char>,
    keep: bool,
    existing: Seq<char>,
) -> WritePlanView {
    if keep {
        WritePlanView::Write(existing + text)
    } else if existing.len() == 0 {
        WritePlanView::Write(text)
    } else {
        WritePlanView::Ask(overwrite_question(path))
    }
}

/// An answer confirms when, white space at its ends aside, it is the word
/// `YES`.
pub open spec fn confirms(answer: Seq<char>) -> bool {
    trim(answer) == "YES"@
}

/// Decides how `text` reaches the file at `filepath`, given the content
/// `existing` that the file holds now.
pub fn to_file(filepath: &str, text: &str, keep: bool, existing: &str) -> (plan: WritePlan)
    ensures
        plan@ == write_plan(filepath@, text@, keep, existing@),
{
    if keep {
        let mut content = String::from_str(existing);
        content.append(text);
        WritePlan::Write(content)
    } else if existing.is_empty() {
        WritePlan::Write(String::from_str(text))
    } else {
        let mut question = String::from_str(filepath);
        question.append(" will be OVERWRITTEN. Are you sure? (YES)");
        WritePlan::Ask(question)
    }
}

/// Whether the user's answer to the question confirms the overwrite.
pub fn confirmed(answer: &str) -> (r: bool)
    ensures
        r == confirms(answer@),
{
    let line = chars_of(answer);
    let word = trimmed(line.as_slice());
    let yes = chars_of("YES");
    same_chars(word.as_slice(), yes.as_slice())
}

/// The message for a write to `filepath` that has been carried out.
pub fn done_message(filepath: &str) -> (message: String)
    ensures
        message@ == done_text(filepath@),
{
    let mut message = String::from_str("Done: ");
    message.append(filepath);
    message
}

} // verus!
