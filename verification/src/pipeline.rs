//! The pipeline: which steps are switched on, the order in which they are
//! applied, and the conversation with the host that reads and writes the
//! files.
//!
//! The library never touches a file or the terminal. A run hands the host one
//! [`Request`] at a time; the host carries it out and answers with a
//! [`Reply`], until the run ends with `Finish` or `Fail`.

use crate::binary::{binary_decoded, binary_text, from_binary, to_binary};
use crate::error::PipelineError;
use crate::morse::{from_morse, json_string_map, keys_text, morse_text, table_of, to_morse};
use crate::sink::{
    confirmed, confirms, done_message, done_text, to_file, write_plan, WritePlan, WritePlanView,
};
use crate::transforms::{
    capitalize, lemma_capitalize_then_lowercase, lowercase, lowercased, no_capital, reverse,
    uppercased,
};
use vstd::prelude::*;
use vstd::string::StringExecFns;
use vstd::utf8::{encode_utf8, is_ascii_chars};

verus! {

/// The steps that are switched on for a run, and what they need besides the
/// text. The order in which the switches were set plays no part: the steps
/// are always applied in the order in which they are listed here, from
/// `capitalize` to `to_file`.
///
/// Both directions of a codec may be switched on together. Both are then
/// applied, the encoding first, and what comes out need not be the text that
/// went in.
#[derive(Clone, Debug, PartialEq, Eq)]
pub struct StepFlags {
    /// Put the text in upper case.
    pub capitalize: bool,
    /// Put the text in lower case.
    pub lowercase: bool,
    /// Reverse the characters of the text.
    pub reverse: bool,
    /// Write the bytes of the text in binary.
    pub to_binary: bool,
    /// Read a binary text back.
    pub from_binary: bool,
    /// Write the text in Morse.
    pub to_morse: bool,
    /// Read a Morse text back.
    pub from_morse: bool,
    /// Take the text as the path of a file and go on with what the file holds.
    pub from_file: bool,
    /// Write the text to the file at `file_path`.
    pub to_file: bool,
    /// The file that `to_file` writes to.
    pub file_path: Option<String>,
    /// Whether `to_file` keeps what the file holds and writes behind it.
    pub keep_contents: bool,
    /// The language of the Morse table.
    pub morse_language: Option<String>,
}

impl Default for StepFlags {
    /// The flags with every step switched off.
    fn default() -> (flags: StepFlags)
        ensures
            !flags.capitalize && !flags.lowercase && !flags.reverse,
            !flags.to_binary && !flags.from_binary,
            !flags.to_morse && !flags.from_morse,
            !flags.from_file && !flags.to_file && !flags.keep_contents,
            flags.file_path is None,
            flags.morse_language is None,
    {
        StepFlags {
            capitalize: false,
            lowercase: false,
            reverse: false,
            to_binary: false,
            from_binary: false,
            to_morse: false,
            from_morse: false,
            from_file: false,
            to_file: false,
            file_path: None,
            keep_contents: false,
            morse_language: None,
        }
    }
}

impl StepFlags {
    /// Whether the flags can be run: writing to a file needs a path.
    pub open spec fn runnable(self) -> bool {
        self.to_file ==> self.file_path is Some
    }

    /// Whether a Morse step is switched on, so that the table has to be
    /// loaded.
    pub open spec fn wants_table(self) -> bool {
        self.to_morse || self.from_morse
    }

    /// The path of the target file.
    pub open spec fn target(self) -> Seq<char> {
        self.file_path->0@
    }

    /// Decides [`StepFlags::runnable`].
    pub fn is_runnable(&self) -> (r: bool)
        ensures
            r == self.runnable(),
    {
        !self.to_file || self.file_path.is_some()
    }

    /// Decides [`StepFlags::wants_table`].
    pub fn needs_table(&self) -> (r: bool)
        ensures
            r == self.wants_table(),
    {
        self.to_morse || self.from_morse
    }
}

/// The name of the resource that holds the Morse table for a language. There
/// is a table for `en` only, and every other language, or none, is served
/// from it without a word.
pub open spec fn resource_name(language: Option<Seq<char>>) -> Seq<char> {
    "morse_en.json"@
}

/// The name of the resource to load for the language `language`.
pub fn table_resource(language: Option<&str>) -> (name: String)
    ensures
        name@ == resource_name(
            match language {
                Some(tag) => Some(tag@),
                None => None,
            },
        ),
{
    String::from_str("morse_en.json")
}

/// What the transforms that are switched on make of `text`, where `data` is
/// the JSON text of the Morse table.
///
/// The steps come in a fixed order: upper case, lower case, reversal, to
/// binary, from binary, to Morse, from Morse. Each works on what the one
/// before it left, so a later step wins over an earlier one. The table is
/// looked at only if a Morse step is switched on, and then a text that holds
/// no table fails the Morse step that comes first.
pub open spec fn transformed(flags: StepFlags, text: Seq<char>, data: Seq<char>) -> Result<
    Seq<char>,
    PipelineError,
> {
    let cased = if flags.capitalize {
        uppercased(text)
    } else {
        text
    };
    let lowered = if flags.lowercase {
        lowercased(cased)
    } else {
        cased
    };
    let turned = if flags.reverse {
        lowered.reverse()
    } else {
        lowered
    };
    let bits = if flags.to_binary {
        binary_text(encode_utf8(turned))
    } else {
        turned
    };
    let read = if flags.from_binary {
        binary_decoded(bits)
    } else {
        bits
    };
    if !flags.wants_table() {
        Ok(read)
    } else {
        match json_string_map(data) {
            None => Err(PipelineError::TableLoad),
            Some(pairs) => {
                let table = table_of(pairs);
                let coded = if flags.to_morse {
                    morse_text(table, uppercased(read))
                } else {
                    read
                };
                let plain = if flags.from_morse {
                    keys_text(table, coded)
                } else {
                    coded
                };
                Ok(plain)
            },
        }
    }
}

/// Whether the outcome of a computation is the one that was specified.
pub open spec fn yields(r: Result<String, PipelineError>, wanted: Result<Seq<char>, PipelineError>)
    -> bool {
    match wanted {
        Ok(text) => r matches Ok(s) && s@ == text,
        Err(error) => r matches Err(e) && e == error,
    }
}

/// Applies the transforms that are switched on to `text`, in their fixed
/// order. `data` is the JSON text of the Morse table; it is read only if a
/// Morse step is switched on.
pub fn transform(flags: &StepFlags, text: &str, data: &str) -> (r: Result<String, PipelineError>)
    ensures
        yields(r, transformed(*flags, text@, data@)),
{
    let mut output = String::from_str(text);
    if flags.capitalize {
        output = capitalize(output.as_str());
    }
    if flags.lowercase {
        output = lowercase(output.as_str());
    }
    if flags.reverse {
        output = reverse(output.as_str());
    }
    if flags.to_binary {
        output = to_binary(output.as_str());
    }
    if flags.from_binary {
        output = from_binary(output.as_str());
    }
    if flags.to_morse {
        match to_morse(output.as_str(), String::from_str(data)) {
            Ok(coded) => {
                output = coded;
            },
            Err(e) => {
                return Err(e);
            },
        }
    }
    if flags.from_morse {
        match from_morse(output.as_str(), String::from_str(data)) {
            Ok(plain) => {
                output = plain;
            },
            Err(e) => {
                return Err(e);
            },
        }
    }
    Ok(output)
}

/// The order of the steps is fixed, whatever the order in which the flags
/// were set: with upper case and lower case both switched on and no other
/// transform, the text is capitalized first and lowered last, so lower case
/// wins. For ASCII text the result is the lower-case form of the text and
/// holds no capital letter.
pub proof fn lemma_lowercase_wins(flags: StepFlags, text: Seq<char>, data: Seq<char>)
    requires
        flags.capitalize && flags.lowercase,
        !flags.reverse && !flags.to_binary && !flags.from_binary,
        !flags.to_morse && !flags.from_morse,
    ensures
        transformed(flags, text, data) == Ok::<Seq<char>, PipelineError>(
            lowercased(uppercased(text)),
        ),
        is_ascii_chars(text) ==> transformed(flags, text, data) == Ok::<Seq<char>, PipelineError>(
            lowercased(text),
        ) && no_capital(lowercased(text)),
{
    if is_ascii_chars(text) {
        lemma_capitalize_then_lowercase(text);
    }
}

/// What a run waits for.
#[derive(Clone, Copy, Debug, PartialEq, Eq, Structural)]
pub enum Stage {
    /// The text of the Morse table.
    LoadingTable,
    /// What the file holds that the text names.
    ReadingSource,
    /// Word that what was read has been shown.
    Echoing,
    /// What the target file holds now.
    ReadingTarget,
    /// The user's answer to the question whether to overwrite.
    Asking,
    /// Word that the target file has been written.
    Writing,
    /// Nothing: the run is over.
    Finished,
}

/// What the host is asked to do next.
#[derive(Clone, Debug, PartialEq, Eq)]
pub enum Request {
    /// Read the whole resource of this name and answer with its text.
    LoadTable(String),
    /// Read the whole file at this path and answer with its text.
    ReadFile(String),
    /// Put this text on standard output as a line of its own.
    Show(String),
    /// Put this question on standard output, read one line from standard
    /// input and answer with it.
    Ask(String),
    /// Write the second text to the file at the path that the first one gives,
    /// in place of what the file holds.
    WriteFile(String, String),
    /// The run is over: put this text on standard output.
    Finish(String),
    /// The run is over without a result.
    Fail(PipelineError),
}

/// What the host answers.
#[derive(Clone, Debug, PartialEq, Eq)]
pub enum Reply {
    /// The text that was asked for.
    Text(String),
    /// The request has been carried out; there is nothing to hand over.
    Done,
    /// The request could not be carried out.
    Failed,
}

/// A [`Request`] over plain sequences of characters.
pub enum RequestView {
    LoadTable(Seq<char>),
    ReadFile(Seq<char>),
    Show(Seq<char>),
    Ask(Seq<char>),
    WriteFile(Seq<char>, Seq<char>),
    Finish(Seq<char>),
    Fail(PipelineError),
}

/// A [`Reply`] over plain sequences of characters.
pub enum ReplyView {
    Text(Seq<char>),
    Done,
    Failed,
}

impl View for Request {
    type V = RequestView;

    open spec fn view(&self) -> RequestView {
        match self {
            Request::LoadTable(name) => RequestView::LoadTable(name@),
            Request::ReadFile(path) => RequestView::ReadFile(path@),
            Request::Show(text) => RequestView::Show(text@),
            Request::Ask(question) => RequestView::Ask(question@),
            Request::WriteFile(path, content) => RequestView::WriteFile(path@, content@),
            Request::Finish(text) => RequestView::Finish(text@),
            Request::Fail(error) => RequestView::Fail(*error),
        }
    }
}

impl View for Reply {
    type V = ReplyView;

    open spec fn view(&self) -> ReplyView {
        match self {
            Reply::Text(text) => ReplyView::Text(text@),
            Reply::Done => ReplyView::Done,
            Reply::Failed => ReplyView::Failed,
        }
    }
}

/// Where a run stands after a move: what it waits for, the working text,
/// and what the host is asked to do.
pub struct Move {
    pub stage: Stage,
    pub text: Seq<char>,
    pub request: RequestView,
}

/// The run gives up with `error`. The working text stays as it was.
pub open spec fn failing(text: Seq<char>, error: PipelineError) -> Move {
    Move { stage: Stage::Finished, text, request: RequestView::Fail(error) }
}

/// The move to the last step. If the text goes to a file, the file is read
/// first, whether its content is kept or not; otherwise the run is over and
/// the text is put out.
pub open spec fn to_target(flags: StepFlags, text: Seq<char>) -> Move {
    if flags.to_file {
        Move { stage: Stage::ReadingTarget, text, request: RequestView::ReadFile(flags.target()) }
    } else {
        Move { stage: Stage::Finished, text, request: RequestView::Finish(text) }
    }
}

/// The move behind the transforms. If the text names a file to read, the
/// file is asked for; otherwise the last step is next.
pub open spec fn to_source(flags: StepFlags, text: Seq<char>) -> Move {
    if flags.from_file {
        Move { stage: Stage::ReadingSource, text, request: RequestView::ReadFile(text) }
    } else {
        to_target(flags, text)
    }
}

/// The move once the table's text is there, or is not needed: the
/// transforms are applied, and a failure among them ends the run.
pub open spec fn to_transforms(flags: StepFlags, text: Seq<char>, data: Seq<char>) -> Move {
    match transformed(flags, text, data) {
        Ok(output) => to_source(flags, output),
        Err(error) => failing(text, error),
    }
}

/// The first move of a run. The table is asked for only if a Morse step is
/// switched on.
pub open spec fn first_move(flags: StepFlags, text: Seq<char>) -> Move {
    if flags.wants_table() {
        Move {
            stage: Stage::LoadingTable,
            text,
            request: RequestView::LoadTable(
                resource_name(
                    match flags.morse_language {
                        Some(tag) => Some(tag@),
                        None => None,
                    },
                ),
            ),
        }
    } else {
        to_transforms(flags, text, Seq::empty())
    }
}

/// The move that carries out a plan for the target file.
pub open spec fn to_write(flags: StepFlags, text: Seq<char>, plan: WritePlanView) -> Move {
    match plan {
        WritePlanView::Write(content) => Move {
            stage: Stage::Writing,
            text,
            request: RequestView::WriteFile(flags.target(), content),
        },
        WritePlanView::Ask(question) => Move {
            stage: Stage::Asking,
            text,
            request: RequestView::Ask(question),
        },
    }
}

/// The move of a run that waits in `stage` with the working text `text`
/// when the host answers `reply`.
///
/// - The table's text starts the transforms; a table that cannot be had is a
///   `TableLoad` failure.
/// - The content of the file that the text named becomes the working text
///   and is shown; a file that cannot be read is a `FileRead` failure.
/// - The content of the target file decides between writing at once and
///   asking first; a target that cannot be read is a `FileRead` failure.
/// - An answer that confirms has the text written over the file. Any other
///   answer ends the run with nothing written and an empty text.
/// - A finished write ends the run with the message that reports it; a
///   write that is refused is a `FileWrite` failure.
/// - An answer that the stage does not wait for is an `OutOfTurn` failure.
pub open spec fn next_move(flags: StepFlags, stage: Stage, text: Seq<char>, reply: ReplyView)
    -> Move {
    match (stage, reply) {
        (Stage::LoadingTable, ReplyView::Text(data)) => to_transforms(flags, text, data),
        (Stage::LoadingTable, ReplyView::Failed) => failing(text, PipelineError::TableLoad),
        (Stage::ReadingSource, ReplyView::Text(content)) => Move {
            stage: Stage::Echoing,
            text: content,
            request: RequestView::Show(content),
        },
        (Stage::ReadingSource, ReplyView::Failed) => failing(text, PipelineError::FileRead),
        (Stage::Echoing, ReplyView::Done) => to_target(flags, text),
        (Stage::ReadingTarget, ReplyView::Text(existing)) => to_write(
            flags,
            text,
            write_plan(flags.target(), text, flags.keep_contents, existing),
        ),
        (Stage::ReadingTarget, ReplyView::Failed) => failing(text, PipelineError::FileRead),
        (Stage::Asking, ReplyView::Text(answer)) => if confirms(answer) {
            to_write(flags, text, WritePlanView::Write(text))
        } else {
            Move {
                stage: Stage::Finished,
                text: Seq::empty(),
                request: RequestView::Finish(Seq::empty()),
            }
        },
        (Stage::Writing, ReplyView::Done) => Move {
            stage: Stage::Finished,
            text: done_text(flags.target()),
            request: RequestView::Finish(done_text(flags.target())),
        },
        (Stage::Writing, ReplyView::Failed) => failing(text, PipelineError::FileWrite),
        _ => failing(text, PipelineError::OutOfTurn),
    }
}

/// A run is over exactly when the host is told so: a move ends in
/// `Finished` if and only if it hands out `Finish` or `Fail`. A failure
/// therefore ends the run at once, with no later step tried.
pub proof fn lemma_over_when_told(flags: StepFlags, stage: Stage, text: Seq<char>, reply: ReplyView)
    ensures
        first_move(flags, text).stage == Stage::Finished <==> (first_move(flags, text).request
            is Finish || first_move(flags, text).request is Fail),
        next_move(flags, stage, text, reply).stage == Stage::Finished <==> (next_move(
            flags,
            stage,
            text,
            reply,
        ).request is Finish || next_move(flags, stage, text, reply).request is Fail),
{
}

/// A run of the pipeline: the flags, the working text, and what the run
/// waits for.
pub struct Pipeline {
    flags: StepFlags,
    stage: Stage,
    text: String,
}

/// A move as the run carries it out.
struct Step {
    stage: Stage,
    text: String,
    request: Request,
}

impl Step {
    spec fn is(self, m: Move) -> bool {
        self.stage == m.stage && self.text@ == m.text && self.request@ == m.request
    }
}

/// Carries out [`failing`].
fn fail(text: String, error: PipelineError) -> (step: Step)
    ensures
        step.is(failing(text@, error)),
{
    Step { stage: Stage::Finished, text, request: Request::Fail(error) }
}

/// The target path of flags that can be run and write to a file.
fn target_path(flags: &StepFlags) -> (path: String)
    requires
        flags.runnable(),
        flags.to_file,
    ensures
        path@ == flags.target(),
{
    match &flags.file_path {
        Some(path) => path.clone(),
        None => vstd::pervasive::unreached(),
    }
}

/// Carries out [`to_target`].
fn enter_target(flags: &StepFlags, text: String) -> (step: Step)
    requires
        flags.runnable(),
    ensures
        step.is(to_target(*flags, text@)),
{
    if flags.to_file {
        Step { stage: Stage::ReadingTarget, text, request: Request::ReadFile(target_path(flags)) }
    } else {
        let shown = text.clone();
        Step { stage: Stage::Finished, text, request: Request::Finish(shown) }
    }
}

/// Carries out [`to_source`].
fn enter_source(flags: &StepFlags, text: String) -> (step: Step)
    requires
        flags.runnable(),
    ensures
        step.is(to_source(*flags, text@)),
{
    if flags.from_file {
        let path = text.clone();
        Step { stage: Stage::ReadingSource, text, request: Request::ReadFile(path) }
    } else {
        enter_target(flags, text)
    }
}

/// Carries out [`to_transforms`].
fn enter_transforms(flags: &StepFlags, text: String, data: &str) -> (step: Step)
    requires
        flags.runnable(),
    ensures
        step.is(to_transforms(*flags, text@, data@)),
{
    match transform(flags, text.as_str(), data) {
        Ok(output) => enter_source(flags, output),
        Err(error) => fail(text, error),
    }
}

/// Carries out [`to_write`].
fn enter_write(flags: &StepFlags, text: String, plan: WritePlan) -> (step: Step)
    requires
        flags.runnable(),
        flags.to_file,
    ensures
        step.is(to_write(*flags, text@, plan@)),
{
    match plan {
        WritePlan::Write(content) => Step {
            stage: Stage::Writing,
            text,
            request: Request::WriteFile(target_path(flags), content),
        },
        WritePlan::Ask(question) => Step {
            stage: Stage::Asking,
            text,
            request: Request::Ask(question),
        },
    }
}

impl Pipeline {
    /// The flags of the run.
    pub closed spec fn flags(&self) -> StepFlags {
        self.flags
    }

    /// What the run waits for.
    pub closed spec fn stage(&self) -> Stage {
        self.stage
    }

    /// The working text.
    pub closed spec fn text(&self) -> Seq<char> {
        self.text@
    }

    /// What holds of every run: its flags can be run, and it waits for the
    /// target file, the answer or the write only if it writes to a file.
    #[verifier::type_invariant]
    spec fn sound(self) -> bool {
        &&& self.flags.runnable()
        &&& (self.stage == Stage::ReadingTarget || self.stage == Stage::Asking || self.stage
            == Stage::Writing) ==> self.flags.to_file
    }

    /// Starts a run on `text` and says what the host is to do first.
    pub fn start(flags: StepFlags, text: String) -> (r: (Pipeline, Request))
        requires
            flags.runnable(),
        ensures
            r.0.flags() == flags,
            r.0.stage() == first_move(flags, text@).stage,
            r.0.text() == first_move(flags, text@).text,
            r.1@ == first_move(flags, text@).request,
    {
        let step = if flags.needs_table() {
            let name = match &flags.morse_language {
                Some(tag) => table_resource(Some(tag.as_str())),
                None => table_resource(None),
            };
            Step { stage: Stage::LoadingTable, text, request: Request::LoadTable(name) }
        } else {
            let step = enter_transforms(&flags, text, "");
            proof {
                reveal_strlit("");
                assert(""@ =~= Seq::<char>::empty());
            }
            step
        };
        (Pipeline { flags, stage: step.stage, text: step.text }, step.request)
    }

    /// Whether the run is over.
    pub fn is_finished(&self) -> (r: bool)
        ensures
            r == (self.stage() == Stage::Finished),
    {
        match self.stage {
            Stage::Finished => true,
            _ => false,
        }
    }

    /// Takes the host's answer to the last request and says what the host is
    /// to do next.
    pub fn advance(&mut self, reply: Reply) -> (request: Request)
        ensures
            final(self).flags() == old(self).flags(),
            final(self).stage() == next_move(
                old(self).flags(),
                old(self).stage(),
                old(self).text(),
                reply@,
            ).stage,
            final(self).text() == next_move(
                old(self).flags(),
                old(self).stage(),
                old(self).text(),
                reply@,
            ).text,
            request@ == next_move(
                old(self).flags(),
                old(self).stage(),
                old(self).text(),
                reply@,
            ).request,
    {
        proof {
            use_type_invariant(&*self);
        }
        let mut text = String::new();
        core::mem::swap(&mut self.text, &mut text);
        let step = match self.stage {
            Stage::LoadingTable => match reply {
                Reply::Text(data) => enter_transforms(&self.flags, text, data.as_str()),
                Reply::Failed => fail(text, PipelineError::TableLoad),
                Reply::Done => fail(text, PipelineError::OutOfTurn),
            },
            Stage::ReadingSource => match reply {
                Reply::Text(content) => {
                    let shown = content.clone();
                    Step { stage: Stage::Echoing, text: content, request: Request::Show(shown) }
                },
                Reply::Failed => fail(text, PipelineError::FileRead),
                Reply::Done => fail(text, PipelineError::OutOfTurn),
            },
            Stage::Echoing => match reply {
                Reply::Done => enter_target(&self.flags, text),
                _ => fail(text, PipelineError::OutOfTurn),
            },
            Stage::ReadingTarget => match reply {
                Reply::Text(existing) => {
                    let path = target_path(&self.flags);
                    let plan = to_file(
                        path.as_str(),
                        text.as_str(),
                        self.flags.keep_contents,
                        existing.as_str(),
                    );
                    enter_write(&self.flags, text, plan)
                },
                Reply::Failed => fail(text, PipelineError::FileRead),
                Reply::Done => fail(text, PipelineError::OutOfTurn),
            },
            Stage::Asking => match reply {
                Reply::Text(answer) => {
                    if confirmed(answer.as_str()) {
                        let content = text.clone();
                        enter_write(&self.flags, text, WritePlan::Write(content))
                    } else {
                        Step {
                            stage: Stage::Finished,
                            text: String::new(),
                            request: Request::Finish(String::new()),
                        }
                    }
                },
                _ => fail(text, PipelineError::OutOfTurn),
            },
            Stage::Writing => match reply {
                Reply::Done => {
                    let path = target_path(&self.flags);
                    let message = done_message(path.as_str());
                    let shown = message.clone();
                    Step { stage: Stage::Finished, text: message, request: Request::Finish(shown) }
                },
                Reply::Failed => fail(text, PipelineError::FileWrite),
                Reply::Text(_) => fail(text, PipelineError::OutOfTurn),
            },
            Stage::Finished => fail(text, PipelineError::OutOfTurn),
        };
        self.stage = step.stage;
        self.text = step.text;
        step.request
    }
}

} // verus!
