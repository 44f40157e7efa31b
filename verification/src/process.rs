//! Other programs: how they are called, and what they report.
//!
//! A program is called directly with its arguments, never through a shell.
use vstd::prelude::*;
use vstd::slice::slice_subrange;
use vstd::utf8::{decode_utf8, valid_utf8};

use crate::descriptor::opt_text;
use crate::text::{
    lemma_trim_end_prefix, lemma_trim_start_suffix, lemma_trimmed_again, texts, trim, trim_start,
    trimmed,
};

verus! {

/// A program to run.
#[derive(Debug)]
pub struct PlannedCommand {
    pub program: String,
    pub arguments: Vec<String>,
    /// A variable to set in its environment, and the value.
    pub environment: Option<(String, String)>,
    /// Its working directory, if not the Hub's own.
    pub directory: Option<String>,
}

pub struct CommandView {
    pub program: Seq<char>,
    pub arguments: Seq<Seq<char>>,
    pub environment: Option<(Seq<char>, Seq<char>)>,
    pub directory: Option<Seq<char>>,
}

impl View for PlannedCommand {
    type V = CommandView;

    open spec fn view(&self) -> CommandView {
        CommandView {
            program: self.program@,
            arguments: texts(self.arguments@),
            environment: match self.environment {
                Some((name, value)) => Some((name@, value@)),
                None => None,
            },
            directory: opt_text(self.directory),
        }
    }
}

/// How a program ended.
#[derive(Debug)]
pub struct ProcessStatus {
    pub success: bool,
    /// The status in words.
    pub text: String,
}

/// How a program ended, and what it wrote.
#[derive(Debug)]
pub struct ProcessOutput {
    pub status: ProcessStatus,
    pub stdout: Vec<u8>,
    pub stderr: Vec<u8>,
}

/// How a job ended.
#[derive(Debug)]
pub struct Outcome {
    /// The descriptor's path, or why there is none.
    pub result: Result<String, String>,
    /// A directory to remove, with all that is in it.
    pub remove: Option<String>,
}

// ---------------------------------------------------------------------------
// Diagnostics
// ---------------------------------------------------------------------------
/// How much of a program's output is shown, in bytes.
pub const MAX_DIAGNOSTIC_BYTES: usize = 8192;

/// The text that `String::from_utf8_lossy` makes of bytes.
pub uninterp spec fn lossy_text(bytes: Seq<u8>) -> Seq<char>;

/// Calls `String::from_utf8_lossy`. Its result depends on the bytes alone, and is
/// named [`lossy_text`]. Bytes that are UTF-8 are taken to give the text that they
/// encode. A character of the result stands for one byte or more: it is encoded by
/// them, or it replaces a sequence of them that is not UTF-8. Where such sequences
/// begin and end is left open.
#[verifier::external_body]
fn from_utf8_lossy(bytes: &[u8]) -> (r: String)
    ensures
        r@ == lossy_text(bytes@),
        valid_utf8(bytes@) ==> r@ == decode_utf8(bytes@),
        r@.len() <= bytes@.len(),
{
    String::from_utf8_lossy(bytes).into_owned()
}

/// The first of some bytes, up to the limit of what is shown.
pub open spec fn shown_bytes(output: Seq<u8>) -> Seq<u8> {
    if output.len() > MAX_DIAGNOSTIC_BYTES {
        output.take(MAX_DIAGNOSTIC_BYTES as int)
    } else {
        output
    }
}

/// What is shown of a program's output.
pub open spec fn diagnostics_of(output: Seq<u8>) -> Seq<char> {
    trimmed(lossy_text(shown_bytes(output)))
}

/// What is shown of a program's output: the first bytes of it, as text, without
/// the white space around it.
pub fn bounded_process_diagnostics(output: &[u8]) -> (r: String)
    ensures
        r@ == diagnostics_of(output@),
        r@.len() <= MAX_DIAGNOSTIC_BYTES,
        trimmed(r@) == r@,
        valid_utf8(shown_bytes(output@)) ==> r@ == trimmed(decode_utf8(shown_bytes(output@))),
{
    let n: usize = if output.len() > MAX_DIAGNOSTIC_BYTES {
        MAX_DIAGNOSTIC_BYTES
    } else {
        output.len()
    };
    let visible = slice_subrange(output, 0, n);
    assert(visible@ =~= shown_bytes(output@));
    let text = from_utf8_lossy(visible);
    proof {
        lemma_trimmed_again(text@);
        lemma_trim_start_suffix(text@);
        lemma_trim_end_prefix(trim_start(text@));
    }
    trim(text.as_str())
}

/// Output beyond the limit never matters.
pub proof fn law_only_the_first_output_is_shown(output: Seq<u8>)
    ensures
        shown_bytes(output).len() <= MAX_DIAGNOSTIC_BYTES,
        diagnostics_of(output) == diagnostics_of(shown_bytes(output)),
{
    assert(shown_bytes(shown_bytes(output)) == shown_bytes(output));
}

} // verus!
