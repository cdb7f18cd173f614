//! What a finished command leaves behind.

use vstd::prelude::*;
use vstd::utf8::{encode_utf8, valid_utf8};

use crate::text::{chars_of, text_of, trim, trimmed};

verus! {

/// The outcome of a command that ran.
#[derive(Debug)]
pub struct CommandOutput {
    /// Whether the command reported success.
    pub success: bool,
    /// The exit code, if the command was not ended by a signal.
    pub code: Option<i32>,
    /// How the operating system words the exit status.
    pub status: String,
    /// What the command wrote to its standard output.
    pub stdout: Vec<u8>,
    /// What the command wrote to its standard error.
    pub stderr: Vec<u8>,
}

/// The text that `String::from_utf8_lossy` reads from bytes.
pub uninterp spec fn lossy_utf8(bytes: Seq<u8>) -> Seq<char>;

/// `String::from_utf8_lossy` reads bytes as UTF-8. Valid bytes give the text that they encode;
/// of others only this is said, that the same bytes give the same text.
#[verifier::external_body]
fn decode_lossy(bytes: &[u8]) -> (r: String)
    ensures
        r@ == lossy_utf8(bytes@),
        valid_utf8(bytes@) ==> encode_utf8(r@) == bytes@,
{
    String::from_utf8_lossy(bytes).into_owned()
}

/// The text of what a command wrote.
pub fn output_text(bytes: &Vec<u8>) -> (r: String)
    ensures
        r@ == lossy_utf8(bytes@),
        valid_utf8(bytes@) ==> encode_utf8(r@) == bytes@,
{
    decode_lossy(bytes.as_slice())
}

impl CommandOutput {
    /// What the command complained about, without white space around it.
    pub open spec fn complaint(self) -> Seq<char> {
        trimmed(lossy_utf8(self.stderr@))
    }

    /// What is said of a command that did not succeed: its complaint, or else its exit status.
    pub open spec fn reason(self) -> Seq<char> {
        if self.complaint().len() == 0 {
            self.status@
        } else {
            self.complaint()
        }
    }

    /// What the command complained about.
    pub fn read_complaint(&self) -> (r: String)
        ensures
            r@ == self.complaint(),
    {
        let text = output_text(&self.stderr);
        let chars = chars_of(text.as_str());
        text_of(trim(chars.as_slice()))
    }

    /// What is said of the command if it did not succeed.
    pub fn read_reason(&self) -> (r: String)
        ensures
            r@ == self.reason(),
    {
        let complaint = self.read_complaint();
        if complaint.as_str().is_empty() {
            self.status.clone()
        } else {
            complaint
        }
    }
}

} // verus!
