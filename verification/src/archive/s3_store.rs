//! Objects in a bucket: how many workers serve it, and what is said of a
//! request that failed.

use vstd::prelude::*;
use vstd::string::StringExecFns;

use crate::text::{decimal, join, joined, lemma_texts_push, push_decimal, texts};

verus! {

/// The most workers a store has.
pub const MAX_WORKER_THREADS: usize = 128;

/// How many workers serve a store that was asked for `requested`.
pub fn worker_count(requested: usize) -> (r: usize)
    ensures
        r == if requested < 1 {
            1
        } else if requested > MAX_WORKER_THREADS {
            MAX_WORKER_THREADS
        } else {
            requested
        },
{
    if requested < 1 {
        1
    } else if requested > MAX_WORKER_THREADS {
        MAX_WORKER_THREADS
    } else {
        requested
    }
}

/// A request that the service refused, or that never reached it.
#[derive(Debug, Clone)]
pub struct S3Failure {
    /// What was asked.
    pub operation: String,
    /// Of which object.
    pub key: String,
    /// The error, in short.
    pub error: String,
    /// The status of the reply, if there was one.
    pub status: Option<u16>,
    /// The service's code for the error, if it gave one.
    pub code: Option<String>,
    /// The service's message, in quotes, if it gave one.
    pub quoted_message: Option<String>,
    /// The error with its causes.
    pub context: String,
}

impl S3Failure {
    /// What is said of the failure.
    pub open spec fn text(self) -> Seq<char> {
        self.operation@ + " failed for key '"@ + self.key@ + "': "@ + self.error@ + (
        match self.status {
            Some(status) => " (status="@ + decimal(status as nat) + ")"@,
            None => Seq::empty(),
        }) + (match self.code {
            Some(code) => " code="@ + code@,
            None => Seq::empty(),
        }) + (match self.quoted_message {
            Some(message) => " message="@ + message@,
            None => Seq::empty(),
        }) + " — "@ + self.context@
    }
}

/// What is said of a failed request.
pub fn format_s3_error(failure: &S3Failure) -> (r: String)
    ensures
        r@ == failure.text(),
{
    let mut msg = String::from_str(failure.operation.as_str());
    msg.append(" failed for key '");
    msg.append(failure.key.as_str());
    msg.append("': ");
    msg.append(failure.error.as_str());
    if let Some(status) = failure.status {
        msg.append(" (status=");
        push_decimal(&mut msg, status as u64);
        msg.append(")");
    }
    if let Some(code) = &failure.code {
        msg.append(" code=");
        msg.append(code.as_str());
    }
    if let Some(message) = &failure.quoted_message {
        msg.append(" message=");
        msg.append(message.as_str());
    }
    msg.append(" — ");
    msg.append(failure.context.as_str());
    assert(msg@ =~= failure.text());
    msg
}

/// The keys of a delete request as text.
pub fn describe_keys(keys: &Vec<String>) -> (r: String)
    ensures
        r@ == decimal(keys@.len()) + " keys from '"@ + (if keys@.len() == 0 {
            Seq::empty()
        } else {
            keys@[0]@
        }) + "'"@,
{
    let count: usize = keys.len();
    let mut out = String::new();
    push_decimal(&mut out, count as u64);
    out.append(" keys from '");
    if count > 0 {
        out.append(keys[0].as_str());
    }
    out.append("'");
    assert(out@ =~= decimal(keys@.len()) + " keys from '"@ + (if keys@.len() == 0 {
        Seq::empty()
    } else {
        keys@[0]@
    }) + "'"@);
    out
}

/// A key that a delete request did not delete, with what the service says of
/// it.
#[derive(Debug, Clone)]
pub struct FailedKey {
    /// The key.
    pub key: Option<String>,
    /// The service's code for the error.
    pub code: Option<String>,
    /// The service's message.
    pub message: Option<String>,
}

/// What a string says, or `otherwise`.
pub open spec fn text_or(value: Option<String>, otherwise: Seq<char>) -> Seq<char> {
    match value {
        Some(text) => text@,
        None => otherwise,
    }
}

impl FailedKey {
    /// What is said of the key.
    pub open spec fn text(self) -> Seq<char> {
        "'"@ + text_or(self.key, "?"@) + "': "@ + text_or(self.code, "?"@) + " "@ + text_or(
            self.message,
            Seq::empty(),
        )
    }

    /// What is said of the key.
    pub fn describe(&self) -> (r: String)
        ensures
            r@ == self.text(),
    {
        let mut out = String::from_str("'");
        match &self.key {
            Some(key) => {
                out.append(key.as_str());
            },
            None => {
                out.append("?");
            },
        }
        out.append("': ");
        match &self.code {
            Some(code) => {
                out.append(code.as_str());
            },
            None => {
                out.append("?");
            },
        }
        out.append(" ");
        match &self.message {
            Some(message) => {
                out.append(message.as_str());
            },
            None => {},
        }
        assert(out@ =~= self.text());
        out
    }
}

/// What is said of the keys that were not deleted.
pub open spec fn failed_texts(failed: Seq<FailedKey>) -> Seq<Seq<char>> {
    Seq::new(failed.len(), |i: int| failed[i].text())
}

/// What a delete request came to, given the keys that the reply lists. Any such
/// key fails the whole batch: the caller must not report a partial purge as
/// complete.
pub fn delete_result(keys: usize, failed: &Vec<FailedKey>) -> (r: Result<(), String>)
    ensures
        r is Ok <==> failed@.len() == 0,
        r is Err ==> r->Err_0@ == "DeleteObjects left "@ + decimal(failed@.len()) + " of "@
            + decimal(keys as nat) + " keys undeleted: "@ + joined(
            failed_texts(failed@),
            "; "@,
        ),
{
    let count: usize = failed.len();
    if count == 0 {
        return Ok(());
    }
    let mut lines: Vec<String> = Vec::new();
    let mut i: usize = 0;
    while i < failed.len()
        invariant
            i <= failed@.len(),
            texts(lines@) == failed_texts(failed@).take(i as int),
        decreases failed@.len() - i,
    {
        let line = failed[i].describe();
        proof {
            lemma_texts_push(lines@, line);
            assert(failed_texts(failed@).take(i + 1) =~= failed_texts(failed@).take(
                i as int,
            ).push(failed@[i as int].text()));
        }
        lines.push(line);
        i = i + 1;
    }
    assert(failed_texts(failed@).take(failed@.len() as int) =~= failed_texts(failed@));
    let list = join(&lines, "; ");
    let mut out = String::from_str("DeleteObjects left ");
    push_decimal(&mut out, count as u64);
    out.append(" of ");
    push_decimal(&mut out, keys as u64);
    out.append(" keys undeleted: ");
    out.append(list.as_str());
    Err(out)
}

} // verus!
