//! Deleting every spill object a device may have left in its store.
//!
//! Every stripe index is named, not only the ones marked IN_S3: a crash between
//! a PUT and its header write leaves an object under an index the metadata does
//! not point at.

use vstd::prelude::*;
use vstd::string::StringExecFns;

use crate::config::SpillSection;
use crate::io::{ArchiveStore, IoError, StoreCall};
use crate::spill::codec::{
    law_key_object_is_no_stripe, law_object_name_roundtrip, named_stripe, object_name,
    spill_key_object_name, spill_object_name,
};
use crate::text::{
    all_digits, decimal, digits_value, lemma_decimal_value, lemma_texts_push, push_decimal, texts,
};

verus! {

/// The most names one delete request takes.
pub const DELETE_BATCH_SIZE: usize = 1000;

/// Every object a device could have written: one per stripe index and the
/// wrapped spill key.
pub open spec fn purge_names(device_id: Seq<char>, stripe_count: nat) -> Seq<Seq<char>> {
    Seq::new(stripe_count, |i: int| object_name(device_id, i as nat)).push(
        device_id + "/spill-key"@,
    )
}

/// Every object the device could have written, in the order the store will be
/// asked to delete them.
pub fn purge_object_names(device_id: &str, stripe_count: u64) -> (r: Vec<String>)
    requires
        stripe_count < usize::MAX,
    ensures
        texts(r@) == purge_names(device_id@, stripe_count as nat),
{
    let mut names: Vec<String> = Vec::new();
    let mut index: usize = 0;
    while (index as u64) < stripe_count
        invariant
            index <= stripe_count < usize::MAX,
            texts(names@) == Seq::new(index as nat, |i: int| object_name(device_id@, i as nat)),
        decreases stripe_count - index,
    {
        let name = spill_object_name(device_id, index);
        proof {
            lemma_texts_push(names@, name);
        }
        names.push(name);
        index = index + 1;
        assert(texts(names@) =~= Seq::new(
            index as nat,
            |i: int| object_name(device_id@, i as nat),
        ));
    }
    let key = spill_key_object_name(device_id);
    proof {
        lemma_texts_push(names@, key);
    }
    names.push(key);
    assert(texts(names@) =~= purge_names(device_id@, stripe_count as nat));
    names
}

/// A purge names every object the device can have: for each stripe one name,
/// which is the device's, a slash and digits that denote that stripe, and so the
/// very name its object is put under, and behind them the name of the spill key.
/// No two names are equal.
pub proof fn law_a_purge_names_every_stripe_of_the_device(
    device_id: Seq<char>,
    stripe_count: nat,
)
    requires
        stripe_count <= usize::MAX,
    ensures
        ({
            let names = purge_names(device_id, stripe_count);
            let at = device_id.len() as int;
            &&& names.len() == stripe_count + 1
            &&& forall|i: int|
                0 <= i < stripe_count ==> {
                    let name = #[trigger] names[i];
                    let digits = name.subrange(at + 1, name.len() as int);
                    &&& name.len() > at + 1
                    &&& name.take(at) == device_id && name[at] == '/'
                    &&& all_digits(digits) && digits_value(digits) == i
                    &&& named_stripe(name) == Some(i as nat)
                    &&& name == object_name(device_id, i as nat)
                }
            &&& names.last() == device_id + "/spill-key"@
            &&& forall|i: int, j: int|
                0 <= i < j < names.len() ==> (#[trigger] names[i]) != (#[trigger] names[j])
        }),
{
    let names = purge_names(device_id, stripe_count);
    let at = device_id.len() as int;
    reveal_strlit("/");
    assert forall|i: int| 0 <= i < stripe_count implies {
        let name = #[trigger] names[i];
        let digits = name.subrange(at + 1, name.len() as int);
        &&& name.len() > at + 1
        &&& name.take(at) == device_id && name[at] == '/'
        &&& all_digits(digits) && digits_value(digits) == i
        &&& named_stripe(name) == Some(i as nat)
        &&& name == object_name(device_id, i as nat)
    } by {
        let name = names[i];
        assert(name == object_name(device_id, i as nat));
        lemma_decimal_value(i as nat);
        assert(name.take(at) =~= device_id);
        assert(name.subrange(at + 1, name.len() as int) =~= decimal(i as nat));
        if i < usize::MAX {
            law_object_name_roundtrip(device_id, i as usize);
        }
    }
    law_key_object_is_no_stripe(device_id);
    assert forall|i: int, j: int| 0 <= i < j < names.len() implies (#[trigger] names[i]) != (
    #[trigger] names[j]) by {
        assert(named_stripe(names[i]) == Some(i as nat));
        if j < stripe_count {
            assert(named_stripe(names[j]) == Some(j as nat));
        } else {
            assert(names[j] == device_id + "/spill-key"@);
        }
    }
}

/// Where the batch that starts at `deleted` ends.
pub open spec fn batch_end(deleted: int, total: int) -> int {
    if deleted + DELETE_BATCH_SIZE <= total {
        deleted + DELETE_BATCH_SIZE
    } else {
        total
    }
}

/// How many batches `total` names take.
pub open spec fn batch_count(total: int) -> int {
    (total + DELETE_BATCH_SIZE - 1) / DELETE_BATCH_SIZE as int
}

/// The names to hand to the store once `deleted` of them are done.
pub fn next_batch(names: &Vec<String>, deleted: usize) -> (r: Vec<String>)
    requires
        deleted <= names@.len(),
    ensures
        texts(r@) == texts(names@).subrange(
            deleted as int,
            batch_end(deleted as int, names@.len() as int),
        ),
{
    let total: usize = names.len();
    let end: usize = if total - deleted >= DELETE_BATCH_SIZE {
        deleted + DELETE_BATCH_SIZE
    } else {
        total
    };
    let mut batch: Vec<String> = Vec::new();
    let mut i: usize = deleted;
    while i < end
        invariant
            deleted <= i <= end <= names@.len(),
            texts(batch@) == texts(names@).subrange(deleted as int, i as int),
        decreases end - i,
    {
        let name = names[i].clone();
        proof {
            lemma_texts_push(batch@, name);
        }
        batch.push(name);
        i = i + 1;
        assert(texts(batch@) =~= texts(names@).subrange(deleted as int, i as int));
    }
    batch
}

/// What the store is asked to delete, batch by batch, and its answers.
pub open spec fn delete_calls(
    names: Seq<Seq<char>>,
    results: Seq<Result<(), IoError>>,
) -> Seq<StoreCall> {
    Seq::new(
        results.len(),
        |i: int|
            StoreCall::Delete {
                names: names.subrange(
                    i * DELETE_BATCH_SIZE,
                    batch_end(i * DELETE_BATCH_SIZE, names.len() as int),
                ),
                result: results[i],
            },
    )
}

/// What a purge of `total` names comes to when the store gives these answers.
pub open spec fn purge_result(
    total: nat,
    results: Seq<Result<(), IoError>>,
    r: Result<usize, IoError>,
) -> bool {
    match r {
        Ok(deleted) => {
            &&& deleted == total
            &&& results.len() == batch_count(total as int)
            &&& forall|i: int| 0 <= i < results.len() ==> (#[trigger] results[i]) is Ok
        },
        Err(e) => {
            &&& 0 < results.len() <= batch_count(total as int)
            &&& results.last() == Err::<(), IoError>(e)
            &&& forall|i: int| 0 <= i < results.len() - 1 ==> (#[trigger] results[i]) is Ok
        },
    }
}

/// Delete `names` in batches, or nothing when `dry_run`. Says how many names
/// were handed to the store; a batch that fails ends the purge.
pub fn purge<A: ArchiveStore>(store: &mut A, names: &Vec<String>, dry_run: bool) -> (r: Result<
    usize,
    IoError,
>)
    ensures
        dry_run ==> r == Ok::<usize, IoError>(0) && *final(store) == *old(store),
        !dry_run ==> exists|results: Seq<Result<(), IoError>>|
            {
                &&& final(store).calls() == old(store).calls() + #[trigger] delete_calls(
                    texts(names@),
                    results,
                )
                &&& purge_result(names@.len(), results, r)
            },
{
    if dry_run {
        return Ok(0);
    }
    let total: usize = names.len();
    let mut deleted: usize = 0;
    let ghost mut results: Seq<Result<(), IoError>> = Seq::empty();
    assert(delete_calls(texts(names@), results) =~= Seq::empty());
    while deleted < total
        invariant
            !dry_run,
            total == names@.len(),
            texts(names@).len() == total,
            deleted <= total,
            deleted == total || deleted == results.len() * DELETE_BATCH_SIZE,
            deleted == total ==> results.len() == batch_count(total as int),
            results.len() <= batch_count(total as int),
            forall|i: int| 0 <= i < results.len() ==> (#[trigger] results[i]) is Ok,
            store.calls() == old(store).calls() + delete_calls(texts(names@), results),
        decreases total - deleted,
    {
        let batch = next_batch(names, deleted);
        assert(texts(batch@).len() == batch@.len());
        let answer = store.delete_objects(&batch);
        proof {
            let before = delete_calls(texts(names@), results);
            let more = results.push(answer);
            assert(delete_calls(texts(names@), more) =~= before.push(
                StoreCall::Delete { names: texts(batch@), result: answer },
            ));
            results = more;
            assert(store.calls() =~= old(store).calls() + delete_calls(texts(names@), results));
        }
        match answer {
            Ok(()) => {},
            Err(e) => {
                return Err(e);
            },
        }
        deleted = deleted + batch.len();
    }
    Ok(deleted)
}

/// The names that calls of a store ask it to delete.
pub open spec fn names_deleted(calls: Seq<StoreCall>) -> Seq<Seq<char>>
    decreases calls.len(),
{
    if calls.len() == 0 {
        Seq::empty()
    } else {
        names_deleted(calls.drop_last()) + match calls.last() {
            StoreCall::Delete { names, result } => names,
            _ => Seq::empty(),
        }
    }
}

/// A purge that is not refused hands every name to the store once, in order,
/// and no batch holds more names than a request takes.
pub proof fn law_a_purge_deletes_every_name_once(
    names: Seq<Seq<char>>,
    results: Seq<Result<(), IoError>>,
)
    requires
        results.len() <= batch_count(names.len() as int),
    ensures
        results.len() == batch_count(names.len() as int) ==> names_deleted(
            delete_calls(names, results),
        ) == names,
        names_deleted(delete_calls(names, results)) == names.take(
            batch_end((results.len() - 1) * DELETE_BATCH_SIZE, names.len() as int),
        ) || results.len() == 0,
        forall|i: int|
            0 <= i < results.len() ==> {
                let call = #[trigger] delete_calls(names, results)[i];
                call is Delete && 0 < call->Delete_names.len() <= DELETE_BATCH_SIZE
            },
    decreases results.len(),
{
    let calls = delete_calls(names, results);
    if results.len() > 0 {
        let before = results.drop_last();
        law_a_purge_deletes_every_name_once(names, before);
        let last = results.len() - 1;
        assert(calls.drop_last() =~= delete_calls(names, before));
        let start = last * DELETE_BATCH_SIZE;
        let end = batch_end(start, names.len() as int);
        assert(calls.last() == calls[last]);
        if last > 0 {
            assert(names_deleted(calls.drop_last()) == names.take(start));
        } else {
            assert(names_deleted(calls.drop_last()) =~= names.take(0));
        }
        assert(names.take(start) + names.subrange(start, end) =~= names.take(end));
        if results.len() == batch_count(names.len() as int) {
            assert(end == names.len());
            assert(names.take(end) =~= names);
        }
    } else if batch_count(names.len() as int) == 0 {
        assert(names.len() == 0);
        assert(names_deleted(calls) =~= names);
    }
}

/// What the operator reads of a purge that only lists.
pub fn purge_listing(names: &Vec<String>) -> (r: Vec<String>)
    ensures
        texts(r@) == Seq::new(names@.len(), |i: int| "would delete "@ + names@[i]@),
{
    let mut lines: Vec<String> = Vec::new();
    let mut i: usize = 0;
    while i < names.len()
        invariant
            i <= names@.len(),
            texts(lines@) == Seq::new(i as nat, |k: int| "would delete "@ + names@[k]@),
        decreases names@.len() - i,
    {
        let mut line = String::from_str("would delete ");
        line.append(names[i].as_str());
        proof {
            lemma_texts_push(lines@, line);
        }
        lines.push(line);
        i = i + 1;
        assert(texts(lines@) =~= Seq::new(i as nat, |k: int| "would delete "@ + names@[k]@));
    }
    lines
}

/// What the operator reads before a purge.
pub fn purge_heading(device_id: &str, stripe_count: u64, objects: usize) -> (r: String)
    ensures
        r@ == "device "@ + device_id@ + ": "@ + decimal(stripe_count as nat) + " stripes, "@
            + decimal(objects as nat)
            + " objects to delete (every stripe index plus spill-key)"@,
{
    let mut out = String::from_str("device ");
    out.append(device_id);
    out.append(": ");
    push_decimal(&mut out, stripe_count);
    out.append(" stripes, ");
    push_decimal(&mut out, objects as u64);
    out.append(" objects to delete (every stripe index plus spill-key)");
    out
}

/// What the operator reads after a purge of `objects` names.
pub fn purge_closing(dry_run: bool, deleted: usize, objects: usize) -> (r: String)
    ensures
        r@ == if dry_run {
            "dry run: nothing deleted"@
        } else {
            "deleted "@ + decimal(deleted as nat) + " objects in "@ + decimal(
                batch_count(objects as int) as nat,
            ) + " batches"@
        },
{
    if dry_run {
        return String::from_str("dry run: nothing deleted");
    }
    let whole: usize = objects / DELETE_BATCH_SIZE;
    let batches: usize = if objects % DELETE_BATCH_SIZE == 0 {
        whole
    } else {
        whole + 1
    };
    let mut out = String::from_str("deleted ");
    push_decimal(&mut out, deleted as u64);
    out.append(" objects in ");
    push_decimal(&mut out, batches as u64);
    out.append(" batches");
    out
}

/// Why there is nothing to purge.
#[derive(Debug, Clone, Copy, PartialEq, Eq, Structural)]
pub enum PurgeError {
    /// The device does not spill.
    NoSpill,
    /// The device only drops clean stripes.
    NoStore,
    /// The device has no metadata.
    NoMetadata,
}

impl PurgeError {
    /// The message for this error.
    pub fn describe(&self) -> (r: String)
        ensures
            r@ == match *self {
                PurgeError::NoSpill => "config has no [spill] section"@,
                PurgeError::NoStore => "[spill] has no store, so there is nothing to purge"@,
                PurgeError::NoMetadata => "metadata_path is none"@,
            },
    {
        match *self {
            PurgeError::NoSpill => String::from_str("config has no [spill] section"),
            PurgeError::NoStore => String::from_str(
                "[spill] has no store, so there is nothing to purge",
            ),
            PurgeError::NoMetadata => String::from_str("metadata_path is none"),
        }
    }
}

/// Whether a device's configuration names a store to purge and metadata to
/// purge it by.
pub fn check_purge(spill: &Option<SpillSection>, metadata_path: &Option<String>) -> (r: Result<
    (),
    PurgeError,
>)
    ensures
        r == (if spill is None {
            Err::<(), PurgeError>(PurgeError::NoSpill)
        } else if spill->Some_0.store is None {
            Err(PurgeError::NoStore)
        } else if metadata_path is None {
            Err(PurgeError::NoMetadata)
        } else {
            Ok(())
        }),
{
    match spill {
        None => Err(PurgeError::NoSpill),
        Some(section) => if section.store.is_none() {
            Err(PurgeError::NoStore)
        } else if metadata_path.is_none() {
            Err(PurgeError::NoMetadata)
        } else {
            Ok(())
        },
    }
}

/// A purge that succeeds has handed every name to the store, each once and in
/// order, in requests of at most a thousand names that were all granted; one
/// that fails stops at the first request that was refused, with its error.
pub proof fn law_a_purge_that_succeeds_deleted_everything(
    names: Seq<Seq<char>>,
    results: Seq<Result<(), IoError>>,
    r: Result<usize, IoError>,
)
    requires
        purge_result(names.len(), results, r),
    ensures
        ({
            let calls = delete_calls(names, results);
            &&& r matches Ok(deleted) ==> deleted == names.len() && names_deleted(calls) == names
                && forall|k: int|
                0 <= k < calls.len() ==> ((#[trigger] calls[k]) matches StoreCall::Delete {
                    names: batch,
                    result,
                } && result is Ok && 0 < batch.len() <= 1000)
            &&& r matches Err(e) ==> calls.len() > 0 && (calls.last() matches StoreCall::Delete {
                names: batch,
                result,
            } && result == Err::<(), IoError>(e)) && forall|k: int|
                0 <= k < calls.len() - 1 ==> ((#[trigger] calls[k]) matches StoreCall::Delete {
                    names: batch,
                    result,
                } && result is Ok)
        }),
{
    let calls = delete_calls(names, results);
    law_a_purge_deletes_every_name_once(names, results);
    assert forall|k: int| 0 <= k < calls.len() implies ((#[trigger] calls[k]) matches StoreCall::Delete {
        names: batch,
        result,
    } && result == results[k] && 0 < batch.len() <= 1000) by {
        let call = delete_calls(names, results)[k];
        assert(call is Delete);
    }
}

} // verus!
