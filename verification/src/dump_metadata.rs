//! A metadata file as lines of text.

use vstd::arithmetic::power2::pow2;
use vstd::prelude::*;
use vstd::string::StringExecFns;

use crate::config::{ArchiveStorageConfig, StripeSourceConfig};
use crate::le::from_le16;
use crate::metadata::metadata_flags;
use crate::metadata::types::UbiMetadata;
use crate::spill::evictor_model::{in_runs, law_runs_hold_the_numbers, runs_of};
use crate::status_report::lemma_one_shifted;
use crate::text::{decimal, join, joined, push_decimal, texts};
use crate::SECTOR_SIZE;

verus! {

/// A run of consecutive numbers as text: a range, or its numbers where there
/// are no more than two.
pub open spec fn run_parts(run: (usize, usize)) -> Seq<Seq<char>> {
    if run.0 == run.1 {
        seq![decimal(run.0 as nat)]
    } else if run.0 + 1 == run.1 {
        seq![decimal(run.0 as nat), decimal(run.1 as nat)]
    } else {
        seq![decimal(run.0 as nat) + "-"@ + decimal(run.1 as nat)]
    }
}

/// The runs as text.
pub open spec fn list_parts(runs: Seq<(usize, usize)>) -> Seq<Seq<char>>
    decreases runs.len(),
{
    if runs.len() == 0 {
        Seq::empty()
    } else {
        list_parts(runs.drop_last()) + run_parts(runs.last())
    }
}

/// A list of numbers as text, with runs of consecutive numbers as ranges.
pub open spec fn list_text(list: Seq<usize>) -> Seq<char> {
    joined(list_parts(runs_of(list)), ", "@)
}

/// `n` as decimal digits.
fn decimal_string(n: usize) -> (r: String)
    ensures
        r@ == decimal(n as nat),
{
    let mut out = String::new();
    push_decimal(&mut out, n as u64);
    assert(out@ =~= decimal(n as nat));
    out
}

/// Append a run as text.
fn push_range(output: &mut Vec<String>, start: usize, end: usize)
    requires
        start <= end,
    ensures
        texts(final(output)@) == texts(old(output)@) + run_parts((start, end)),
{
    let width: usize = end - start;
    if width == 0 {
        output.push(decimal_string(start));
    } else if width == 1 {
        output.push(decimal_string(start));
        output.push(decimal_string(end));
    } else {
        let mut range = decimal_string(start);
        range.append("-");
        push_decimal(&mut range, end as u64);
        output.push(range);
    }
    assert(texts(output@) =~= texts(old(output)@) + run_parts((start, end)));
}

/// A list of numbers as text, with runs of consecutive numbers as ranges.
pub fn format_list(list: &[usize]) -> (r: String)
    requires
        forall|i: int| 0 <= i < list@.len() - 1 ==> #[trigger] list@[i] < usize::MAX,
    ensures
        r@ == list_text(list@),
{
    if list.len() == 0 {
        assert(list@ =~= Seq::<usize>::empty());
        return String::new();
    }
    let mut formatted: Vec<String> = Vec::new();
    let mut start: usize = list[0];
    let mut prev: usize = list[0];
    let mut i: usize = 1;
    proof {
        let first = list@.take(1);
        assert(first.drop_last() =~= Seq::<usize>::empty());
        assert(runs_of(first.drop_last()) =~= Seq::<(usize, usize)>::empty());
        assert(runs_of(first) =~= seq![(start, prev)]);
        assert(runs_of(first).drop_last() =~= Seq::<(usize, usize)>::empty());
        assert(texts(formatted@) =~= list_parts(runs_of(first).drop_last()));
    }
    while i < list.len()
        invariant
            1 <= i <= list@.len(),
            start <= prev,
            prev == list@[i - 1],
            runs_of(list@.take(i as int)).len() > 0,
            runs_of(list@.take(i as int)).last() == (start, prev),
            texts(formatted@) == list_parts(runs_of(list@.take(i as int)).drop_last()),
            forall|i: int| 0 <= i < list@.len() - 1 ==> #[trigger] list@[i] < usize::MAX,
        decreases list@.len() - i,
    {
        let value: usize = list[i];
        let ghost before = runs_of(list@.take(i as int));
        let ghost after = runs_of(list@.take(i + 1));
        assert(list@.take(i + 1).drop_last() =~= list@.take(i as int));
        assert(list@.take(i + 1).last() == value);
        assert(list@[i - 1] < usize::MAX);
        if value == prev + 1 {
            prev = value;
            assert(after.drop_last() =~= before.drop_last());
        } else {
            push_range(&mut formatted, start, prev);
            start = value;
            prev = value;
            assert(after.drop_last() =~= before);
        }
        i = i + 1;
    }
    assert(list@.take(list@.len() as int) =~= list@);
    push_range(&mut formatted, start, prev);
    proof {
        let runs = runs_of(list@);
        assert(texts(formatted@) == list_parts(runs));
    }
    join(&formatted, ", ")
}

/// The stripes among the first `count` whose header has a bit of `flag` set,
/// in ascending order.
pub open spec fn flagged(headers: Seq<u8>, flag: u8, count: nat) -> Seq<usize>
    decreases count,
{
    if count == 0 {
        Seq::empty()
    } else {
        let before = flagged(headers, flag, (count - 1) as nat);
        if headers[count - 1] & flag != 0 {
            before.push((count - 1) as usize)
        } else {
            before
        }
    }
}

/// Stripe ids whose header has `flag` set.
pub fn stripes_with(metadata: &UbiMetadata, flag: u8) -> (r: Vec<usize>)
    ensures
        r@ == flagged(metadata.stripe_headers@, flag, metadata.stripe_headers@.len()),
        forall|i: int| 0 <= i < r@.len() ==> #[trigger] r@[i] < metadata.stripe_headers@.len(),
{
    let mut out: Vec<usize> = Vec::new();
    let mut i: usize = 0;
    while i < metadata.stripe_headers.len()
        invariant
            i <= metadata.stripe_headers@.len(),
            out@ == flagged(metadata.stripe_headers@, flag, i as nat),
            forall|k: int| 0 <= k < out@.len() ==> #[trigger] out@[k] < i,
        decreases metadata.stripe_headers@.len() - i,
    {
        if metadata.stripe_headers[i] & flag != 0 {
            out.push(i);
        }
        i = i + 1;
    }
    out
}

/// A list holds exactly the stripes whose header has the bit, in ascending
/// order.
pub proof fn law_list_holds_exactly_the_marked_stripes(headers: Seq<u8>, flag: u8, count: nat)
    requires
        count <= headers.len() <= usize::MAX,
    ensures
        forall|j: int, k: int|
            0 <= j < k < flagged(headers, flag, count).len() ==> flagged(headers, flag, count)[j]
                < flagged(headers, flag, count)[k],
        forall|id: usize| #[trigger]
            flagged(headers, flag, count).contains(id) == (id < count && headers[id as int] & flag
                != 0),
    decreases count,
{
    if count > 0 {
        let rest = (count - 1) as nat;
        law_list_holds_exactly_the_marked_stripes(headers, flag, rest);
        let before = flagged(headers, flag, rest);
        let list = flagged(headers, flag, count);
        assert forall|id: usize| #[trigger] list.contains(id) == (id < count && headers[id as int]
            & flag != 0) by {
            if list.contains(id) {
                let k = list.index_of(id);
                if k < before.len() {
                    assert(before[k] == id);
                    assert(before.contains(id));
                }
            }
            if id < count && headers[id as int] & flag != 0 {
                if id < rest {
                    assert(before.contains(id));
                    let k = before.index_of(id);
                    assert(list[k] == id);
                } else {
                    assert(list[list.len() - 1] == id);
                }
            }
        }
        assert forall|j: int, k: int| 0 <= j < k < list.len() implies list[j] < list[k] by {
            if k == before.len() {
                assert(before.contains(before[j]));
            }
        }
    }
}

/// The line that lists the stripes with a header bit.
pub open spec fn list_line(name: Seq<char>, headers: Seq<u8>, flag: u8) -> Seq<char> {
    name + " stripes: "@ + list_text(flagged(headers, flag, headers.len()))
}

/// The lines that describe a metadata file: version, geometry and one list per
/// header bit.
pub open spec fn metadata_lines(m: UbiMetadata) -> Seq<Seq<char>> {
    seq![
        "metadata version: "@ + decimal(from_le16(m.version_major@, 0) as nat) + "."@ + decimal(
            from_le16(m.version_minor@, 0) as nat,
        ),
        "stripe size: "@ + decimal(
            ((1u64 << m.stripe_sector_count_shift) * SECTOR_SIZE) as nat,
        ) + " bytes"@,
        list_line("fetched"@, m.stripe_headers@, metadata_flags::FETCHED),
        list_line("written"@, m.stripe_headers@, metadata_flags::WRITTEN),
        list_line("has-source"@, m.stripe_headers@, metadata_flags::HAS_SOURCE),
        list_line("evicted"@, m.stripe_headers@, metadata_flags::EVICTED),
        list_line("in-s3"@, m.stripe_headers@, metadata_flags::IN_S3),
        list_line("pushed"@, m.stripe_headers@, metadata_flags::PUSHED),
    ]
}

/// The line that lists the stripes with a header bit.
fn flag_line(metadata: &UbiMetadata, name: &str, flag: u8) -> (r: String)
    ensures
        r@ == list_line(name@, metadata.stripe_headers@, flag),
{
    let ids = stripes_with(metadata, flag);
    let total: usize = metadata.stripe_headers.len();
    assert forall|i: int| 0 <= i < ids@.len() - 1 implies #[trigger] ids@[i] < usize::MAX by {
        assert(ids@[i] < total);
    }
    let list = format_list(ids.as_slice());
    let mut out = String::from_str(name);
    out.append(" stripes: ");
    out.append(list.as_str());
    out
}

/// The metadata's own lines of the report.
pub fn describe_metadata(metadata: &UbiMetadata) -> (r: Vec<String>)
    requires
        metadata.wf(),
        (1u64 << metadata.stripe_sector_count_shift) * SECTOR_SIZE <= u64::MAX,
    ensures
        texts(r@) == metadata_lines(*metadata),
{
    let mut version = String::from_str("metadata version: ");
    push_decimal(&mut version, metadata.version_major_u16() as u64);
    version.append(".");
    push_decimal(&mut version, metadata.version_minor_u16() as u64);
    let mut size = String::from_str("stripe size: ");
    push_decimal(&mut size, metadata.stripe_sector_count() * SECTOR_SIZE as u64);
    size.append(" bytes");
    let mut lines: Vec<String> = Vec::new();
    lines.push(version);
    lines.push(size);
    lines.push(flag_line(metadata, "fetched", metadata_flags::FETCHED));
    lines.push(flag_line(metadata, "written", metadata_flags::WRITTEN));
    lines.push(flag_line(metadata, "has-source", metadata_flags::HAS_SOURCE));
    lines.push(flag_line(metadata, "evicted", metadata_flags::EVICTED));
    lines.push(flag_line(metadata, "in-s3", metadata_flags::IN_S3));
    lines.push(flag_line(metadata, "pushed", metadata_flags::PUSHED));
    assert(texts(lines@) =~= metadata_lines(*metadata));
    lines
}

/// What an optional setting says, or `None`.
pub open spec fn or_none(value: Option<String>) -> Seq<char> {
    match value {
        Some(text) => text@,
        None => "None"@,
    }
}

/// The source's line of the report; `image_sectors` is the size of an image.
pub open spec fn source_text(source: Option<StripeSourceConfig>, image_sectors: u64) -> Seq<char> {
    match source {
        Some(StripeSourceConfig::Raw { image_path }) => "raw (path: "@ + image_path@ + ", size: "@
            + decimal((image_sectors * SECTOR_SIZE) as nat) + " bytes)"@,
        Some(StripeSourceConfig::Remote { address, psk_identity }) => "remote (address: "@
            + address@ + ", psk_identity: "@ + or_none(psk_identity) + ")"@,
        Some(StripeSourceConfig::Archive(ArchiveStorageConfig::Filesystem { path })) =>
            "archive filesystem (path: "@ + path@ + ")"@,
        Some(
            StripeSourceConfig::Archive(
                ArchiveStorageConfig::S3 { bucket, prefix, region, connections },
            ),
        ) => "archive s3 (bucket: "@ + bucket@ + ", prefix: "@ + or_none(prefix) + ", region: "@
            + or_none(region) + ")"@,
        None => "None"@,
    }
}

/// Append what an optional setting says.
fn push_or_none(out: &mut String, value: &Option<String>)
    ensures
        final(out)@ == old(out)@ + or_none(*value),
{
    match value {
        Some(text) => {
            out.append(text.as_str());
        },
        None => {
            out.append("None");
        },
    }
}

/// The source's line of the report; `image_sectors` is the size of an image.
pub fn format_source_info(source: &Option<StripeSourceConfig>, image_sectors: u64) -> (r: String)
    requires
        source matches Some(StripeSourceConfig::Raw { image_path }) ==> image_sectors * SECTOR_SIZE
            <= u64::MAX,
    ensures
        r@ == source_text(*source, image_sectors),
{
    let mut out = String::new();
    match source {
        Some(StripeSourceConfig::Raw { image_path }) => {
            out.append("raw (path: ");
            out.append(image_path.as_str());
            out.append(", size: ");
            push_decimal(&mut out, image_sectors * SECTOR_SIZE as u64);
            out.append(" bytes)");
        },
        Some(StripeSourceConfig::Remote { address, psk_identity }) => {
            out.append("remote (address: ");
            out.append(address.as_str());
            out.append(", psk_identity: ");
            push_or_none(&mut out, psk_identity);
            out.append(")");
        },
        Some(StripeSourceConfig::Archive(archive)) => match archive {
            ArchiveStorageConfig::Filesystem { path } => {
                out.append("archive filesystem (path: ");
                out.append(path.as_str());
                out.append(")");
            },
            ArchiveStorageConfig::S3 { bucket, prefix, region, connections } => {
                out.append("archive s3 (bucket: ");
                out.append(bucket.as_str());
                out.append(", prefix: ");
                push_or_none(&mut out, prefix);
                out.append(", region: ");
                push_or_none(&mut out, region);
                out.append(")");
            },
        },
        None => {
            out.append("None");
        },
    }
    assert(out@ =~= source_text(*source, image_sectors));
    out
}

/// The text shows the numbers from `first` to `last`: one number as its digits,
/// three or more as the first, a hyphen and the last.
pub open spec fn shows_range(text: Seq<char>, first: usize, last: usize) -> bool {
    ||| first == last && text == decimal(first as nat)
    ||| first + 2 <= last && text == decimal(first as nat) + "-"@ + decimal(last as nat)
}

/// One of the parts shows a range that holds `id`.
pub open spec fn shown(parts: Seq<Seq<char>>, id: usize) -> bool {
    exists|k: int, first: usize, last: usize|
        0 <= k < parts.len() && first <= id <= last && #[trigger] shows_range(
            parts[k],
            first,
            last,
        )
}

/// The part shows a range of which every number is in a run.
pub open spec fn within_runs(runs: Seq<(usize, usize)>, part: Seq<char>) -> bool {
    exists|first: usize, last: usize|
        first <= last && #[trigger] shows_range(part, first, last) && forall|id: usize|
            first <= id <= last ==> #[trigger] in_runs(runs, id)
}

/// The part shows a range of which every number is in the list.
pub open spec fn within_list(list: Seq<usize>, part: Seq<char>) -> bool {
    exists|first: usize, last: usize|
        first <= last && #[trigger] shows_range(part, first, last) && forall|id: usize|
            first <= id <= last ==> #[trigger] list.contains(id)
}

/// What the parts of runs show.
proof fn lemma_parts_show_the_runs(runs: Seq<(usize, usize)>)
    requires
        forall|k: int| 0 <= k < runs.len() ==> (#[trigger] runs[k]).0 <= runs[k].1,
    ensures
        forall|id: usize| #[trigger] in_runs(runs, id) ==> shown(list_parts(runs), id),
        forall|k: int|
            0 <= k < list_parts(runs).len() ==> within_runs(runs, #[trigger] list_parts(runs)[k]),
    decreases runs.len(),
{
    if runs.len() > 0 {
        let front = runs.drop_last();
        let run = runs.last();
        assert(forall|k: int| 0 <= k < front.len() ==> front[k] == runs[k]);
        lemma_parts_show_the_runs(front);
        let before = list_parts(front);
        let mine = run_parts(run);
        let all = list_parts(runs);
        assert(all == before + mine);
        assert(runs[runs.len() - 1] == run);
        assert forall|id: usize| #[trigger] in_runs(runs, id) implies shown(all, id) by {
            if in_runs(front, id) {
                let (k, first, last) = choose|k: int, first: usize, last: usize|
                    0 <= k < before.len() && first <= id <= last && #[trigger] shows_range(
                        before[k],
                        first,
                        last,
                    );
                assert(all[k] == before[k]);
                assert(shows_range(all[k], first, last));
            } else {
                let k = choose|k: int|
                    0 <= k < runs.len() && (#[trigger] runs[k]).0 <= id <= runs[k].1;
                if k < front.len() {
                    assert(front[k].0 <= id <= front[k].1);
                }
                let at = before.len() as int;
                if run.0 + 2 <= run.1 || run.0 == run.1 {
                    assert(all[at] == mine[0]);
                    assert(shows_range(all[at], run.0, run.1));
                } else {
                    assert(all[at] == mine[0] && all[at + 1] == mine[1]);
                    assert(shows_range(all[at], run.0, run.0));
                    assert(shows_range(all[at + 1], run.1, run.1));
                }
            }
        }
        assert forall|id: usize| run.0 <= id <= run.1 implies #[trigger] in_runs(runs, id) by {
            assert(runs[runs.len() - 1].0 <= id <= runs[runs.len() - 1].1);
        }
        assert forall|k: int| 0 <= k < all.len() implies within_runs(runs, #[trigger] all[k]) by {
            if k < before.len() {
                assert(all[k] == before[k]);
                assert(within_runs(front, before[k]));
                let (first, last) = choose|first: usize, last: usize|
                    first <= last && #[trigger] shows_range(before[k], first, last) && forall|
                        id: usize,
                    |
                        first <= id <= last ==> #[trigger] in_runs(front, id);
                assert(shows_range(all[k], first, last));
                assert forall|id: usize| first <= id <= last implies #[trigger] in_runs(
                    runs,
                    id,
                ) by {
                    assert(in_runs(front, id));
                    let j = choose|j: int|
                        0 <= j < front.len() && (#[trigger] front[j]).0 <= id <= front[j].1;
                    assert(runs[j].0 <= id <= runs[j].1);
                }
            } else {
                assert(all[k] == mine[k - before.len()]);
                if run.0 + 2 <= run.1 || run.0 == run.1 {
                    assert(shows_range(all[k], run.0, run.1));
                } else if k == before.len() {
                    assert(shows_range(all[k], run.0, run.0));
                } else {
                    assert(shows_range(all[k], run.1, run.1));
                }
            }
        }
    }
}

/// A list shows every number of its own, and no other: each number is in a range
/// that a part of the text shows, and each part shows a range of such numbers.
pub proof fn law_a_list_shows_exactly_its_numbers(list: Seq<usize>)
    requires
        forall|j: int, k: int| 0 <= j < k < list.len() ==> list[j] < list[k],
    ensures
        ({
            let parts = list_parts(runs_of(list));
            &&& list_text(list) == joined(parts, ", "@)
            &&& forall|id: usize| list.contains(id) ==> #[trigger] shown(parts, id)
            &&& forall|k: int|
                0 <= k < parts.len() ==> within_list(list, #[trigger] parts[k])
        }),
{
    let runs = runs_of(list);
    let parts = list_parts(runs);
    law_runs_hold_the_numbers(list);
    lemma_parts_show_the_runs(runs);
    assert forall|id: usize| list.contains(id) implies #[trigger] shown(parts, id) by {
        assert(in_runs(runs, id));
    }
    assert forall|k: int| 0 <= k < parts.len() implies within_list(list, #[trigger] parts[k]) by {
        assert(within_runs(runs, parts[k]));
        let (first, last) = choose|first: usize, last: usize|
            first <= last && #[trigger] shows_range(parts[k], first, last) && forall|id: usize|
                first <= id <= last ==> #[trigger] in_runs(runs, id);
        assert(shows_range(parts[k], first, last));
        assert forall|id: usize| first <= id <= last implies #[trigger] list.contains(id) by {
            assert(in_runs(runs, id));
        }
    }
}

/// The line names what it lists, and lists exactly the stripes whose header has
/// the bit.
pub open spec fn lists_bit(line: Seq<char>, name: Seq<char>, headers: Seq<u8>, bit: u8) -> bool {
    exists|ids: Seq<usize>|
        #![trigger list_text(ids)]
        {
            &&& line == name + " stripes: "@ + list_text(ids)
            &&& forall|j: int, k: int| 0 <= j < k < ids.len() ==> ids[j] < ids[k]
            &&& forall|id: usize| #[trigger]
                ids.contains(id) == (id < headers.len() && headers[id as int] & bit != 0)
        }
}

/// A report has eight lines: the version, the stripe size in bytes, and one list
/// each of the stripes that are fetched, are written, have a source, are
/// evicted, are in the store and were pushed.
pub proof fn law_what_a_report_of_a_file_lists(m: UbiMetadata)
    requires
        m.wf(),
        m.stripe_headers@.len() <= usize::MAX,
    ensures
        ({
            let lines = metadata_lines(m);
            let headers = m.stripe_headers@;
            &&& lines.len() == 8
            &&& lines[1] == "stripe size: "@ + decimal(
                pow2(m.stripe_sector_count_shift as nat) * 512,
            ) + " bytes"@
            &&& lists_bit(lines[2], "fetched"@, headers, 0x01)
            &&& lists_bit(lines[3], "written"@, headers, 0x02)
            &&& lists_bit(lines[4], "has-source"@, headers, 0x04)
            &&& lists_bit(lines[5], "evicted"@, headers, 0x08)
            &&& lists_bit(lines[6], "in-s3"@, headers, 0x10)
            &&& lists_bit(lines[7], "pushed"@, headers, 0x20)
        }),
{
    let headers = m.stripe_headers@;
    lemma_one_shifted(m.stripe_sector_count_shift);
    lemma_lists_bit("fetched"@, headers, 0x01);
    lemma_lists_bit("written"@, headers, 0x02);
    lemma_lists_bit("has-source"@, headers, 0x04);
    lemma_lists_bit("evicted"@, headers, 0x08);
    lemma_lists_bit("in-s3"@, headers, 0x10);
    lemma_lists_bit("pushed"@, headers, 0x20);
}

/// A line lists the stripes of its bit.
proof fn lemma_lists_bit(name: Seq<char>, headers: Seq<u8>, bit: u8)
    requires
        headers.len() <= usize::MAX,
    ensures
        lists_bit(list_line(name, headers, bit), name, headers, bit),
{
    let ids = flagged(headers, bit, headers.len());
    law_list_holds_exactly_the_marked_stripes(headers, bit, headers.len());
    assert(list_line(name, headers, bit) == name + " stripes: "@ + list_text(ids));
}

} // verus!
