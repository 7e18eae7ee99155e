//! Reading the output of `lsblk --pairs`.

use crate::command::{CommandLine, CommandLineView};
use crate::disk::Disk;
use crate::error::{plain_error, Error, ErrorKind, ErrorView};
use crate::partition::{partition_views, Partition, PartitionView};
use crate::text::{
    lemma_filter_first, lemma_span_end, lemma_span_end_unique, lines, optional_text, same_text,
    span_end, split_lines, texts,
};
use regex::Regex;
use vstd::hash_map::StringHashMap;
use vstd::prelude::*;
use vstd::utf8::{decode_utf8, valid_utf8};

verus! {

/// The pattern of one pair: a key of capital letters and hyphens, and a quoted value that is not
/// empty.
pub const PAIR_PATTERN: &'static str = r#"([A-Z-]+)="([^"]+)""#;

/// Whether `c` can stand in a key.
pub open spec fn is_key_char(c: char) -> bool {
    'A' <= c <= 'Z' || c == '-'
}

/// The pair that begins at `from`, if one does: the index of its equals sign and that of its
/// closing quote. The key runs up to the equals sign, a quote follows, and the value runs up to
/// the next quote.
pub open spec fn pair_at(line: Seq<char>, from: int) -> Option<(int, int)> {
    let equals = span_end(line, from, |c: char| !is_key_char(c));
    let close = span_end(line, equals + 2, |c: char| c == '"');
    if from < equals && equals + 2 < close < line.len() && line[equals] == '=' && line[equals + 1]
        == '"' {
        Some((equals, close))
    } else {
        None
    }
}

/// The pairs in `line` at or after `from`, each found as far left as possible behind the one
/// before it.
pub open spec fn pairs_from(line: Seq<char>, from: int) -> Seq<(Seq<char>, Seq<char>)>
    decreases line.len() - from,
{
    if from < 0 || from >= line.len() {
        Seq::empty()
    } else {
        match pair_at(line, from) {
            Some((equals, close)) => if from < close {
                seq![(line.subrange(from, equals), line.subrange(equals + 2, close))] + pairs_from(
                    line,
                    close + 1,
                )
            } else {
                Seq::empty()
            },
            None => pairs_from(line, from + 1),
        }
    }
}

/// The fields that a list of pairs gives. Of two pairs with the same key, the later one counts.
pub open spec fn fields_of(pairs: Seq<(Seq<char>, Seq<char>)>) -> Map<Seq<char>, Seq<char>>
    decreases pairs.len(),
{
    if pairs.len() == 0 {
        Map::empty()
    } else {
        fields_of(pairs.drop_last()).insert(pairs.last().0, pairs.last().1)
    }
}

/// The fields of a line.
pub open spec fn line_fields(line: Seq<char>) -> Map<Seq<char>, Seq<char>> {
    fields_of(pairs_from(line, 0))
}

/// The texts of a list of pairs.
pub open spec fn pair_texts(pairs: Seq<(String, String)>) -> Seq<(Seq<char>, Seq<char>)> {
    pairs.map_values(|p: (String, String)| (p.0@, p.1@))
}

/// The texts of a map of strings.
pub open spec fn field_texts(fields: Map<Seq<char>, String>) -> Map<Seq<char>, Seq<char>> {
    fields.map_values(|s: String| s@)
}

/// Compiles `pattern` with `regex::Regex::new` and collects, for each of the successive matches
/// that `captures_iter` finds in `line`, what its two groups matched. The matches do not overlap,
/// and each begins as far left as possible. Of this pattern, which compiles, a match is fixed by
/// where it begins, as neither the equals sign nor the closing quote can be part of the run before
/// it.
#[verifier::external_body]
fn captured_pairs(pattern: &str, line: &str) -> (pairs: Vec<(String, String)>)
    requires
        pattern@ == PAIR_PATTERN@,
    ensures
        pair_texts(pairs@) == pairs_from(line@, 0),
{
    Regex::new(pattern)
        .unwrap()
        .captures_iter(line)
        .map(|cap| (cap[1].to_string(), cap[2].to_string()))
        .collect()
}

/// The key-value pairs of one line of `lsblk --pairs`, by their keys. A pair with an empty value
/// is left out.
pub fn split_lsblk_line(line: &str) -> (fields: StringHashMap<String>)
    ensures
        field_texts(fields@) == line_fields(line@),
{
    let pairs: Vec<(String, String)> = captured_pairs(PAIR_PATTERN, line);
    let ghost views = pair_texts(pairs@);
    let mut fields: StringHashMap<String> = StringHashMap::new();
    let mut i: usize = 0;
    assert(field_texts(fields@) =~= fields_of(views.take(0)));
    while i < pairs.len()
        invariant
            i <= pairs@.len(),
            views == pair_texts(pairs@),
            field_texts(fields@) == fields_of(views.take(i as int)),
        decreases pairs@.len() - i,
    {
        let ghost before = fields@;
        let key: String = pairs[i].0.clone();
        let value: String = pairs[i].1.clone();
        fields.insert(key, value);
        proof {
            assert(views.take(i + 1).drop_last() == views.take(i as int));
            assert(views.take(i + 1).last() == (key@, value@));
            assert(field_texts(fields@) =~= field_texts(before).insert(key@, value@));
        }
        i = i + 1;
    }
    assert(views.take(i as int) == views);
    fields
}

/// The field `key`, if there is one.
pub open spec fn field(fields: Map<Seq<char>, Seq<char>>, key: Seq<char>) -> Option<Seq<char>> {
    if fields.contains_key(key) {
        Some(fields[key])
    } else {
        None
    }
}

/// The partition that the fields of a line describe. A line without a name, and one of anything
/// but a partition, describes none. A swap area has no mount point.
pub open spec fn described_partition(
    fields: Map<Seq<char>, Seq<char>>,
    parent: Seq<char>,
) -> Option<PartitionView> {
    let swap = field(fields, "MOUNTPOINT"@) == Some("[SWAP]"@);
    if fields.contains_key("NAME"@) && field(fields, "TYPE"@) == Some("part"@) {
        Some(
            PartitionView {
                path: fields["NAME"@],
                label: field(fields, "LABEL"@),
                fstype: field(fields, "FSTYPE"@),
                parent,
                mountpoint: if swap {
                    None
                } else {
                    field(fields, "MOUNTPOINT"@)
                },
                swap,
            },
        )
    } else {
        None
    }
}

/// The partitions that the lines of a listing describe, in their order.
pub open spec fn listed_partitions(
    listing: Seq<Seq<char>>,
    parent: Seq<char>,
) -> Seq<PartitionView>
    decreases listing.len(),
{
    if listing.len() == 0 {
        Seq::empty()
    } else {
        let before = listed_partitions(listing.drop_last(), parent);
        match described_partition(line_fields(listing.last()), parent) {
            Some(partition) => before.push(partition),
            None => before,
        }
    }
}

/// A copy of the field `key`.
fn copied_field(fields: &StringHashMap<String>, key: &str) -> (value: Option<String>)
    ensures
        optional_text(value) == field(field_texts(fields@), key@),
{
    match fields.get(key) {
        Some(value) => Some(value.clone()),
        None => None,
    }
}

/// The partition of the disk `parent` that the fields of a line describe, if they describe one.
pub fn partition_from_fields(
    fields: &StringHashMap<String>,
    parent: &str,
) -> (partition: Option<Partition>)
    ensures
        match partition {
            Some(p) => described_partition(field_texts(fields@), parent@) == Some(p@),
            None => described_partition(field_texts(fields@), parent@) is None,
        },
{
    let path: String = match copied_field(fields, "NAME") {
        Some(name) => name,
        None => return None,
    };
    let is_part: bool = match fields.get("TYPE") {
        Some(kind) => same_text(kind.as_str(), "part"),
        None => false,
    };
    if !is_part {
        return None;
    }
    let (mountpoint, swap): (Option<String>, bool) = match copied_field(fields, "MOUNTPOINT") {
        Some(mp) => if same_text(mp.as_str(), "[SWAP]") {
            (None, true)
        } else {
            (Some(mp), false)
        },
        None => (None, false),
    };
    Some(
        Partition {
            path,
            label: copied_field(fields, "LABEL"),
            fstype: copied_field(fields, "FSTYPE"),
            parent: parent.to_owned(),
            mountpoint,
            swap,
        },
    )
}

/// What the standard library says of bytes that are not valid UTF-8.
pub uninterp spec fn utf8_complaint(bytes: Seq<u8>) -> Seq<char>;

/// Calls `String::from_utf8`, which gives the text back exactly where the bytes are valid UTF-8.
/// Its error, in words, says which bytes are not, and so depends on the bytes alone.
#[verifier::external_body]
fn decoded(bytes: Vec<u8>) -> (text: Result<String, String>)
    ensures
        match text {
            Ok(s) => valid_utf8(bytes@) && s@ == decode_utf8(bytes@),
            Err(cause) => !valid_utf8(bytes@) && cause@ == utf8_complaint(bytes@),
        },
{
    String::from_utf8(bytes).map_err(|e| e.to_string())
}

/// The command that lists the partitions of the disk at `path`.
pub open spec fn listing_command(path: Seq<char>) -> CommandLineView {
    CommandLineView {
        program: "lsblk"@,
        args: seq![
            "--pairs"@,
            "--paths"@,
            "--output"@,
            "NAME,LABEL,FSTYPE,TYPE,MOUNTPOINT"@,
            path,
        ],
    }
}

impl Disk {
    /// The command whose output [`Disk::get_partitions`] reads. Older versions of `lsblk` know
    /// neither the `PATH` column nor JSON.
    pub fn lsblk_command(&self) -> (command: CommandLine)
        ensures
            command@ == listing_command(self.path@),
    {
        let command: CommandLine = CommandLine::new("lsblk").arg("--pairs").arg("--paths").arg(
            "--output",
        ).arg("NAME,LABEL,FSTYPE,TYPE,MOUNTPOINT").arg(self.path.as_str());
        assert(command@ =~= listing_command(self.path@));
        command
    }

    /// The partitions of the disk, from the output of [`Disk::lsblk_command`] and whether the
    /// command succeeded. The disk itself and what is built on its partitions are left out.
    pub fn get_partitions(&self, success: bool, stdout: Vec<u8>) -> (result: Result<
        Vec<Partition>,
        Error,
    >)
        ensures
            match result {
                Ok(partitions) => {
                    &&& success
                    &&& valid_utf8(stdout@)
                    &&& partition_views(partitions@) == listed_partitions(
                        lines(decode_utf8(stdout@)),
                        self.path@,
                    )
                },
                Err(error) => if success {
                    &&& !valid_utf8(stdout@)
                    &&& error@ == (ErrorView {
                        kind: ErrorKind::Decoding,
                        text: "decoding lsblk output"@,
                        cause: Some(utf8_complaint(stdout@)),
                    })
                } else {
                    error@ == plain_error(
                        ErrorKind::CommandFailed,
                        "lsblk of "@ + self.path@ + " failed"@,
                    )
                },
            },
    {
        if !success {
            let mut text: String = "lsblk of ".to_owned();
            text.append(self.path.as_str());
            text.append(" failed");
            return Err(Error::new(ErrorKind::CommandFailed, text));
        }
        let output: String = match decoded(stdout) {
            Ok(output) => output,
            Err(cause) => return Err(
                Error::with_cause(ErrorKind::Decoding, "decoding lsblk output".to_owned(), cause),
            ),
        };
        let listing: Vec<String> = split_lines(output.as_str());
        let ghost views = texts(listing@);
        let mut partitions: Vec<Partition> = Vec::new();
        let mut i: usize = 0;
        assert(partition_views(partitions@) == listed_partitions(views.take(0), self.path@));
        while i < listing.len()
            invariant
                i <= listing@.len(),
                views == texts(listing@),
                partition_views(partitions@) == listed_partitions(
                    views.take(i as int),
                    self.path@,
                ),
            decreases listing@.len() - i,
        {
            let fields: StringHashMap<String> = split_lsblk_line(listing[i].as_str());
            proof {
                assert(views.take(i + 1).drop_last() == views.take(i as int));
                assert(views.take(i + 1).last() == listing@[i as int]@);
            }
            let ghost before = partitions@;
            if let Some(partition) = partition_from_fields(&fields, self.path.as_str()) {
                partitions.push(partition);
                assert(partition_views(partitions@) == partition_views(before).push(partition@));
            }
            i = i + 1;
        }
        assert(views.take(i as int) == views);
        Ok(partitions)
    }
}

/// Whether `key` can be the key of a pair.
pub open spec fn is_key(key: Seq<char>) -> bool {
    key.len() > 0 && forall|i: int|
        0 <= i < key.len() ==> 'A' <= #[trigger] key[i] <= 'Z' || key[i] == '-'
}

/// Whether `value` can stand between quotes.
pub open spec fn is_quotable(value: Seq<char>) -> bool {
    forall|i: int| 0 <= i < value.len() ==> #[trigger] value[i] != '"'
}

/// Every pair that is found in a line has a key of capital letters and hyphens, and a value that
/// is not empty and holds no quote.
pub proof fn law_pairs_are_well_formed(line: Seq<char>, from: int)
    requires
        0 <= from,
    ensures
        forall|i: int|
            0 <= i < pairs_from(line, from).len() ==> {
                let pair = #[trigger] pairs_from(line, from)[i];
                is_key(pair.0) && pair.1.len() > 0 && is_quotable(pair.1)
            },
    decreases line.len() - from,
{
    if from < line.len() {
        match pair_at(line, from) {
            Some((equals, close)) => {
                lemma_span_end(line, from, |c: char| !is_key_char(c));
                lemma_span_end(line, equals + 2, |c: char| c == '"');
                law_pairs_are_well_formed(line, close + 1);
                let key = line.subrange(from, equals);
                let value = line.subrange(equals + 2, close);
                assert(is_key(key) && is_quotable(value));
                let rest = pairs_from(line, close + 1);
                assert forall|i: int| 0 <= i < pairs_from(line, from).len() implies {
                    let pair = #[trigger] pairs_from(line, from)[i];
                    is_key(pair.0) && pair.1.len() > 0 && is_quotable(pair.1)
                } by {
                    if i > 0 {
                        assert(pairs_from(line, from)[i] == rest[i - 1]);
                    }
                }
            },
            None => {
                law_pairs_are_well_formed(line, from + 1);
                assert(pairs_from(line, from) == pairs_from(line, from + 1));
            },
        }
    }
}

/// Whatever holds of every pair's value holds of every field.
proof fn lemma_fields_come_from_pairs(pairs: Seq<(Seq<char>, Seq<char>)>, key: Seq<char>)
    requires
        fields_of(pairs).contains_key(key),
    ensures
        pairs.contains((key, fields_of(pairs)[key])),
    decreases pairs.len(),
{
    if pairs.len() > 0 {
        if pairs.last().0 == key {
            assert(pairs[pairs.len() - 1] == (key, fields_of(pairs)[key]));
        } else {
            lemma_fields_come_from_pairs(pairs.drop_last(), key);
            let rest = pairs.drop_last();
            let i = choose|i: int|
                0 <= i < rest.len() && rest[i] == (key, fields_of(rest)[key]);
            assert(pairs[i] == rest[i]);
        }
    }
}

/// No field of a line is empty or holds a quote: `KEY=""` is the same as no such pair at all.
pub proof fn law_fields_are_not_empty(line: Seq<char>, key: Seq<char>)
    requires
        line_fields(line).contains_key(key),
    ensures
        is_key(key),
        line_fields(line)[key].len() > 0,
        is_quotable(line_fields(line)[key]),
{
    let pairs = pairs_from(line, 0);
    law_pairs_are_well_formed(line, 0);
    lemma_fields_come_from_pairs(pairs, key);
    let i = choose|i: int| 0 <= i < pairs.len() && pairs[i] == (key, line_fields(line)[key]);
    assert(pairs[i].0 == key);
}

/// Every partition of a listing belongs to the listed disk and has a path; what it has of a label,
/// a file system type and a mount point is not empty; and a swap area has no mount point, nor is it
/// one.
pub proof fn law_listed_partitions_are_well_formed(listing: Seq<Seq<char>>, parent: Seq<char>)
    ensures
        forall|i: int|
            0 <= i < listed_partitions(listing, parent).len() ==> {
                let p = #[trigger] listed_partitions(listing, parent)[i];
                &&& p.parent == parent
                &&& p.path.len() > 0
                &&& p.label matches Some(label) ==> label.len() > 0
                &&& p.fstype matches Some(fstype) ==> fstype.len() > 0
                &&& p.mountpoint matches Some(mountpoint) ==> mountpoint.len() > 0
                &&& p.mountpoint != Some("[SWAP]"@)
                &&& p.swap ==> p.mountpoint is None
            },
    decreases listing.len(),
{
    if listing.len() > 0 {
        law_listed_partitions_are_well_formed(listing.drop_last(), parent);
        let before = listed_partitions(listing.drop_last(), parent);
        let line = listing.last();
        let fields = line_fields(line);
        assert forall|key: Seq<char>| #[trigger] fields.contains_key(key) implies fields[key].len()
            > 0 by {
            law_fields_are_not_empty(line, key);
        }
        assert forall|i: int| 0 <= i < listed_partitions(listing, parent).len() implies {
            let p = #[trigger] listed_partitions(listing, parent)[i];
            &&& p.parent == parent
            &&& p.path.len() > 0
            &&& p.label matches Some(label) ==> label.len() > 0
            &&& p.fstype matches Some(fstype) ==> fstype.len() > 0
            &&& p.mountpoint matches Some(mountpoint) ==> mountpoint.len() > 0
            &&& p.mountpoint != Some("[SWAP]"@)
            &&& p.swap ==> p.mountpoint is None
        } by {
            if i < before.len() {
                assert(listed_partitions(listing, parent)[i] == before[i]);
            }
        }
    }
}

/// A pair as `lsblk --pairs` writes it.
pub open spec fn written_pair(pair: (Seq<char>, Seq<char>)) -> Seq<char> {
    pair.0 + seq!['=', '"'] + pair.1 + seq!['"']
}

/// A line as `lsblk --pairs` writes it: its pairs with one space between two of them.
pub open spec fn written_line(pairs: Seq<(Seq<char>, Seq<char>)>) -> Seq<char>
    decreases pairs.len(),
{
    if pairs.len() == 0 {
        Seq::empty()
    } else if pairs.len() == 1 {
        written_pair(pairs[0])
    } else {
        written_pair(pairs[0]) + seq![' '] + written_line(pairs.drop_first())
    }
}

/// Where no pair begins from `from` up to `to`, looking from either gives the same pairs.
pub proof fn lemma_nothing_between(line: Seq<char>, from: int, to: int)
    requires
        0 <= from <= to <= line.len(),
        forall|i: int| from <= i < to ==> #[trigger] pair_at(line, i) is None,
    ensures
        pairs_from(line, from) == pairs_from(line, to),
    decreases to - from,
{
    if from < to {
        assert(pair_at(line, from) is None);
        lemma_nothing_between(line, from + 1, to);
    }
}

/// Looking for pairs where a written pair stands finds it, unless its value is empty, and goes on
/// right behind it.
pub proof fn lemma_written_pair(line: Seq<char>, from: int, pair: (Seq<char>, Seq<char>))
    requires
        0 <= from,
        from + written_pair(pair).len() <= line.len(),
        line.subrange(from, from + written_pair(pair).len()) == written_pair(pair),
        is_key(pair.0),
        is_quotable(pair.1),
    ensures
        pairs_from(line, from) == (if pair.1.len() > 0 {
            seq![pair]
        } else {
            Seq::empty()
        }) + pairs_from(line, from + written_pair(pair).len()),
{
    let written = written_pair(pair);
    let equals = from + pair.0.len();
    let close = equals + 2 + pair.1.len();
    let stop = |c: char| !is_key_char(c);
    let quote = |c: char| c == '"';
    assert forall|i: int| from <= i < from + written.len() implies #[trigger] line[i]
        == written[i - from] by {
        assert(line.subrange(from, from + written.len())[i - from] == line[i]);
    }
    assert(line[equals] == written[equals - from] == '=');
    assert(line[equals + 1] == written[equals + 1 - from] == '"');
    assert(line[close] == written[close - from] == '"');
    assert forall|i: int| from <= i < equals implies !stop(#[trigger] line[i]) by {
        assert(written[i - from] == pair.0[i - from]);
    }
    assert forall|i: int| equals + 2 <= i < close implies !quote(#[trigger] line[i]) by {
        assert(written[i - from] == pair.1[i - equals - 2]);
    }
    lemma_span_end_unique(line, equals + 2, quote, close);
    if pair.1.len() > 0 {
        lemma_span_end_unique(line, from, stop, equals);
        assert(pair_at(line, from) == Some((equals, close)));
        assert(line.subrange(from, equals) == pair.0) by {
            assert(line.subrange(from, equals) =~= written.subrange(0, pair.0.len() as int));
            assert(written.subrange(0, pair.0.len() as int) =~= pair.0);
        }
        assert(line.subrange(equals + 2, close) == pair.1) by {
            let a: int = pair.0.len() + 2int;
            assert(line.subrange(equals + 2, close) =~= written.subrange(a, a + pair.1.len()));
            assert(written.subrange(a, a + pair.1.len()) =~= pair.1);
        }
    } else {
        assert forall|i: int| from <= i <= close implies #[trigger] pair_at(line, i) is None by {
            if i <= equals {
                lemma_span_end_unique(line, i, stop, equals);
            } else {
                lemma_span_end_unique(line, i, stop, i);
            }
        }
        lemma_nothing_between(line, from, close + 1);
    }
}

/// The pairs from `from` on, where a written line stands up to `to`.
proof fn lemma_written_line(
    line: Seq<char>,
    from: int,
    to: int,
    pairs: Seq<(Seq<char>, Seq<char>)>,
)
    requires
        0 <= from <= to <= line.len(),
        line.subrange(from, to) == written_line(pairs),
        forall|i: int|
            0 <= i < pairs.len() ==> is_key((#[trigger] pairs[i]).0) && is_quotable(pairs[i].1),
    ensures
        pairs_from(line, from) == pairs.filter(|p: (Seq<char>, Seq<char>)| p.1.len() > 0)
            + pairs_from(line, to),
    decreases pairs.len(),
{
    let kept = |p: (Seq<char>, Seq<char>)| p.1.len() > 0;
    let rest = line.subrange(from, to);
    reveal(Seq::filter);
    if pairs.len() > 0 {
        let first = written_pair(pairs[0]);
        let next = from + first.len();
        assert(rest == if pairs.len() == 1 {
            first
        } else {
            first + seq![' '] + written_line(pairs.drop_first())
        });
        assert(rest.len() == to - from);
        assert(line.subrange(from, next) == rest.subrange(0, first.len() as int));
        assert(rest.subrange(0, first.len() as int) == first);
        lemma_written_pair(line, from, pairs[0]);
        let tail = pairs.drop_first();
        lemma_filter_first(pairs, kept);
        if pairs.len() == 1 {
            assert(tail.filter(kept) == Seq::<(Seq<char>, Seq<char>)>::empty());
            assert(pairs_from(line, from) == pairs.filter(kept) + pairs_from(line, to));
        } else {
            assert(line[next] == rest[first.len() as int] == ' ');
            lemma_space_begins_no_pair(line, next);
            assert(line.subrange(next + 1, to) == rest.subrange(
                first.len() + 1int,
                rest.len() as int,
            ));
            assert(rest.subrange(first.len() + 1int, rest.len() as int) == written_line(tail));
            assert forall|i: int| 0 <= i < tail.len() implies is_key((#[trigger] tail[i]).0)
                && is_quotable(tail[i].1) by {
                assert(tail[i] == pairs[i + 1]);
            }
            lemma_written_line(line, next + 1, to, tail);
            assert(pairs_from(line, from) == pairs.filter(kept) + pairs_from(line, to));
        }
    } else {
        assert(rest.len() == to - from);
        assert(pairs_from(line, from) == pairs.filter(kept) + pairs_from(line, to));
    }
}

/// Looking for pairs where a space stands goes on behind it.
proof fn lemma_space_begins_no_pair(line: Seq<char>, at: int)
    requires
        0 <= at < line.len(),
        line[at] == ' ',
    ensures
        pairs_from(line, at) == pairs_from(line, at + 1),
{
    lemma_span_end_unique(line, at, |c: char| !is_key_char(c), at);
    assert(pair_at(line, at) is None);
}

/// What is read of a line is what `lsblk` wrote into it: the pairs, in their order, but for those
/// with an empty value.
pub proof fn law_written_pairs_are_read(pairs: Seq<(Seq<char>, Seq<char>)>)
    requires
        forall|i: int|
            0 <= i < pairs.len() ==> is_key((#[trigger] pairs[i]).0) && is_quotable(pairs[i].1),
    ensures
        pairs_from(written_line(pairs), 0) == pairs.filter(
            |p: (Seq<char>, Seq<char>)| p.1.len() > 0,
        ),
{
    let line = written_line(pairs);
    assert(line.subrange(0, line.len() as int) == line);
    lemma_written_line(line, 0, line.len() as int, pairs);
    assert(pairs_from(line, line.len() as int) == Seq::<(Seq<char>, Seq<char>)>::empty());
}

/// The fields of one list of pairs behind another are those of the first, overridden by those of
/// the second.
pub proof fn lemma_fields_of_both(
    first: Seq<(Seq<char>, Seq<char>)>,
    second: Seq<(Seq<char>, Seq<char>)>,
)
    ensures
        fields_of(first + second) == fields_of(first).union_prefer_right(fields_of(second)),
    decreases second.len(),
{
    let both = first + second;
    if second.len() == 0 {
        assert(both == first);
        assert(fields_of(first).union_prefer_right(fields_of(second)) =~= fields_of(first));
    } else {
        lemma_fields_of_both(first, second.drop_last());
        assert(both.drop_last() == first + second.drop_last());
        assert(both.last() == second.last());
        assert(fields_of(both) =~= fields_of(first).union_prefer_right(fields_of(second)));
    }
}

/// A line of two written parts reads as the first, overridden by the second.
pub proof fn law_later_part_overrides(
    first: Seq<(Seq<char>, Seq<char>)>,
    second: Seq<(Seq<char>, Seq<char>)>,
)
    requires
        forall|i: int|
            0 <= i < first.len() ==> is_key((#[trigger] first[i]).0) && is_quotable(first[i].1),
        forall|i: int|
            0 <= i < second.len() ==> is_key((#[trigger] second[i]).0) && is_quotable(
                second[i].1,
            ),
    ensures
        line_fields(written_line(first) + seq![' '] + written_line(second)) == line_fields(
            written_line(first),
        ).union_prefer_right(line_fields(written_line(second))),
{
    let kept = |p: (Seq<char>, Seq<char>)| p.1.len() > 0;
    let front = written_line(first);
    let back = written_line(second);
    let line = front + seq![' '] + back;
    let space = front.len() as int;
    let end = line.len() as int;
    assert(line.subrange(0, space) == front);
    assert(line.subrange(space + 1, end) == back);
    lemma_written_line(line, 0, space, first);
    lemma_space_begins_no_pair(line, space);
    lemma_written_line(line, space + 1, end, second);
    assert(pairs_from(line, end) == Seq::<(Seq<char>, Seq<char>)>::empty());
    assert(pairs_from(line, 0) == first.filter(kept) + second.filter(kept));
    law_written_pairs_are_read(first);
    law_written_pairs_are_read(second);
    lemma_fields_of_both(first.filter(kept), second.filter(kept));
}

/// Where a pair that is found in a line stands.
proof fn lemma_pair_stands_in_line(line: Seq<char>, from: int, i: int) -> (at: int)
    requires
        0 <= from,
        0 <= i < pairs_from(line, from).len(),
    ensures
        stands_at(line, written_pair(pairs_from(line, from)[i]), at),
    decreases line.len() - from,
{
    let pair = pairs_from(line, from)[i];
    match pair_at(line, from) {
        Some((equals, close)) => {
            lemma_span_end(line, from, |c: char| !is_key_char(c));
            lemma_span_end(line, equals + 2, |c: char| c == '"');
            if i == 0 {
                assert(pair == (line.subrange(from, equals), line.subrange(equals + 2, close)));
                assert(line.subrange(from, close + 1) =~= written_pair(pair));
                from
            } else {
                assert(pair == pairs_from(line, close + 1)[i - 1]);
                lemma_pair_stands_in_line(line, close + 1, i - 1)
            }
        },
        None => lemma_pair_stands_in_line(line, from + 1, i),
    }
}

/// Whether `part` stands in `line` at the index `at`.
pub open spec fn stands_at(line: Seq<char>, part: Seq<char>, at: int) -> bool {
    0 <= at && at + part.len() <= line.len() && line.subrange(at, at + part.len()) == part
}

/// Every field of a line stands in it as `KEY="VALUE"`.
pub proof fn law_fields_stand_in_the_line(line: Seq<char>, key: Seq<char>)
    requires
        line_fields(line).contains_key(key),
    ensures
        exists|at: int| #[trigger] stands_at(line, written_pair((key, line_fields(line)[key])), at),
{
    let pairs = pairs_from(line, 0);
    lemma_fields_come_from_pairs(pairs, key);
    let i = choose|i: int| 0 <= i < pairs.len() && pairs[i] == (key, line_fields(line)[key]);
    let at = lemma_pair_stands_in_line(line, 0, i);
    assert(stands_at(line, written_pair((key, line_fields(line)[key])), at));
}

/// What `lsblk` is asked for of a partition, as pairs. What the partition does not have is empty.
pub open spec fn partition_pairs(p: PartitionView) -> Seq<(Seq<char>, Seq<char>)> {
    seq![
        ("NAME"@, p.path),
        ("LABEL"@, p.label.unwrap_or(Seq::empty())),
        ("FSTYPE"@, p.fstype.unwrap_or(Seq::empty())),
        ("TYPE"@, "part"@),
        (
            "MOUNTPOINT"@,
            if p.swap {
                "[SWAP]"@
            } else {
                p.mountpoint.unwrap_or(Seq::empty())
            },
        ),
    ]
}

/// A listing of partitions as `lsblk --pairs` writes it, one to a line.
pub open spec fn written_listing(partitions: Seq<PartitionView>) -> Seq<char>
    decreases partitions.len(),
{
    if partitions.len() == 0 {
        Seq::empty()
    } else {
        written_line(partition_pairs(partitions[0])) + seq!['\n'] + written_listing(
            partitions.drop_first(),
        )
    }
}

/// Whether `value` can be written between quotes on one line. `lsblk` writes escapes for quotes and
/// line feeds.
pub open spec fn is_writable(value: Seq<char>) -> bool {
    is_quotable(value) && forall|i: int| 0 <= i < value.len() ==> #[trigger] value[i] != '\n'
}

/// Whether `value`, if it is there, is not empty and can be written.
pub open spec fn is_absent_or_writable(value: Option<Seq<char>>) -> bool {
    value matches Some(text) ==> text.len() > 0 && is_writable(text)
}

/// Whether `lsblk` can list the partition: it has a path, what it has is not empty, and it is not
/// mounted on what stands for swapping.
pub open spec fn is_listable(p: PartitionView) -> bool {
    &&& p.path.len() > 0 && is_writable(p.path)
    &&& is_absent_or_writable(p.label)
    &&& is_absent_or_writable(p.fstype)
    &&& is_absent_or_writable(p.mountpoint)
    &&& p.mountpoint != Some("[SWAP]"@)
    &&& p.swap ==> p.mountpoint is None
}

/// Of pairs with different keys, each gives its field, unless its value is empty.
proof fn lemma_field_of_pair(pairs: Seq<(Seq<char>, Seq<char>)>, i: int)
    requires
        0 <= i < pairs.len(),
        forall|a: int, b: int|
            0 <= a < b < pairs.len() ==> (#[trigger] pairs[a]).0 != (#[trigger] pairs[b]).0,
    ensures
        field(
            fields_of(pairs.filter(|p: (Seq<char>, Seq<char>)| p.1.len() > 0)),
            pairs[i].0,
        ) == if pairs[i].1.len() > 0 {
            Some(pairs[i].1)
        } else {
            None
        },
    decreases pairs.len(),
{
    let kept = |p: (Seq<char>, Seq<char>)| p.1.len() > 0;
    let front = pairs.drop_last();
    let last = pairs.last();
    reveal(Seq::filter);
    if kept(last) {
        assert(front.filter(kept).push(last).drop_last() == front.filter(kept));
    }
    if i < front.len() {
        lemma_field_of_pair(front, i);
        assert(front[i] == pairs[i]);
        assert(pairs[i].0 != pairs[pairs.len() - 1].0);
    } else {
        lemma_key_is_absent(front, last.0);
    }
}

/// A key that no pair has is the key of no field.
proof fn lemma_key_is_absent(pairs: Seq<(Seq<char>, Seq<char>)>, key: Seq<char>)
    requires
        forall|a: int| 0 <= a < pairs.len() ==> (#[trigger] pairs[a]).0 != key,
    ensures
        field(
            fields_of(pairs.filter(|p: (Seq<char>, Seq<char>)| p.1.len() > 0)),
            key,
        ) is None,
    decreases pairs.len(),
{
    let kept = |p: (Seq<char>, Seq<char>)| p.1.len() > 0;
    reveal(Seq::filter);
    if pairs.len() > 0 {
        let front = pairs.drop_last();
        let last = pairs.last();
        assert(forall|a: int| 0 <= a < front.len() ==> #[trigger] front[a] == pairs[a]);
        assert(last == pairs[pairs.len() - 1]);
        lemma_key_is_absent(front, key);
        if kept(last) {
            assert(front.filter(kept).push(last).drop_last() == front.filter(kept));
        }
    }
}

/// The pairs of a listable partition can be written and have different keys.
proof fn lemma_partition_pairs(p: PartitionView)
    requires
        is_listable(p),
    ensures
        forall|i: int|
            0 <= i < partition_pairs(p).len() ==> is_key((#[trigger] partition_pairs(p)[i]).0)
                && is_writable(partition_pairs(p)[i].1),
        forall|a: int, b: int|
            0 <= a < b < partition_pairs(p).len() ==> (#[trigger] partition_pairs(p)[a]).0 != (
            #[trigger] partition_pairs(p)[b]).0,
{
    reveal_strlit("NAME");
    reveal_strlit("LABEL");
    reveal_strlit("FSTYPE");
    reveal_strlit("TYPE");
    reveal_strlit("MOUNTPOINT");
    reveal_strlit("part");
    reveal_strlit("[SWAP]");
    let pairs = partition_pairs(p);
    assert("NAME"@[0] == 'N' && "TYPE"@[0] == 'T');
    assert(pairs[0].0.len() == 4 && pairs[1].0.len() == 5 && pairs[2].0.len() == 6);
    assert(pairs[3].0.len() == 4 && pairs[4].0.len() == 10);
    assert forall|a: int, b: int| 0 <= a < b < pairs.len() implies (#[trigger] pairs[a]).0 != (
    #[trigger] pairs[b]).0 by {
        if a == 0 && b == 3 {
            assert(pairs[a].0[0] != pairs[b].0[0]);
        } else {
            assert(pairs[a].0.len() != pairs[b].0.len());
        }
    }
}

/// A written line holds no line feed, and ends with a quote.
proof fn lemma_written_line_ends(pairs: Seq<(Seq<char>, Seq<char>)>)
    requires
        pairs.len() > 0,
        forall|i: int|
            0 <= i < pairs.len() ==> is_key((#[trigger] pairs[i]).0) && is_writable(pairs[i].1),
    ensures
        written_line(pairs).len() > 0,
        written_line(pairs).last() == '"',
        forall|i: int|
            0 <= i < written_line(pairs).len() ==> #[trigger] written_line(pairs)[i] != '\n',
    decreases pairs.len(),
{
    let pair = pairs[0];
    let first = written_pair(pair);
    assert forall|i: int| 0 <= i < first.len() implies #[trigger] first[i] != '\n' by {
        if i < pair.0.len() {
            assert(first[i] == pair.0[i]);
            assert(is_key_char(pair.0[i]));
        } else if pair.0.len() + 2 <= i < pair.0.len() + 2 + pair.1.len() {
            assert(first[i] == pair.1[i - pair.0.len() - 2]);
        }
    }
    if pairs.len() > 1 {
        let rest = pairs.drop_first();
        assert(forall|i: int| 0 <= i < rest.len() ==> #[trigger] rest[i] == pairs[i + 1]);
        lemma_written_line_ends(rest);
        let tail = written_line(rest);
        let line = written_line(pairs);
        assert forall|i: int| 0 <= i < line.len() implies #[trigger] line[i] != '\n' by {
            if i < first.len() {
                assert(line[i] == first[i]);
            } else if i > first.len() {
                assert(line[i] == tail[i - first.len() - 1]);
            }
        }
        assert(line.last() == tail.last());
    }
}

/// What is read of the line of a partition is the partition.
proof fn lemma_written_partition(p: PartitionView)
    requires
        is_listable(p),
    ensures
        described_partition(line_fields(written_line(partition_pairs(p))), p.parent) == Some(p),
{
    let pairs = partition_pairs(p);
    lemma_partition_pairs(p);
    law_written_pairs_are_read(pairs);
    lemma_field_of_pair(pairs, 0);
    lemma_field_of_pair(pairs, 1);
    lemma_field_of_pair(pairs, 2);
    lemma_field_of_pair(pairs, 3);
    lemma_field_of_pair(pairs, 4);
    reveal_strlit("part");
    reveal_strlit("[SWAP]");
}

/// The lines of a written listing are the lines of its partitions.
proof fn lemma_written_lines(partitions: Seq<PartitionView>)
    requires
        forall|i: int| 0 <= i < partitions.len() ==> is_listable(#[trigger] partitions[i]),
    ensures
        lines(written_listing(partitions)) == Seq::new(
            partitions.len(),
            |i: int| written_line(partition_pairs(partitions[i])),
        ),
    decreases partitions.len(),
{
    if partitions.len() > 0 {
        let text = written_listing(partitions);
        let line = written_line(partition_pairs(partitions[0]));
        let rest = partitions.drop_first();
        assert(forall|i: int| 0 <= i < rest.len() ==> #[trigger] rest[i] == partitions[i + 1]);
        lemma_written_lines(rest);
        lemma_partition_pairs(partitions[0]);
        lemma_written_line_ends(partition_pairs(partitions[0]));
        assert(forall|i: int| 0 <= i < line.len() ==> #[trigger] text[i] == line[i]);
        lemma_span_end_unique(text, 0, |c: char| c == '\n', line.len() as int);
        assert(text.subrange(0, line.len() as int) == line);
        assert(text.subrange(line.len() + 1int, text.len() as int) == written_listing(rest));
        assert(lines(text) == seq![line] + lines(written_listing(rest)));
    }
}

/// What is read of a listing is what `lsblk` wrote into it: the partitions, in their order.
pub proof fn law_written_listing_is_read(partitions: Seq<PartitionView>, parent: Seq<char>)
    requires
        forall|i: int|
            0 <= i < partitions.len() ==> is_listable(#[trigger] partitions[i])
                && partitions[i].parent == parent,
    ensures
        listed_partitions(lines(written_listing(partitions)), parent) == partitions,
{
    lemma_written_lines(partitions);
    let listing = lines(written_listing(partitions));
    lemma_listed_up_to(partitions, parent, listing, partitions.len() as int);
    assert(listing.take(partitions.len() as int) == listing);
    assert(partitions.take(partitions.len() as int) == partitions);
}

/// What is read of the first `n` lines are the first `n` partitions.
proof fn lemma_listed_up_to(
    partitions: Seq<PartitionView>,
    parent: Seq<char>,
    listing: Seq<Seq<char>>,
    n: int,
)
    requires
        0 <= n <= partitions.len(),
        forall|i: int|
            0 <= i < partitions.len() ==> is_listable(#[trigger] partitions[i])
                && partitions[i].parent == parent,
        listing == Seq::new(
            partitions.len(),
            |i: int| written_line(partition_pairs(partitions[i])),
        ),
    ensures
        listed_partitions(listing.take(n), parent) == partitions.take(n),
    decreases n,
{
    if n > 0 {
        lemma_listed_up_to(partitions, parent, listing, n - 1);
        assert(listing.take(n).drop_last() == listing.take(n - 1));
        lemma_written_partition(partitions[n - 1]);
        assert(partitions.take(n) == partitions.take(n - 1).push(partitions[n - 1]));
    }
}

} // verus!
