//! What callers can rely on of listing partitions.

use crate::command::CommandLine;
use crate::disk::Disk;
use crate::error::{Error, ErrorKind};
use crate::lsblk::{
    described_partition, field, field_texts, fields_of, is_key, is_key_char, is_quotable,
    law_fields_are_not_empty, law_fields_stand_in_the_line, law_written_pairs_are_read,
    lemma_fields_of_both, lemma_nothing_between, lemma_written_pair, line_fields,
    listed_partitions, pair_at, pairs_from, partition_from_fields, split_lsblk_line, stands_at,
    written_line, written_pair, PAIR_PATTERN,
};
use crate::partition::{partition_views, Partition, PartitionView};
use crate::text::{lemma_span_end, lines, span_end, texts};
use vstd::hash_map::StringHashMap;
use vstd::prelude::*;
use vstd::utf8::{decode_utf8, valid_utf8};

verus! {

/// The pattern that lines are read with: capital letters and hyphens, an equals sign, and a value in
/// quotes that is not empty.
pub proof fn law_pair_pattern()
    ensures
        PAIR_PATTERN@ == r#"([A-Z-]+)="([^"]+)""#@,
{
}

/// The command that lists partitions names the columns that are read, and the disk.
pub proof fn law_listing_command(disk: Disk, command: CommandLine)
    requires
        call_ensures(Disk::lsblk_command, (&disk,), command),
    ensures
        command.program@ == "lsblk"@,
        command.args@.len() == 5,
        command.args@[0]@ == "--pairs"@,
        command.args@[1]@ == "--paths"@,
        command.args@[2]@ == "--output"@,
        command.args@[3]@ == "NAME,LABEL,FSTYPE,TYPE,MOUNTPOINT"@,
        command.args@[4]@ == disk.path@,
{
    let args = texts(command.args@);
    assert(command@.args == args);
    assert(args.len() == command.args@.len());
    assert(args[0] == command.args@[0]@);
    assert(args[1] == command.args@[1]@);
    assert(args[2] == command.args@[2]@);
    assert(args[3] == command.args@[3]@);
    assert(args[4] == command.args@[4]@);
}

/// Fields describe a partition exactly if there is a name and the type is `part`: neither the disk
/// itself, nor a logical volume, a RAID or anything else that is built on partitions is one.
pub proof fn law_only_partitions_are_described(
    fields: StringHashMap<String>,
    parent: &str,
    partition: Option<Partition>,
)
    requires
        call_ensures(partition_from_fields, (&fields, parent), partition),
    ensures
        partition is Some <==> {
            &&& fields@.contains_key("NAME"@)
            &&& fields@.contains_key("TYPE"@)
            &&& fields@["TYPE"@]@ == "part"@
        },
{
    let map = field_texts(fields@);
    assert(map.contains_key("TYPE"@) == fields@.contains_key("TYPE"@));
    assert(map.contains_key("NAME"@) == fields@.contains_key("NAME"@));
}

/// A partition has the name, label and file system type of its fields. It is swapped to exactly if
/// its mount point is given as `[SWAP]`, and then has none; else it has the mount point that is
/// given.
pub proof fn law_partitions_have_their_fields(
    fields: StringHashMap<String>,
    parent: &str,
    partition: Option<Partition>,
)
    requires
        call_ensures(partition_from_fields, (&fields, parent), partition),
        partition is Some,
    ensures
        ({
            let p = partition.unwrap();
            let given = fields@.contains_key("MOUNTPOINT"@);
            &&& p.path@ == fields@["NAME"@]@
            &&& p.parent@ == parent@
            &&& p.label is Some <==> fields@.contains_key("LABEL"@)
            &&& p.label matches Some(label) ==> label@ == fields@["LABEL"@]@
            &&& p.fstype is Some <==> fields@.contains_key("FSTYPE"@)
            &&& p.fstype matches Some(fstype) ==> fstype@ == fields@["FSTYPE"@]@
            &&& p.swap <==> given && fields@["MOUNTPOINT"@]@ == "[SWAP]"@
            &&& p.mountpoint is Some <==> given && fields@["MOUNTPOINT"@]@ != "[SWAP]"@
            &&& p.mountpoint matches Some(mountpoint) ==> mountpoint@
                == fields@["MOUNTPOINT"@]@
        }),
{
    let map = field_texts(fields@);
    let p = partition.unwrap();
    assert(p@ == described_partition(map, parent@).unwrap());
    assert(map.contains_key("NAME"@) == fields@.contains_key("NAME"@));
    assert(map.contains_key("LABEL"@) == fields@.contains_key("LABEL"@));
    assert(map.contains_key("FSTYPE"@) == fields@.contains_key("FSTYPE"@));
    assert(map.contains_key("MOUNTPOINT"@) == fields@.contains_key("MOUNTPOINT"@));
    assert(p@.label == field(map, "LABEL"@));
    assert(p@.fstype == field(map, "FSTYPE"@));
    assert(p@.path == p.path@);
}

/// The lines of a listing that describe partitions.
pub open spec fn partition_lines(listing: Seq<Seq<char>>) -> Seq<Seq<char>> {
    listing.filter(
        |line: Seq<char>|
            line_fields(line).contains_key("NAME"@) && line_fields(line).contains_key("TYPE"@)
                && line_fields(line)["TYPE"@] == "part"@,
    )
}

/// Whether a partition is what the fields of a line say of it.
pub open spec fn is_of_line(p: PartitionView, fields: Map<Seq<char>, Seq<char>>) -> bool {
    let given = fields.contains_key("MOUNTPOINT"@);
    &&& p.path == fields["NAME"@]
    &&& p.label is Some <==> fields.contains_key("LABEL"@)
    &&& p.label matches Some(label) ==> label == fields["LABEL"@]
    &&& p.fstype is Some <==> fields.contains_key("FSTYPE"@)
    &&& p.fstype matches Some(fstype) ==> fstype == fields["FSTYPE"@]
    &&& p.swap <==> given && fields["MOUNTPOINT"@] == "[SWAP]"@
    &&& p.mountpoint is Some <==> given && fields["MOUNTPOINT"@] != "[SWAP]"@
    &&& p.mountpoint matches Some(mountpoint) ==> mountpoint == fields["MOUNTPOINT"@]
}

/// The partitions of a listing, one to each line that describes one.
proof fn lemma_listed(listing: Seq<Seq<char>>, parent: Seq<char>)
    ensures
        listed_partitions(listing, parent).len() == partition_lines(listing).len(),
        forall|i: int|
            0 <= i < partition_lines(listing).len() ==> is_of_line(
                #[trigger] listed_partitions(listing, parent)[i],
                line_fields(partition_lines(listing)[i]),
            ) && listed_partitions(listing, parent)[i].parent == parent,
    decreases listing.len(),
{
    reveal(Seq::filter);
    if listing.len() > 0 {
        let front = listing.drop_last();
        lemma_listed(front, parent);
        let before = listed_partitions(front, parent);
        let rows = partition_lines(front);
        let all = listed_partitions(listing, parent);
        assert forall|i: int| 0 <= i < partition_lines(listing).len() implies is_of_line(
            #[trigger] all[i],
            line_fields(partition_lines(listing)[i]),
        ) && all[i].parent == parent by {
            if i < rows.len() {
                assert(all[i] == before[i]);
                assert(partition_lines(listing)[i] == rows[i]);
            }
        }
    }
}

/// The partitions of a listing are those of its lines with a name and the type `part`, in their
/// order, each with what its line says.
pub proof fn law_listing_gives_its_partitions(
    disk: Disk,
    stdout: Vec<u8>,
    result: Result<Vec<Partition>, Error>,
)
    requires
        call_ensures(Disk::get_partitions, (&disk, true, stdout), result),
        valid_utf8(stdout@),
    ensures
        result matches Ok(found) && {
            let rows = partition_lines(lines(decode_utf8(stdout@)));
            &&& found@.len() == rows.len()
            &&& forall|i: int|
                0 <= i < rows.len() ==> is_of_line(
                    (#[trigger] found@[i])@,
                    line_fields(rows[i]),
                ) && found@[i].parent@ == disk.path@
        },
{
    let listing = lines(decode_utf8(stdout@));
    let rows = partition_lines(listing);
    lemma_listed(listing, disk.path@);
    let found = result->Ok_0;
    assert(partition_views(found@).len() == found@.len());
    assert forall|i: int| 0 <= i < rows.len() implies is_of_line(
        (#[trigger] found@[i])@,
        line_fields(rows[i]),
    ) && found@[i].parent@ == disk.path@ by {
        assert(partition_views(found@)[i] == found@[i]@);
        assert(listed_partitions(listing, disk.path@)[i] == found@[i]@);
    }
}

/// A command that failed, and output that is not text, are errors that say so.
pub proof fn law_failed_listings_are_errors(
    disk: Disk,
    stdout: Vec<u8>,
    success: bool,
    result: Result<Vec<Partition>, Error>,
)
    requires
        call_ensures(Disk::get_partitions, (&disk, success, stdout), result),
        !success || !valid_utf8(stdout@),
    ensures
        result matches Err(error) && if success {
            error.kind == ErrorKind::Decoding && error.text@ == "decoding lsblk output"@
                && error.cause is Some
        } else {
            error.kind == ErrorKind::CommandFailed && error.text@ == "lsblk of "@ + disk.path@
                + " failed"@
        },
{
}

/// Of the pairs of a line, the last one with a key and a value that is not empty gives the field.
proof fn lemma_last_pair_counts(pairs: Seq<(Seq<char>, Seq<char>)>, i: int)
    requires
        0 <= i < pairs.len(),
        pairs[i].1.len() > 0,
        forall|j: int|
            i < j < pairs.len() ==> (#[trigger] pairs[j]).0 != pairs[i].0 || pairs[j].1.len()
                == 0,
    ensures
        ({
            let fields = fields_of(pairs.filter(|p: (Seq<char>, Seq<char>)| p.1.len() > 0));
            fields.contains_key(pairs[i].0) && fields[pairs[i].0] == pairs[i].1
        }),
    decreases pairs.len(),
{
    let kept = |p: (Seq<char>, Seq<char>)| p.1.len() > 0;
    let front = pairs.drop_last();
    let last = pairs.last();
    reveal(Seq::filter);
    assert(last == pairs[pairs.len() - 1]);
    if kept(last) {
        assert(front.filter(kept).push(last).drop_last() == front.filter(kept));
    }
    if i < front.len() {
        assert(front[i] == pairs[i]);
        assert forall|j: int| i < j < front.len() implies (#[trigger] front[j]).0 != front[i].0
            || front[j].1.len() == 0 by {
            assert(front[j] == pairs[j]);
        }
        lemma_last_pair_counts(front, i);
    }
}

/// What is read of a line that `lsblk` wrote: the last pair with a key, made of capital letters and
/// hyphens, and with a value that is not empty gives the field with that key.
pub proof fn law_written_fields_are_read(
    line: &str,
    pairs: Seq<(Seq<char>, Seq<char>)>,
    fields: StringHashMap<String>,
    i: int,
)
    requires
        call_ensures(split_lsblk_line, (line,), fields),
        line@ == written_line(pairs),
        forall|n: int|
            0 <= n < pairs.len() ==> is_key((#[trigger] pairs[n]).0) && is_quotable(pairs[n].1),
        0 <= i < pairs.len(),
        pairs[i].1.len() > 0,
        forall|j: int|
            i < j < pairs.len() ==> (#[trigger] pairs[j]).0 != pairs[i].0 || pairs[j].1.len()
                == 0,
    ensures
        fields@.contains_key(pairs[i].0),
        fields@[pairs[i].0]@ == pairs[i].1,
{
    law_written_pairs_are_read(pairs);
    lemma_last_pair_counts(pairs, i);
    let map = field_texts(fields@);
    assert(map.contains_key(pairs[i].0) == fields@.contains_key(pairs[i].0));
}

/// A span behind other text ends where it ends without it.
proof fn lemma_span_shifts(front: Seq<char>, rest: Seq<char>, at: int, stop: spec_fn(char) -> bool)
    requires
        0 <= at,
    ensures
        span_end(front + rest, front.len() + at, stop) == front.len() + span_end(rest, at, stop),
    decreases rest.len() - at,
{
    let line = front + rest;
    if at < rest.len() {
        assert(line[front.len() + at] == rest[at]);
        if !stop(rest[at]) {
            lemma_span_shifts(front, rest, at + 1, stop);
        }
    }
}

/// The pairs behind other text are found as they are without it.
proof fn lemma_pairs_shift(front: Seq<char>, rest: Seq<char>, at: int)
    requires
        0 <= at,
    ensures
        pairs_from(front + rest, front.len() + at) == pairs_from(rest, at),
    decreases rest.len() - at,
{
    let line = front + rest;
    let n = front.len() as int;
    let key = |c: char| !is_key_char(c);
    let quote = |c: char| c == '"';
    if at < rest.len() {
        lemma_span_end(rest, at, key);
        let equals = span_end(rest, at, key);
        lemma_span_shifts(front, rest, at, key);
        lemma_span_shifts(front, rest, equals + 2, quote);
        if equals + 1 < rest.len() {
            assert(line[n + equals] == rest[equals] && line[n + equals + 1] == rest[equals + 1]);
        }
        match pair_at(rest, at) {
            Some((e, close)) => {
                assert(pair_at(line, n + at) == Some((n + e, n + close)));
                lemma_pairs_shift(front, rest, close + 1);
                assert(line.subrange(n + at, n + e) == rest.subrange(at, e));
                assert(line.subrange(n + e + 2, n + close) == rest.subrange(e + 2, close));
            },
            None => {
                assert(pair_at(line, n + at) is None);
                lemma_pairs_shift(front, rest, at + 1);
            },
        }
    }
}

/// Text before the pairs of a line that holds no equals sign, and does not end in a capital letter
/// or a hyphen, does not count.
pub proof fn law_text_before_pairs_does_not_count(
    line: &str,
    rest: &str,
    front: Seq<char>,
    fields: StringHashMap<String>,
    others: StringHashMap<String>,
)
    requires
        call_ensures(split_lsblk_line, (line,), fields),
        call_ensures(split_lsblk_line, (rest,), others),
        line@ == front + rest@,
        forall|i: int| 0 <= i < front.len() ==> #[trigger] front[i] != '=',
        front.len() > 0 ==> !('A' <= front.last() <= 'Z') && front.last() != '-',
    ensures
        field_texts(fields@) == field_texts(others@),
{
    let text = line@;
    let n = front.len() as int;
    let key = |c: char| !is_key_char(c);
    assert forall|i: int| 0 <= i < n implies #[trigger] pair_at(text, i) is None by {
        lemma_span_end(text, i, key);
        let equals = span_end(text, i, key);
        if equals >= n {
            assert(text[n - 1] == front.last());
            assert(key(text[n - 1]));
            assert(false);
        }
        assert(text[equals] == front[equals]);
    }
    lemma_nothing_between(text, 0, n);
    lemma_pairs_shift(front, rest@, 0);
}

/// A pair at the front of a line gives its field, unless its value is empty or what follows has a
/// field with that key; everything else is read of what follows.
pub proof fn law_a_pair_and_what_follows(
    line: &str,
    rest: &str,
    pair: (Seq<char>, Seq<char>),
    fields: StringHashMap<String>,
    others: StringHashMap<String>,
)
    requires
        call_ensures(split_lsblk_line, (line,), fields),
        call_ensures(split_lsblk_line, (rest,), others),
        line@ == written_pair(pair) + rest@,
        is_key(pair.0),
        is_quotable(pair.1),
    ensures
        pair.1.len() == 0 ==> field_texts(fields@) == field_texts(others@),
        pair.1.len() > 0 ==> field_texts(fields@) == Map::empty().insert(
            pair.0,
            pair.1,
        ).union_prefer_right(field_texts(others@)),
{
    let text = line@;
    let front = written_pair(pair);
    assert(text.subrange(0, front.len() as int) == front);
    lemma_written_pair(text, 0, pair);
    lemma_pairs_shift(front, rest@, 0);
    let found = pairs_from(rest@, 0);
    if pair.1.len() > 0 {
        let one = seq![pair];
        assert(pairs_from(text, 0) == one + found);
        lemma_fields_of_both(one, found);
        assert(one.drop_last() == Seq::<(Seq<char>, Seq<char>)>::empty());
        assert(fields_of(Seq::<(Seq<char>, Seq<char>)>::empty()) == Map::<
            Seq<char>,
            Seq<char>,
        >::empty());
        assert(fields_of(one) == Map::<Seq<char>, Seq<char>>::empty().insert(pair.0, pair.1));
    } else {
        assert(pairs_from(text, 0) == found);
    }
}

/// Every field of a line stands in it as `KEY="VALUE"`, where the key is made of capital letters
/// and hyphens, and the value is not empty and holds no quote.
pub proof fn law_read_fields_stand_in_the_line(
    line: &str,
    fields: StringHashMap<String>,
    key: Seq<char>,
)
    requires
        call_ensures(split_lsblk_line, (line,), fields),
        fields@.contains_key(key),
    ensures
        is_key(key),
        fields@[key]@.len() > 0,
        is_quotable(fields@[key]@),
        exists|at: int| #[trigger] stands_at(line@, written_pair((key, fields@[key]@)), at),
{
    let map = field_texts(fields@);
    assert(map.contains_key(key));
    assert(map[key] == fields@[key]@);
    law_fields_are_not_empty(line@, key);
    law_fields_stand_in_the_line(line@, key);
    let at = choose|at: int| #[trigger] stands_at(line@, written_pair((key, map[key])), at);
    assert(stands_at(line@, written_pair((key, fields@[key]@)), at));
}

} // verus!
