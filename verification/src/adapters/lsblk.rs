//! The block device listing: its `KEY="VALUE"` lines and the devices they
//! describe.

use crate::domain::device::{
    distinct_names, lemma_distinct_names_of_same_devices, rank_devices, ranked, Device,
    DeviceView,
};
use crate::domain::paths::DevicePath;
use crate::domain::units::ByteSize;
use crate::text::{
    after_last_separator, chars_of, decimal_u64, find_char, find_char_from, last_segment_start,
    lemma_find_char_bounds, parse_u64, same_text, starts_with_text, string_of,
};
use vstd::prelude::*;

verus! {

/// ASCII white space: space, tab, line feed, form feed, carriage return.
pub open spec fn is_space(c: char) -> bool {
    c == ' ' || c == '\t' || c == '\n' || c == '\x0C' || c == '\r'
}

/// The first position at or after `i` that holds no white space, or the
/// length of `s`.
pub open spec fn skip_spaces(s: Seq<char>, i: int) -> int
    decreases s.len() - i,
{
    if 0 <= i < s.len() && is_space(s[i]) {
        skip_spaces(s, i + 1)
    } else {
        i
    }
}

/// The pairs of a line, read from position `i` on, in the order they
/// stand.
///
/// A pair is a key, which runs up to the next `=`, and a value, which
/// runs from behind the `=` and one optional `"` up to the next `"` or the
/// end of the line. White space before a key and after a value is
/// skipped. A last key without `=` is dropped.
pub open spec fn pairs_from(s: Seq<char>, i: int) -> Seq<(Seq<char>, Seq<char>)>
    decreases s.len() - i,
    via pairs_from_decreases
{
    let start = skip_spaces(s, i);
    let eq = find_char(s, start, '=');
    if 0 <= i && start < s.len() && eq < s.len() {
        let open = if eq + 1 < s.len() && s[eq + 1] == '"' {
            eq + 2
        } else {
            eq + 1
        };
        let close = find_char(s, open, '"');
        let next = if close < s.len() {
            close + 1
        } else {
            close
        };
        seq![(s.subrange(start, eq), s.subrange(open, close))] + pairs_from(s, next)
    } else {
        Seq::empty()
    }
}

#[via_fn]
proof fn pairs_from_decreases(s: Seq<char>, i: int) {
    if 0 <= i <= s.len() {
        lemma_skip_spaces_bounds(s, i);
        let start = skip_spaces(s, i);
        lemma_find_char_bounds(s, start, '=');
        let eq = find_char(s, start, '=');
        if eq < s.len() {
            let open = if eq + 1 < s.len() && s[eq + 1] == '"' {
                eq + 2
            } else {
                eq + 1
            };
            lemma_find_char_bounds(s, open, '"');
        }
    }
}

/// The map that a sequence of pairs makes: a later pair replaces an
/// earlier one with the same key.
pub open spec fn map_of(pairs: Seq<(Seq<char>, Seq<char>)>) -> Map<Seq<char>, Seq<char>>
    decreases pairs.len(),
{
    if pairs.len() == 0 {
        Map::empty()
    } else {
        map_of(pairs.drop_last()).insert(pairs.last().0, pairs.last().1)
    }
}

/// What a line of the listing says: its keys with their values.
pub open spec fn record_of(line: Seq<char>) -> Map<Seq<char>, Seq<char>> {
    map_of(pairs_from(line, 0))
}

/// [`skip_spaces`] stays within the line and stops at what is no white
/// space.
pub proof fn lemma_skip_spaces_bounds(s: Seq<char>, i: int)
    requires
        0 <= i <= s.len(),
    ensures
        i <= skip_spaces(s, i) <= s.len(),
        skip_spaces(s, i) < s.len() ==> !is_space(s[skip_spaces(s, i)]),
    decreases s.len() - i,
{
    if i < s.len() && is_space(s[i]) {
        lemma_skip_spaces_bounds(s, i + 1);
    }
}

fn char_is_space(c: char) -> (r: bool)
    ensures
        r == is_space(c),
{
    c == ' ' || c == '\t' || c == '\n' || c == '\x0C' || c == '\r'
}

fn skip_spaces_from(s: &Vec<char>, i: usize) -> (r: usize)
    requires
        i <= s@.len(),
    ensures
        r == skip_spaces(s@, i as int),
        i <= r <= s@.len(),
{
    let mut j = i;
    while j < s.len() && char_is_space(s[j])
        invariant
            i <= j <= s@.len(),
            skip_spaces(s@, i as int) == skip_spaces(s@, j as int),
        decreases s@.len() - j,
    {
        j += 1;
    }
    j
}

/// The keys and values of one line of the listing.
///
/// Its view is the map from key to value; [`KeyValues::get`] reads it.
#[derive(Debug)]
pub struct KeyValues {
    entries: Vec<(String, String)>,
}

impl View for KeyValues {
    type V = Map<Seq<char>, Seq<char>>;

    closed spec fn view(&self) -> Map<Seq<char>, Seq<char>> {
        map_of(self.entries.deep_view())
    }
}

impl DeepView for KeyValues {
    type V = Map<Seq<char>, Seq<char>>;

    open spec fn deep_view(&self) -> Map<Seq<char>, Seq<char>> {
        self@
    }
}

impl KeyValues {
    /// The value of `key`, if the line has that key.
    pub fn get(&self, key: &str) -> (r: Option<&String>)
        ensures
            r is Some == self@.contains_key(key@),
            r is Some ==> r->0@ == self@[key@],
    {
        let mut i: usize = self.entries.len();
        proof {
            assert(self.entries.deep_view().subrange(0, i as int) =~= self.entries.deep_view());
        }
        while i > 0
            invariant
                i <= self.entries@.len(),
                self@.contains_key(key@) == map_of(
                    self.entries.deep_view().subrange(0, i as int),
                ).contains_key(key@),
                self@.contains_key(key@) ==> self@[key@] == map_of(
                    self.entries.deep_view().subrange(0, i as int),
                )[key@],
            decreases i,
        {
            let ghost prefix = self.entries.deep_view().subrange(0, i as int);
            proof {
                assert(prefix.drop_last() =~= self.entries.deep_view().subrange(0, i - 1));
                assert(prefix.last() == (self.entries@[i - 1].0@, self.entries@[i - 1].1@));
            }
            i -= 1;
            if crate::text::same_text(self.entries[i].0.as_str(), key) {
                return Some(&self.entries[i].1);
            }
        }
        None
    }
}

/// Reads one line of the listing into its keys and values. Malformed
/// input is never an error: what cannot be read is left out.
pub fn parse_key_value_line(s: &str) -> (r: KeyValues)
    ensures
        r@ == record_of(s@),
{
    let b = chars_of(s);
    let mut entries: Vec<(String, String)> = Vec::new();
    let mut i: usize = 0;
    proof {
        assert(entries.deep_view() =~= Seq::empty());
    }
    loop
        invariant
            b@ == s@,
            i <= b@.len(),
            pairs_from(b@, 0) == entries.deep_view() + pairs_from(b@, i as int),
        ensures
            pairs_from(s@, 0) == entries.deep_view(),
        decreases b@.len() - i,
    {
        let start = skip_spaces_from(&b, i);
        if start >= b.len() {
            break;
        }
        let eq = find_char_from(&b, start, '=');
        if eq >= b.len() {
            break;
        }
        let key = string_of(&b, start, eq);
        let mut open = eq + 1;
        if open < b.len() && b[open] == '"' {
            open += 1;
        }
        let close = find_char_from(&b, open, '"');
        let val = string_of(&b, open, close);
        let next = if close < b.len() {
            close + 1
        } else {
            close
        };
        let ghost before = entries.deep_view();
        entries.push((key, val));
        proof {
            let pair = (b@.subrange(start as int, eq as int), b@.subrange(open as int, close as int));
            assert(entries.deep_view() =~= before.push(pair));
            assert(pairs_from(b@, i as int) == seq![pair] + pairs_from(b@, next as int));
            assert(before + (seq![pair] + pairs_from(b@, next as int)) =~= before.push(pair)
                + pairs_from(b@, next as int));
        }
        i = next;
    }
    KeyValues { entries }
}

/// The lines of `s` from position `i` on. Lines end at a line feed; a
/// carriage return just before it is not part of the line; a line feed at
/// the very end opens no further line.
pub open spec fn lines_from(s: Seq<char>, i: int) -> Seq<Seq<char>>
    decreases s.len() - i,
    via lines_from_decreases
{
    if 0 <= i < s.len() {
        let end = find_char(s, i, '\n');
        if end < s.len() {
            let stop = if end > i && s[end - 1] == '\r' {
                end - 1
            } else {
                end
            };
            seq![s.subrange(i, stop)] + lines_from(s, end + 1)
        } else {
            seq![s.subrange(i, s.len() as int)]
        }
    } else {
        Seq::empty()
    }
}

#[via_fn]
proof fn lines_from_decreases(s: Seq<char>, i: int) {
    if 0 <= i < s.len() {
        lemma_find_char_bounds(s, i, '\n');
    }
}

/// What one line of the listing says.
pub type Record = Map<Seq<char>, Seq<char>>;

/// The records of a listing, one for each of its lines.
pub open spec fn records_of(listing: Seq<char>) -> Seq<Record> {
    let lines = lines_from(listing, 0);
    Seq::new(lines.len(), |i: int| record_of(lines[i]))
}

/// The value of `key` in `r`, or the empty text if `r` has no such key.
pub open spec fn field(r: Record, key: Seq<char>) -> Seq<char> {
    if r.contains_key(key) {
        r[key]
    } else {
        Seq::empty()
    }
}

/// The value of `key` in `r`, if `r` has the key with a value that is not
/// empty.
pub open spec fn text_field(r: Record, key: Seq<char>) -> Option<Seq<char>> {
    if field(r, key).len() > 0 {
        Some(field(r, key))
    } else {
        None
    }
}

/// Whether `r` sets the flag `key`, which it does with the value `1`.
pub open spec fn flag(r: Record, key: Seq<char>) -> bool {
    field(r, key) == "1"@
}

/// Whether `r` describes a whole disk.
pub open spec fn is_disk(r: Record) -> bool {
    r.contains_key("NAME"@) && field(r, "TYPE"@) == "disk"@
}

/// Whether `r` describes the disk called `name`.
pub open spec fn seeds(r: Record, name: Seq<char>) -> bool {
    is_disk(r) && r["NAME"@] == name
}

/// Whether `r` describes a partition of the disk called `name`.
pub open spec fn is_part_of(r: Record, name: Seq<char>) -> bool {
    r.contains_key("NAME"@) && field(r, "TYPE"@) == "part"@ && name.len() > 0 && field(
        r,
        "PKNAME"@,
    ) == name
}

/// Whether `r` is a mounted partition of the disk called `name`.
pub open spec fn mounted_part(r: Record, name: Seq<char>) -> bool {
    is_part_of(r, name) && field(r, "MOUNTPOINT"@).len() > 0
}

/// Whether `r` is a partition of the disk called `name` that is mounted
/// at the root of the filesystem.
pub open spec fn root_part(r: Record, name: Seq<char>) -> bool {
    is_part_of(r, name) && field(r, "MOUNTPOINT"@) == seq!['/']
}

/// The label a partition contributes: its own, or else the last segment
/// of its mount point. Empty if it has neither.
pub open spec fn label_of(r: Record) -> Seq<char> {
    if field(r, "LABEL"@).len() > 0 {
        field(r, "LABEL"@)
    } else {
        after_last_separator(field(r, "MOUNTPOINT"@))
    }
}

/// The position of the record that describes the disk called `name`: the
/// last one, if several do.
pub open spec fn disk_index(rs: Seq<Record>, name: Seq<char>) -> Option<int>
    decreases rs.len(),
{
    if rs.len() == 0 {
        None
    } else if seeds(rs.last(), name) {
        Some(rs.len() - 1)
    } else {
        disk_index(rs.drop_last(), name)
    }
}

/// Whether some partition of the disk called `name` is mounted.
pub open spec fn is_mounted(rs: Seq<Record>, name: Seq<char>) -> bool {
    exists|i: int| 0 <= i < rs.len() && mounted_part(#[trigger] rs[i], name)
}

/// Whether the disk called `name` holds the root filesystem.
pub open spec fn hosts_root(rs: Seq<Record>, name: Seq<char>) -> bool {
    exists|i: int| 0 <= i < rs.len() && root_part(#[trigger] rs[i], name)
}

/// The labels of the partitions of the disk called `name`, each once, in
/// the order in which they first occur.
pub open spec fn labels_of(rs: Seq<Record>, name: Seq<char>) -> Seq<Seq<char>>
    decreases rs.len(),
{
    if rs.len() == 0 {
        Seq::empty()
    } else {
        let before = labels_of(rs.drop_last(), name);
        let label = label_of(rs.last());
        if is_part_of(rs.last(), name) && label.len() > 0 && !before.contains(label) {
            before.push(label)
        } else {
            before
        }
    }
}

/// The size a disk record gives, or 0 where it gives none that can be
/// read.
pub open spec fn size_of(r: Record) -> nat {
    match decimal_u64(field(r, "SIZE"@)) {
        Some(n) => n as nat,
        None => 0,
    }
}

/// Whether the listing marks the disk called `name` read-only.
pub open spec fn is_read_only(rs: Seq<Record>, name: Seq<char>) -> bool {
    disk_index(rs, name) is Some && flag(rs[disk_index(rs, name)->0], "RO"@)
}

/// Whether `name` is the name of a loop device.
pub open spec fn is_loop_name(name: Seq<char>) -> bool {
    "loop"@.is_prefix_of(name)
}

/// Whether the disk called `name` is offered as a target: the listing
/// describes it, it is no loop device, it is writable and it does not
/// hold the root filesystem.
pub open spec fn is_listed(rs: Seq<Record>, name: Seq<char>) -> bool {
    &&& disk_index(rs, name) is Some
    &&& !is_loop_name(name)
    &&& !is_read_only(rs, name)
    &&& !hosts_root(rs, name)
}

/// The device that the listing describes under `name`.
pub open spec fn device_of(rs: Seq<Record>, name: Seq<char>) -> DeviceView {
    let disk = rs[disk_index(rs, name)->0];
    DeviceView {
        name,
        path: "/dev/"@ + name,
        size: size_of(disk),
        model: text_field(disk, "MODEL"@),
        serial: text_field(disk, "SERIAL"@),
        tran: text_field(disk, "TRAN"@),
        removable: flag(disk, "RM"@),
        hotplug: flag(disk, "HOTPLUG"@),
        ro: flag(disk, "RO"@),
        mounted: is_mounted(rs, name),
        labels: labels_of(rs, name),
    }
}

/// Whether `out` holds a device called `name`.
pub open spec fn names(out: Seq<DeviceView>, name: Seq<char>) -> bool {
    exists|i: int| 0 <= i < out.len() && (#[trigger] out[i]).name == name
}

/// Whether `out` is what discovery makes of the records `rs`: exactly the
/// disks that are offered as targets, each once and as the listing
/// describes it, in rank order.
pub open spec fn is_discovery_of(out: Seq<DeviceView>, rs: Seq<Record>) -> bool {
    &&& ranked(out)
    &&& distinct_names(out)
    &&& forall|i: int|
        0 <= i < out.len() ==> is_listed(rs, (#[trigger] out[i]).name) && out[i] == device_of(
            rs,
            out[i].name,
        )
    &&& forall|name: Seq<char>| #[trigger] is_listed(rs, name) ==> names(out, name)
}

/// A record found by [`disk_index`] lies in the list and describes the
/// disk asked for.
pub proof fn lemma_disk_index_found(rs: Seq<Record>, name: Seq<char>)
    ensures
        disk_index(rs, name) is Some ==> 0 <= disk_index(rs, name)->0 < rs.len() && seeds(
            rs[disk_index(rs, name)->0],
            name,
        ),
    decreases rs.len(),
{
    if rs.len() > 0 && !seeds(rs.last(), name) {
        lemma_disk_index_found(rs.drop_last(), name);
    }
}

/// How [`disk_index`] grows with one more record.
proof fn lemma_disk_index_step(rs: Seq<Record>, i: int, name: Seq<char>)
    requires
        0 <= i < rs.len(),
    ensures
        disk_index(rs.subrange(0, i + 1), name) == if seeds(rs[i], name) {
            Some(i)
        } else {
            disk_index(rs.subrange(0, i), name)
        },
{
    assert(rs.subrange(0, i + 1).drop_last() =~= rs.subrange(0, i));
}

/// How [`labels_of`] grows with one more record.
proof fn lemma_labels_step(rs: Seq<Record>, i: int, name: Seq<char>)
    requires
        0 <= i < rs.len(),
    ensures
        labels_of(rs.subrange(0, i + 1), name) == {
            let before = labels_of(rs.subrange(0, i), name);
            let label = label_of(rs[i]);
            if is_part_of(rs[i], name) && label.len() > 0 && !before.contains(label) {
                before.push(label)
            } else {
                before
            }
        },
{
    assert(rs.subrange(0, i + 1).drop_last() =~= rs.subrange(0, i));
}

/// Discovery has one outcome: two lists that are each what discovery
/// makes of the same records are the same list.
pub proof fn lemma_discovery_is_unique(rs: Seq<Record>, a: Seq<DeviceView>, b: Seq<DeviceView>)
    requires
        is_discovery_of(a, rs),
        is_discovery_of(b, rs),
    ensures
        a == b,
{
    assert forall|d: DeviceView| a.contains(d) <==> b.contains(d) by {
        if a.contains(d) {
            let i = choose|i: int| 0 <= i < a.len() && a[i] == d;
            assert(is_listed(rs, a[i].name));
            assert(names(b, d.name));
            let j = choose|j: int| 0 <= j < b.len() && (#[trigger] b[j]).name == d.name;
            assert(b[j] == d);
        }
        if b.contains(d) {
            let i = choose|i: int| 0 <= i < b.len() && b[i] == d;
            assert(is_listed(rs, b[i].name));
            assert(names(a, d.name));
            let j = choose|j: int| 0 <= j < a.len() && (#[trigger] a[j]).name == d.name;
            assert(a[j] == d);
        }
    }
    crate::domain::device::lemma_ranking_is_unique(a, b);
}

/// The record that describes the disk called `name`, if the listing
/// describes it.
pub open spec fn disk_record(rs: Seq<Record>, name: Seq<char>) -> Option<Record> {
    match disk_index(rs, name) {
        Some(i) => Some(rs[i]),
        None => None,
    }
}

/// The partition records of the disk called `name`, in the order of the
/// listing.
pub open spec fn parts_of(rs: Seq<Record>, name: Seq<char>) -> Seq<Record>
    decreases rs.len(),
{
    if rs.len() == 0 {
        Seq::empty()
    } else if is_part_of(rs.last(), name) {
        parts_of(rs.drop_last(), name).push(rs.last())
    } else {
        parts_of(rs.drop_last(), name)
    }
}

/// Whether two listings say the same of every disk: they describe it by
/// the same record and hold the same records of its partitions in the
/// same order. That is so where one listing is the other with the blocks
/// of its disks, each a disk with its partitions, put in another order.
pub open spec fn same_disks(a: Seq<Record>, b: Seq<Record>) -> bool {
    forall|name: Seq<char>|
        #![trigger disk_record(a, name)]
        #![trigger parts_of(a, name)]
        disk_record(a, name) == disk_record(b, name) && parts_of(a, name) == parts_of(b, name)
}

/// The partition records of a disk are the records of the listing that
/// describe a partition of it.
proof fn lemma_parts_hold(rs: Seq<Record>, name: Seq<char>)
    ensures
        forall|r: Record| #[trigger]
            parts_of(rs, name).contains(r) <==> rs.contains(r) && is_part_of(r, name),
    decreases rs.len(),
{
    if rs.len() > 0 {
        let shorter = rs.drop_last();
        lemma_parts_hold(shorter, name);
        let before = parts_of(shorter, name);
        assert forall|r: Record| #[trigger]
            parts_of(rs, name).contains(r) <==> rs.contains(r) && is_part_of(r, name) by {
            if parts_of(rs, name).contains(r) {
                let i = choose|i: int| 0 <= i < parts_of(rs, name).len() && parts_of(rs, name)[i]
                    == r;
                if i < before.len() {
                    assert(before[i] == r);
                    assert(before.contains(r));
                    let k = choose|k: int| 0 <= k < shorter.len() && shorter[k] == r;
                    assert(rs[k] == r);
                } else {
                    assert(rs[rs.len() - 1] == r);
                }
            }
            if rs.contains(r) && is_part_of(r, name) {
                let k = choose|k: int| 0 <= k < rs.len() && rs[k] == r;
                if k < shorter.len() {
                    assert(shorter[k] == r);
                    assert(before.contains(r));
                    let i = choose|i: int| 0 <= i < before.len() && before[i] == r;
                    assert(parts_of(rs, name)[i] == r);
                } else {
                    assert(parts_of(rs, name)[before.len() as int] == r);
                }
            }
        }
    }
}

/// Whether a disk is mounted, whether it holds the root filesystem and
/// what its labels are depends on the records of its partitions alone,
/// in their order.
proof fn lemma_facts_come_from_parts(rs: Seq<Record>, name: Seq<char>)
    ensures
        is_mounted(rs, name) == is_mounted(parts_of(rs, name), name),
        hosts_root(rs, name) == hosts_root(parts_of(rs, name), name),
        labels_of(rs, name) == labels_of(parts_of(rs, name), name),
    decreases rs.len(),
{
    let parts = parts_of(rs, name);
    lemma_parts_hold(rs, name);
    if is_mounted(rs, name) {
        let i = choose|i: int| 0 <= i < rs.len() && mounted_part(#[trigger] rs[i], name);
        assert(rs.contains(rs[i]));
        assert(parts.contains(rs[i]));
        let j = choose|j: int| 0 <= j < parts.len() && parts[j] == rs[i];
        assert(mounted_part(parts[j], name));
    }
    if is_mounted(parts, name) {
        let j = choose|j: int| 0 <= j < parts.len() && mounted_part(#[trigger] parts[j], name);
        assert(parts.contains(parts[j]));
        let i = choose|i: int| 0 <= i < rs.len() && rs[i] == parts[j];
        assert(mounted_part(rs[i], name));
    }
    if hosts_root(rs, name) {
        let i = choose|i: int| 0 <= i < rs.len() && root_part(#[trigger] rs[i], name);
        assert(rs.contains(rs[i]));
        assert(parts.contains(rs[i]));
        let j = choose|j: int| 0 <= j < parts.len() && parts[j] == rs[i];
        assert(root_part(parts[j], name));
    }
    if hosts_root(parts, name) {
        let j = choose|j: int| 0 <= j < parts.len() && root_part(#[trigger] parts[j], name);
        assert(parts.contains(parts[j]));
        let i = choose|i: int| 0 <= i < rs.len() && rs[i] == parts[j];
        assert(root_part(rs[i], name));
    }
    if rs.len() > 0 {
        lemma_facts_come_from_parts(rs.drop_last(), name);
        if is_part_of(rs.last(), name) {
            let before = parts_of(rs.drop_last(), name);
            assert(parts.drop_last() =~= before);
            assert(parts.last() == rs.last());
        }
    } else {
        assert(parts =~= Seq::<Record>::empty());
    }
}

/// Whether some record of `rs` is about the disk called `name`: describes
/// it or describes a partition of it.
pub open spec fn touches(rs: Seq<Record>, name: Seq<char>) -> bool {
    exists|i: int|
        0 <= i < rs.len() && (seeds(#[trigger] rs[i], name) || is_part_of(rs[i], name))
}

/// Records that are not about a disk say nothing of it.
proof fn lemma_untouched(rs: Seq<Record>, name: Seq<char>)
    requires
        !touches(rs, name),
    ensures
        disk_record(rs, name) is None,
        parts_of(rs, name) == Seq::<Record>::empty(),
    decreases rs.len(),
{
    if rs.len() > 0 {
        let shorter = rs.drop_last();
        assert(!seeds(rs[rs.len() - 1], name) && !is_part_of(rs[rs.len() - 1], name));
        if touches(shorter, name) {
            let i = choose|i: int|
                0 <= i < shorter.len() && (seeds(#[trigger] shorter[i], name) || is_part_of(
                    shorter[i],
                    name,
                ));
            assert(seeds(rs[i], name) || is_part_of(rs[i], name));
        }
        lemma_untouched(shorter, name);
    }
}

/// What two runs of records, one after the other, say of a disk: the
/// record that describes it is that of the second run where it has one,
/// and its partitions are those of the first run followed by those of
/// the second.
proof fn lemma_one_after_the_other(u: Seq<Record>, v: Seq<Record>, name: Seq<char>)
    ensures
        disk_record(u + v, name) == if disk_record(v, name) is Some {
            disk_record(v, name)
        } else {
            disk_record(u, name)
        },
        parts_of(u + v, name) == parts_of(u, name) + parts_of(v, name),
    decreases v.len(),
{
    if v.len() == 0 {
        assert(u + v =~= u);
        assert(parts_of(u, name) + parts_of(v, name) =~= parts_of(u, name));
    } else {
        let both = u + v;
        let shorter = u + v.drop_last();
        assert(both.drop_last() =~= shorter);
        assert(both.last() == v.last());
        lemma_one_after_the_other(u, v.drop_last(), name);
        lemma_disk_index_found(shorter, name);
        lemma_disk_index_found(v.drop_last(), name);
        lemma_disk_index_found(u, name);
        if !seeds(v.last(), name) {
            if disk_index(shorter, name) is Some {
                assert(both[disk_index(shorter, name)->0] == shorter[disk_index(shorter, name)->0]);
            }
            if disk_index(v.drop_last(), name) is Some {
                assert(v[disk_index(v.drop_last(), name)->0] == v.drop_last()[disk_index(
                    v.drop_last(),
                    name,
                )->0]);
            }
        }
        if is_part_of(v.last(), name) {
            assert(parts_of(u, name) + parts_of(v.drop_last(), name).push(v.last())
                =~= (parts_of(u, name) + parts_of(v.drop_last(), name)).push(v.last()));
        }
    }
}

/// Two blocks of records that are about different disks may change
/// places: the listing says the same of every disk as before.
pub proof fn lemma_blocks_may_change_places(
    before: Seq<Record>,
    first: Seq<Record>,
    second: Seq<Record>,
    after: Seq<Record>,
)
    requires
        forall|name: Seq<char>| !(#[trigger] touches(first, name) && touches(second, name)),
    ensures
        same_disks(before + first + second + after, before + second + first + after),
{
    let a = before + first + second + after;
    let b = before + second + first + after;
    assert forall|name: Seq<char>|
        #![trigger disk_record(a, name)]
        #![trigger parts_of(a, name)]
        disk_record(a, name) == disk_record(b, name) && parts_of(a, name) == parts_of(
            b,
            name,
        ) by {
        assert(!(touches(first, name) && touches(second, name)));
        lemma_one_after_the_other(before + first + second, after, name);
        lemma_one_after_the_other(before + second + first, after, name);
        lemma_one_after_the_other(before + first, second, name);
        lemma_one_after_the_other(before + second, first, name);
        lemma_one_after_the_other(before, first, name);
        lemma_one_after_the_other(before, second, name);
        if !touches(first, name) {
            lemma_untouched(first, name);
        }
        if !touches(second, name) {
            lemma_untouched(second, name);
        }
        assert(parts_of(before, name) + Seq::<Record>::empty() =~= parts_of(before, name));
        assert(parts_of(a, name) =~= parts_of(b, name));
    }
}

/// Two listings that say the same of every disk offer the same disks and
/// describe each of them alike.
pub proof fn lemma_same_disks_same_devices(a: Seq<Record>, b: Seq<Record>, name: Seq<char>)
    requires
        same_disks(a, b),
    ensures
        is_listed(a, name) == is_listed(b, name),
        disk_index(a, name) is Some ==> device_of(a, name) == device_of(b, name),
{
    assert(disk_record(a, name) == disk_record(b, name));
    assert(parts_of(a, name) == parts_of(b, name));
    lemma_facts_come_from_parts(a, name);
    lemma_facts_come_from_parts(b, name);
}

/// Discovery does not depend on the order in which the disks are listed:
/// of two listings that say the same of every disk, as when the blocks of
/// a listing are put in another order, discovery makes the same list,
/// with the same devices in the same order.
pub proof fn lemma_discovery_ignores_listing_order(
    a: Seq<Record>,
    b: Seq<Record>,
    from_a: Seq<DeviceView>,
    from_b: Seq<DeviceView>,
)
    requires
        same_disks(a, b),
        is_discovery_of(from_a, a),
        is_discovery_of(from_b, b),
    ensures
        from_a == from_b,
{
    assert forall|i: int| 0 <= i < from_b.len() implies is_listed(a, (#[trigger] from_b[i]).name)
        && from_b[i] == device_of(a, from_b[i].name) by {
        lemma_same_disks_same_devices(a, b, from_b[i].name);
    }
    assert forall|name: Seq<char>| #[trigger] is_listed(a, name) implies names(from_b, name) by {
        lemma_same_disks_same_devices(a, b, name);
    }
    lemma_discovery_is_unique(a, from_a, from_b);
}

/// The value of `key` in `kv`, or the empty text.
fn field_text<'a>(kv: &'a KeyValues, key: &str) -> (r: &'a str)
    ensures
        r@ == field(kv@, key@),
{
    match kv.get(key) {
        Some(v) => v.as_str(),
        None => {
            proof {
                reveal_strlit("");
                assert(""@ =~= Seq::<char>::empty());
            }
            ""
        },
    }
}

/// The value of `key` in `kv`, if it has one that is not empty.
fn optional_text(kv: &KeyValues, key: &str) -> (r: Option<String>)
    ensures
        r.deep_view() == text_field(kv@, key@),
{
    let v = field_text(kv, key);
    if v.unicode_len() > 0 {
        Some(v.to_owned())
    } else {
        None
    }
}

/// Whether `kv` sets the flag `key`.
fn flag_set(kv: &KeyValues, key: &str) -> (r: bool)
    ensures
        r == flag(kv@, key@),
{
    same_text(field_text(kv, key), "1")
}

/// Whether `kv` describes a partition of the disk called `name`.
fn describes_part_of(kv: &KeyValues, name: &str) -> (r: bool)
    ensures
        r == is_part_of(kv@, name@),
{
    kv.get("NAME").is_some() && same_text(field_text(kv, "TYPE"), "part") && name.unicode_len() > 0
        && same_text(field_text(kv, "PKNAME"), name)
}

/// The lines of `text`.
pub fn split_lines(text: &str) -> (r: Vec<String>)
    ensures
        r.deep_view() == lines_from(text@, 0),
{
    let b = chars_of(text);
    let mut out: Vec<String> = Vec::new();
    let mut i: usize = 0;
    assert(out.deep_view() =~= Seq::<Seq<char>>::empty());
    while i < b.len()
        invariant
            b@ == text@,
            i <= b@.len(),
            lines_from(b@, 0) == out.deep_view() + lines_from(b@, i as int),
        decreases b@.len() - i,
    {
        let end = find_char_from(&b, i, '\n');
        let stop = if end < b.len() && end > i && b[end - 1] == '\r' {
            end - 1
        } else {
            end
        };
        let line = string_of(&b, i, stop);
        let next = if end < b.len() {
            end + 1
        } else {
            end
        };
        let ghost before = out.deep_view();
        proof {
            let rest = lines_from(b@, next as int);
            assert(lines_from(b@, i as int) =~= seq![line@] + rest) by {
                if end >= b@.len() {
                    assert(rest =~= Seq::<Seq<char>>::empty());
                }
            }
            assert(before + (seq![line@] + rest) =~= before.push(line@) + rest);
        }
        out.push(line);
        assert(out.deep_view() =~= before.push(line@));
        i = next;
    }
    proof {
        assert(lines_from(b@, i as int) =~= Seq::<Seq<char>>::empty());
        assert(out.deep_view() + Seq::<Seq<char>>::empty() =~= out.deep_view());
    }
    out
}

/// The records of a listing.
pub fn parse_listing(listing: &str) -> (r: Vec<KeyValues>)
    ensures
        r.deep_view() == records_of(listing@),
{
    let lines = split_lines(listing);
    let mut out: Vec<KeyValues> = Vec::new();
    let mut i: usize = 0;
    while i < lines.len()
        invariant
            i <= lines@.len(),
            out@.len() == i,
            forall|k: int| 0 <= k < i ==> (#[trigger] out@[k])@ == record_of(lines@[k]@),
        decreases lines@.len() - i,
    {
        let record = parse_key_value_line(lines[i].as_str());
        out.push(record);
        i += 1;
    }
    assert(out.deep_view() =~= records_of(listing@));
    out
}

/// A disk seen in the listing, with the position of the record that
/// describes it.
struct Slot {
    name: String,
    seed: usize,
}

/// Whether `slots` names the disk called `name`.
spec fn has_slot(slots: Seq<Slot>, name: Seq<char>) -> bool {
    exists|k: int| 0 <= k < slots.len() && (#[trigger] slots[k]).name@ == name
}

/// Whether `slots` holds exactly the disks of `rs`, each once, with the
/// record that describes it.
spec fn slots_cover(slots: Seq<Slot>, rs: Seq<Record>) -> bool {
    &&& forall|k: int|
        0 <= k < slots.len() ==> disk_index(rs, (#[trigger] slots[k]).name@) == Some(
            slots[k].seed as int,
        )
    &&& forall|k1: int, k2: int|
        0 <= k1 < k2 < slots.len() ==> (#[trigger] slots[k1]).name@ != (#[trigger] slots[k2]).name@
    &&& forall|name: Seq<char>| #[trigger] disk_index(rs, name) is Some ==> has_slot(slots, name)
}

/// Where `slots` names the disk called `name`, if it does.
fn find_slot(slots: &Vec<Slot>, name: &str) -> (r: Option<usize>)
    ensures
        r is Some ==> r->0 < slots@.len() && slots@[r->0 as int].name@ == name@,
        r is None ==> !has_slot(slots@, name@),
{
    let mut k: usize = 0;
    while k < slots.len()
        invariant
            k <= slots@.len(),
            forall|j: int| 0 <= j < k ==> (#[trigger] slots@[j]).name@ != name@,
        decreases slots@.len() - k,
    {
        if same_text(slots[k].name.as_str(), name) {
            return Some(k);
        }
        k += 1;
    }
    None
}

/// The disks that the records describe.
fn seed_disks(records: &Vec<KeyValues>) -> (slots: Vec<Slot>)
    ensures
        slots_cover(slots@, records.deep_view()),
{
    let ghost rs = records.deep_view();
    let mut slots: Vec<Slot> = Vec::new();
    let mut i: usize = 0;
    assert(rs.subrange(0, 0) =~= Seq::<Record>::empty());
    while i < records.len()
        invariant
            rs == records.deep_view(),
            i <= records@.len(),
            slots_cover(slots@, rs.subrange(0, i as int)),
        decreases records@.len() - i,
    {
        let ghost before = slots@;
        let ghost prefix = rs.subrange(0, i as int);
        let ghost longer = rs.subrange(0, i + 1);
        assert(rs[i as int] == records@[i as int]@);
        let record = &records[i];
        let mut is_new_disk = false;
        let ghost mut touched: int = 0;
        match record.get("NAME") {
            Some(name) => {
                if same_text(field_text(record, "TYPE"), "disk") {
                    is_new_disk = true;
                    match find_slot(&slots, name.as_str()) {
                        Some(k) => {
                            slots.set(k, Slot { name: name.clone(), seed: i });
                            proof {
                                touched = k as int;
                            }
                        },
                        None => {
                            slots.push(Slot { name: name.clone(), seed: i });
                            proof {
                                touched = before.len() as int;
                            }
                        },
                    }
                }
            },
            None => {},
        }
        proof {
            let here = rs[i as int];
            assert(is_new_disk == is_disk(here));
            assert forall|k: int| 0 <= k < slots@.len() implies disk_index(
                longer,
                (#[trigger] slots@[k]).name@,
            ) == Some(slots@[k].seed as int) by {
                lemma_disk_index_step(rs, i as int, slots@[k].name@);
                if k < before.len() {
                    assert(before[k].name@ == slots@[k].name@);
                }
            }
            assert forall|k1: int, k2: int| 0 <= k1 < k2 < slots@.len() implies (
            #[trigger] slots@[k1]).name@ != (#[trigger] slots@[k2]).name@ by {
                if k2 < before.len() {
                    assert(before[k1].name@ == slots@[k1].name@);
                    assert(before[k2].name@ == slots@[k2].name@);
                } else {
                    assert(before[k1].name@ == slots@[k1].name@);
                }
            }
            assert forall|name: Seq<char>| #[trigger]
                disk_index(longer, name) is Some implies has_slot(slots@, name) by {
                lemma_disk_index_step(rs, i as int, name);
                if seeds(here, name) {
                    assert(slots@[touched].name@ == name);
                } else {
                    assert(has_slot(before, name));
                    let k = choose|k: int| 0 <= k < before.len() && (#[trigger] before[k]).name@
                        == name;
                    assert(slots@[k].name@ == name);
                }
            }
        }
        i += 1;
    }
    assert(rs.subrange(0, i as int) =~= rs);
    slots
}

/// Whether `labels` holds `label`.
fn holds_label(labels: &Vec<String>, label: &str) -> (r: bool)
    ensures
        r == labels.deep_view().contains(label@),
{
    let mut k: usize = 0;
    while k < labels.len()
        invariant
            k <= labels@.len(),
            forall|j: int| 0 <= j < k ==> labels.deep_view()[j] != label@,
        decreases labels@.len() - k,
    {
        if same_text(labels[k].as_str(), label) {
            assert(labels.deep_view()[k as int] == label@);
            return true;
        }
        k += 1;
    }
    false
}

/// The label that a partition's record contributes.
fn label_text(kv: &KeyValues) -> (r: String)
    ensures
        r@ == label_of(kv@),
{
    let own = field_text(kv, "LABEL");
    if own.unicode_len() > 0 {
        own.to_owned()
    } else {
        let mount = chars_of(field_text(kv, "MOUNTPOINT"));
        let start = last_segment_start(&mount);
        string_of(&mount, start, mount.len())
    }
}

/// What the partitions of the disk called `name` say of it: whether any
/// is mounted, whether one is mounted at the root, and their labels.
fn partition_facts(records: &Vec<KeyValues>, name: &str) -> (r: (bool, bool, Vec<String>))
    ensures
        r.0 == is_mounted(records.deep_view(), name@),
        r.1 == hosts_root(records.deep_view(), name@),
        r.2.deep_view() == labels_of(records.deep_view(), name@),
{
    let ghost rs = records.deep_view();
    let mut mounted = false;
    let mut root = false;
    let mut labels: Vec<String> = Vec::new();
    let mut i: usize = 0;
    proof {
        assert(rs.subrange(0, 0) =~= Seq::<Record>::empty());
        assert(labels.deep_view() =~= Seq::<Seq<char>>::empty());
    }
    while i < records.len()
        invariant
            rs == records.deep_view(),
            i <= records@.len(),
            mounted == (exists|j: int| 0 <= j < i && mounted_part(#[trigger] rs[j], name@)),
            root == (exists|j: int| 0 <= j < i && root_part(#[trigger] rs[j], name@)),
            labels.deep_view() == labels_of(rs.subrange(0, i as int), name@),
        decreases records@.len() - i,
    {
        assert(rs[i as int] == records@[i as int]@);
        let record = &records[i];
        let ghost labels_before = labels.deep_view();
        proof {
            lemma_labels_step(rs, i as int, name@);
        }
        if describes_part_of(record, name) {
            let mount = field_text(record, "MOUNTPOINT");
            if mount.unicode_len() > 0 {
                mounted = true;
                proof {
                    reveal_strlit("/");
                    assert("/"@ =~= seq!['/']);
                }
                if same_text(mount, "/") {
                    root = true;
                }
            }
            let label = label_text(record);
            if label.as_str().unicode_len() > 0 && !holds_label(&labels, label.as_str()) {
                labels.push(label);
                assert(labels.deep_view() =~= labels_before.push(label@));
            }
        }
        i += 1;
    }
    assert(rs.subrange(0, i as int) =~= rs);
    (mounted, root, labels)
}

/// The devices that a block device listing offers as targets.
///
/// `listing` is the text of the listing, one `KEY="VALUE"` record per
/// line. The result holds exactly the disks that the listing describes
/// and that are no loop device, not read-only and not the home of the
/// root filesystem; each once, as the listing describes it, in rank
/// order. A listing that cannot be read gives no devices.
pub fn devices_from_listing(listing: &str) -> (r: Vec<Device>)
    ensures
        is_discovery_of(r.deep_view(), records_of(listing@)),
        forall|i: int| 0 <= i < r@.len() ==> !(#[trigger] r@[i]).ro,
        forall|i: int|
            0 <= i < r@.len() ==> !is_read_only(records_of(listing@), (#[trigger] r@[i]).name@),
        forall|i: int|
            0 <= i < r@.len() ==> !hosts_root(records_of(listing@), (#[trigger] r@[i]).name@),
        forall|i: int| 0 <= i < r@.len() ==> !is_loop_name((#[trigger] r@[i]).name@),
{
    let records = parse_listing(listing);
    let ghost rs = records.deep_view();
    let slots = seed_disks(&records);
    let mut found: Vec<Device> = Vec::new();
    let mut k: usize = 0;
    assert(found.deep_view() =~= Seq::<DeviceView>::empty());
    while k < slots.len()
        invariant
            rs == records.deep_view(),
            k <= slots@.len(),
            slots_cover(slots@, rs),
            forall|i: int|
                0 <= i < found@.len() ==> is_listed(rs, (#[trigger] found.deep_view()[i]).name)
                    && found.deep_view()[i] == device_of(rs, found.deep_view()[i].name),
            forall|i: int|
                0 <= i < found@.len() ==> exists|j: int|
                    0 <= j < k && (#[trigger] slots@[j]).name@ == (
                    #[trigger] found.deep_view()[i]).name,
            distinct_names(found.deep_view()),
            forall|j: int|
                0 <= j < k && is_listed(rs, (#[trigger] slots@[j]).name@) ==> names(
                    found.deep_view(),
                    slots@[j].name@,
                ),
        decreases slots@.len() - k,
    {
        let ghost before = found.deep_view();
        let slot = &slots[k];
        proof {
            lemma_disk_index_found(rs, slot.name@);
            assert(disk_index(rs, slot.name@) == Some(slot.seed as int));
            assert(rs[slot.seed as int] == records@[slot.seed as int]@);
        }
        let disk = &records[slot.seed];
        let read_only = flag_set(disk, "RO");
        if !starts_with_text(slot.name.as_str(), "loop") && !read_only {
            let facts = partition_facts(&records, slot.name.as_str());
            if !facts.1 {
                let size = match parse_u64(field_text(disk, "SIZE")) {
                    Some(n) => n,
                    None => 0,
                };
                let mut path = "/dev/".to_owned();
                path.append(slot.name.as_str());
                let device = Device {
                    name: slot.name.clone(),
                    path: DevicePath::new(path),
                    size: ByteSize::new(size),
                    model: optional_text(disk, "MODEL"),
                    serial: optional_text(disk, "SERIAL"),
                    tran: optional_text(disk, "TRAN"),
                    removable: flag_set(disk, "RM"),
                    hotplug: flag_set(disk, "HOTPLUG"),
                    ro: read_only,
                    mounted: facts.0,
                    labels: facts.2,
                };
                assert(device@ == device_of(rs, slot.name@));
                found.push(device);
                proof {
                    let now = found.deep_view();
                    assert(now =~= before.push(device@));
                    assert forall|a: int, b: int| 0 <= a < b < now.len() implies (
                    #[trigger] now[a]).name != (#[trigger] now[b]).name by {
                        if b < before.len() {
                            assert(before[a].name != before[b].name);
                        } else {
                            let j = choose|j: int|
                                0 <= j < k && (#[trigger] slots@[j]).name@ == (
                                #[trigger] before[a]).name;
                            assert(slots@[j].name@ != slots@[k as int].name@);
                        }
                    }
                    assert forall|i: int| 0 <= i < now.len() implies exists|j: int|
                        0 <= j < k + 1 && (#[trigger] slots@[j]).name@ == (#[trigger] now[i]).name by {
                        if i < before.len() {
                            let j = choose|j: int|
                                0 <= j < k && (#[trigger] slots@[j]).name@ == (
                                #[trigger] before[i]).name;
                            assert(slots@[j].name@ == now[i].name);
                        } else {
                            assert(slots@[k as int].name@ == now[i].name);
                        }
                    }
                    assert forall|j: int|
                        0 <= j < k + 1 && is_listed(rs, (#[trigger] slots@[j]).name@) implies names(
                        now,
                        slots@[j].name@,
                    ) by {
                        if j < k {
                            assert(names(before, slots@[j].name@));
                            let i = choose|i: int|
                                0 <= i < before.len() && (#[trigger] before[i]).name
                                    == slots@[j].name@;
                            assert(now[i].name == slots@[j].name@);
                        } else {
                            assert(now[before.len() as int].name == slots@[j].name@);
                        }
                    }
                }
            }
        }
        k += 1;
    }
    let ghost unranked = found.deep_view();
    let out = rank_devices(found);
    proof {
        let ranking = out.deep_view();
        lemma_distinct_names_of_same_devices(unranked, ranking);
        assert forall|i: int| 0 <= i < ranking.len() implies is_listed(
            rs,
            (#[trigger] ranking[i]).name,
        ) && ranking[i] == device_of(rs, ranking[i].name) by {
            assert(ranking.contains(ranking[i]));
            let j = choose|j: int| 0 <= j < unranked.len() && unranked[j] == ranking[i];
            assert(is_listed(rs, unranked[j].name));
        }
        assert forall|name: Seq<char>| #[trigger] is_listed(rs, name) implies names(
            ranking,
            name,
        ) by {
            assert(has_slot(slots@, name));
            let j = choose|j: int| 0 <= j < slots@.len() && (#[trigger] slots@[j]).name@ == name;
            assert(names(unranked, slots@[j].name@));
            let i = choose|i: int| 0 <= i < unranked.len() && (#[trigger] unranked[i]).name == name;
            assert(unranked.contains(unranked[i]));
            assert(ranking.contains(unranked[i]));
            let m = choose|m: int| 0 <= m < ranking.len() && ranking[m] == unranked[i];
            assert(ranking[m].name == name);
        }
        assert forall|i: int| 0 <= i < out@.len() implies !(#[trigger] out@[i]).ro by {
            assert(out@[i]@ == ranking[i]);
        }
        assert forall|i: int| 0 <= i < out@.len() implies !is_read_only(
            rs,
            (#[trigger] out@[i]).name@,
        ) && !hosts_root(rs, out@[i].name@) && !is_loop_name(out@[i].name@) by {
            assert(out@[i]@ == ranking[i]);
        }
    }
    out
}

} // verus!
