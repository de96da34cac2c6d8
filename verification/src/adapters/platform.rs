//! What the platform's tools report, read and summed up.
//!
//! Nothing here runs a tool. The functions take what a tool printed or
//! how it ended and decide what that means.

use crate::adapters::lsblk::{field, parse_listing, records_of, KeyValues, Record};
use crate::domain::paths::{final_name, final_name_of};
use crate::text::{chars_of, decimal, decimal_string, same_text, starts_with_text};
use vstd::prelude::*;

verus! {

/// The name of the device at `p`: the name at the end of its path.
pub fn device_basename(p: &str) -> (r: Option<String>)
    ensures
        r.deep_view() == final_name(p@),
{
    final_name_of(p)
}

/// Whether `r` is a partition to unmount before the disk called `name`
/// is written: it says that it is a partition, names that disk as its
/// parent and has a mount point that is not empty.
pub open spec fn to_unmount(r: Record, name: Seq<char>) -> bool {
    &&& r.contains_key("TYPE"@) && r["TYPE"@] == "part"@
    &&& r.contains_key("PKNAME"@) && r["PKNAME"@] == name
    &&& r.contains_key("MOUNTPOINT"@) && r["MOUNTPOINT"@].len() > 0
}

/// The mount points of the mounted partitions of the disk called `name`,
/// in the order of the listing.
pub open spec fn mount_points_of(rs: Seq<Record>, name: Seq<char>) -> Seq<Seq<char>>
    decreases rs.len(),
{
    if rs.len() == 0 {
        Seq::empty()
    } else if to_unmount(rs.last(), name) {
        mount_points_of(rs.drop_last(), name).push(field(rs.last(), "MOUNTPOINT"@))
    } else {
        mount_points_of(rs.drop_last(), name)
    }
}

/// What has to be unmounted before the disk called `name` is written:
/// the mount points of its mounted partitions, as `listing` shows them.
pub fn mounted_partitions_of(listing: &str, name: &str) -> (r: Vec<String>)
    ensures
        r.deep_view() == mount_points_of(records_of(listing@), name@),
{
    let records = parse_listing(listing);
    let ghost rs = records.deep_view();
    let mut out: Vec<String> = Vec::new();
    let mut i: usize = 0;
    proof {
        assert(rs.subrange(0, 0) =~= Seq::<Record>::empty());
        assert(out.deep_view() =~= Seq::<Seq<char>>::empty());
    }
    while i < records.len()
        invariant
            rs == records.deep_view(),
            i <= records@.len(),
            out.deep_view() == mount_points_of(rs.subrange(0, i as int), name@),
        decreases records@.len() - i,
    {
        let ghost before = out.deep_view();
        proof {
            assert(rs[i as int] == records@[i as int]@);
            assert(rs.subrange(0, i + 1).drop_last() =~= rs.subrange(0, i as int));
        }
        match mount_point_to_release(&records[i], name) {
            Some(mp) => {
                out.push(mp);
                assert(out.deep_view() =~= before.push(mp@));
            },
            None => {},
        }
        i += 1;
    }
    assert(rs.subrange(0, i as int) =~= rs);
    out
}

/// The mount point of `kv`, if it is a partition to unmount before the
/// disk called `name` is written.
fn mount_point_to_release(kv: &KeyValues, name: &str) -> (r: Option<String>)
    ensures
        r is Some == to_unmount(kv@, name@),
        r is Some ==> r->0@ == field(kv@, "MOUNTPOINT"@),
{
    match (kv.get("TYPE"), kv.get("PKNAME"), kv.get("MOUNTPOINT")) {
        (Some(t), Some(pk), Some(mp)) => {
            if same_text(t.as_str(), "part") && same_text(pk.as_str(), name)
                && mp.as_str().unicode_len() > 0 {
                Some(mp.clone())
            } else {
                None
            }
        },
        _ => None,
    }
}

/// The texts of `parts` with `between` put between them.
pub open spec fn joined_with(parts: Seq<Seq<char>>, between: Seq<char>) -> Seq<char>
    decreases parts.len(),
{
    if parts.len() == 0 {
        Seq::empty()
    } else if parts.len() == 1 {
        parts[0]
    } else {
        joined_with(parts.drop_last(), between) + between + parts.last()
    }
}

/// The texts of `parts` with `between` put between them.
pub fn join_texts(parts: &Vec<String>, between: &str) -> (r: String)
    ensures
        r@ == joined_with(parts.deep_view(), between@),
{
    let mut r = String::new();
    let mut i: usize = 0;
    let ghost all = parts.deep_view();
    proof {
        assert(all.subrange(0, 0) =~= Seq::<Seq<char>>::empty());
    }
    while i < parts.len()
        invariant
            all == parts.deep_view(),
            i <= parts@.len(),
            r@ == joined_with(all.subrange(0, i as int), between@),
        decreases parts@.len() - i,
    {
        proof {
            assert(all.subrange(0, i + 1).drop_last() =~= all.subrange(0, i as int));
            assert(all.subrange(0, i + 1).last() == parts@[i as int]@);
        }
        if i > 0 {
            r.append(between);
        }
        r.append(parts[i].as_str());
        proof {
            if i == 0 {
                assert(r@ =~= parts@[0]@);
                assert(all.subrange(0, 1)[0] == parts@[0]@);
            }
        }
        i += 1;
    }
    assert(all.subrange(0, i as int) =~= all);
    r
}

/// What the unmounting came to: all is well if nothing failed, else the
/// failures are counted against the attempts and listed.
pub open spec fn unmount_outcome(errors: Seq<Seq<char>>, attempted: nat) -> Result<
    (),
    Seq<char>,
> {
    if errors.len() == 0 {
        Ok(())
    } else {
        Err(
            "failed to unmount "@ + decimal(errors.len()) + " of "@ + decimal(attempted)
                + " partition(s): "@ + joined_with(errors, "; "@),
        )
    }
}

/// Sums up an unmounting of `attempted` partitions of which those in
/// `errors` failed.
pub fn unmount_report(errors: &Vec<String>, attempted: usize) -> (r: Result<(), String>)
    ensures
        crate::app::msg::outcome_view(r) == unmount_outcome(errors.deep_view(), attempted as nat),
{
    if errors.len() == 0 {
        return Ok(());
    }
    let mut m = "failed to unmount ".to_owned();
    m.append(decimal_string(errors.len() as u64).as_str());
    m.append(" of ");
    m.append(decimal_string(attempted as u64).as_str());
    m.append(" partition(s): ");
    m.append(join_texts(errors, "; ").as_str());
    Err(m)
}

/// How a tool ended.
#[derive(Debug)]
pub enum ToolRun {
    /// It ran and reported success.
    Succeeded,
    /// It ran and reported failure, with this exit code (-1 where it had
    /// none) and this on its error output.
    Failed { code: i32, stderr: String },
    /// It could not be started, for this reason.
    NotStarted(String),
}

/// What a [`ToolRun`] stands for.
pub enum ToolRunView {
    Succeeded,
    Failed { code: int, stderr: Seq<char> },
    NotStarted(Seq<char>),
}

impl View for ToolRun {
    type V = ToolRunView;

    open spec fn view(&self) -> ToolRunView {
        match *self {
            ToolRun::Succeeded => ToolRunView::Succeeded,
            ToolRun::Failed { code, stderr } => ToolRunView::Failed {
                code: code as int,
                stderr: stderr@,
            },
            ToolRun::NotStarted(e) => ToolRunView::NotStarted(e@),
        }
    }
}

/// A whole number in decimal digits, with a `-` before a negative one.
pub open spec fn signed_decimal(n: int) -> Seq<char> {
    if n < 0 {
        seq!['-'] + decimal((-n) as nat)
    } else {
        decimal(n as nat)
    }
}

/// Writes `n` in decimal digits.
pub fn signed_decimal_string(n: i32) -> (r: String)
    ensures
        r@ == signed_decimal(n as int),
{
    if n < 0 {
        let mut r = String::new();
        crate::text::push_char(&mut r, '-');
        let magnitude: u64 = (-(n as i64)) as u64;
        r.append(decimal_string(magnitude).as_str());
        proof {
            assert(seq!['-'] =~= Seq::<char>::empty().push('-'));
        }
        r
    } else {
        decimal_string(n as u64)
    }
}

/// How a failed run of the tool called `tool` is put in words.
pub open spec fn failure_text(tool: Seq<char>, run: ToolRunView) -> Seq<char> {
    match run {
        ToolRunView::Succeeded => Seq::empty(),
        ToolRunView::Failed { code, stderr } => tool + " failed (code "@ + signed_decimal(code)
            + "): "@ + crate::text::trimmed(stderr),
        ToolRunView::NotStarted(e) => tool + " spawn error: "@ + e,
    }
}

/// Whether the partition table was read again: by the first tool, or,
/// where that failed, by the second. The failure of both is put in
/// words, the first tool's before the second's.
pub open spec fn reread_outcome(first: ToolRunView, second: ToolRunView) -> Result<(), Seq<char>> {
    if first is Succeeded || second is Succeeded {
        Ok(())
    } else {
        Err(
            failure_text("partprobe"@, first) + "; "@ + failure_text(
                "blockdev --rereadpt"@,
                second,
            ),
        )
    }
}

/// Whether the second tool has to be tried after the first ended as
/// `first` did.
pub fn needs_fallback(first: &ToolRun) -> (r: bool)
    ensures
        r == !(first@ is Succeeded),
{
    match first {
        ToolRun::Succeeded => false,
        _ => true,
    }
}

fn failure_string(tool: &str, run: &ToolRun) -> (r: String)
    ensures
        r@ == failure_text(tool@, run@),
{
    match run {
        ToolRun::Succeeded => String::new(),
        ToolRun::Failed { code, stderr } => {
            let mut r = tool.to_owned();
            r.append(" failed (code ");
            r.append(signed_decimal_string(*code).as_str());
            r.append("): ");
            r.append(crate::text::trim_text(stderr.as_str()).as_str());
            r
        },
        ToolRun::NotStarted(e) => {
            let mut r = tool.to_owned();
            r.append(" spawn error: ");
            r.append(e.as_str());
            r
        },
    }
}

/// Sums up the re-reading of the partition table from how the two tools
/// ended. `second` counts only where `first` did not succeed.
pub fn partprobe_report(first: &ToolRun, second: &ToolRun) -> (r: Result<(), String>)
    ensures
        crate::app::msg::outcome_view(r) == reread_outcome(first@, second@),
{
    match (first, second) {
        (ToolRun::Succeeded, _) => Ok(()),
        (_, ToolRun::Succeeded) => Ok(()),
        (_, _) => {
            let mut m = failure_string("partprobe", first);
            m.append("; ");
            m.append(failure_string("blockdev --rereadpt", second).as_str());
            Err(m)
        },
    }
}

/// How a failed unmount of `mount_point` is put in words. What the tool
/// wrote on its error output follows, white space at both ends removed,
/// where anything is left of it.
pub open spec fn unmount_failure_text(mount_point: Seq<char>, run: ToolRunView) -> Seq<char> {
    match run {
        ToolRunView::Succeeded => Seq::empty(),
        ToolRunView::Failed { code, stderr } => "umount "@ + mount_point
            + " failed with status "@ + signed_decimal(code) + if crate::text::trimmed(
            stderr,
        ).len() > 0 {
            ": "@ + crate::text::trimmed(stderr)
        } else {
            Seq::empty()
        },
        ToolRunView::NotStarted(e) => "failed to run umount "@ + mount_point + ": "@ + e,
    }
}

/// Puts the failure of an unmount of `mount_point` in words; `None` where
/// it did not fail.
pub fn unmount_failure(mount_point: &str, run: &ToolRun) -> (r: Option<String>)
    ensures
        r is Some == !(run@ is Succeeded),
        r is Some ==> r->0@ == unmount_failure_text(mount_point@, run@),
{
    match run {
        ToolRun::Succeeded => None,
        ToolRun::Failed { code, stderr } => {
            let mut r = "umount ".to_owned();
            r.append(mount_point);
            r.append(" failed with status ");
            r.append(signed_decimal_string(*code).as_str());
            let said = crate::text::trim_text(stderr.as_str());
            if said.as_str().unicode_len() > 0 {
                r.append(": ");
                r.append(said.as_str());
            } else {
                assert(r@ + Seq::<char>::empty() =~= r@);
            }
            Some(r)
        },
        ToolRun::NotStarted(e) => {
            let mut r = "failed to run umount ".to_owned();
            r.append(mount_point);
            r.append(": ");
            r.append(e.as_str());
            Some(r)
        },
    }
}

/// The first word of `s`: what stands between the white space at its
/// start and the next white space.
pub open spec fn first_word(s: Seq<char>) -> Seq<char> {
    let start = skip_blank(s, 0);
    s.subrange(start, until_blank(s, start))
}

/// White space between the words of a line.
pub open spec fn is_blank(c: char) -> bool {
    crate::text::is_whitespace(c)
}

/// The first position at or after `i` that holds no white space.
pub open spec fn skip_blank(s: Seq<char>, i: int) -> int
    decreases s.len() - i,
{
    if 0 <= i < s.len() && is_blank(s[i]) {
        skip_blank(s, i + 1)
    } else {
        i
    }
}

/// The first position at or after `i` that holds white space, or the
/// length of `s`.
pub open spec fn until_blank(s: Seq<char>, i: int) -> int
    decreases s.len() - i,
{
    if 0 <= i < s.len() && !is_blank(s[i]) {
        until_blank(s, i + 1)
    } else {
        i
    }
}

/// Whether a process whose status file reads `status` runs as the
/// superuser: the first line that begins with `Uid:` names `0` as its
/// first number, the real user.
pub open spec fn status_names_root(lines: Seq<Seq<char>>) -> bool
    decreases lines.len(),
{
    if lines.len() == 0 {
        false
    } else if "Uid:"@.is_prefix_of(lines[0]) {
        first_word(lines[0].subrange("Uid:"@.len() as int, lines[0].len() as int)) == seq!['0']
    } else {
        status_names_root(lines.drop_first())
    }
}

/// Whether the `Uid:` line `line` names the superuser as the real user.
fn uid_line_names_root(line: &Vec<char>) -> (r: bool)
    requires
        "Uid:"@.is_prefix_of(line@),
    ensures
        r == (first_word(line@.subrange("Uid:"@.len() as int, line@.len() as int)) == seq!['0']),
{
    proof {
        reveal_strlit("Uid:");
    }
    let ghost rest = line@.subrange(4, line@.len() as int);
    let mut i: usize = 4;
    while i < line.len() && is_blank_char(line[i])
        invariant
            4 <= i <= line@.len(),
            rest == line@.subrange(4, line@.len() as int),
            skip_blank(rest, 0) == skip_blank(rest, i - 4),
        decreases line@.len() - i,
    {
        assert(rest[i - 4] == line@[i as int]);
        i += 1;
    }
    proof {
        if i < line@.len() {
            assert(rest[i - 4] == line@[i as int]);
        }
    }
    let start = i;
    while i < line.len() && !is_blank_char(line[i])
        invariant
            4 <= start <= i <= line@.len(),
            rest == line@.subrange(4, line@.len() as int),
            until_blank(rest, start - 4) == until_blank(rest, i - 4),
        decreases line@.len() - i,
    {
        assert(rest[i - 4] == line@[i as int]);
        i += 1;
    }
    proof {
        if i < line@.len() {
            assert(rest[i - 4] == line@[i as int]);
        }
        let word = rest.subrange(start - 4, i - 4);
        assert(word == first_word(rest));
        if i - start == 1 {
            assert(word[0] == line@[start as int]);
            if line@[start as int] == '0' {
                assert(word =~= seq!['0']);
            }
        }
        if word == seq!['0'] {
            assert(word.len() == 1);
            assert(word[0] == '0');
        }
    }
    i - start == 1 && line[start] == '0'
}

fn is_blank_char(c: char) -> (r: bool)
    ensures
        r == is_blank(c),
{
    crate::text::char_is_whitespace(c)
}

/// Whether a process whose status file reads `status` runs as the
/// superuser.
pub fn status_shows_root(status: &str) -> (r: bool)
    ensures
        r == status_names_root(crate::adapters::lsblk::lines_from(status@, 0)),
{
    let lines = crate::adapters::lsblk::split_lines(status);
    let ghost all = lines.deep_view();
    let mut i: usize = 0;
    assert(all.subrange(0, all.len() as int) =~= all);
    while i < lines.len()
        invariant
            all == lines.deep_view(),
            all == crate::adapters::lsblk::lines_from(status@, 0),
            i <= lines@.len(),
            status_names_root(all) == status_names_root(all.subrange(i as int, all.len() as int)),
        decreases lines@.len() - i,
    {
        let ghost rest = all.subrange(i as int, all.len() as int);
        proof {
            assert(rest.len() > 0);
            assert(rest[0] == lines@[i as int]@);
            assert(rest.drop_first() =~= all.subrange(i + 1, all.len() as int));
        }
        if starts_with_text(lines[i].as_str(), "Uid:") {
            let line = chars_of(lines[i].as_str());
            assert(line@ == rest[0]);
            let found = uid_line_names_root(&line);
            assert(status_names_root(rest) == found);
            return found;
        }
        assert(status_names_root(rest) == status_names_root(rest.drop_first()));
        i += 1;
    }
    false
}

} // verus!
