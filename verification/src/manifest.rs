//! The manifest parser.
//!
//! A manifest is a text file, here handled as bytes.  Each line may hold one
//! path entry: the bytes between the marker `(./` (at its first occurrence in
//! the line) and the line's last byte.  A line whose marker reaches the very
//! end of the line leaves no room for an entry and makes the whole manifest
//! malformed.

use vstd::prelude::*;

use crate::bytes::lemma_views_of_push;
use crate::bytes::views_of;

verus! {

/// The three marker bytes `(./` begin at index `i` of `s`.
pub open spec fn is_marker_at(s: Seq<u8>, i: int) -> bool {
    &&& 0 <= i
    &&& i + 3 <= s.len()
    &&& s[i] == 40u8
    &&& s[i + 1] == 46u8
    &&& s[i + 2] == 47u8
}

/// The least index at or after `from` where the marker begins, if any.
pub open spec fn find_marker_from(s: Seq<u8>, from: int) -> Option<int>
    decreases s.len() - from,
{
    if from < 0 {
        None
    } else if from + 3 > s.len() {
        None
    } else if is_marker_at(s, from) {
        Some(from)
    } else {
        find_marker_from(s, from + 1)
    }
}

pub open spec fn line_has_entry(line: Seq<u8>) -> bool {
    find_marker_from(line, 0) is Some
}

/// The index just past the marker: where the entry's text begins.
pub open spec fn entry_start(line: Seq<u8>) -> int
    recommends
        line_has_entry(line),
{
    match find_marker_from(line, 0) {
        Some(i) => i + 3,
        None => line.len() as int,
    }
}

/// The line's marker is its very last text: there is no byte at all after it,
/// so no "text up to the line's last byte" exists.
pub open spec fn line_truncated(line: Seq<u8>) -> bool {
    line_has_entry(line) && entry_start(line) >= line.len()
}

/// The entry of a line with a marker: the bytes after the marker, up to but
/// excluding the line's last byte.
pub open spec fn line_entry(line: Seq<u8>) -> Seq<u8>
    recommends
        line_has_entry(line),
        !line_truncated(line),
{
    line.subrange(entry_start(line), line.len() - 1)
}

/// A line ending in a carriage return loses it: line endings may be `\r\n`.
pub open spec fn strip_return(line: Seq<u8>) -> Seq<u8> {
    if line.len() > 0 && line[line.len() - 1] == 13u8 {
        line.subrange(0, line.len() - 1)
    } else {
        line
    }
}

/// The lines of `s` from position `from` on, with `cur` the bytes of the
/// current line read so far.  Lines break at `\n`; a final line without a
/// newline counts, an empty tail does not.
pub open spec fn lines_rec(s: Seq<u8>, from: int, cur: Seq<u8>) -> Seq<Seq<u8>>
    decreases s.len() - from,
{
    if from < 0 {
        Seq::empty()
    } else if from >= s.len() {
        if cur.len() == 0 {
            Seq::empty()
        } else {
            seq![cur]
        }
    } else if s[from] == 10u8 {
        seq![strip_return(cur)] + lines_rec(s, from + 1, Seq::empty())
    } else {
        lines_rec(s, from + 1, cur.push(s[from]))
    }
}

/// The lines of a whole manifest.
pub open spec fn manifest_lines(s: Seq<u8>) -> Seq<Seq<u8>> {
    lines_rec(s, 0, Seq::empty())
}

/// How many lines hold an entry.
pub open spec fn entry_count(ls: Seq<Seq<u8>>) -> nat
    decreases ls.len(),
{
    if ls.len() == 0 {
        0
    } else {
        entry_count(ls.drop_last()) + if line_has_entry(ls.last()) {
            1nat
        } else {
            0nat
        }
    }
}

/// The entries of the lines, in line order, duplicates preserved.
pub open spec fn entries_of(ls: Seq<Seq<u8>>) -> Seq<Seq<u8>>
    decreases ls.len(),
{
    if ls.len() == 0 {
        Seq::empty()
    } else if line_has_entry(ls.last()) {
        entries_of(ls.drop_last()).push(line_entry(ls.last()))
    } else {
        entries_of(ls.drop_last())
    }
}

/// Some line's marker sits at the line's very end.
pub open spec fn any_truncated(ls: Seq<Seq<u8>>) -> bool {
    exists|k: int| 0 <= k < ls.len() && line_truncated(ls[k])
}

/// Law: the entry list holds exactly one path for each line with the marker.
pub proof fn lemma_entry_count(ls: Seq<Seq<u8>>)
    ensures
        entries_of(ls).len() == entry_count(ls),
    decreases ls.len(),
{
    if ls.len() > 0 {
        lemma_entry_count(ls.drop_last());
    }
}

/// Law: entries come in line order: a line appended at the end appends its
/// own entry, if it has one, and nothing otherwise.
pub proof fn lemma_entries_of_append(ls: Seq<Seq<u8>>, line: Seq<u8>)
    ensures
        line_has_entry(line) ==> entries_of(ls.push(line)) == entries_of(ls).push(
            line_entry(line),
        ),
        !line_has_entry(line) ==> entries_of(ls.push(line)) == entries_of(ls),
{
    assert(ls.push(line).drop_last() =~= ls);
    assert(ls.push(line).last() == line);
}

/// Law: a manifest none of whose lines holds the marker yields no paths.
pub proof fn lemma_no_entries(ls: Seq<Seq<u8>>)
    requires
        forall|k: int| 0 <= k < ls.len() ==> !line_has_entry(ls[k]),
    ensures
        entries_of(ls) == Seq::<Seq<u8>>::empty(),
    decreases ls.len(),
{
    if ls.len() > 0 {
        assert(!line_has_entry(ls.last()));
        lemma_no_entries(ls.drop_last());
    }
}

/// The index where the first marker of `line` begins, if the line has one.
fn find_marker_in(line: &Vec<u8>) -> (r: Option<usize>)
    ensures
        r matches Some(m) ==> find_marker_from(line@, 0) == Some(m as int) && m + 3 <= line@.len(),
        r is None ==> find_marker_from(line@, 0) is None,
{
    if line.len() < 3 {
        return None;
    }
    let mut i: usize = 0;
    while i <= line.len() - 3
        invariant
            line@.len() >= 3,
            i <= line@.len() - 2,
            find_marker_from(line@, 0) == find_marker_from(line@, i as int),
        decreases line.len() - i,
    {
        if line[i] == 40u8 && line[i + 1] == 46u8 && line[i + 2] == 47u8 {
            assert(is_marker_at(line@, i as int));
            assert(find_marker_from(line@, i as int) == Some(i as int));
            return Some(i);
        }
        assert(!is_marker_at(line@, i as int));
        assert(find_marker_from(line@, i as int) == find_marker_from(line@, i as int + 1));
        i = i + 1;
    }
    assert(find_marker_from(line@, i as int) is None);
    None
}

/// What one line contributes to the parse.
pub enum LineScan {
    /// The line holds no marker.
    NoEntry,
    /// The line holds a marker with at least one byte after it.
    Found { path: Vec<u8> },
    /// The line's marker is its very end: the manifest is malformed.
    Truncated,
}

/// Scans one line for its path entry.
pub fn scan_line(line: &Vec<u8>) -> (r: LineScan)
    ensures
        r is NoEntry <==> !line_has_entry(line@),
        r is Truncated <==> line_truncated(line@),
        r matches LineScan::Found { path } ==> !line_truncated(line@) && line_has_entry(line@)
            && path@ == line_entry(line@),
{
    match find_marker_in(line) {
        None => LineScan::NoEntry,
        Some(m) => {
            let n = line.len();
            let start = m + 3;
            if start >= n {
                LineScan::Truncated
            } else {
                let stop = line.len() - 1;
                let mut path: Vec<u8> = Vec::new();
                let mut j: usize = start;
                while j < stop
                    invariant
                        start <= j <= stop,
                        stop == line@.len() - 1,
                        path@ == line@.subrange(start as int, j as int),
                    decreases stop - j,
                {
                    path.push(line[j]);
                    assert(line@.subrange(start as int, j as int + 1) =~= line@.subrange(
                        start as int,
                        j as int,
                    ).push(line@[j as int]));
                    j = j + 1;
                }
                LineScan::Found { path }
            }
        },
    }
}

/// Splits a manifest into its lines.
pub fn split_lines(content: &Vec<u8>) -> (r: Vec<Vec<u8>>)
    ensures
        views_of(r@) == manifest_lines(content@),
{
    let mut acc: Vec<Vec<u8>> = Vec::new();
    let mut cur: Vec<u8> = Vec::new();
    let mut i: usize = 0;
    assert(views_of(acc@) + lines_rec(content@, 0, cur@) =~= lines_rec(content@, 0, Seq::empty()));
    while i < content.len()
        invariant
            i <= content.len(),
            manifest_lines(content@) == views_of(acc@) + lines_rec(content@, i as int, cur@),
        decreases content.len() - i,
    {
        let b = content[i];
        if b == 10u8 {
            let ghost before = cur@;
            if cur.len() > 0 && cur[cur.len() - 1] == 13u8 {
                cur.pop();
                assert(cur@ =~= strip_return(before));
            } else {
                assert(cur@ == strip_return(before));
            }
            proof {
                lemma_views_of_push(acc@, cur);
                assert(lines_rec(content@, i as int, before) == seq![strip_return(before)]
                    + lines_rec(content@, i as int + 1, Seq::empty()));
                assert(views_of(acc@.push(cur)) + lines_rec(content@, i as int + 1, Seq::empty())
                    =~= views_of(acc@) + lines_rec(content@, i as int, before));
            }
            acc.push(cur);
            cur = Vec::new();
        } else {
            assert(lines_rec(content@, i as int, cur@) == lines_rec(
                content@,
                i as int + 1,
                cur@.push(b),
            ));
            cur.push(b);
        }
        i = i + 1;
    }
    if cur.len() > 0 {
        proof {
            lemma_views_of_push(acc@, cur);
            assert(lines_rec(content@, i as int, cur@) =~= seq![cur@]);
            assert(views_of(acc@.push(cur)) =~= views_of(acc@) + seq![cur@]);
        }
        acc.push(cur);
    } else {
        assert(views_of(acc@) + lines_rec(content@, i as int, cur@) =~= views_of(acc@));
    }
    acc
}

/// Parses a manifest: the path entry of every line with the marker, in line
/// order.  Returns nothing exactly when some line's marker sits at the line's
/// very end, which leaves that line's entry undefined.
pub fn parse_manifest(content: &Vec<u8>) -> (r: Option<Vec<Vec<u8>>>)
    ensures
        r is Some <==> !any_truncated(manifest_lines(content@)),
        r matches Some(paths) ==> views_of(paths@) == entries_of(manifest_lines(content@)),
{
    let lines = split_lines(content);
    let ghost all = views_of(lines@);
    let mut out: Vec<Vec<u8>> = Vec::new();
    let mut k: usize = 0;
    assert(all.subrange(0, 0) =~= Seq::<Seq<u8>>::empty());
    while k < lines.len()
        invariant
            k <= lines.len(),
            all == views_of(lines@),
            all == manifest_lines(content@),
            !any_truncated(all.subrange(0, k as int)),
            views_of(out@) == entries_of(all.subrange(0, k as int)),
        decreases lines.len() - k,
    {
        let ghost prefix = all.subrange(0, k as int);
        assert(all.subrange(0, k as int + 1) =~= prefix.push(all[k as int]));
        assert(all[k as int] == lines@[k as int]@);
        match scan_line(&lines[k]) {
            LineScan::Truncated => {
                assert(line_truncated(all[k as int]));
                assert(any_truncated(all));
                return None;
            },
            LineScan::Found { path } => {
                proof {
                    lemma_entries_of_append(prefix, all[k as int]);
                    lemma_views_of_push(out@, path);
                }
                out.push(path);
            },
            LineScan::NoEntry => {
                proof {
                    lemma_entries_of_append(prefix, all[k as int]);
                }
            },
        }
        proof {
            let next_prefix = all.subrange(0, k as int + 1);
            assert forall|t: int| 0 <= t < next_prefix.len() implies !line_truncated(
                #[trigger] next_prefix[t],
            ) by {
                assert(next_prefix[t] == all[t]);
                if t < k as int {
                    assert(!line_truncated(prefix[t]));
                }
            }
        }
        k = k + 1;
    }
    assert(all.subrange(0, lines@.len() as int) =~= all);
    Some(out)
}

} // verus!
