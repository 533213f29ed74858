//! Output assembly: hex-encoded digests, one report entry per surviving
//! group, sorted ascending by size.

use vstd::prelude::*;

use crate::group::{FileEntryV, Group, GroupKey, GroupKeyV, GroupOf, groups_view};

use vstd::seq_lib::to_multiset_insert;

verus! {

/// One line of the final report: the hex digest when a hashing stage ran,
/// the common size, and the member paths in discovery order.
pub struct OutputEntry {
    pub hash: Option<String>,
    pub size: Option<u64>,
    pub paths: Vec<String>,
}

/// Spec-level image of an `OutputEntry`.
#[verifier::ext_equal]
pub struct OutputEntryV {
    pub hash: Option<Seq<char>>,
    pub size: Option<u64>,
    pub paths: Seq<Seq<char>>,
}

impl View for OutputEntry {
    type V = OutputEntryV;

    open spec fn view(&self) -> OutputEntryV {
        OutputEntryV {
            hash: match self.hash {
                Option::Some(h) => Option::Some(h@),
                Option::None => Option::None,
            },
            size: self.size,
            paths: paths_view(self.paths@),
        }
    }
}

/// Views of a sequence of output entries.
pub open spec fn output_view(s: Seq<OutputEntry>) -> Seq<OutputEntryV> {
    s.map_values(|e: OutputEntry| e@)
}

/// Views of a sequence of path strings.
pub open spec fn paths_view(s: Seq<String>) -> Seq<Seq<char>> {
    s.map_values(|p: String| p@)
}

/// The paths of a member list, in order.
pub open spec fn member_paths(ms: Seq<FileEntryV>) -> Seq<Seq<char>> {
    ms.map_values(|f: FileEntryV| f.path)
}

/// The ASCII code of one lower-case hex digit.
pub open spec fn hex_digit_spec(n: u8) -> u8 {
    if n < 10 {
        (n + 48) as u8
    } else {
        (n + 87) as u8
    }
}

/// Hex encoding of bytes as ASCII codes, two lower-case digits per byte.
pub open spec fn hex_bytes_spec(bytes: Seq<u8>) -> Seq<u8>
    decreases bytes.len(),
{
    if bytes.len() == 0 {
        Seq::empty()
    } else {
        hex_bytes_spec(bytes.drop_last()) + seq![
            hex_digit_spec(bytes.last() / 16),
            hex_digit_spec(bytes.last() % 16),
        ]
    }
}

/// Hex encoding of bytes as characters.
pub open spec fn hex_chars_spec(bytes: Seq<u8>) -> Seq<char> {
    hex_bytes_spec(bytes).map_values(|b: u8| b as char)
}

/// Relies on `String::from_utf8`: bytes that are all ASCII decode to the
/// string of exactly those characters; ASCII input is always valid UTF-8,
/// so the error arm is never taken for it.
#[verifier::external_body]
fn ascii_to_string(bytes: Vec<u8>) -> (r: String)
    requires
        forall|i: int| 0 <= i < bytes@.len() ==> bytes@[i] < 128,
    ensures
        r@.len() == bytes@.len(),
        forall|i: int| 0 <= i < bytes@.len() ==> r@[i] == bytes@[i] as char,
{
    match String::from_utf8(bytes) {
        Ok(s) => s,
        Err(_) => String::new(),
    }
}

fn hex_digit(n: u8) -> (r: u8)
    requires
        n < 16,
    ensures
        r == hex_digit_spec(n),
        r < 128,
{
    if n < 10 {
        n + 48
    } else {
        n + 87
    }
}

/// The lower-case hex string of a digest.
pub fn hex_string(bytes: &Vec<u8>) -> (r: String)
    ensures
        r@ == hex_chars_spec(bytes@),
{
    let mut out: Vec<u8> = Vec::new();
    let mut i: usize = 0;
    while i < bytes.len()
        invariant
            i <= bytes@.len(),
            out@ == hex_bytes_spec(bytes@.take(i as int)),
            forall|j: int| 0 <= j < out@.len() ==> out@[j] < 128,
        decreases bytes@.len() - i,
    {
        let b = bytes[i];
        out.push(hex_digit(b / 16));
        out.push(hex_digit(b % 16));
        proof {
            assert(bytes@.take(i as int + 1).drop_last() =~= bytes@.take(i as int));
            assert(bytes@.take(i as int + 1).last() == bytes@[i as int]);
            assert(out@ =~= hex_bytes_spec(bytes@.take(i as int + 1)));
        }
        i += 1;
    }
    proof {
        assert(bytes@.take(bytes@.len() as int) =~= bytes@);
    }
    let r = ascii_to_string(out);
    proof {
        assert(r@ =~= hex_chars_spec(bytes@));
    }
    r
}

/// The report entry a group yields: hex digest when the key is a digest,
/// the first member's size, all member paths in order.
pub open spec fn entry_of_group_spec(g: GroupOf<FileEntryV>) -> OutputEntryV {
    OutputEntryV {
        hash: match g.key {
            GroupKeyV::Digest(d) => Option::Some(hex_chars_spec(d)),
            GroupKeyV::Size(_) => Option::None,
        },
        size: if g.members.len() > 0 {
            Option::Some(g.members[0].size)
        } else {
            Option::None
        },
        paths: member_paths(g.members),
    }
}

/// Report entries of all groups, in group order.
pub open spec fn assemble_spec(gs: Seq<GroupOf<FileEntryV>>) -> Seq<OutputEntryV> {
    gs.map_values(|g: GroupOf<FileEntryV>| entry_of_group_spec(g))
}

/// Build one report entry per surviving group.
pub fn assemble_output(groups: &Vec<Group>) -> (r: Vec<OutputEntry>)
    ensures
        output_view(r@) == assemble_spec(groups_view(groups@)),
{
    let mut out: Vec<OutputEntry> = Vec::new();
    let mut i: usize = 0;
    while i < groups.len()
        invariant
            i <= groups@.len(),
            output_view(out@) == assemble_spec(groups_view(groups@)).take(i as int),
        decreases groups@.len() - i,
    {
        let hash = match &groups[i].key {
            GroupKey::Digest(d) => Some(hex_string(d)),
            GroupKey::Size(_) => None,
        };
        let size = if groups[i].members.len() > 0 {
            Some(groups[i].members[0].size)
        } else {
            None
        };
        let mut paths: Vec<String> = Vec::new();
        let ghost mems = groups_view(groups@)[i as int].members;
        let n = groups[i].members.len();
        let mut j: usize = 0;
        while j < n
            invariant
                i < groups@.len(),
                j <= mems.len(),
                n == mems.len(),
                mems == groups_view(groups@)[i as int].members,
                paths_view(paths@) == member_paths(mems.take(j as int)),
            decreases mems.len() - j,
        {
            let ghost paths_before = paths@;
            paths.push(groups[i].members[j].path.clone());
            proof {
                assert(paths_view(paths_before).len() == paths_before.len());
                assert(member_paths(mems.take(j as int)).len() == mems.take(j as int).len());
                assert(paths_before.len() == j as int);
                assert(paths@.len() == j as int + 1);
                assert forall|k: int| 0 <= k < j as int implies paths@[k] == paths_before[k] by {}
                assert(mems[j as int] == groups@[i as int].members@[j as int]@);
                assert(paths@[j as int]@ == mems[j as int].path);
                assert(paths_view(paths@).len() == j as int + 1);
                assert(member_paths(mems.take(j as int + 1)).len() == j as int + 1);
                assert forall|k: int| 0 <= k < j as int + 1 implies paths_view(paths@)[k]
                    == member_paths(mems.take(j as int + 1))[k] by {
                    assert(paths_view(paths@)[k] == paths@[k]@);
                    assert(member_paths(mems.take(j as int + 1))[k] == mems.take(
                        j as int + 1,
                    )[k].path);
                    if k < j as int {
                        assert(paths@[k] == paths_before[k]);
                        assert(paths_view(paths_before)[k] == paths_before[k]@);
                        assert(member_paths(mems.take(j as int))[k] == mems.take(j as int)[k].path);
                        assert(mems.take(j as int)[k] == mems.take(j as int + 1)[k]);
                    } else {
                        assert(mems.take(j as int + 1)[k] == mems[j as int]);
                    }
                }
                assert(paths_view(paths@) =~~= member_paths(mems.take(j as int + 1)));
            }
            j += 1;
        }
        let ghost before = out@;
        out.push(OutputEntry { hash, size, paths });
        proof {
            assert(mems.take(mems.len() as int) =~= mems);
            assert(output_view(before).len() == before.len());
            assert(before.len() == i as int);
            assert(out@.len() == i as int + 1);
            assert(out@[i as int]@ =~~= assemble_spec(groups_view(groups@))[i as int]);
            assert forall|j2: int| 0 <= j2 < i as int implies output_view(out@)[j2] == output_view(
                before,
            )[j2] by {
                assert(out@[j2] == before[j2]);
            }
            assert(output_view(out@) =~~= assemble_spec(groups_view(groups@)).take(i as int + 1));
        }
        i += 1;
    }
    proof {
        assert(assemble_spec(groups_view(groups@)).take(groups@.len() as int) =~= assemble_spec(
            groups_view(groups@),
        ));
    }
    out
}

/// Order of report entries: ascending by size, an absent size first.
pub open spec fn size_le(a: OutputEntryV, b: OutputEntryV) -> bool {
    match (a.size, b.size) {
        (Option::None, _) => true,
        (Option::Some(_), Option::None) => false,
        (Option::Some(x), Option::Some(y)) => x <= y,
    }
}

/// Insert an entry behind every entry that does not exceed it: the stable
/// position for an insertion sort.
pub open spec fn insert_sorted_spec(s: Seq<OutputEntryV>, e: OutputEntryV) -> Seq<OutputEntryV>
    decreases s.len(),
{
    if s.len() > 0 && size_le(s[0], e) {
        seq![s[0]] + insert_sorted_spec(s.skip(1), e)
    } else {
        seq![e] + s
    }
}

/// Stable insertion sort by size, ascending.
pub open spec fn sort_spec(s: Seq<OutputEntryV>) -> Seq<OutputEntryV>
    decreases s.len(),
{
    if s.len() == 0 {
        Seq::empty()
    } else {
        insert_sorted_spec(sort_spec(s.drop_last()), s.last())
    }
}

proof fn lemma_insert_sorted_at(s: Seq<OutputEntryV>, e: OutputEntryV, j: int)
    requires
        0 <= j <= s.len(),
        forall|k: int| 0 <= k < j ==> size_le(s[k], e),
        j < s.len() ==> !size_le(s[j], e),
    ensures
        insert_sorted_spec(s, e) == s.insert(j, e),
    decreases j,
{
    if j == 0 {
        assert(insert_sorted_spec(s, e) =~= s.insert(0, e));
    } else {
        lemma_insert_sorted_at(s.skip(1), e, j - 1);
        assert(insert_sorted_spec(s, e) =~= s.insert(j, e));
    }
}

fn entry_le(a: &OutputEntry, b: &OutputEntry) -> (r: bool)
    ensures
        r == size_le(a@, b@),
{
    match (a.size, b.size) {
        (None, _) => true,
        (Some(_), None) => false,
        (Some(x), Some(y)) => x <= y,
    }
}

/// A copy of a report entry, equal in view to the original.
fn copy_output_entry(e: &OutputEntry) -> (r: OutputEntry)
    ensures
        r@ == e@,
{
    let hash = match &e.hash {
        Some(h) => Some(h.clone()),
        None => None,
    };
    let mut paths: Vec<String> = Vec::new();
    let mut j: usize = 0;
    while j < e.paths.len()
        invariant
            j <= e.paths@.len(),
            paths@ == e.paths@.take(j as int),
        decreases e.paths@.len() - j,
    {
        paths.push(e.paths[j].clone());
        proof {
            assert(e.paths@.take(j as int).push(e.paths@[j as int]) =~= e.paths@.take(
                j as int + 1,
            ));
        }
        j += 1;
    }
    proof {
        assert(e.paths@.take(e.paths@.len() as int) =~= e.paths@);
    }
    OutputEntry { hash, size: e.size, paths }
}

fn insert_position(entries: &Vec<OutputEntry>, e: &OutputEntry) -> (r: usize)
    ensures
        r <= entries@.len(),
        forall|k: int| 0 <= k < r ==> size_le(output_view(entries@)[k], e@),
        r < entries@.len() ==> !size_le(output_view(entries@)[r as int], e@),
{
    let mut j: usize = 0;
    while j < entries.len()
        invariant
            j <= entries@.len(),
            forall|k: int| 0 <= k < j ==> size_le(output_view(entries@)[k], e@),
        decreases entries@.len() - j,
    {
        if !entry_le(&entries[j], e) {
            return j;
        }
        j += 1;
    }
    j
}

/// Sort report entries ascending by size; entries of equal size keep their
/// relative order.
pub fn sort_entries(entries: &Vec<OutputEntry>) -> (r: Vec<OutputEntry>)
    ensures
        output_view(r@) == sort_spec(output_view(entries@)),
{
    let mut result: Vec<OutputEntry> = Vec::new();
    let mut i: usize = 0;
    while i < entries.len()
        invariant
            i <= entries@.len(),
            output_view(result@) == sort_spec(output_view(entries@).take(i as int)),
        decreases entries@.len() - i,
    {
        let e = copy_output_entry(&entries[i]);
        let j = insert_position(&result, &e);
        let ghost before = output_view(result@);
        let ghost ev = e@;
        result.insert(j, e);
        proof {
            assert(before.len() == result@.len() - 1);
            lemma_insert_sorted_at(before, ev, j as int);
            assert forall|k: int| 0 <= k < result@.len() implies output_view(result@)[k]
                == before.insert(j as int, ev)[k] by {
            }
            assert(output_view(result@) =~~= insert_sorted_spec(before, ev));
            assert(output_view(entries@).take(i as int + 1).drop_last() =~= output_view(
                entries@,
            ).take(i as int));
            assert(output_view(entries@).take(i as int + 1).last() == output_view(entries@)[i as int]);
            assert(output_view(entries@)[i as int] == ev);
        }
        i += 1;
    }
    proof {
        assert(output_view(entries@).take(entries@.len() as int) =~= output_view(entries@));
    }
    result
}

/// Entries are sorted when no later entry is smaller.
pub open spec fn sorted_by_size(s: Seq<OutputEntryV>) -> bool {
    forall|a: int, b: int|
        #![trigger s[a], s[b]]
        0 <= a < b < s.len() ==> size_le(s[a], s[b])
}

proof fn lemma_insert_sorted_elems(s: Seq<OutputEntryV>, e: OutputEntryV, k: int)
    requires
        0 <= k < insert_sorted_spec(s, e).len(),
    ensures
        insert_sorted_spec(s, e)[k] == e || s.contains(insert_sorted_spec(s, e)[k]),
    decreases s.len(),
{
    if s.len() > 0 && size_le(s[0], e) {
        if k == 0 {
            assert(s.contains(s[0]));
        } else {
            lemma_insert_sorted_elems(s.skip(1), e, k - 1);
            if s.skip(1).contains(insert_sorted_spec(s, e)[k]) {
                let idx = choose|idx: int|
                    0 <= idx < s.skip(1).len() && s.skip(1)[idx] == insert_sorted_spec(s, e)[k];
                assert(s[idx + 1] == insert_sorted_spec(s, e)[k]);
                assert(s.contains(insert_sorted_spec(s, e)[k]));
            }
        }
    } else {
        if k > 0 {
            assert(insert_sorted_spec(s, e)[k] == s[k - 1]);
            assert(s.contains(s[k - 1]));
        }
    }
}

proof fn lemma_insert_sorted_keeps_sorted(s: Seq<OutputEntryV>, e: OutputEntryV)
    requires
        sorted_by_size(s),
    ensures
        sorted_by_size(insert_sorted_spec(s, e)),
    decreases s.len(),
{
    let r = insert_sorted_spec(s, e);
    if s.len() > 0 && size_le(s[0], e) {
        assert forall|a: int, b: int|
            #![trigger s.skip(1)[a], s.skip(1)[b]]
            0 <= a < b < s.skip(1).len() implies size_le(s.skip(1)[a], s.skip(1)[b]) by {
            assert(s.skip(1)[a] == s[a + 1]);
            assert(s.skip(1)[b] == s[b + 1]);
        }
        lemma_insert_sorted_keeps_sorted(s.skip(1), e);
        let tail = insert_sorted_spec(s.skip(1), e);
        assert forall|a: int, b: int|
            #![trigger r[a], r[b]]
            0 <= a < b < r.len() implies size_le(r[a], r[b]) by {
            if a == 0 {
                assert(r[0] == s[0]);
                assert(r[b] == tail[b - 1]);
                lemma_insert_sorted_elems(s.skip(1), e, b - 1);
                if tail[b - 1] == e {
                } else {
                    let idx = choose|idx: int|
                        0 <= idx < s.skip(1).len() && s.skip(1)[idx] == tail[b - 1];
                    assert(s[idx + 1] == tail[b - 1]);
                    assert(size_le(s[0], s[idx + 1]));
                }
            } else {
                assert(r[a] == tail[a - 1]);
                assert(r[b] == tail[b - 1]);
            }
        }
    } else {
        assert forall|a: int, b: int|
            #![trigger r[a], r[b]]
            0 <= a < b < r.len() implies size_le(r[a], r[b]) by {
            if a == 0 {
                assert(r[0] == e);
                assert(r[b] == s[b - 1]);
                if s.len() > 0 {
                    assert(!size_le(s[0], e));
                    assert(size_le(e, s[0]));
                    if b - 1 > 0 {
                        assert(size_le(s[0], s[b - 1]));
                    }
                }
            } else {
                assert(r[a] == s[a - 1]);
                assert(r[b] == s[b - 1]);
            }
        }
    }
}

/// The sorted report is ascending by size from front to back.
pub proof fn lemma_sort_spec_sorted(s: Seq<OutputEntryV>)
    ensures
        sorted_by_size(sort_spec(s)),
    decreases s.len(),
{
    if s.len() == 0 {
    } else {
        lemma_sort_spec_sorted(s.drop_last());
        lemma_insert_sorted_keeps_sorted(sort_spec(s.drop_last()), s.last());
    }
}

proof fn lemma_insert_sorted_multiset(s: Seq<OutputEntryV>, e: OutputEntryV)
    ensures
        insert_sorted_spec(s, e).to_multiset() == s.to_multiset().insert(e),
    decreases s.len(),
{
    broadcast use vstd::multiset::group_multiset_axioms;

    if s.len() > 0 && size_le(s[0], e) {
        lemma_insert_sorted_multiset(s.skip(1), e);
        let tail = insert_sorted_spec(s.skip(1), e);
        assert(seq![s[0]] + tail =~= tail.insert(0, s[0]));
        to_multiset_insert(tail, 0, s[0]);
        assert(s =~= s.skip(1).insert(0, s[0]));
        to_multiset_insert(s.skip(1), 0, s[0]);
        assert(s.skip(1).to_multiset().insert(e).insert(s[0]) =~= s.skip(1).to_multiset().insert(
            s[0],
        ).insert(e));
    } else {
        assert(seq![e] + s =~= s.insert(0, e));
        to_multiset_insert(s, 0, e);
    }
}

/// Sorting only reorders: the sorted report holds exactly the entries that
/// were assembled, each as often as it was assembled.
pub proof fn lemma_sort_spec_permutes(s: Seq<OutputEntryV>)
    ensures
        sort_spec(s).to_multiset() == s.to_multiset(),
    decreases s.len(),
{
    broadcast use vstd::seq_lib::group_to_multiset_ensures;

    if s.len() == 0 {
    } else {
        lemma_sort_spec_permutes(s.drop_last());
        lemma_insert_sorted_multiset(sort_spec(s.drop_last()), s.last());
        assert(s.drop_last().push(s.last()) =~= s);
        assert(s.drop_last().push(s.last()).to_multiset() =~= s.drop_last().to_multiset().insert(
            s.last(),
        ));
    }
}

} // verus!
