//! The narrowing pipeline as a whole, modelled over scanned files together
//! with their contents, and the two laws that hold of a full-depth run:
//! files with identical content always share one output group, and files
//! whose whole-content digests differ never do.

use vstd::prelude::*;

use crate::digest::{full_digest_spec, partial_digest_spec};
use crate::group::{
    FileEntryV, GroupKeyV, GroupOf, KeyedOf, flatten_spec, group_spec, in_common_group,
    lemma_pair_in_pruned, lemma_pair_survives, lemma_pruned_member_source, prune_spec,
};

verus! {

/// A scanned file with its content: what the pipeline laws speak of.
#[verifier::ext_equal]
pub struct ScannedV {
    pub file: FileEntryV,
    pub content: Seq<u8>,
}

/// A scanned file is well formed when its recorded size is the length of
/// its content.
pub open spec fn scanned_wf(x: ScannedV) -> bool {
    x.file.size == x.content.len()
}

/// Scanned files keyed by exact size.
pub open spec fn scan_size_keyed(s: Seq<ScannedV>) -> Seq<KeyedOf<ScannedV>> {
    s.map_values(|x: ScannedV| KeyedOf { key: GroupKeyV::Size(x.file.size), item: x })
}

/// Scanned files keyed by their sampled digest.
pub open spec fn scan_partial_keyed(s: Seq<ScannedV>) -> Seq<KeyedOf<ScannedV>> {
    s.map_values(
        |x: ScannedV| KeyedOf { key: GroupKeyV::Digest(partial_digest_spec(x.content)), item: x },
    )
}

/// Scanned files keyed by their whole-content digest.
pub open spec fn scan_full_keyed(s: Seq<ScannedV>) -> Seq<KeyedOf<ScannedV>> {
    s.map_values(
        |x: ScannedV| KeyedOf { key: GroupKeyV::Digest(full_digest_spec(x.content)), item: x },
    )
}

/// The survivors of one narrowing stage: group, prune singletons, flatten.
pub open spec fn stage_spec(items: Seq<KeyedOf<ScannedV>>) -> Seq<ScannedV> {
    flatten_spec(prune_spec(group_spec(items)))
}

/// The groups a full-depth run reports: size stage, sampled-digest stage,
/// whole-content digest stage, each pruned of singletons.
pub open spec fn full_depth_groups_spec(s: Seq<ScannedV>) -> Seq<GroupOf<ScannedV>> {
    let s1 = stage_spec(scan_size_keyed(s));
    let s2 = stage_spec(scan_partial_keyed(s1));
    prune_spec(group_spec(scan_full_keyed(s2)))
}

/// Completeness: two well-formed scanned files with byte-identical content
/// and distinct paths always end together in one group of a full-depth run.
pub proof fn lemma_completeness(s: Seq<ScannedV>, i: int, j: int)
    requires
        forall|a: int| 0 <= a < s.len() ==> scanned_wf(#[trigger] s[a]),
        0 <= i < s.len(),
        0 <= j < s.len(),
        i != j,
        s[i].content == s[j].content,
        s[i].file.path != s[j].file.path,
    ensures
        in_common_group(full_depth_groups_spec(s), s[i], s[j]),
{
    let x = s[i];
    let y = s[j];
    assert(x != y);
    let k1 = scan_size_keyed(s);
    assert(k1[i].key == GroupKeyV::Size(x.file.size));
    assert(k1[j].key == GroupKeyV::Size(y.file.size));
    assert(x.file.size == y.file.size);
    assert(k1[i].item == x && k1[j].item == y);
    lemma_pair_survives(k1, i, j);
    let s1 = stage_spec(k1);
    let i1 = choose|a: int| 0 <= a < s1.len() && s1[a] == x;
    let j1 = choose|a: int| 0 <= a < s1.len() && s1[a] == y;
    assert(i1 != j1);
    let k2 = scan_partial_keyed(s1);
    assert(k2[i1].key == GroupKeyV::Digest(partial_digest_spec(x.content)));
    assert(k2[j1].key == GroupKeyV::Digest(partial_digest_spec(y.content)));
    assert(k2[i1].key == k2[j1].key);
    assert(k2[i1].item == x && k2[j1].item == y);
    lemma_pair_survives(k2, i1, j1);
    let s2 = stage_spec(k2);
    let i2 = choose|a: int| 0 <= a < s2.len() && s2[a] == x;
    let j2 = choose|a: int| 0 <= a < s2.len() && s2[a] == y;
    assert(i2 != j2);
    let k3 = scan_full_keyed(s2);
    assert(k3[i2].key == GroupKeyV::Digest(full_digest_spec(x.content)));
    assert(k3[j2].key == GroupKeyV::Digest(full_digest_spec(y.content)));
    assert(k3[i2].key == k3[j2].key);
    assert(k3[i2].item == x && k3[j2].item == y);
    lemma_pair_in_pruned(k3, i2, j2);
    assert(full_depth_groups_spec(s) == prune_spec(group_spec(k3)));
}

/// Soundness: a group of a full-depth run never holds two files whose
/// whole-content digests differ. Apart from deliberate digest collisions,
/// files with different content have different digests.
pub proof fn lemma_soundness(s: Seq<ScannedV>, x: ScannedV, y: ScannedV, g: int)
    requires
        full_digest_spec(x.content) != full_digest_spec(y.content),
        0 <= g < full_depth_groups_spec(s).len(),
        full_depth_groups_spec(s)[g].members.contains(x),
    ensures
        !full_depth_groups_spec(s)[g].members.contains(y),
{
    let s1 = stage_spec(scan_size_keyed(s));
    let s2 = stage_spec(scan_partial_keyed(s1));
    let k3 = scan_full_keyed(s2);
    let groups = full_depth_groups_spec(s);
    assert(groups == prune_spec(group_spec(k3)));
    let mx = choose|m: int| 0 <= m < groups[g].members.len() && groups[g].members[m] == x;
    lemma_pruned_member_source(k3, g, mx);
    let ix = choose|i: int|
        #![trigger k3[i]]
        0 <= i < k3.len() && k3[i].key == groups[g].key && k3[i].item == groups[g].members[mx];
    assert(k3[ix].item == s2[ix]);
    assert(k3[ix].key == GroupKeyV::Digest(full_digest_spec(s2[ix].content)));
    assert(groups[g].key == GroupKeyV::Digest(full_digest_spec(x.content)));
    if groups[g].members.contains(y) {
        let my = choose|m: int| 0 <= m < groups[g].members.len() && groups[g].members[m] == y;
        lemma_pruned_member_source(k3, g, my);
        let iy = choose|i: int|
            #![trigger k3[i]]
            0 <= i < k3.len() && k3[i].key == groups[g].key && k3[i].item == groups[g].members[my];
        assert(k3[iy].key == GroupKeyV::Digest(full_digest_spec(s2[iy].content)));
        assert(groups[g].key == GroupKeyV::Digest(full_digest_spec(y.content)));
        assert(full_digest_spec(x.content) == full_digest_spec(y.content));
    }
}

/// Idempotence: the reported groups are a function of the scanned files
/// alone; a second run over an unchanged scan reports the same groups, in
/// the same order.
pub proof fn lemma_idempotent(s: Seq<ScannedV>, t: Seq<ScannedV>)
    requires
        s == t,
    ensures
        full_depth_groups_spec(s) == full_depth_groups_spec(t),
{
}

} // verus!
