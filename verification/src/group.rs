//! Grouping: partition keyed files into candidate groups, prune the groups
//! with fewer than two members, and flatten the survivors for the next stage.

use vstd::prelude::*;

verus! {

/// A file found by the scan: its path and its size in bytes.
pub struct FileEntry {
    pub path: String,
    pub size: u64,
}

/// Spec-level image of a `FileEntry`.
#[verifier::ext_equal]
pub struct FileEntryV {
    pub path: Seq<char>,
    pub size: u64,
}

impl View for FileEntry {
    type V = FileEntryV;

    open spec fn view(&self) -> FileEntryV {
        FileEntryV { path: self.path@, size: self.size }
    }
}

/// A file together with the digest a hashing stage computed for it.
pub struct HashedFile {
    pub file: FileEntry,
    pub digest: Vec<u8>,
}

/// Spec-level image of a `HashedFile`.
#[verifier::ext_equal]
pub struct HashedFileV {
    pub file: FileEntryV,
    pub digest: Seq<u8>,
}

impl View for HashedFile {
    type V = HashedFileV;

    open spec fn view(&self) -> HashedFileV {
        HashedFileV { file: self.file@, digest: self.digest@ }
    }
}

/// The key a stage groups by: exact size, or a digest.
pub enum GroupKey {
    Size(u64),
    Digest(Vec<u8>),
}

/// Spec-level image of a `GroupKey`.
#[verifier::ext_equal]
pub enum GroupKeyV {
    Size(u64),
    Digest(Seq<u8>),
}

impl View for GroupKey {
    type V = GroupKeyV;

    open spec fn view(&self) -> GroupKeyV {
        match self {
            GroupKey::Size(s) => GroupKeyV::Size(*s),
            GroupKey::Digest(d) => GroupKeyV::Digest(d@),
        }
    }
}

/// A keyed item, spec level.
#[verifier::ext_equal]
pub struct KeyedOf<T> {
    pub key: GroupKeyV,
    pub item: T,
}

/// A candidate group, spec level: a key and the items that share it.
#[verifier::ext_equal]
pub struct GroupOf<T> {
    pub key: GroupKeyV,
    pub members: Seq<T>,
}

/// A file waiting to be grouped under its stage key.
pub struct KeyedFile {
    pub key: GroupKey,
    pub file: FileEntry,
}

impl View for KeyedFile {
    type V = KeyedOf<FileEntryV>;

    open spec fn view(&self) -> KeyedOf<FileEntryV> {
        KeyedOf { key: self.key@, item: self.file@ }
    }
}

/// A candidate group: a key and the files that share it, in input order.
pub struct Group {
    pub key: GroupKey,
    pub members: Vec<FileEntry>,
}

impl View for Group {
    type V = GroupOf<FileEntryV>;

    open spec fn view(&self) -> GroupOf<FileEntryV> {
        GroupOf { key: self.key@, members: self.members@.map_values(|f: FileEntry| f@) }
    }
}

/// Views of a sequence of file entries.
pub open spec fn entries_view(s: Seq<FileEntry>) -> Seq<FileEntryV> {
    s.map_values(|f: FileEntry| f@)
}

/// Views of a sequence of hashed files.
pub open spec fn hashed_view(s: Seq<HashedFile>) -> Seq<HashedFileV> {
    s.map_values(|h: HashedFile| h@)
}

/// Views of a sequence of keyed files.
pub open spec fn keyed_view(s: Seq<KeyedFile>) -> Seq<KeyedOf<FileEntryV>> {
    s.map_values(|k: KeyedFile| k@)
}

/// Views of a sequence of groups.
pub open spec fn groups_view(s: Seq<Group>) -> Seq<GroupOf<FileEntryV>> {
    s.map_values(|g: Group| g@)
}

/// Add one keyed item to a group sequence: into the first group with its
/// key, or into a fresh group at the end.
pub open spec fn add_to_groups<T>(gs: Seq<GroupOf<T>>, key: GroupKeyV, item: T) -> Seq<GroupOf<T>>
    decreases gs.len(),
{
    if gs.len() == 0 {
        seq![GroupOf { key: key, members: seq![item] }]
    } else if gs[0].key == key {
        seq![GroupOf { key: gs[0].key, members: gs[0].members.push(item) }] + gs.skip(1)
    } else {
        seq![gs[0]] + add_to_groups(gs.skip(1), key, item)
    }
}

/// Partition keyed items into groups: groups in first-occurrence order of
/// their keys, members of each group in input order.
pub open spec fn group_spec<T>(items: Seq<KeyedOf<T>>) -> Seq<GroupOf<T>>
    decreases items.len(),
{
    if items.len() == 0 {
        Seq::empty()
    } else {
        add_to_groups(group_spec(items.drop_last()), items.last().key, items.last().item)
    }
}

/// Drop the groups with fewer than two members, keeping order.
pub open spec fn prune_spec<T>(gs: Seq<GroupOf<T>>) -> Seq<GroupOf<T>>
    decreases gs.len(),
{
    if gs.len() == 0 {
        Seq::empty()
    } else {
        let rest = prune_spec(gs.drop_last());
        if gs.last().members.len() >= 2 {
            rest.push(gs.last())
        } else {
            rest
        }
    }
}

/// The members of all groups, flattened in group order.
pub open spec fn flatten_spec<T>(gs: Seq<GroupOf<T>>) -> Seq<T>
    decreases gs.len(),
{
    if gs.len() == 0 {
        Seq::empty()
    } else {
        flatten_spec(gs.drop_last()) + gs.last().members
    }
}

/// Byte-for-byte equality of two digests.
pub fn bytes_eq(a: &Vec<u8>, b: &Vec<u8>) -> (r: bool)
    ensures
        r == (a@ == b@),
{
    if a.len() != b.len() {
        return false;
    }
    let mut i: usize = 0;
    while i < a.len()
        invariant
            i <= a@.len(),
            a@.len() == b@.len(),
            forall|j: int| 0 <= j < i ==> a@[j] == b@[j],
        decreases a@.len() - i,
    {
        if a[i] != b[i] {
            return false;
        }
        i += 1;
    }
    proof {
        assert(a@ =~= b@);
    }
    true
}

/// Equality of group keys: the same kind carrying the same value.
pub fn key_eq(a: &GroupKey, b: &GroupKey) -> (r: bool)
    ensures
        r == (a@ == b@),
{
    match (a, b) {
        (GroupKey::Size(x), GroupKey::Size(y)) => *x == *y,
        (GroupKey::Digest(x), GroupKey::Digest(y)) => bytes_eq(x, y),
        (GroupKey::Size(_), GroupKey::Digest(_)) => false,
        (GroupKey::Digest(_), GroupKey::Size(_)) => false,
    }
}

/// A copy of a file entry, equal to the original.
pub fn clone_entry(f: &FileEntry) -> (r: FileEntry)
    ensures
        r@ == f@,
{
    FileEntry { path: f.path.clone(), size: f.size }
}

/// A copy of a digest, equal to the original.
pub fn clone_bytes(b: &Vec<u8>) -> (r: Vec<u8>)
    ensures
        r@ == b@,
{
    let mut out: Vec<u8> = Vec::new();
    let mut i: usize = 0;
    while i < b.len()
        invariant
            i <= b@.len(),
            out@ == b@.take(i as int),
        decreases b@.len() - i,
    {
        out.push(b[i]);
        proof {
            assert(b@.take(i as int).push(b@[i as int]) =~= b@.take(i as int + 1));
        }
        i += 1;
    }
    proof {
        assert(b@.take(b@.len() as int) =~= b@);
    }
    out
}

/// A copy of a group key, equal to the original.
pub fn clone_key(k: &GroupKey) -> (r: GroupKey)
    ensures
        r@ == k@,
{
    match k {
        GroupKey::Size(s) => GroupKey::Size(*s),
        GroupKey::Digest(d) => GroupKey::Digest(clone_bytes(d)),
    }
}

/// Every file keyed by its exact size.
pub open spec fn size_keyed_spec(files: Seq<FileEntryV>) -> Seq<KeyedOf<FileEntryV>> {
    files.map_values(|f: FileEntryV| KeyedOf { key: GroupKeyV::Size(f.size), item: f })
}

/// Every hashed file keyed by its digest.
pub open spec fn digest_keyed_spec(files: Seq<HashedFileV>) -> Seq<KeyedOf<FileEntryV>> {
    files.map_values(|h: HashedFileV| KeyedOf { key: GroupKeyV::Digest(h.digest), item: h.file })
}

/// Key every file by its exact size.
pub fn key_by_size(files: &Vec<FileEntry>) -> (r: Vec<KeyedFile>)
    ensures
        keyed_view(r@) == size_keyed_spec(entries_view(files@)),
{
    let mut out: Vec<KeyedFile> = Vec::new();
    let mut i: usize = 0;
    while i < files.len()
        invariant
            i <= files@.len(),
            keyed_view(out@) =~= size_keyed_spec(entries_view(files@)).take(i as int),
        decreases files@.len() - i,
    {
        let entry = clone_entry(&files[i]);
        let ghost before = out@;
        out.push(KeyedFile { key: GroupKey::Size(entry.size), file: entry });
        proof {
            let s = size_keyed_spec(entries_view(files@));
            assert(keyed_view(before).len() == before.len());
            assert(before.len() == i as int);
            assert(out@.len() == i as int + 1);
            assert(entries_view(files@)[i as int] == files@[i as int]@);
            assert(out@[i as int]@ =~~= s[i as int]);
            assert forall|j: int| 0 <= j < i as int implies keyed_view(out@)[j] == keyed_view(
                before,
            )[j] by {
                assert(out@[j] == before[j]);
            }
            assert(keyed_view(out@) =~~= s.take(i as int + 1));
        }
        i += 1;
    }
    proof {
        assert(size_keyed_spec(entries_view(files@)).take(files@.len() as int) =~= size_keyed_spec(
            entries_view(files@),
        ));
    }
    out
}

/// Key every hashed file by its digest.
pub fn key_by_digest(files: &Vec<HashedFile>) -> (r: Vec<KeyedFile>)
    ensures
        keyed_view(r@) == digest_keyed_spec(hashed_view(files@)),
{
    let mut out: Vec<KeyedFile> = Vec::new();
    let mut i: usize = 0;
    while i < files.len()
        invariant
            i <= files@.len(),
            keyed_view(out@) =~= digest_keyed_spec(hashed_view(files@)).take(i as int),
        decreases files@.len() - i,
    {
        let entry = clone_entry(&files[i].file);
        let digest = clone_bytes(&files[i].digest);
        let ghost before = out@;
        out.push(KeyedFile { key: GroupKey::Digest(digest), file: entry });
        proof {
            let s = digest_keyed_spec(hashed_view(files@));
            assert(keyed_view(before).len() == before.len());
            assert(before.len() == i as int);
            assert(out@.len() == i as int + 1);
            assert(hashed_view(files@)[i as int] == files@[i as int]@);
            assert(out@[i as int]@ =~~= s[i as int]);
            assert forall|j: int| 0 <= j < i as int implies keyed_view(out@)[j] == keyed_view(
                before,
            )[j] by {
                assert(out@[j] == before[j]);
            }
            assert(keyed_view(out@) =~~= s.take(i as int + 1));
        }
        i += 1;
    }
    proof {
        assert(digest_keyed_spec(hashed_view(files@)).take(files@.len() as int)
            =~= digest_keyed_spec(hashed_view(files@)));
    }
    out
}

fn find_group(groups: &Vec<Group>, key: &GroupKey) -> (r: Option<usize>)
    ensures
        match r {
            Some(j) => j < groups@.len() && groups_view(groups@)[j as int].key == key@ && forall|
                k: int,
            | 0 <= k < j ==> groups_view(groups@)[k].key != key@,
            None => forall|k: int|
                0 <= k < groups@.len() ==> groups_view(groups@)[k].key != key@,
        },
{
    let mut j: usize = 0;
    while j < groups.len()
        invariant
            j <= groups@.len(),
            forall|k: int| 0 <= k < j ==> groups_view(groups@)[k].key != key@,
        decreases groups@.len() - j,
    {
        if key_eq(&groups[j].key, key) {
            return Some(j);
        }
        j += 1;
    }
    None
}

proof fn lemma_add_to_groups_found<T>(gs: Seq<GroupOf<T>>, key: GroupKeyV, item: T, j: int)
    requires
        0 <= j < gs.len(),
        gs[j].key == key,
        forall|k: int| 0 <= k < j ==> gs[k].key != key,
    ensures
        add_to_groups(gs, key, item) == gs.update(
            j,
            GroupOf { key: gs[j].key, members: gs[j].members.push(item) },
        ),
    decreases j,
{
    if j == 0 {
        assert(add_to_groups(gs, key, item) =~= gs.update(
            0,
            GroupOf { key: gs[0].key, members: gs[0].members.push(item) },
        ));
    } else {
        assert(gs[0].key != key);
        lemma_add_to_groups_found(gs.skip(1), key, item, j - 1);
        assert(gs.skip(1)[j - 1] == gs[j]);
        assert(add_to_groups(gs, key, item) =~= gs.update(
            j,
            GroupOf { key: gs[j].key, members: gs[j].members.push(item) },
        ));
    }
}

proof fn lemma_add_to_groups_missing<T>(gs: Seq<GroupOf<T>>, key: GroupKeyV, item: T)
    requires
        forall|k: int| 0 <= k < gs.len() ==> gs[k].key != key,
    ensures
        add_to_groups(gs, key, item) == gs.push(GroupOf { key: key, members: seq![item] }),
    decreases gs.len(),
{
    if gs.len() == 0 {
        assert(add_to_groups(gs, key, item) =~= gs.push(
            GroupOf { key: key, members: seq![item] },
        ));
    } else {
        assert(gs[0].key != key);
        lemma_add_to_groups_missing(gs.skip(1), key, item);
        assert(add_to_groups(gs, key, item) =~= gs.push(
            GroupOf { key: key, members: seq![item] },
        ));
    }
}

/// Partition keyed files into candidate groups: groups appear in the order
/// their keys first occur, members of each group in input order.
pub fn group_files(files: &Vec<KeyedFile>) -> (r: Vec<Group>)
    ensures
        groups_view(r@) == group_spec(keyed_view(files@)),
{
    let mut groups: Vec<Group> = Vec::new();
    let mut i: usize = 0;
    while i < files.len()
        invariant
            i <= files@.len(),
            groups_view(groups@) == group_spec(keyed_view(files@).take(i as int)),
        decreases files@.len() - i,
    {
        let key = clone_key(&files[i].key);
        let entry = clone_entry(&files[i].file);
        let ghost pre = groups_view(groups@);
        let ghost fk = keyed_view(files@)[i as int];
        proof {
            assert(fk.key == key@ && fk.item == entry@);
        }
        match find_group(&groups, &key) {
            Some(j) => {
                let mut g = groups.remove(j);
                g.members.push(entry);
                groups.insert(j, g);
                proof {
                    lemma_add_to_groups_found(pre, fk.key, fk.item, j as int);
                    assert(groups_view(groups@) =~~= pre.update(
                        j as int,
                        GroupOf { key: pre[j as int].key, members: pre[j as int].members.push(fk.item) },
                    ));
                }
            },
            None => {
                let mut members: Vec<FileEntry> = Vec::new();
                members.push(entry);
                groups.push(Group { key, members });
                proof {
                    lemma_add_to_groups_missing(pre, fk.key, fk.item);
                    assert(groups_view(groups@) =~~= pre.push(
                        GroupOf { key: fk.key, members: seq![fk.item] },
                    ));
                }
            },
        }
        proof {
            assert(keyed_view(files@).take(i as int + 1).drop_last() =~= keyed_view(files@).take(
                i as int,
            ));
            assert(keyed_view(files@).take(i as int + 1).last() == fk);
        }
        i += 1;
    }
    proof {
        assert(keyed_view(files@).take(files@.len() as int) =~= keyed_view(files@));
    }
    groups
}

/// Drop the groups with fewer than two members, keeping order.
pub fn prune_groups(groups: Vec<Group>) -> (r: Vec<Group>)
    ensures
        groups_view(r@) == prune_spec(groups_view(groups@)),
{
    let ghost orig = groups_view(groups@);
    let mut gs = groups;
    let mut i: usize = 0;
    let ghost mut k: int = 0;
    while i < gs.len()
        invariant
            0 <= k <= orig.len(),
            i <= gs@.len(),
            groups_view(gs@) == prune_spec(orig.take(k)) + orig.skip(k),
            i == prune_spec(orig.take(k)).len(),
        decreases gs@.len() - i,
    {
        proof {
            assert(groups_view(gs@)[i as int] == orig.skip(k)[0]);
            assert(orig.skip(k)[0] == orig[k]);
            assert(orig.take(k + 1).drop_last() =~= orig.take(k));
            assert(orig.take(k + 1).last() == orig[k]);
            assert(orig.skip(k) =~= seq![orig[k]] + orig.skip(k + 1));
        }
        if gs[i].members.len() >= 2 {
            proof {
                assert(groups_view(gs@) =~= prune_spec(orig.take(k + 1)) + orig.skip(k + 1));
                k = k + 1;
            }
            i += 1;
        } else {
            let ghost pre_exec = gs@;
            gs.remove(i);
            proof {
                assert forall|j: int| 0 <= j < gs@.len() implies groups_view(gs@)[j]
                    == groups_view(pre_exec).remove(i as int)[j] by {
                    if j < i as int {
                        assert(gs@[j] == pre_exec[j]);
                    } else {
                        assert(gs@[j] == pre_exec[j + 1]);
                    }
                }
                assert(groups_view(gs@) =~= groups_view(pre_exec).remove(i as int));
                assert(groups_view(gs@) =~= prune_spec(orig.take(k + 1)) + orig.skip(k + 1));
                k = k + 1;
            }
        }
    }
    proof {
        assert(orig.skip(k).len() == 0);
        assert(orig.take(k) =~= orig);
        assert(groups_view(gs@) =~= prune_spec(orig));
    }
    gs
}

/// One narrowing stage: group by key, then prune singleton groups.
pub fn stage_groups(files: &Vec<KeyedFile>) -> (r: Vec<Group>)
    ensures
        groups_view(r@) == prune_spec(group_spec(keyed_view(files@))),
{
    let groups = group_files(files);
    prune_groups(groups)
}

/// The files of the surviving groups, flattened in group order.
#[verifier::rlimit(40)]
pub fn survivors(groups: &Vec<Group>) -> (r: Vec<FileEntry>)
    ensures
        entries_view(r@) == flatten_spec(groups_view(groups@)),
{
    let mut out: Vec<FileEntry> = Vec::new();
    let mut i: usize = 0;
    while i < groups.len()
        invariant
            i <= groups@.len(),
            entries_view(out@) == flatten_spec(groups_view(groups@).take(i as int)),
        decreases groups@.len() - i,
    {
        let ghost flat_before = entries_view(out@);
        let ghost mems = groups_view(groups@)[i as int].members;
        let n = groups[i].members.len();
        let mut j: usize = 0;
        while j < n
            invariant
                i < groups@.len(),
                j <= mems.len(),
                n == mems.len(),
                mems == groups_view(groups@)[i as int].members,
                entries_view(out@) == flat_before + mems.take(j as int),
        decreases mems.len() - j,
        {
            out.push(clone_entry(&groups[i].members[j]));
            proof {
                assert(flat_before + mems.take(j as int) + seq![mems[j as int]] =~= flat_before
                    + mems.take(j as int + 1));
                assert(entries_view(out@) =~= flat_before + mems.take(j as int + 1));
            }
            j += 1;
        }
        proof {
            assert(groups_view(groups@).take(i as int + 1).drop_last() =~= groups_view(
                groups@,
            ).take(i as int));
            assert(mems.take(mems.len() as int) =~= mems);
            assert(entries_view(out@) =~= flatten_spec(groups_view(groups@).take(i as int + 1)));
        }
        i += 1;
    }
    proof {
        assert(groups_view(groups@).take(groups@.len() as int) =~= groups_view(groups@));
    }
    out
}


/// The keys of a group sequence are pairwise distinct.
pub open spec fn groups_keys_distinct<T>(gs: Seq<GroupOf<T>>) -> bool {
    forall|a: int, b: int|
        #![trigger gs[a], gs[b]]
        0 <= a < b < gs.len() ==> gs[a].key != gs[b].key
}

/// Some input pairs this key with this item.
pub open spec fn entered_with_key<T>(items: Seq<KeyedOf<T>>, key: GroupKeyV, item: T) -> bool {
    exists|i: int|
        #![trigger items[i]]
        0 <= i < items.len() && items[i].key == key && items[i].item == item
}

/// Every member of every group entered the grouping under the group's key.
pub open spec fn groups_member_sourced<T>(items: Seq<KeyedOf<T>>, gs: Seq<GroupOf<T>>) -> bool {
    forall|g: int, m: int|
        #![trigger gs[g].members[m]]
        0 <= g < gs.len() && 0 <= m < gs[g].members.len() ==> entered_with_key(
            items,
            gs[g].key,
            gs[g].members[m],
        )
}

/// Some group carries this key and holds this item.
pub open spec fn has_group_with<T>(gs: Seq<GroupOf<T>>, key: GroupKeyV, item: T) -> bool {
    exists|g: int|
        #![trigger gs[g]]
        0 <= g < gs.len() && gs[g].key == key && gs[g].members.contains(item)
}

/// Every input item lies in a group that carries its key.
pub open spec fn groups_cover_items<T>(items: Seq<KeyedOf<T>>, gs: Seq<GroupOf<T>>) -> bool {
    forall|i: int|
        #![trigger items[i]]
        0 <= i < items.len() ==> has_group_with(gs, items[i].key, items[i].item)
}

/// Some group holds both items.
pub open spec fn in_common_group<T>(gs: Seq<GroupOf<T>>, x: T, y: T) -> bool {
    exists|g: int|
        #![trigger gs[g]]
        0 <= g < gs.len() && gs[g].members.contains(x) && gs[g].members.contains(y)
}

/// Structure of the grouping: group keys are pairwise distinct; every
/// member of a group entered the grouping under the group's key; every
/// input item lies in the group that carries its key.
#[verifier::rlimit(100)]
#[verifier::spinoff_prover]
pub proof fn lemma_group_spec_sound<T>(items: Seq<KeyedOf<T>>)
    ensures
        groups_keys_distinct(group_spec(items)),
        groups_member_sourced(items, group_spec(items)),
        groups_cover_items(items, group_spec(items)),
    decreases items.len(),
{
    if items.len() == 0 {
        assert(group_spec(items).len() == 0);
    } else {
        let rest = items.drop_last();
        let x = items.last();
        lemma_group_spec_sound(rest);
        let gp = group_spec(rest);
        let gs = group_spec(items);
        assert(gs == add_to_groups(gp, x.key, x.item));
        if exists|j: int| 0 <= j < gp.len() && gp[j].key == x.key {
            let j = choose|j: int| 0 <= j < gp.len() && gp[j].key == x.key;
            assert forall|k: int| 0 <= k < j implies gp[k].key != x.key by {
                if gp[k].key == x.key {
                    assert(gp[k].key == gp[j].key);
                }
            }
            lemma_add_to_groups_found(gp, x.key, x.item, j);
            assert forall|a: int, b: int|
                #![trigger gs[a], gs[b]]
                0 <= a < b < gs.len() implies gs[a].key != gs[b].key by {
                assert(gs[a].key == gp[a].key);
                assert(gs[b].key == gp[b].key);
            }
            assert(groups_keys_distinct(gs));
            assert forall|g: int, m: int|
                #![trigger gs[g].members[m]]
                0 <= g < gs.len() && 0 <= m < gs[g].members.len() implies entered_with_key(
                items,
                gs[g].key,
                gs[g].members[m],
            ) by {
                if g == j && m == gs[g].members.len() - 1 {
                    assert(items[items.len() - 1].key == gs[g].key);
                    assert(items[items.len() - 1].item == gs[g].members[m]);
                } else {
                    assert(0 <= m < gp[g].members.len());
                    assert(gp[g].members[m] == gs[g].members[m]);
                    assert(entered_with_key(rest, gp[g].key, gp[g].members[m]));
                    let i0 = choose|i0: int|
                        #![trigger rest[i0]]
                        0 <= i0 < rest.len() && rest[i0].key == gp[g].key && rest[i0].item
                            == gp[g].members[m];
                    assert(items[i0] == rest[i0]);
                    assert(items[i0].key == gs[g].key);
                    assert(items[i0].item == gs[g].members[m]);
                }
            }
            assert(groups_member_sourced(items, gs));
            assert forall|i: int| #![trigger items[i]] 0 <= i < items.len() implies has_group_with(
                gs,
                items[i].key,
                items[i].item,
            ) by {
                if i < items.len() - 1 {
                    assert(items[i] == rest[i]);
                    assert(has_group_with(gp, rest[i].key, rest[i].item));
                    let g0 = choose|g0: int|
                        #![trigger gp[g0]]
                        0 <= g0 < gp.len() && gp[g0].key == rest[i].key && gp[g0].members.contains(
                            rest[i].item,
                        );
                    if g0 == j {
                        let idx = choose|idx: int|
                            0 <= idx < gp[j].members.len() && gp[j].members[idx] == rest[i].item;
                        assert(gs[j].members[idx] == rest[i].item);
                        assert(gs[j].members.contains(items[i].item));
                        assert(gs[j].key == items[i].key);
                    } else {
                        assert(gs[g0] == gp[g0]);
                    }
                } else {
                    assert(gs[j].members.last() == x.item);
                    assert(gs[j].members.contains(x.item));
                    assert(gs[j].key == x.key);
                }
            }
            assert(groups_cover_items(items, gs));
        } else {
            assert(forall|k: int| 0 <= k < gp.len() ==> gp[k].key != x.key);
            lemma_add_to_groups_missing(gp, x.key, x.item);
            assert forall|a: int, b: int|
                #![trigger gs[a], gs[b]]
                0 <= a < b < gs.len() implies gs[a].key != gs[b].key by {
                if b == gs.len() - 1 {
                    assert(gs[b].key == x.key);
                    assert(gs[a].key == gp[a].key);
                } else {
                    assert(gs[a].key == gp[a].key);
                    assert(gs[b].key == gp[b].key);
                }
            }
            assert(groups_keys_distinct(gs));
            assert forall|g: int, m: int|
                #![trigger gs[g].members[m]]
                0 <= g < gs.len() && 0 <= m < gs[g].members.len() implies entered_with_key(
                items,
                gs[g].key,
                gs[g].members[m],
            ) by {
                if g == gs.len() - 1 {
                    assert(gs[g].members =~= seq![x.item]);
                    assert(items[items.len() - 1].key == gs[g].key);
                    assert(items[items.len() - 1].item == gs[g].members[m]);
                } else {
                    assert(gs[g] == gp[g]);
                    assert(entered_with_key(rest, gp[g].key, gp[g].members[m]));
                    let i0 = choose|i0: int|
                        #![trigger rest[i0]]
                        0 <= i0 < rest.len() && rest[i0].key == gp[g].key && rest[i0].item
                            == gp[g].members[m];
                    assert(items[i0] == rest[i0]);
                    assert(items[i0].key == gs[g].key);
                    assert(items[i0].item == gs[g].members[m]);
                }
            }
            assert(groups_member_sourced(items, gs));
            assert forall|i: int| #![trigger items[i]] 0 <= i < items.len() implies has_group_with(
                gs,
                items[i].key,
                items[i].item,
            ) by {
                if i < items.len() - 1 {
                    assert(items[i] == rest[i]);
                    assert(has_group_with(gp, rest[i].key, rest[i].item));
                    let g0 = choose|g0: int|
                        #![trigger gp[g0]]
                        0 <= g0 < gp.len() && gp[g0].key == rest[i].key && gp[g0].members.contains(
                            rest[i].item,
                        );
                    assert(gs[g0] == gp[g0]);
                } else {
                    let g1 = gs.len() - 1;
                    assert(gs[g1].key == x.key);
                    assert(gs[g1].members[0] == x.item);
                    assert(gs[g1].members.contains(x.item));
                }
            }
            assert(groups_cover_items(items, gs));
        }
    }
}

/// A pruned group comes from the grouping unchanged and has at least two
/// members.
pub proof fn lemma_prune_spec_sound<T>(gs: Seq<GroupOf<T>>, p: int)
    requires
        0 <= p < prune_spec(gs).len(),
    ensures
        gs.contains(prune_spec(gs)[p]),
        prune_spec(gs)[p].members.len() >= 2,
    decreases gs.len(),
{
    if gs.len() == 0 {
    } else {
        let r = prune_spec(gs.drop_last());
        if gs.last().members.len() >= 2 && p == r.len() {
            assert(prune_spec(gs)[p] == gs.last());
            assert(gs[gs.len() - 1] == gs.last());
            assert(gs.contains(gs.last()));
        } else {
            lemma_prune_spec_sound(gs.drop_last(), p);
            let idx = choose|idx: int|
                0 <= idx < gs.drop_last().len() && gs.drop_last()[idx] == prune_spec(
                    gs.drop_last(),
                )[p];
            assert(gs[idx] == gs.drop_last()[idx]);
            assert(prune_spec(gs)[p] == prune_spec(gs.drop_last())[p]);
            assert(gs.contains(prune_spec(gs)[p]));
        }
    }
}

/// A group with at least two members survives the pruning.
pub proof fn lemma_prune_spec_complete<T>(gs: Seq<GroupOf<T>>, a: int)
    requires
        0 <= a < gs.len(),
        gs[a].members.len() >= 2,
    ensures
        prune_spec(gs).contains(gs[a]),
    decreases gs.len(),
{
    if a == gs.len() - 1 {
        assert(prune_spec(gs).last() == gs[a]);
        assert(prune_spec(gs).contains(gs[a]));
    } else {
        lemma_prune_spec_complete(gs.drop_last(), a);
        let r = prune_spec(gs.drop_last());
        let idx = choose|idx: int| 0 <= idx < r.len() && r[idx] == gs.drop_last()[a];
        assert(gs.drop_last()[a] == gs[a]);
        assert(prune_spec(gs)[idx] == gs[a]);
        assert(prune_spec(gs).contains(gs[a]));
    }
}

/// Every member of every group appears in the flattened survivor list.
pub proof fn lemma_flatten_contains<T>(gs: Seq<GroupOf<T>>, g: int, m: int)
    requires
        0 <= g < gs.len(),
        0 <= m < gs[g].members.len(),
    ensures
        flatten_spec(gs).contains(gs[g].members[m]),
    decreases gs.len(),
{
    if g == gs.len() - 1 {
        let pre = flatten_spec(gs.drop_last());
        assert(flatten_spec(gs)[pre.len() + m] == gs[g].members[m]);
        assert(flatten_spec(gs).contains(gs[g].members[m]));
    } else {
        lemma_flatten_contains(gs.drop_last(), g, m);
        assert(gs.drop_last()[g] == gs[g]);
        let idx = choose|idx: int|
            0 <= idx < flatten_spec(gs.drop_last()).len() && flatten_spec(gs.drop_last())[idx]
                == gs[g].members[m];
        assert(flatten_spec(gs)[idx] == gs[g].members[m]);
        assert(flatten_spec(gs).contains(gs[g].members[m]));
    }
}

/// Two inputs that share a key but differ as items always end together in
/// one pruned group.
pub proof fn lemma_pair_in_pruned<T>(items: Seq<KeyedOf<T>>, i: int, j: int)
    requires
        0 <= i < items.len(),
        0 <= j < items.len(),
        items[i].key == items[j].key,
        items[i].item != items[j].item,
    ensures
        in_common_group(prune_spec(group_spec(items)), items[i].item, items[j].item),
{
    lemma_group_spec_sound(items);
    let gs = group_spec(items);
    assert(groups_cover_items(items, gs));
    assert(has_group_with(gs, items[i].key, items[i].item));
    assert(has_group_with(gs, items[j].key, items[j].item));
    let gi = choose|g: int|
        #![trigger gs[g]]
        0 <= g < gs.len() && gs[g].key == items[i].key && gs[g].members.contains(items[i].item);
    let gj = choose|g: int|
        #![trigger gs[g]]
        0 <= g < gs.len() && gs[g].key == items[j].key && gs[g].members.contains(items[j].item);
    if gi < gj {
        assert(gs[gi].key != gs[gj].key);
    } else if gj < gi {
        assert(gs[gj].key != gs[gi].key);
    }
    assert(gi == gj);
    let mi = choose|m: int| 0 <= m < gs[gi].members.len() && gs[gi].members[m] == items[i].item;
    let mj = choose|m: int| 0 <= m < gs[gi].members.len() && gs[gi].members[m] == items[j].item;
    assert(mi != mj);
    assert(gs[gi].members.len() >= 2);
    lemma_prune_spec_complete(gs, gi);
    let p = choose|p: int| 0 <= p < prune_spec(gs).len() && prune_spec(gs)[p] == gs[gi];
    assert(prune_spec(gs)[p].members.contains(items[i].item));
    assert(prune_spec(gs)[p].members.contains(items[j].item));
}

/// Two inputs that share a key but differ as items both survive the stage.
pub proof fn lemma_pair_survives<T>(items: Seq<KeyedOf<T>>, i: int, j: int)
    requires
        0 <= i < items.len(),
        0 <= j < items.len(),
        items[i].key == items[j].key,
        items[i].item != items[j].item,
    ensures
        flatten_spec(prune_spec(group_spec(items))).contains(items[i].item),
        flatten_spec(prune_spec(group_spec(items))).contains(items[j].item),
{
    lemma_pair_in_pruned(items, i, j);
    let pruned = prune_spec(group_spec(items));
    let g = choose|g: int|
        #![trigger pruned[g]]
        0 <= g < pruned.len() && pruned[g].members.contains(items[i].item)
            && pruned[g].members.contains(items[j].item);
    let mi = choose|m: int|
        0 <= m < pruned[g].members.len() && pruned[g].members[m] == items[i].item;
    let mj = choose|m: int|
        0 <= m < pruned[g].members.len() && pruned[g].members[m] == items[j].item;
    lemma_flatten_contains(pruned, g, mi);
    lemma_flatten_contains(pruned, g, mj);
}

/// Every member of a pruned group entered the stage under the group's key.
pub proof fn lemma_pruned_member_source<T>(items: Seq<KeyedOf<T>>, p: int, m: int)
    requires
        0 <= p < prune_spec(group_spec(items)).len(),
        0 <= m < prune_spec(group_spec(items))[p].members.len(),
    ensures
        entered_with_key(
            items,
            prune_spec(group_spec(items))[p].key,
            prune_spec(group_spec(items))[p].members[m],
        ),
{
    lemma_group_spec_sound(items);
    let gs = group_spec(items);
    assert(groups_member_sourced(items, gs));
    lemma_prune_spec_sound(gs, p);
    let idx = choose|idx: int| 0 <= idx < gs.len() && gs[idx] == prune_spec(gs)[p];
    assert(0 <= m < gs[idx].members.len());
    assert(gs[idx].members[m] == prune_spec(gs)[p].members[m]);
    assert(entered_with_key(items, gs[idx].key, gs[idx].members[m]));
}

} // verus!
