use vstd::prelude::*;

use crate::merkle::{LeafTree, all_hash_sized, leaf_views, merkle_proof_path, merkle_root, merkle_verifies};

verus! {

/// One clip of a video: its file name, its position among the leaves of the
/// video's Merkle tree, and its SHA-256 leaf hash.
pub struct ClipEntry {
    pub filename: String,
    pub index: usize,
    pub hash: [u8; 32],
}

/// What the server stores beside a video's clips: for each file name, the
/// clip's leaf position and leaf hash, and the name of the video.
pub struct VideoMetadata {
    clip_hashes: Vec<ClipEntry>,
    video_name: String,
}

/// A Merkle proof for one clip, as sent to the client that asked for it.
pub struct MerkleVerification {
    pub merkle_proof: Vec<u8>,
    pub index: usize,
    pub count: usize,
}

/// The model of the clips: file name to (leaf position, leaf hash).
pub type ClipMap = Map<Seq<char>, (usize, Seq<u8>)>;

/// No two entries share a file name.
pub open spec fn names_distinct(s: Seq<ClipEntry>) -> bool {
    forall|i: int, j: int|
        0 <= i < s.len() && 0 <= j < s.len() && i != j ==> (#[trigger] s[i]).filename@
            != (#[trigger] s[j]).filename@
}

/// Whether some entry carries the file name.
pub open spec fn has_name(s: Seq<ClipEntry>, k: Seq<char>) -> bool {
    exists|j: int| 0 <= j < s.len() && (#[trigger] s[j]).filename@ == k
}

/// The clip map that a list of entries with distinct names stands for.
pub open spec fn entries_map(s: Seq<ClipEntry>) -> ClipMap {
    Map::new(
        |k: Seq<char>| has_name(s, k),
        |k: Seq<char>|
            {
                let j = choose|j: int| 0 <= j < s.len() && (#[trigger] s[j]).filename@ == k;
                (s[j].index, s[j].hash@)
            },
    )
}

/// The clip map that inserting the leaves one after another, each at its
/// position, gives: a later leaf with the same file name replaces an earlier
/// one.
pub open spec fn leaves_to_map(leaves: Seq<(Seq<char>, Seq<u8>)>) -> ClipMap
    decreases leaves.len(),
{
    if leaves.len() == 0 {
        Map::empty()
    } else {
        let last = leaves.last();
        leaves_to_map(leaves.drop_last()).insert(last.0, ((leaves.len() - 1) as usize, last.1))
    }
}

/// The clip map that inserting the entries one after another gives: a
/// later entry with the same file name replaces an earlier one.
pub open spec fn list_to_map(list: Seq<ClipEntry>) -> ClipMap
    decreases list.len(),
{
    if list.len() == 0 {
        Map::empty()
    } else {
        let last = list.last();
        list_to_map(list.drop_last()).insert(last.filename@, (last.index, last.hash@))
    }
}

/// The views of named leaves.
pub open spec fn pair_views(leaves: Seq<(String, [u8; 32])>) -> Seq<(Seq<char>, Seq<u8>)> {
    leaves.map_values(|p: (String, [u8; 32])| (p.0@, p.1@))
}

/// The leaf positions form an arrangement of `0..n` where `n` is the number
/// of clips: each below `n`, no two equal.
pub open spec fn indices_valid(m: ClipMap) -> bool {
    &&& indices_in_range(m)
    &&& forall|k1: Seq<char>, k2: Seq<char>|
        #[trigger] m.contains_key(k1) && #[trigger] m.contains_key(k2) && m[k1].0 == m[k2].0
            ==> k1 == k2
}

/// Every leaf position is below the number of clips.
pub open spec fn indices_in_range(m: ClipMap) -> bool {
    forall|k: Seq<char>| #[trigger] m.contains_key(k) ==> (m[k].0 as int) < m.dom().len()
}

/// The leaves fit the clips: one per clip, and at each position the hash of
/// some clip at that position (where clips share a position, any of them),
/// or zeros where no clip sits.
pub open spec fn leaves_fit(m: ClipMap, leaves: Seq<Seq<u8>>) -> bool {
    &&& leaves.len() == m.dom().len()
    &&& forall|q: int|
        0 <= q < leaves.len() ==> if has_position(m, q) {
            exists|k: Seq<char>| #[trigger]
                m.contains_key(k) && m[k].0 == q && m[k].1 == leaves[q]
        } else {
            leaves[q] == zero_hash()
        }
}

/// Whether some clip sits at the position.
pub open spec fn has_position(m: ClipMap, i: int) -> bool {
    exists|k: Seq<char>| #[trigger] m.contains_key(k) && m[k].0 == i
}

/// Thirty-two zero bytes.
pub open spec fn zero_hash() -> Seq<u8> {
    Seq::new(32, |i: int| 0u8)
}

/// The leaves of the tree that a proof is made from: one per clip, the
/// leaf hash of the clip at each position (zeros where no clip sits).
pub open spec fn proof_leaves(m: ClipMap) -> Seq<Seq<u8>> {
    Seq::new(
        m.dom().len(),
        |i: int|
            if has_position(m, i) {
                m[choose|k: Seq<char>| #[trigger] m.contains_key(k) && m[k].0 == i].1
            } else {
                zero_hash()
            },
    )
}

/// What serving a clip's proof gives: nothing for an unknown file name;
/// otherwise the clip's position, the number of clips, and the bytes of the
/// proof path of that position in the tree over `proof_leaves`.
pub open spec fn proof_for_clip(m: ClipMap, filename: Seq<char>) -> Option<
    (Seq<u8>, usize, usize),
> {
    if m.contains_key(filename) {
        let index = m[filename].0;
        Some(
            (merkle_proof_path(proof_leaves(m), index).flatten(), index, m.dom().len() as usize),
        )
    } else {
        None
    }
}

proof fn lemma_entries_map_at(s: Seq<ClipEntry>, j: int)
    requires
        names_distinct(s),
        0 <= j < s.len(),
    ensures
        entries_map(s).contains_key(s[j].filename@),
        entries_map(s)[s[j].filename@] == (s[j].index, s[j].hash@),
{
    let k = s[j].filename@;
    assert(has_name(s, k));
    let c = choose|c: int| 0 <= c < s.len() && (#[trigger] s[c]).filename@ == k;
    assert(0 <= c < s.len() && s[c].filename@ == k);
    assert(c == j);
}

proof fn lemma_entries_map_len(s: Seq<ClipEntry>)
    requires
        names_distinct(s),
    ensures
        entries_map(s).dom().finite(),
        entries_map(s).dom().len() == s.len(),
{
    let names = s.map_values(|e: ClipEntry| e.filename@);
    assert(names.no_duplicates()) by {
        assert forall|i: int, j: int|
            0 <= i < names.len() && 0 <= j < names.len() && i != j implies names[i]
            != names[j] by {
            assert(s[i].filename@ != s[j].filename@);
        }
    }
    names.unique_seq_to_set();
    assert(entries_map(s).dom() =~= names.to_set()) by {
        assert forall|k: Seq<char>| entries_map(s).dom().contains(k) <==> names.to_set().contains(
            k,
        ) by {
            if has_name(s, k) {
                let j = choose|j: int| 0 <= j < s.len() && (#[trigger] s[j]).filename@ == k;
                assert(names[j] == k);
            }
            if names.contains(k) {
                let j = choose|j: int| 0 <= j < names.len() && names[j] == k;
                assert(s[j].filename@ == k);
            }
        }
    }
    vstd::seq_lib::seq_to_set_is_finite(names);
}

impl View for VideoMetadata {
    type V = ClipMap;

    closed spec fn view(&self) -> ClipMap {
        entries_map(self.clip_hashes@)
    }
}

impl VideoMetadata {
    #[verifier::type_invariant]
    closed spec fn inv(self) -> bool {
        names_distinct(self.clip_hashes@)
    }

    /// The name of the video.
    pub closed spec fn name(&self) -> Seq<char> {
        self.video_name@
    }

    /// Position of the entry with the given name, if any.
    fn find(entries: &Vec<ClipEntry>, filename: &String) -> (r: Option<usize>)
        ensures
            match r {
                Some(j) => j < entries@.len() && entries@[j as int].filename@ == filename@,
                None => !has_name(entries@, filename@),
            },
    {
        let mut j: usize = 0;
        while j < entries.len()
            invariant
                0 <= j <= entries@.len(),
                forall|c: int| 0 <= c < j ==> (#[trigger] entries@[c]).filename@ != filename@,
            decreases entries@.len() - j,
        {
            if entries[j].filename == *filename {
                return Some(j);
            }
            j = j + 1;
        }
        None
    }

    /// Puts an entry in, replacing the entry with the same file name if
    /// there is one.
    fn insert_entry(entries: &mut Vec<ClipEntry>, entry: ClipEntry)
        requires
            names_distinct(old(entries)@),
        ensures
            names_distinct(final(entries)@),
            entries_map(final(entries)@) =~= entries_map(old(entries)@).insert(
                entry.filename@,
                (entry.index, entry.hash@),
            ),
    {
        let ghost old_entries = entries@;
        let ghost key = entry.filename@;
        let ghost value = (entry.index, entry.hash@);
        let ghost j: int;
        match Self::find(entries, &entry.filename) {
            Some(p) => {
                entries[p] = entry;
                proof {
                    j = p as int;
                }
            },
            None => {
                entries.push(entry);
                proof {
                    j = old_entries.len() as int;
                }
            },
        }
        proof {
            assert forall|c: int| 0 <= c < entries@.len() && c != j implies #[trigger] entries@[c]
                == old_entries[c] by {}
            assert forall|a: int, b: int|
                0 <= a < entries@.len() && 0 <= b < entries@.len() && a != b implies (
                #[trigger] entries@[a]).filename@ != (#[trigger] entries@[b]).filename@ by {
                if a != j && b != j {
                    assert(old_entries[a].filename@ != old_entries[b].filename@);
                } else if a != j {
                    assert(entries@[a] == old_entries[a]);
                    if j < old_entries.len() {
                        assert(old_entries[j].filename@ == key);
                    }
                } else {
                    assert(entries@[b] == old_entries[b]);
                    if j < old_entries.len() {
                        assert(old_entries[j].filename@ == key);
                    }
                }
            }
            lemma_entries_map_at(entries@, j);
            let target = entries_map(old_entries).insert(key, value);
            assert forall|k: Seq<char>| #[trigger]
                entries_map(entries@).contains_key(k) <==> target.contains_key(k) by {
                if has_name(entries@, k) {
                    let c = choose|c: int|
                        0 <= c < entries@.len() && (#[trigger] entries@[c]).filename@ == k;
                    if c != j {
                        assert(old_entries[c] == entries@[c]);
                    }
                }
                if has_name(old_entries, k) {
                    let c = choose|c: int|
                        0 <= c < old_entries.len() && (#[trigger] old_entries[c]).filename@ == k;
                    if c != j {
                        assert(old_entries[c] == entries@[c]);
                    } else {
                        assert(entries@[c].filename@ == k);
                    }
                }
            }
            assert forall|k: Seq<char>| #[trigger]
                entries_map(entries@).contains_key(k) implies entries_map(entries@)[k]
                == target[k] by {
                let c = choose|c: int|
                    0 <= c < entries@.len() && (#[trigger] entries@[c]).filename@ == k;
                lemma_entries_map_at(entries@, c);
                if c != j {
                    assert(old_entries[c] == entries@[c]);
                    lemma_entries_map_at(old_entries, c);
                }
            }
        }
    }

    /// Builds the metadata of a video from its clips in leaf order: each file
    /// name maps to its position and leaf hash; where a name repeats, the
    /// later clip wins.
    pub fn new(leaves: Vec<(String, [u8; 32])>, video_name: &str) -> (r: VideoMetadata)
        ensures
            r@ == leaves_to_map(pair_views(leaves@)),
            r.name() == video_name@,
    {
        let ghost pv = pair_views(leaves@);
        let mut entries: Vec<ClipEntry> = Vec::new();
        let mut i: usize = 0;
        while i < leaves.len()
            invariant
                0 <= i <= leaves@.len(),
                pv == pair_views(leaves@),
                names_distinct(entries@),
                entries_map(entries@) =~= leaves_to_map(pv.take(i as int)),
            decreases leaves@.len() - i,
        {
            let filename = leaves[i].0.clone();
            let hash = leaves[i].1;
            assert(pv.take(i + 1).drop_last() =~= pv.take(i as int));
            assert(pv[i as int] == (filename@, hash@));
            Self::insert_entry(&mut entries, ClipEntry { filename, index: i, hash });
            i = i + 1;
        }
        assert(pv.take(leaves@.len() as int) =~= pv);
        VideoMetadata { clip_hashes: entries, video_name: video_name.to_owned() }
    }

    /// Builds the metadata from entries given in any order, as a decoded map
    /// hands them over; where a file name repeats, the later entry wins.
    pub fn from_entries(list: Vec<ClipEntry>, video_name: String) -> (r: VideoMetadata)
        ensures
            r@ == list_to_map(list@),
            r.name() == video_name@,
    {
        let mut entries: Vec<ClipEntry> = Vec::new();
        let mut i: usize = 0;
        while i < list.len()
            invariant
                0 <= i <= list@.len(),
                names_distinct(entries@),
                entries_map(entries@) =~= list_to_map(list@.take(i as int)),
            decreases list@.len() - i,
        {
            let e = ClipEntry {
                filename: list[i].filename.clone(),
                index: list[i].index,
                hash: list[i].hash,
            };
            assert(list@.take(i + 1).drop_last() =~= list@.take(i as int));
            Self::insert_entry(&mut entries, e);
            i = i + 1;
        }
        assert(list@.take(list@.len() as int) =~= list@);
        VideoMetadata { clip_hashes: entries, video_name }
    }

    /// The entries, one per file name.
    pub fn clips(&self) -> (r: &Vec<ClipEntry>)
        ensures
            names_distinct(r@),
            entries_map(r@) == self@,
            r@.len() == self@.dom().len(),
            self@.dom().finite(),
    {
        proof {
            use_type_invariant(self);
            lemma_entries_map_len(self.clip_hashes@);
        }
        &self.clip_hashes
    }

    /// The name of the video.
    pub fn video_name(&self) -> (r: &String)
        ensures
            r@ == self.name(),
    {
        &self.video_name
    }

    /// Whether there is a clip with the file name.
    pub fn has_clip(&self, filename: &str) -> (r: bool)
        ensures
            r == self@.contains_key(filename@),
    {
        let key = filename.to_owned();
        match Self::find(&self.clip_hashes, &key) {
            Some(j) => {
                proof {
                    use_type_invariant(self);
                    lemma_entries_map_at(self.clip_hashes@, j as int);
                }
                true
            },
            None => false,
        }
    }

    /// Whether every leaf position is below the number of clips, which is
    /// what serving the proof of a clip needs.
    pub fn positions_in_range(&self) -> (ok: bool)
        ensures
            ok == indices_in_range(self@),
    {
        proof {
            use_type_invariant(self);
            lemma_entries_map_len(self.clip_hashes@);
        }
        let entries = &self.clip_hashes;
        let n = entries.len();
        let ghost m = self@;
        let mut j: usize = 0;
        while j < n
            invariant
                n == entries@.len(),
                m == entries_map(entries@),
                m == self@,
                m.dom().len() == n,
                names_distinct(entries@),
                0 <= j <= n,
                forall|c: int| 0 <= c < j ==> (#[trigger] entries@[c]).index < n,
            decreases n - j,
        {
            if entries[j].index >= n {
                proof {
                    lemma_entries_map_at(entries@, j as int);
                    let k = entries@[j as int].filename@;
                    assert(m.contains_key(k) && !((m[k].0 as int) < m.dom().len()));
                }
                return false;
            }
            j = j + 1;
        }
        proof {
            assert forall|k: Seq<char>| #[trigger] m.contains_key(k) implies (m[k].0 as int)
                < m.dom().len() by {
                let c = choose|c: int|
                    0 <= c < entries@.len() && (#[trigger] entries@[c]).filename@ == k;
                lemma_entries_map_at(entries@, c);
            }
        }
        true
    }

    /// Whether the leaf positions form an arrangement of `0..n`, under which
    /// a served proof is over the clips' hashes by position.
    pub fn has_valid_indices(&self) -> (ok: bool)
        ensures
            ok == indices_valid(self@),
    {
        proof {
            use_type_invariant(self);
            lemma_entries_map_len(self.clip_hashes@);
        }
        let entries = &self.clip_hashes;
        let n = entries.len();
        let ghost m = self@;
        let mut seen: Vec<bool> = Vec::new();
        let mut p: usize = 0;
        while p < n
            invariant
                0 <= p <= n,
                seen@.len() == p,
                forall|q: int| 0 <= q < p ==> !(#[trigger] seen@[q]),
            decreases n - p,
        {
            seen.push(false);
            p = p + 1;
        }
        let mut j: usize = 0;
        while j < n
            invariant
                n == entries@.len(),
                m == entries_map(entries@),
                m == self@,
                m.dom().len() == n,
                names_distinct(entries@),
                0 <= j <= n,
                seen@.len() == n,
                forall|c: int| 0 <= c < j ==> (#[trigger] entries@[c]).index < n,
                forall|c: int| 0 <= c < j ==> seen@[(#[trigger] entries@[c]).index as int],
                forall|q: int|
                    0 <= q < n && #[trigger] seen@[q] ==> exists|c: int|
                        0 <= c < j && (#[trigger] entries@[c]).index == q,
                forall|a: int, b: int|
                    0 <= a < j && 0 <= b < j && a != b ==> (#[trigger] entries@[a]).index
                        != (#[trigger] entries@[b]).index,
            decreases n - j,
        {
            let idx = entries[j].index;
            if idx >= n {
                proof {
                    lemma_entries_map_at(entries@, j as int);
                    let k = entries@[j as int].filename@;
                    assert(m.contains_key(k) && !((m[k].0 as int) < m.dom().len()));
                }
                return false;
            }
            if seen[idx] {
                proof {
                    let c = choose|c: int| 0 <= c < j && (#[trigger] entries@[c]).index == idx;
                    lemma_entries_map_at(entries@, j as int);
                    lemma_entries_map_at(entries@, c);
                    let k1 = entries@[c].filename@;
                    let k2 = entries@[j as int].filename@;
                    assert(k1 != k2);
                    assert(m.contains_key(k1) && m.contains_key(k2) && m[k1].0 == m[k2].0);
                }
                return false;
            }
            seen[idx] = true;
            j = j + 1;
        }
        proof {
            assert forall|k: Seq<char>| #[trigger] m.contains_key(k) implies (m[k].0 as int)
                < m.dom().len() by {
                let c = choose|c: int|
                    0 <= c < entries@.len() && (#[trigger] entries@[c]).filename@ == k;
                lemma_entries_map_at(entries@, c);
            }
            assert forall|k1: Seq<char>, k2: Seq<char>|
                #[trigger] m.contains_key(k1) && #[trigger] m.contains_key(k2) && m[k1].0
                    == m[k2].0 implies k1 == k2 by {
                let c1 = choose|c: int|
                    0 <= c < entries@.len() && (#[trigger] entries@[c]).filename@ == k1;
                let c2 = choose|c: int|
                    0 <= c < entries@.len() && (#[trigger] entries@[c]).filename@ == k2;
                lemma_entries_map_at(entries@, c1);
                lemma_entries_map_at(entries@, c2);
            }
        }
        true
    }

    /// Makes the Merkle proof for one clip: the position of the clip with the
    /// given file name, the number of clips, and the proof bytes of that
    /// position in the tree whose leaves are the clips' hashes by position;
    /// the proof verifies that leaf against the tree's root. Nothing for a
    /// file name that has no clip.
    pub fn generate_proof(&self, filename: &str) -> (r: Option<MerkleVerification>)
        requires
            self@.contains_key(filename@) ==> indices_in_range(self@),
        ensures
            r is None <==> !self@.contains_key(filename@),
            r matches Some(v) ==> v.index == self@[filename@].0 && v.count == self@.dom().len(),
            r matches Some(v) ==> exists|leaves: Seq<Seq<u8>>|
                #[trigger] leaves_fit(self@, leaves) && v.merkle_proof@ == merkle_proof_path(
                    leaves,
                    v.index,
                ).flatten() && all_hash_sized(merkle_proof_path(leaves, v.index)) && merkle_verifies(
                    merkle_proof_path(leaves, v.index),
                    merkle_root(leaves),
                    v.index,
                    leaves[v.index as int],
                    v.count,
                ),
            indices_valid(self@) ==> match (r, proof_for_clip(self@, filename@)) {
                (None, None) => true,
                (Some(v), Some((bytes, index, count))) => v.merkle_proof@ == bytes && v.index
                    == index && v.count == count,
                _ => false,
            },
    {
        proof {
            use_type_invariant(self);
            lemma_entries_map_len(self.clip_hashes@);
        }
        let entries = &self.clip_hashes;
        let ghost m = self@;
        let n = entries.len();
        let key = filename.to_owned();
        let index = match Self::find(entries, &key) {
            None => {
                return None;
            },
            Some(j) => {
                proof {
                    lemma_entries_map_at(entries@, j as int);
                }
                entries[j].index
            },
        };
        proof {
            assert forall|c: int| 0 <= c < n implies (#[trigger] entries@[c]).index < n by {
                lemma_entries_map_at(entries@, c);
            }
        }
        let mut leaves: Vec<[u8; 32]> = Vec::new();
        let mut p: usize = 0;
        while p < n
            invariant
                0 <= p <= n,
                leaves@.len() == p,
                forall|q: int| 0 <= q < p ==> (#[trigger] leaves@[q])@ == zero_hash(),
            decreases n - p,
        {
            let z = [0u8; 32];
            assert(z@ =~= zero_hash());
            leaves.push(z);
            p = p + 1;
        }
        let mut j: usize = 0;
        while j < n
            invariant
                n == entries@.len(),
                0 <= j <= n,
                leaves@.len() == n,
                forall|c: int| 0 <= c < n ==> (#[trigger] entries@[c]).index < n,
                forall|q: int|
                    0 <= q < n ==> (exists|c: int|
                        0 <= c < j && (#[trigger] entries@[c]).index == q && leaves@[q]@
                            == entries@[c].hash@) || ((forall|c: int|
                        0 <= c < j ==> (#[trigger] entries@[c]).index != q) && leaves@[q]@
                        == zero_hash()),
            decreases n - j,
        {
            let idx = entries[j].index;
            let ghost before = leaves@;
            leaves[idx] = entries[j].hash;
            proof {
                assert forall|q: int| 0 <= q < n implies (exists|c: int|
                    0 <= c < j + 1 && (#[trigger] entries@[c]).index == q && leaves@[q]@
                        == entries@[c].hash@) || ((forall|c: int|
                    0 <= c < j + 1 ==> (#[trigger] entries@[c]).index != q) && leaves@[q]@
                    == zero_hash()) by {
                    if q == idx {
                        assert(entries@[j as int].index == q && leaves@[q]@
                            == entries@[j as int].hash@);
                    } else {
                        assert(leaves@[q] == before[q]);
                        if exists|c: int|
                            0 <= c < j && (#[trigger] entries@[c]).index == q && before[q]@
                                == entries@[c].hash@ {
                            let c = choose|c: int|
                                0 <= c < j && (#[trigger] entries@[c]).index == q && before[q]@
                                    == entries@[c].hash@;
                            assert(0 <= c < j + 1 && entries@[c].index == q && leaves@[q]@
                                == entries@[c].hash@);
                        }
                    }
                }
            }
            j = j + 1;
        }
        let ghost lv = leaf_views(leaves@);
        proof {
            assert forall|q: int| 0 <= q < lv.len() implies if has_position(m, q) {
                exists|k: Seq<char>| #[trigger] m.contains_key(k) && m[k].0 == q && m[k].1 == lv[q]
            } else {
                lv[q] == zero_hash()
            } by {
                if has_position(m, q) {
                    let k = choose|k: Seq<char>| #[trigger] m.contains_key(k) && m[k].0 == q;
                    let c = choose|c: int|
                        0 <= c < entries@.len() && (#[trigger] entries@[c]).filename@ == k;
                    lemma_entries_map_at(entries@, c);
                    assert(entries@[c].index == q);
                    let c2 = choose|c2: int|
                        0 <= c2 < n && (#[trigger] entries@[c2]).index == q && leaves@[q]@
                            == entries@[c2].hash@;
                    lemma_entries_map_at(entries@, c2);
                    let k2 = entries@[c2].filename@;
                    assert(m.contains_key(k2) && m[k2].0 == q && m[k2].1 == lv[q]);
                } else {
                    assert forall|c: int| 0 <= c < n implies (#[trigger] entries@[c]).index != q by {
                        lemma_entries_map_at(entries@, c);
                        if entries@[c].index == q {
                            assert(m.contains_key(entries@[c].filename@));
                        }
                    }
                }
            }
            assert(leaves_fit(m, lv));
            if indices_valid(m) {
                assert forall|q: int| 0 <= q < n implies #[trigger] lv[q] == proof_leaves(m)[q] by {
                    if has_position(m, q) {
                        let k = choose|k: Seq<char>| #[trigger] m.contains_key(k) && m[k].0 == q;
                        let k2 = choose|k2: Seq<char>| #[trigger]
                            m.contains_key(k2) && m[k2].0 == q && m[k2].1 == lv[q];
                    }
                }
                assert(lv =~= proof_leaves(m));
            }
        }
        let tree = LeafTree::from_leaves(leaves.as_slice());
        let path = tree.proof_for(index);
        let merkle_proof = path.to_bytes();
        let r = MerkleVerification { merkle_proof, index, count: n };
        proof {
            assert(leaves_fit(m, lv) && r.merkle_proof@ == merkle_proof_path(lv, r.index).flatten()
                && all_hash_sized(merkle_proof_path(lv, r.index)) && merkle_verifies(
                merkle_proof_path(lv, r.index),
                merkle_root(lv),
                r.index,
                lv[r.index as int],
                r.count,
            ));
        }
        Some(r)
    }
}

/// No two named leaves share a file name.
pub open spec fn leaf_names_distinct(s: Seq<(Seq<char>, Seq<u8>)>) -> bool {
    forall|i: int, j: int|
        0 <= i < s.len() && 0 <= j < s.len() && i != j ==> (#[trigger] s[i]).0 != (#[trigger] s[j]).0
}

/// The leaf hashes of named leaves, in order.
pub open spec fn leaf_hashes(s: Seq<(Seq<char>, Seq<u8>)>) -> Seq<Seq<u8>> {
    s.map_values(|p: (Seq<char>, Seq<u8>)| p.1)
}

proof fn lemma_proof_leaves_in_order(s: Seq<(Seq<char>, Seq<u8>)>)
    requires
        s.len() <= usize::MAX,
        forall|i: int|
            0 <= i < s.len() ==> #[trigger] leaves_to_map(s).contains_key(s[i].0) && leaves_to_map(
                s,
            )[s[i].0].0 == i as usize && leaves_to_map(s)[s[i].0].1 == s[i].1,
        forall|k: Seq<char>|
            #[trigger] leaves_to_map(s).contains_key(k) ==> exists|i: int|
                0 <= i < s.len() && (#[trigger] s[i]).0 == k,
        leaves_to_map(s).dom().len() == s.len(),
    ensures
        proof_leaves(leaves_to_map(s)) == leaf_hashes(s),
{
    let m = leaves_to_map(s);
    assert forall|i: int| 0 <= i < s.len() implies #[trigger] proof_leaves(m)[i]
        == leaf_hashes(s)[i] by {
        assert(m.contains_key(s[i].0));
        assert((i as usize) as int == i);
        assert(m[s[i].0].0 == i);
        assert(has_position(m, i));
        let k = choose|k: Seq<char>| #[trigger] m.contains_key(k) && m[k].0 == i;
        let j = choose|j: int| 0 <= j < s.len() && (#[trigger] s[j]).0 == k;
        assert(m.contains_key(s[j].0));
    }
    assert(proof_leaves(m) =~= leaf_hashes(s));
}

proof fn lemma_leaves_to_map_lookup(s: Seq<(Seq<char>, Seq<u8>)>)
    requires
        leaf_names_distinct(s),
        s.len() <= usize::MAX,
    ensures
        forall|i: int|
            0 <= i < s.len() ==> #[trigger] leaves_to_map(s).contains_key(s[i].0) && leaves_to_map(
                s,
            )[s[i].0].0 == i as usize && leaves_to_map(s)[s[i].0].1 == s[i].1,
        forall|k: Seq<char>|
            #[trigger] leaves_to_map(s).contains_key(k) ==> exists|i: int|
                0 <= i < s.len() && (#[trigger] s[i]).0 == k,
        leaves_to_map(s).dom().finite(),
        leaves_to_map(s).dom().len() == s.len(),
    decreases s.len(),
{
    let m = leaves_to_map(s);
    if s.len() == 0 {
        assert(m.dom() =~= Set::<Seq<char>>::empty());
    } else {
        let r = s.drop_last();
        let n = s.len() - 1;
        assert(leaf_names_distinct(r)) by {
            assert forall|i: int, j: int|
                0 <= i < r.len() && 0 <= j < r.len() && i != j implies (#[trigger] r[i]).0 != (
                #[trigger] r[j]).0 by {
                assert(r[i] == s[i] && r[j] == s[j]);
            }
        }
        lemma_leaves_to_map_lookup(r);
        let mr = leaves_to_map(r);
        let last = s.last();
        assert(m == mr.insert(last.0, (n as usize, last.1)));
        assert(!mr.contains_key(last.0)) by {
            if mr.contains_key(last.0) {
                let i = choose|i: int| 0 <= i < r.len() && (#[trigger] r[i]).0 == last.0;
                assert(s[i] == r[i]);
            }
        }
        assert forall|i: int| 0 <= i < s.len() implies #[trigger] m.contains_key(s[i].0) && m[s[i].0]
            == (i as usize, s[i].1) by {
            if i < n {
                assert(s[i] == r[i]);
                assert(s[i].0 != last.0);
                assert(mr.contains_key(r[i].0));
                assert(mr[r[i].0] == (i as usize, r[i].1));
            } else {
                assert(s[i] == last);
            }
        }
        assert forall|k: Seq<char>| #[trigger] m.contains_key(k) implies exists|i: int|
            0 <= i < s.len() && (#[trigger] s[i]).0 == k by {
            if k == last.0 {
                assert(s[n].0 == k);
            } else {
                let i = choose|i: int| 0 <= i < r.len() && (#[trigger] r[i]).0 == k;
                assert(s[i] == r[i]);
            }
        }
    }
}

/// When the clips of a video have distinct file names, the metadata built
/// from them keeps each clip at its position: every clip is found under its
/// name with its own position and hash, the positions are valid for serving
/// proofs, and the leaves that proofs are made from are the clips' hashes in
/// the order they were given in, the very leaves whose root names the video.
pub proof fn lemma_metadata_keeps_leaf_order(s: Seq<(Seq<char>, Seq<u8>)>)
    requires
        leaf_names_distinct(s),
        s.len() <= usize::MAX,
    ensures
        forall|i: int|
            0 <= i < s.len() ==> #[trigger] leaves_to_map(s).contains_key(s[i].0) && leaves_to_map(
                s,
            )[s[i].0].0 == i as usize && leaves_to_map(s)[s[i].0].1 == s[i].1,
        leaves_to_map(s).dom().len() == s.len(),
        indices_valid(leaves_to_map(s)),
        proof_leaves(leaves_to_map(s)) == leaf_hashes(s),
{
    lemma_leaves_to_map_lookup(s);
    let m = leaves_to_map(s);
    assert forall|k: Seq<char>| #[trigger] m.contains_key(k) implies (m[k].0 as int)
        < m.dom().len() by {
        let i = choose|i: int| 0 <= i < s.len() && (#[trigger] s[i]).0 == k;
    }
    assert forall|k1: Seq<char>, k2: Seq<char>|
        #[trigger] m.contains_key(k1) && #[trigger] m.contains_key(k2) && m[k1].0 == m[k2].0
            implies k1 == k2 by {
        let i1 = choose|i: int| 0 <= i < s.len() && (#[trigger] s[i]).0 == k1;
        let i2 = choose|i: int| 0 <= i < s.len() && (#[trigger] s[i]).0 == k2;
    }
    lemma_proof_leaves_in_order(s);
}

proof fn lemma_list_to_map_of_distinct(s: Seq<ClipEntry>)
    requires
        names_distinct(s),
    ensures
        list_to_map(s) == entries_map(s),
    decreases s.len(),
{
    if s.len() == 0 {
        assert(entries_map(s) =~= Map::empty());
    } else {
        let r = s.drop_last();
        let n = s.len() - 1;
        let last = s.last();
        assert(names_distinct(r)) by {
            assert forall|a: int, b: int|
                0 <= a < r.len() && 0 <= b < r.len() && a != b implies (#[trigger] r[a]).filename@
                != (#[trigger] r[b]).filename@ by {
                assert(r[a] == s[a] && r[b] == s[b]);
            }
        }
        lemma_list_to_map_of_distinct(r);
        let target = entries_map(r).insert(last.filename@, (last.index, last.hash@));
        lemma_entries_map_at(s, n);
        assert forall|k: Seq<char>| #[trigger]
            entries_map(s).contains_key(k) <==> target.contains_key(k) by {
            if has_name(s, k) {
                let c = choose|c: int| 0 <= c < s.len() && (#[trigger] s[c]).filename@ == k;
                if c != n {
                    assert(r[c] == s[c]);
                }
            }
            if has_name(r, k) {
                let c = choose|c: int| 0 <= c < r.len() && (#[trigger] r[c]).filename@ == k;
                assert(r[c] == s[c]);
            }
        }
        assert forall|k: Seq<char>| #[trigger]
            entries_map(s).contains_key(k) implies entries_map(s)[k] == target[k] by {
            let c = choose|c: int| 0 <= c < s.len() && (#[trigger] s[c]).filename@ == k;
            lemma_entries_map_at(s, c);
            if c != n {
                assert(r[c] == s[c]);
                lemma_entries_map_at(r, c);
            }
        }
        assert(entries_map(s) =~= target);
    }
}

proof fn lemma_entries_map_same_entries(a: Seq<ClipEntry>, b: Seq<ClipEntry>)
    requires
        names_distinct(a),
        names_distinct(b),
        a.to_set() == b.to_set(),
    ensures
        entries_map(a) == entries_map(b),
{
    assert forall|k: Seq<char>| #[trigger] entries_map(a).contains_key(k) implies entries_map(
        b,
    ).contains_key(k) && entries_map(a)[k] == entries_map(b)[k] by {
        let c = choose|c: int| 0 <= c < a.len() && (#[trigger] a[c]).filename@ == k;
        lemma_entries_map_at(a, c);
        assert(a.to_set().contains(a[c]));
        assert(b.contains(a[c]));
        let d = choose|d: int| 0 <= d < b.len() && b[d] == a[c];
        lemma_entries_map_at(b, d);
    }
    assert forall|k: Seq<char>| #[trigger] entries_map(b).contains_key(k) implies entries_map(
        a,
    ).contains_key(k) by {
        let d = choose|d: int| 0 <= d < b.len() && (#[trigger] b[d]).filename@ == k;
        assert(b.to_set().contains(b[d]));
        assert(a.contains(b[d]));
        let c = choose|c: int| 0 <= c < a.len() && a[c] == b[d];
        lemma_entries_map_at(a, c);
    }
    assert(entries_map(a) =~= entries_map(b));
}

/// Metadata that is stored as its entries and read back, in whatever order
/// the stored form hands them over, is the same metadata: rebuilding from
/// the same entries, each file name once, gives the same clip map.
pub proof fn lemma_metadata_read_back(stored: Seq<ClipEntry>, read: Seq<ClipEntry>)
    requires
        names_distinct(stored),
        names_distinct(read),
        read.to_set() == stored.to_set(),
    ensures
        list_to_map(read) == entries_map(stored),
{
    lemma_list_to_map_of_distinct(read);
    lemma_entries_map_same_entries(read, stored);
}

/// Where no two clips share a position, the only leaves that fit the clips
/// are the clips' hashes by position.
pub proof fn lemma_fitting_leaves_are_proof_leaves(m: ClipMap, leaves: Seq<Seq<u8>>)
    requires
        indices_valid(m),
        leaves_fit(m, leaves),
    ensures
        leaves == proof_leaves(m),
{
    assert forall|q: int| 0 <= q < leaves.len() implies #[trigger] leaves[q] == proof_leaves(m)[q] by {
        if has_position(m, q) {
            let k = choose|k: Seq<char>| #[trigger] m.contains_key(k) && m[k].0 == q;
            let k2 = choose|k2: Seq<char>| #[trigger]
                m.contains_key(k2) && m[k2].0 == q && m[k2].1 == leaves[q];
        }
    }
    assert(leaves =~= proof_leaves(m));
}

} // verus!
