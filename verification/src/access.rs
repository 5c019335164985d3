use vstd::prelude::*;

use crate::status::Status;
use crate::tags::{make_tag, tag_text};

verus! {

/// The views of endpoint keys.
pub open spec fn key_views(keys: Seq<[u8; 32]>) -> Seq<Seq<u8>> {
    keys.map_values(|a: [u8; 32]| a@)
}

/// A set of endpoints, each named by its 32-byte public key: an access list,
/// or the peers a gossip receiver already knows.
pub struct PeerSet {
    members: Vec<[u8; 32]>,
}

impl View for PeerSet {
    type V = Set<Seq<u8>>;

    closed spec fn view(&self) -> Set<Seq<u8>> {
        key_views(self.members@).to_set()
    }
}

/// Whether two keys are the same.
pub fn same_key(a: &[u8; 32], b: &[u8; 32]) -> (r: bool)
    ensures
        r == (a@ == b@),
{
    let mut i: usize = 0;
    while i < 32
        invariant
            0 <= i <= 32,
            a@.len() == 32,
            b@.len() == 32,
            forall|j: int| 0 <= j < i ==> a@[j] == b@[j],
        decreases 32 - i,
    {
        if a[i] != b[i] {
            return false;
        }
        i = i + 1;
    }
    assert(a@ =~= b@);
    true
}

impl PeerSet {
    #[verifier::type_invariant]
    closed spec fn inv(self) -> bool {
        key_views(self.members@).no_duplicates()
    }

    /// The empty set.
    pub fn new() -> (r: PeerSet)
        ensures
            r@ == Set::<Seq<u8>>::empty(),
    {
        let r = PeerSet { members: Vec::new() };
        assert(r@ =~= Set::<Seq<u8>>::empty());
        r
    }

    /// Whether the key is a member.
    pub fn contains(&self, key: &[u8; 32]) -> (r: bool)
        ensures
            r == self@.contains(key@),
    {
        let mut i: usize = 0;
        while i < self.members.len()
            invariant
                0 <= i <= self.members@.len(),
                forall|j: int| 0 <= j < i ==> (#[trigger] self.members@[j])@ != key@,
            decreases self.members@.len() - i,
        {
            if same_key(&self.members[i], key) {
                assert(key_views(self.members@)[i as int] == key@);
                return true;
            }
            i = i + 1;
        }
        proof {
            if key_views(self.members@).contains(key@) {
                let j = choose|j: int|
                    0 <= j < key_views(self.members@).len() && key_views(self.members@)[j] == key@;
                assert(self.members@[j]@ == key@);
            }
        }
        false
    }

    /// Adds a key; true when it was not a member before.
    pub fn insert(&mut self, key: [u8; 32]) -> (added: bool)
        ensures
            added == !old(self)@.contains(key@),
            final(self)@ == old(self)@.insert(key@),
    {
        proof {
            use_type_invariant(&*self);
        }
        if self.contains(&key) {
            assert(self@.insert(key@) =~= self@);
            return false;
        }
        let ghost before = self.members@;
        let mut members: Vec<[u8; 32]> = Vec::new();
        std::mem::swap(&mut members, &mut self.members);
        members.push(key);
        proof {
            let kv = key_views(before);
            assert(!kv.contains(key@));
            assert(key_views(members@) =~= kv.push(key@));
            assert forall|i: int, j: int|
                0 <= i < kv.push(key@).len() && 0 <= j < kv.push(key@).len() && i != j implies kv.push(
                key@,
            )[i] != kv.push(key@)[j] by {
                if i < kv.len() && j < kv.len() {
                } else if i < kv.len() {
                    assert(kv.contains(kv[i]));
                } else {
                    assert(kv.contains(kv[j]));
                }
            }
            kv.lemma_push_to_set_commute(key@);
        }
        self.members = members;
        true
    }

    /// The set of the given keys.
    pub fn from_keys(keys: &Vec<[u8; 32]>) -> (r: PeerSet)
        ensures
            r@ == key_views(keys@).to_set(),
    {
        let mut r = PeerSet::new();
        let mut i: usize = 0;
        while i < keys.len()
            invariant
                0 <= i <= keys@.len(),
                r@ == key_views(keys@.take(i as int)).to_set(),
            decreases keys@.len() - i,
        {
            r.insert(keys[i]);
            assert(key_views(keys@.take(i + 1)) =~= key_views(keys@.take(i as int)).push(
                keys@[i as int]@,
            ));
            proof {
                key_views(keys@.take(i as int)).lemma_push_to_set_commute(keys@[i as int]@);
            }
            i = i + 1;
        }
        assert(keys@.take(keys@.len() as int) =~= keys@);
        r
    }

    /// The members, each once.
    pub fn members(&self) -> (r: &Vec<[u8; 32]>)
        ensures
            key_views(r@).to_set() == self@,
            key_views(r@).no_duplicates(),
    {
        proof {
            use_type_invariant(self);
        }
        &self.members
    }
}

/// The members of an access list that may not exist yet.
pub open spec fn existing_members(list: Option<PeerSet>) -> Set<Seq<u8>> {
    match list {
        Some(l) => l@,
        None => Set::empty(),
    }
}

/// Adds an endpoint to an access list, starting an empty one where there is
/// none yet. The flag says whether the list changed, and so whether it must
/// be written back.
pub fn append_member(existing: Option<PeerSet>, endpoint: &[u8; 32]) -> (r: (PeerSet, bool))
    ensures
        r.0@ == existing_members(existing).insert(endpoint@),
        r.1 == !existing_members(existing).contains(endpoint@),
{
    let mut list = match existing {
        Some(l) => l,
        None => PeerSet::new(),
    };
    let changed = list.insert(*endpoint);
    (list, changed)
}

/// Appending an endpoint that is already on the list changes nothing and
/// reports no change; after any append, the endpoint is on the list and no
/// earlier member has left it.
pub proof fn lemma_append_is_idempotent(members: Set<Seq<u8>>, endpoint: Seq<u8>)
    ensures
        members.insert(endpoint).contains(endpoint),
        members.subset_of(members.insert(endpoint)),
        members.insert(endpoint).insert(endpoint) == members.insert(endpoint),
{
    assert(members.insert(endpoint).insert(endpoint) =~= members.insert(endpoint));
}

/// The status a request gets from the access list of the resource it asks
/// for: `ResourceNotFound` when there is no list, `Denied` when the peer is
/// not on it, `Allowed` only when it is.
pub fn access_decision(list: Option<&PeerSet>, peer: &[u8; 32]) -> (s: Status)
    ensures
        s == match list {
            None => Status::ResourceNotFound,
            Some(l) => if l@.contains(peer@) {
                Status::Allowed
            } else {
                Status::Denied
            },
        },
{
    match list {
        None => Status::ResourceNotFound,
        Some(l) => if l.contains(peer) {
            Status::Allowed
        } else {
            Status::Denied
        },
    }
}

/// Whether an access list that may be missing lets the peer in.
pub open spec fn grants(list: Option<PeerSet>, peer: Seq<u8>) -> bool {
    match list {
        Some(l) => l@.contains(peer),
        None => false,
    }
}

/// The tags, in the order given, of the resources whose access list lets
/// the peer in.
pub open spec fn granted_tags(candidates: Seq<(String, Option<PeerSet>)>, peer: Seq<u8>) -> Seq<
    Seq<char>,
>
    decreases candidates.len(),
{
    if candidates.len() == 0 {
        Seq::empty()
    } else {
        let rest = granted_tags(candidates.drop_last(), peer);
        if grants(candidates.last().1, peer) {
            rest.push(candidates.last().0@)
        } else {
            rest
        }
    }
}

/// A resource's tag is listed exactly when its access list exists and holds
/// the peer, and the listed tags keep the order of the candidates: the result
/// is the candidates whose list holds the peer, each taken by its tag.
pub proof fn lemma_granted_tags_are_the_admitting_candidates(
    candidates: Seq<(String, Option<PeerSet>)>,
    peer: Seq<u8>,
)
    ensures
        granted_tags(candidates, peer) == candidates.filter(
            |c: (String, Option<PeerSet>)| c.1 is Some && c.1->0@.contains(peer),
        ).map_values(|c: (String, Option<PeerSet>)| c.0@),
    decreases candidates.len(),
{
    let admits = |c: (String, Option<PeerSet>)| c.1 is Some && c.1->0@.contains(peer);
    let tag_of = |c: (String, Option<PeerSet>)| c.0@;
    reveal(Seq::filter);
    if candidates.len() == 0 {
        assert(candidates.filter(admits).map_values(tag_of) =~= Seq::<Seq<char>>::empty());
    } else {
        lemma_granted_tags_are_the_admitting_candidates(candidates.drop_last(), peer);
        let kept = candidates.drop_last().filter(admits);
        assert(grants(candidates.last().1, peer) == admits(candidates.last()));
        if admits(candidates.last()) {
            assert(candidates.filter(admits) == kept.push(candidates.last()));
            assert(kept.push(candidates.last()).map_values(tag_of) =~= kept.map_values(tag_of).push(
                candidates.last().0@,
            ));
        } else {
            assert(candidates.filter(admits) == kept);
        }
    }
}

/// The tag of each candidate is listed exactly when the candidate's access
/// list exists and holds the peer; nothing else is listed.
pub proof fn lemma_granted_tags_by_candidate(
    candidates: Seq<(String, Option<PeerSet>)>,
    peer: Seq<u8>,
)
    ensures
        granted_tags(candidates, peer).len() <= candidates.len(),
        forall|i: int|
            0 <= i < candidates.len() && #[trigger] candidates[i].1 is Some
                && candidates[i].1->0@.contains(peer) ==> granted_tags(candidates, peer).contains(
                candidates[i].0@,
            ),
        forall|t: Seq<char>|
            #[trigger] granted_tags(candidates, peer).contains(t) ==> exists|i: int|
                0 <= i < candidates.len() && candidates[i].0@ == t && candidates[i].1 is Some
                    && candidates[i].1->0@.contains(peer),
    decreases candidates.len(),
{
    if candidates.len() > 0 {
        let init = candidates.drop_last();
        lemma_granted_tags_by_candidate(init, peer);
        let g = granted_tags(candidates, peer);
        let gi = granted_tags(init, peer);
        assert forall|i: int|
            0 <= i < candidates.len() && #[trigger] candidates[i].1 is Some
                && candidates[i].1->0@.contains(peer) implies g.contains(candidates[i].0@) by {
            if i < candidates.len() - 1 {
                assert(init[i] == candidates[i]);
                assert(gi.contains(candidates[i].0@));
                let k = choose|k: int| 0 <= k < gi.len() && gi[k] == candidates[i].0@;
                assert(g[k] == gi[k]);
            } else {
                assert(g[g.len() - 1] == candidates[i].0@);
            }
        }
        assert forall|t: Seq<char>| #[trigger] g.contains(t) implies exists|i: int|
            0 <= i < candidates.len() && candidates[i].0@ == t && candidates[i].1 is Some
                && candidates[i].1->0@.contains(peer) by {
            let k = choose|k: int| 0 <= k < g.len() && g[k] == t;
            if k < gi.len() {
                assert(gi[k] == t);
                assert(gi.contains(t));
                let i = choose|i: int|
                    0 <= i < init.len() && init[i].0@ == t && init[i].1 is Some
                        && init[i].1->0@.contains(peer);
                assert(candidates[i] == init[i]);
            } else {
                assert(candidates[candidates.len() - 1] == candidates.last());
            }
        }
    }
}

/// Picks out, in order, the tags of the resources whose access list lets the
/// peer in; a resource without an access list is left out.
pub fn authorized_tags(candidates: &Vec<(String, Option<PeerSet>)>, peer: &[u8; 32]) -> (r: Vec<
    String,
>)
    ensures
        r@.map_values(|t: String| t@) == granted_tags(candidates@, peer@),
        r@.map_values(|t: String| t@) == candidates@.filter(
            |c: (String, Option<PeerSet>)| c.1 is Some && c.1->0@.contains(peer@),
        ).map_values(|c: (String, Option<PeerSet>)| c.0@),
{
    proof {
        lemma_granted_tags_are_the_admitting_candidates(candidates@, peer@);
    }
    let mut r: Vec<String> = Vec::new();
    let mut i: usize = 0;
    while i < candidates.len()
        invariant
            0 <= i <= candidates@.len(),
            r@.map_values(|t: String| t@) == granted_tags(candidates@.take(i as int), peer@),
        decreases candidates@.len() - i,
    {
        assert(candidates@.take(i + 1).drop_last() =~= candidates@.take(i as int));
        let granted = match &candidates[i].1 {
            Some(list) => list.contains(peer),
            None => false,
        };
        if granted {
            let tag = candidates[i].0.clone();
            r.push(tag);
            assert(r@.map_values(|t: String| t@) =~= granted_tags(candidates@.take(i as int), peer@).push(
                candidates@[i as int].0@,
            ));
        }
        i = i + 1;
    }
    assert(candidates@.take(candidates@.len() as int) =~= candidates@);
    r
}

/// The status a permitted file request gets from what the store holds:
/// `ResourceNotFound` without the resource's metadata, `FileNotFound` without
/// the file, `Allowed` when both are there.
pub fn serve_status(metadata_found: bool, file_found: bool) -> (s: Status)
    ensures
        s == if !metadata_found {
            Status::ResourceNotFound
        } else if !file_found {
            Status::FileNotFound
        } else {
            Status::Allowed
        },
{
    if !metadata_found {
        Status::ResourceNotFound
    } else if !file_found {
        Status::FileNotFound
    } else {
        Status::Allowed
    }
}

/// What one answer to an access-list query leads to.
pub enum LookupOutcome {
    /// Ask for the resource's own list next.
    AskResource,
    /// This list governs the resource.
    Found(Set<Seq<u8>>),
    /// Neither list exists.
    Missing,
}

/// The stage a lookup moves to, and what it leads to, on an answer: a list
/// that exists ends the lookup; a missing namespace-wide list (stage 0)
/// leads to asking for the resource's list (stage 1); a missing resource list
/// ends the lookup with nothing.
pub open spec fn lookup_transition(stage: nat, found: Option<Set<Seq<u8>>>) -> (nat, LookupOutcome) {
    match found {
        Some(s) => (2, LookupOutcome::Found(s)),
        None => if stage == 0 {
            (1, LookupOutcome::AskResource)
        } else {
            (2, LookupOutcome::Missing)
        },
    }
}

/// The view of an answer.
pub open spec fn answer_view(found: Option<PeerSet>) -> Option<Set<Seq<u8>>> {
    match found {
        Some(l) => Some(l@),
        None => None,
    }
}

/// What the server does next in a lookup.
pub enum LookupStep {
    /// Query the list stored under this tag.
    Query(String),
    /// This list governs the resource.
    Found(PeerSet),
    /// There is no list for the resource.
    NotFound,
}

/// The lookup of the access list that governs a resource of a namespace:
/// the namespace-wide list first, then the resource's own list.
pub struct AccessLookup {
    namespace: String,
    resource: String,
    stage: u8,
}

impl AccessLookup {
    /// How far the lookup is: 0 while the namespace-wide list is asked for,
    /// 1 while the resource's list is asked for, 2 when it is over.
    pub closed spec fn stage(&self) -> nat {
        self.stage as nat
    }

    /// The namespace whose list is looked up.
    pub closed spec fn namespace(&self) -> Seq<char> {
        self.namespace@
    }

    /// The resource whose list is looked up.
    pub closed spec fn resource(&self) -> Seq<char> {
        self.resource@
    }

    /// Starts a lookup; the tag returned is the first to query.
    pub fn start(namespace: &str, resource: &str) -> (r: (AccessLookup, String))
        ensures
            r.0.stage() == 0,
            r.0.namespace() == namespace@,
            r.0.resource() == resource@,
            r.1@ == tag_text(namespace@, None, None),
    {
        let tag = make_tag(namespace, None, None);
        (AccessLookup { namespace: namespace.to_owned(), resource: resource.to_owned(), stage: 0 }, tag)
    }

    /// Takes the answer to the last query and says what comes next.
    pub fn on_answer(&mut self, found: Option<PeerSet>) -> (step: LookupStep)
        requires
            old(self).stage() < 2,
        ensures
            final(self).namespace() == old(self).namespace(),
            final(self).resource() == old(self).resource(),
            (final(self).stage(), match step {
                LookupStep::Query(_) => LookupOutcome::AskResource,
                LookupStep::Found(l) => LookupOutcome::Found(l@),
                LookupStep::NotFound => LookupOutcome::Missing,
            }) == lookup_transition(old(self).stage(), answer_view(found)),
            step matches LookupStep::Found(l) ==> found == Some(l),
            step matches LookupStep::Query(t) ==> t@ == tag_text(
                old(self).namespace(),
                Some(old(self).resource()),
                None,
            ),
    {
        match found {
            Some(l) => {
                self.stage = 2;
                LookupStep::Found(l)
            },
            None => {
                if self.stage == 0 {
                    self.stage = 1;
                    LookupStep::Query(make_tag(self.namespace.as_str(), Some(self.resource.as_str()), None))
                } else {
                    self.stage = 2;
                    LookupStep::NotFound
                }
            },
        }
    }
}

/// A namespace-wide access list governs every resource of the namespace:
/// when it exists, the lookup ends on it without asking for the resource's
/// own list; only when it is missing does the resource's list decide.
pub proof fn lemma_namespace_list_takes_precedence(
    namespace_list: Option<Set<Seq<u8>>>,
    resource_list: Option<Set<Seq<u8>>>,
)
    ensures
        ({
            let (stage1, first) = lookup_transition(0, namespace_list);
            match namespace_list {
                Some(l) => first == LookupOutcome::Found(l) && stage1 == 2,
                None => first == LookupOutcome::AskResource && stage1 == 1 && lookup_transition(
                    stage1,
                    resource_list,
                ) == (
                    2nat,
                    match resource_list {
                        Some(l) => LookupOutcome::Found(l),
                        None => LookupOutcome::Missing,
                    },
                ),
            }
        }),
{
}

} // verus!
