//! The objects of a clone, by identity, and how deltas are resolved into
//! them.

use crate::delta::{all_in_range, spec_apply, DeltaInstruction};
use crate::error::GitError;
use crate::git::any_git_object::{body_of, identity, spec_from_body, type_of, AnyGitObject, ObjectView};
use crate::git::git_object_trait::{framed, GitObject};
use crate::git::packfile::{objects_of, ObjRefDelta, PackObjectView, PackfileObject, RefDeltaView};
use crate::sha::{digest_limit, lemma_sha_ext, Sha};
use vstd::prelude::*;

verus! {

/// Objects by identity, in the order in which each identity first came. A
/// map that is made by `new` and filled by `insert` holds each identity
/// once.
#[derive(Debug, Clone, PartialEq, Eq)]
pub struct ObjectMap {
    pub entries: Vec<(Sha, AnyGitObject)>,
}

impl View for ObjectMap {
    type V = Seq<(Seq<u8>, ObjectView)>;

    open spec fn view(&self) -> Seq<(Seq<u8>, ObjectView)> {
        Seq::new(self.entries@.len(), |i: int| (self.entries@[i].0@, self.entries@[i].1@))
    }
}

/// Where the object of this identity stands, or the length where there is
/// none.
pub open spec fn index_of_key(map: Seq<(Seq<u8>, ObjectView)>, key: Seq<u8>, from: int) -> int
    decreases map.len() - from,
{
    if from >= map.len() {
        map.len() as int
    } else if map[from].0 == key {
        from
    } else {
        index_of_key(map, key, from + 1)
    }
}

/// The object of this identity.
pub open spec fn lookup(map: Seq<(Seq<u8>, ObjectView)>, key: Seq<u8>) -> Option<ObjectView> {
    let i = index_of_key(map, key, 0);
    if 0 <= i < map.len() {
        Some(map[i].1)
    } else {
        None
    }
}

/// The map with `obj` under `key`, in the place of what stood there.
pub open spec fn put(map: Seq<(Seq<u8>, ObjectView)>, key: Seq<u8>, obj: ObjectView) -> Seq<
    (Seq<u8>, ObjectView),
> {
    let i = index_of_key(map, key, 0);
    if 0 <= i < map.len() {
        map.update(i, (key, obj))
    } else {
        map.push((key, obj))
    }
}

/// Whether the map holds each identity once.
pub open spec fn distinct_keys(map: Seq<(Seq<u8>, ObjectView)>) -> bool {
    forall|i: int, j: int| 0 <= i < j < map.len() ==> (#[trigger] map[i]).0 != (#[trigger] map[j]).0
}

/// Where `index_of_key` points, the identity stands, and before it does not.
pub proof fn lemma_index_of_key(map: Seq<(Seq<u8>, ObjectView)>, key: Seq<u8>, from: int)
    requires
        0 <= from <= map.len(),
    ensures
        from <= index_of_key(map, key, from) <= map.len(),
        index_of_key(map, key, from) < map.len() ==> map[index_of_key(map, key, from)].0 == key,
        forall|j: int| from <= j < index_of_key(map, key, from) ==> (#[trigger] map[j]).0 != key,
    decreases map.len() - from,
{
    if from < map.len() && map[from].0 != key {
        lemma_index_of_key(map, key, from + 1);
    }
}

/// Putting an object into a map that holds each identity once leaves such a
/// map, and the object is found under its identity.
pub proof fn lemma_put(map: Seq<(Seq<u8>, ObjectView)>, key: Seq<u8>, obj: ObjectView)
    requires
        distinct_keys(map),
    ensures
        distinct_keys(put(map, key, obj)),
        lookup(put(map, key, obj), key) == Some(obj),
{
    lemma_index_of_key(map, key, 0);
    let i = index_of_key(map, key, 0);
    let after = put(map, key, obj);
    assert forall|a: int, b: int| 0 <= a < b < after.len() implies (#[trigger] after[a]).0 != (
    #[trigger] after[b]).0 by {
        if i < map.len() {
            assert(after[a].0 == map[a].0 && after[b].0 == map[b].0);
        } else if b == map.len() {
            assert(after[a].0 == map[a].0);
        } else {
            assert(after[a].0 == map[a].0 && after[b].0 == map[b].0);
        }
    }
    lemma_index_of_key(after, key, 0);
    let k = index_of_key(after, key, 0);
    if i < map.len() {
        assert(after[i].0 == key);
        if k < i {
            assert(after[k].0 == map[k].0);
        }
    } else {
        assert(after[map.len() as int].0 == key);
        if k < map.len() {
            assert(after[k].0 == map[k].0);
        }
    }
}

/// The map with `obj` under its own identity, where it is short enough to
/// digest.
pub open spec fn put_object(map: Seq<(Seq<u8>, ObjectView)>, obj: ObjectView) -> Result<
    Seq<(Seq<u8>, ObjectView)>,
    GitError,
> {
    if framed(type_of(obj), body_of(obj)).len() >= digest_limit() {
        Err(GitError::TooLarge)
    } else {
        Ok(put(map, identity(obj), obj))
    }
}

/// The object that a delta makes of its base: of the kind of the base, with
/// the body that the instructions yield from the body of the base. The two
/// sizes that the delta states must be those of the two bodies.
pub open spec fn spec_apply_delta(base: ObjectView, delta: RefDeltaView) -> Result<ObjectView, GitError> {
    let body = body_of(base);
    if body.len() != delta.base_obj_size {
        Err(GitError::SizeMismatch)
    } else if !all_in_range(delta.instructions, body.len()) {
        Err(GitError::BadDelta)
    } else {
        let out = spec_apply(delta.instructions, body);
        if out.len() != delta.target_obj_size {
            Err(GitError::SizeMismatch)
        } else {
            spec_from_body(type_of(base), out)
        }
    }
}

/// The identity with these bytes.
pub open spec fn sha_from(bytes: Seq<u8>) -> Sha {
    choose|s: Sha| s@ == bytes
}

/// The meaning of each delta of a list.
pub open spec fn deltas_of(v: Seq<ObjRefDelta>) -> Seq<RefDeltaView> {
    Seq::new(v.len(), |i: int| v[i]@)
}

/// The objects of a pack that are no deltas, put into `map` in order, and
/// the deltas in order.
pub open spec fn spec_seed(map: Seq<(Seq<u8>, ObjectView)>, chunks: Seq<PackObjectView>) -> Result<
    (Seq<(Seq<u8>, ObjectView)>, Seq<RefDeltaView>),
    GitError,
>
    decreases chunks.len(),
{
    if chunks.len() == 0 {
        Ok((map, Seq::empty()))
    } else {
        match chunks[0] {
            PackObjectView::ObjRefDelta(d) => match spec_seed(map, chunks.skip(1)) {
                Err(e) => Err(e),
                Ok((m, deltas)) => Ok((m, seq![d] + deltas)),
            },
            PackObjectView::Commit(c) => match put_object(map, ObjectView::Commit(c)) {
                Err(e) => Err(e),
                Ok(m) => spec_seed(m, chunks.skip(1)),
            },
            PackObjectView::Tree(t) => match put_object(map, ObjectView::Tree(t)) {
                Err(e) => Err(e),
                Ok(m) => spec_seed(m, chunks.skip(1)),
            },
            PackObjectView::Blob(b) => match put_object(map, ObjectView::Blob(b)) {
                Err(e) => Err(e),
                Ok(m) => spec_seed(m, chunks.skip(1)),
            },
        }
    }
}

/// One pass over the deltas, in order: a delta whose base is in the map is
/// resolved and its object put into the map, where later deltas of the pass
/// find it; the others are left.
pub open spec fn spec_pass(map: Seq<(Seq<u8>, ObjectView)>, pending: Seq<RefDeltaView>) -> Result<
    (Seq<(Seq<u8>, ObjectView)>, Seq<RefDeltaView>),
    GitError,
>
    decreases pending.len(),
{
    if pending.len() == 0 {
        Ok((map, Seq::empty()))
    } else {
        match lookup(map, pending[0].obj_name) {
            None => match spec_pass(map, pending.skip(1)) {
                Err(e) => Err(e),
                Ok((m, left)) => Ok((m, seq![pending[0]] + left)),
            },
            Some(base) => match spec_apply_delta(base, pending[0]) {
                Err(e) => Err(e),
                Ok(obj) => match put_object(map, obj) {
                    Err(e) => Err(e),
                    Ok(m) => spec_pass(m, pending.skip(1)),
                },
            },
        }
    }
}

/// Passes over the deltas until none is left. A pass that resolves none
/// fails, and names the base of the first delta that is left.
pub open spec fn spec_resolve(map: Seq<(Seq<u8>, ObjectView)>, pending: Seq<RefDeltaView>) -> Result<
    Seq<(Seq<u8>, ObjectView)>,
    GitError,
>
    decreases pending.len(),
{
    if pending.len() == 0 {
        Ok(map)
    } else {
        match spec_pass(map, pending) {
            Err(e) => Err(e),
            Ok((m, left)) => if left.len() < pending.len() {
                spec_resolve(m, left)
            } else {
                Err(GitError::UnresolvedDelta(sha_from(left[0].obj_name)))
            },
        }
    }
}

/// The objects that a pack holds, deltas resolved.
pub open spec fn spec_objects_of_pack(chunks: Seq<PackObjectView>) -> Result<
    Seq<(Seq<u8>, ObjectView)>,
    GitError,
> {
    match spec_seed(Seq::empty(), chunks) {
        Err(e) => Err(e),
        Ok((map, deltas)) => spec_resolve(map, deltas),
    }
}

/// A pass leaves no more deltas than it was given, and a map that holds
/// each identity once stays such a map.
pub proof fn lemma_pass_len(map: Seq<(Seq<u8>, ObjectView)>, pending: Seq<RefDeltaView>)
    ensures
        spec_pass(map, pending) matches Ok((m, left)) ==> left.len() <= pending.len() && (
        distinct_keys(map) ==> distinct_keys(m)),
    decreases pending.len(),
{
    if pending.len() > 0 {
        match lookup(map, pending[0].obj_name) {
            None => {
                lemma_pass_len(map, pending.skip(1));
            },
            Some(base) => match spec_apply_delta(base, pending[0]) {
                Err(e) => {},
                Ok(obj) => match put_object(map, obj) {
                    Err(e) => {},
                    Ok(m) => {
                        if distinct_keys(map) {
                            lemma_put(map, identity(obj), obj);
                        }
                        lemma_pass_len(m, pending.skip(1));
                    },
                },
            },
        }
    }
}

/// Seeding a map that holds each identity once leaves such a map.
pub proof fn lemma_seed_distinct(map: Seq<(Seq<u8>, ObjectView)>, chunks: Seq<PackObjectView>)
    requires
        distinct_keys(map),
    ensures
        spec_seed(map, chunks) matches Ok((m, deltas)) ==> distinct_keys(m),
    decreases chunks.len(),
{
    if chunks.len() > 0 {
        let obj = match chunks[0] {
            PackObjectView::ObjRefDelta(d) => None,
            PackObjectView::Commit(c) => Some(ObjectView::Commit(c)),
            PackObjectView::Tree(t) => Some(ObjectView::Tree(t)),
            PackObjectView::Blob(b) => Some(ObjectView::Blob(b)),
        };
        match obj {
            None => {
                lemma_seed_distinct(map, chunks.skip(1));
            },
            Some(o) => match put_object(map, o) {
                Err(e) => {},
                Ok(m) => {
                    lemma_put(map, identity(o), o);
                    lemma_seed_distinct(m, chunks.skip(1));
                },
            },
        }
    }
}

/// Resolving into a map that holds each identity once leaves such a map.
pub proof fn lemma_resolve_distinct(map: Seq<(Seq<u8>, ObjectView)>, pending: Seq<RefDeltaView>)
    requires
        distinct_keys(map),
    ensures
        spec_resolve(map, pending) matches Ok(m) ==> distinct_keys(m),
    decreases pending.len(),
{
    if pending.len() > 0 {
        lemma_pass_len(map, pending);
        match spec_pass(map, pending) {
            Err(e) => {},
            Ok((m, left)) => {
                if left.len() < pending.len() {
                    lemma_resolve_distinct(m, left);
                }
            },
        }
    }
}

impl ObjectMap {
    /// A map without objects.
    pub fn new() -> (m: ObjectMap)
        ensures
            m@ == Seq::<(Seq<u8>, ObjectView)>::empty(),
            distinct_keys(m@),
    {
        let m = ObjectMap { entries: Vec::new() };
        assert(m@ =~= Seq::<(Seq<u8>, ObjectView)>::empty());
        m
    }

    /// How many objects the map holds.
    pub fn len(&self) -> (n: usize)
        ensures
            n == self@.len(),
    {
        self.entries.len()
    }

    /// Where the object of this identity stands, or the length.
    fn find(&self, key: &Sha) -> (at: usize)
        ensures
            at == index_of_key(self@, key@, 0),
            at <= self.entries@.len(),
    {
        let mut i: usize = 0;
        while i < self.entries.len()
            invariant
                i <= self.entries@.len(),
                index_of_key(self@, key@, 0) == index_of_key(self@, key@, i as int),
            decreases self.entries@.len() - i,
        {
            assert(self@[i as int].0 == self.entries@[i as int].0@);
            if self.entries[i].0 == *key {
                return i;
            }
            i += 1;
        }
        i
    }

    /// The object of this identity.
    pub fn get(&self, key: &Sha) -> (r: Option<&AnyGitObject>)
        ensures
            match lookup(self@, key@) {
                Some(v) => r matches Some(obj) && obj@ == v,
                None => r is None,
            },
    {
        let i = self.find(key);
        if i < self.entries.len() {
            assert(self@[i as int].1 == self.entries@[i as int].1@);
            Some(&self.entries[i].1)
        } else {
            None
        }
    }

    /// Puts `obj` under `key`, in the place of what stood there.
    pub fn insert(&mut self, key: Sha, obj: AnyGitObject)
        ensures
            final(self)@ == put(old(self)@, key@, obj@),
            distinct_keys(old(self)@) ==> distinct_keys(final(self)@),
            distinct_keys(old(self)@) ==> lookup(final(self)@, key@) == Some(obj@),
    {
        proof {
            if distinct_keys(self@) {
                lemma_put(self@, key@, obj@);
            }
        }
        let i = self.find(&key);
        if i < self.entries.len() {
            self.entries.set(i, (key, obj));
            assert(self@ =~= old(self)@.update(i as int, (key@, obj@)));
        } else {
            self.entries.push((key, obj));
            assert(self@ =~= old(self)@.push((key@, obj@)));
        }
    }

    /// Puts `obj` under its own identity.
    pub fn insert_object(&mut self, obj: AnyGitObject) -> (r: Result<(), GitError>)
        ensures
            match put_object(old(self)@, obj@) {
                Ok(m) => r is Ok && final(self)@ == m,
                Err(e) => r matches Err(re) && re == e,
            },
    {
        let sha = obj.sha1()?;
        self.insert(sha, obj);
        Ok(())
    }
}

/// The object that `delta` makes of `base`.
pub fn apply_delta(base: &AnyGitObject, delta: &ObjRefDelta) -> (r: Result<AnyGitObject, GitError>)
    ensures
        match spec_apply_delta(base@, delta@) {
            Ok(v) => r matches Ok(obj) && obj@ == v,
            Err(e) => r matches Err(re) && re == e,
        },
{
    let body = base.encode_body()?;
    if body.len() != delta.base_obj_size {
        return Err(GitError::SizeMismatch);
    }
    let out = DeltaInstruction::try_apply(&delta.instructions, body.as_slice())?;
    if out.len() != delta.target_obj_size {
        return Err(GitError::SizeMismatch);
    }
    AnyGitObject::from_body(base.get_type(), out)
}

/// Parts the objects of a pack: those that are no deltas go into a map, the
/// deltas into a list.
#[verifier::loop_isolation(false)]
fn seed(chunks: Vec<PackfileObject>) -> (r: Result<(ObjectMap, Vec<ObjRefDelta>), GitError>)
    ensures
        match spec_seed(Seq::empty(), objects_of(chunks@)) {
            Ok((m, deltas)) => r matches Ok((map, pending)) && map@ == m && deltas_of(pending@)
                == deltas,
            Err(e) => r matches Err(re) && re == e,
        },
{
    let ghost all = objects_of(chunks@);
    let mut chunks = chunks;
    let mut map = ObjectMap::new();
    let mut pending: Vec<ObjRefDelta> = Vec::new();
    assert(deltas_of(pending@) =~= Seq::<RefDeltaView>::empty());
    while chunks.len() > 0
        invariant
            spec_seed(Seq::empty(), all) == match spec_seed(map@, objects_of(chunks@)) {
                Ok((m, deltas)) => Ok::<(Seq<(Seq<u8>, ObjectView)>, Seq<RefDeltaView>), GitError>(
                    (m, deltas_of(pending@) + deltas),
                ),
                Err(e) => Err(e),
            },
        decreases chunks@.len(),
    {
        let ghost before = objects_of(chunks@);
        let ghost queue = deltas_of(pending@);
        let chunk = chunks.remove(0);
        assert(objects_of(chunks@) =~= before.skip(1));
        assert(chunk@ == before[0]);
        match chunk {
            PackfileObject::ObjRefDelta(d) => {
                proof {
                    match spec_seed(map@, objects_of(chunks@)) {
                        Ok((m, deltas)) => {
                            assert(queue + (seq![d@] + deltas) =~= queue.push(d@) + deltas);
                        },
                        Err(e) => {},
                    }
                    assert(deltas_of(pending@.push(d)) =~= queue.push(d@));
                }
                pending.push(d);
            },
            PackfileObject::Commit(c) => {
                map.insert_object(AnyGitObject::Commit(c))?;
            },
            PackfileObject::Tree(t) => {
                map.insert_object(AnyGitObject::Tree(t))?;
            },
            PackfileObject::Blob(b) => {
                map.insert_object(AnyGitObject::Blob(b))?;
            },
        }
    }
    proof {
        assert(deltas_of(pending@) + Seq::<RefDeltaView>::empty() =~= deltas_of(pending@));
    }
    Ok((map, pending))
}

/// One pass over the deltas.
#[verifier::loop_isolation(false)]
fn pass(map: &mut ObjectMap, pending: Vec<ObjRefDelta>) -> (r: Result<Vec<ObjRefDelta>, GitError>)
    ensures
        match spec_pass(old(map)@, deltas_of(pending@)) {
            Ok((m, left)) => r matches Ok(rest) && final(map)@ == m && deltas_of(rest@) == left,
            Err(e) => r matches Err(re) && re == e,
        },
{
    let ghost all = deltas_of(pending@);
    let ghost start = map@;
    let mut pending = pending;
    let mut rest: Vec<ObjRefDelta> = Vec::new();
    assert(deltas_of(rest@) =~= Seq::<RefDeltaView>::empty());
    while pending.len() > 0
        invariant
            spec_pass(start, all) == match spec_pass(map@, deltas_of(pending@)) {
                Ok((m, left)) => Ok::<(Seq<(Seq<u8>, ObjectView)>, Seq<RefDeltaView>), GitError>(
                    (m, deltas_of(rest@) + left),
                ),
                Err(e) => Err(e),
            },
        decreases pending@.len(),
    {
        let ghost before = deltas_of(pending@);
        let ghost kept = deltas_of(rest@);
        let delta = pending.remove(0);
        assert(deltas_of(pending@) =~= before.skip(1));
        assert(delta@ == before[0]);
        let made = match map.get(&delta.obj_name) {
            None => None,
            Some(base) => Some(apply_delta(base, &delta)?),
        };
        match made {
            None => {
                proof {
                    match spec_pass(map@, deltas_of(pending@)) {
                        Ok((m, left)) => {
                            assert(kept + (seq![delta@] + left) =~= kept.push(delta@) + left);
                        },
                        Err(e) => {},
                    }
                    assert(deltas_of(rest@.push(delta)) =~= kept.push(delta@));
                }
                rest.push(delta);
            },
            Some(obj) => {
                map.insert_object(obj)?;
            },
        }
    }
    proof {
        assert(deltas_of(rest@) + Seq::<RefDeltaView>::empty() =~= deltas_of(rest@));
    }
    Ok(rest)
}

/// The objects that a pack holds, deltas resolved: passes over the deltas
/// are made until none is left, and a pass that resolves none fails.
#[verifier::loop_isolation(false)]
pub fn resolve_deltas(chunks: Vec<PackfileObject>) -> (r: Result<ObjectMap, GitError>)
    ensures
        match spec_objects_of_pack(objects_of(chunks@)) {
            Ok(m) => r matches Ok(map) && map@ == m,
            Err(e) => r matches Err(re) && re == e,
        },
        r matches Ok(map) ==> distinct_keys(map@),
{
    proof {
        let views = objects_of(chunks@);
        lemma_seed_distinct(Seq::empty(), views);
        match spec_seed(Seq::empty(), views) {
            Ok((m, deltas)) => {
                lemma_resolve_distinct(m, deltas);
            },
            Err(e) => {},
        }
    }
    let (mut map, mut pending) = seed(chunks)?;
    let ghost map0 = map@;
    let ghost pending0 = deltas_of(pending@);
    while pending.len() > 0
        invariant
            spec_resolve(map0, pending0) == spec_resolve(map@, deltas_of(pending@)),
        decreases pending@.len(),
    {
        let before: usize = pending.len();
        proof {
            lemma_pass_len(map@, deltas_of(pending@));
        }
        let left = pass(&mut map, pending)?;
        if left.len() >= before {
            proof {
                let name = left[0].obj_name;
                assert(deltas_of(left@)[0].obj_name == name@);
                lemma_sha_ext(sha_from(name@), name);
            }
            return Err(GitError::UnresolvedDelta(left[0].obj_name));
        }
        pending = left;
    }
    Ok(map)
}

} // verus!
