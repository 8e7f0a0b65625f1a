use vstd::prelude::*;
use linked_hash_map::LinkedHashMap;
use crate::builders::{build_object, build_spec};
use crate::object::{
    Component, ComponentModel, GameObject, GameObjectModel, MonoBehaviour, MonoModel, Object,
    ObjectModel, Transform, TransformModel,
};
use crate::value::{DocModel, UnityObject, docs_model};

verus! {

#[verifier::external_type_specification]
#[verifier::external_body]
#[verifier::reject_recursive_types(K)]
#[verifier::reject_recursive_types(V)]
#[verifier::reject_recursive_types(S)]
pub struct ExLinkedHashMap<K, V, S>(LinkedHashMap<K, V, S>);

/// What a map of objects holds, in the order its iterators give: each key with the model
/// of its object.
pub uninterp spec fn stored(m: LinkedHashMap<String, Object>) -> Seq<(Seq<char>, ObjectModel)>;

/// The contents after inserting `v` under `k`: an entry of that key leaves its place and
/// the new one goes last.
pub open spec fn insert_last(
    s: Seq<(Seq<char>, ObjectModel)>,
    k: Seq<char>,
    v: ObjectModel,
) -> Seq<(Seq<char>, ObjectModel)> {
    remove_key(s, k).push((k, v))
}

/// `s` without the entries of key `k`.
pub open spec fn remove_key(s: Seq<(Seq<char>, ObjectModel)>, k: Seq<char>) -> Seq<
    (Seq<char>, ObjectModel),
>
    decreases s.len(),
{
    if s.len() == 0 {
        Seq::empty()
    } else {
        let r = remove_key(s.drop_last(), k);
        if s.last().0 == k {
            r
        } else {
            r.push(s.last())
        }
    }
}

/// Relies on `LinkedHashMap::new`: the new map is empty.
#[verifier::external_body]
fn map_new() -> (r: LinkedHashMap<String, Object>)
    ensures
        stored(r) == Seq::<(Seq<char>, ObjectModel)>::empty(),
{
    LinkedHashMap::new()
}

/// Relies on `LinkedHashMap::insert`: the value replaces one of the same key, and the
/// entry moves to the end of the order.
#[verifier::external_body]
fn map_insert(m: &mut LinkedHashMap<String, Object>, k: String, v: Object)
    ensures
        stored(*final(m)) == insert_last(stored(*old(m)), k@, v@),
{
    m.insert(k, v);
}

/// Relies on `LinkedHashMap::get`: the object stored under the key, if any.
#[verifier::external_body]
fn map_get<'a>(m: &'a LinkedHashMap<String, Object>, k: &String) -> (r: Option<&'a Object>)
    ensures
        match r {
            Some(o) => exists|i: int|
                0 <= i < stored(*m).len() && #[trigger] stored(*m)[i] == (k@, o@),
            None => forall|i: int| 0 <= i < stored(*m).len() ==> #[trigger] stored(*m)[i].0 != k@,
        },
{
    m.get(k)
}

/// Relies on `LinkedHashMap::values`: the objects in order of insertion.
#[verifier::external_body]
fn map_values<'a>(m: &'a LinkedHashMap<String, Object>) -> (r: Vec<&'a Object>)
    ensures
        r@.len() == stored(*m).len(),
        forall|i: int| 0 <= i < r@.len() ==> #[trigger] r@[i]@ == stored(*m)[i].1,
{
    m.values().collect()
}

/// Keys occur once each.
pub open spec fn unique_keys(s: Seq<(Seq<char>, ObjectModel)>) -> bool {
    forall|i: int, j: int| 0 <= i < j < s.len() ==> #[trigger] s[i].0 != #[trigger] s[j].0
}

/// The object stored under `k`.
pub open spec fn find_obj(s: Seq<(Seq<char>, ObjectModel)>, k: Seq<char>) -> Option<ObjectModel>
    decreases s.len(),
{
    if s.len() == 0 {
        None
    } else if s[0].0 == k {
        Some(s[0].1)
    } else {
        find_obj(s.drop_first(), k)
    }
}

/// The contents of a repository built from `docs`: each document that builds, under its
/// id, in order, a later document of the same id replacing an earlier one.
pub open spec fn repo_spec(docs: Seq<DocModel>) -> Seq<(Seq<char>, ObjectModel)>
    decreases docs.len(),
{
    if docs.len() == 0 {
        Seq::empty()
    } else {
        let acc = repo_spec(docs.drop_last());
        match build_spec(docs.last()) {
            Some(o) => insert_last(acc, docs.last().id, o),
            None => acc,
        }
    }
}

/// The transforms without a parent (father id `0`), in order.
pub open spec fn unparented_spec(s: Seq<(Seq<char>, ObjectModel)>) -> Seq<TransformModel>
    decreases s.len(),
{
    if s.len() == 0 {
        Seq::empty()
    } else {
        let rest = unparented_spec(s.drop_last());
        match s.last().1 {
            ObjectModel::Component(ComponentModel::Transform(t)) => if t.father_id == seq!['0'] {
                rest.push(t)
            } else {
                rest
            },
            _ => rest,
        }
    }
}

/// The ids of the game objects, in order.
pub open spec fn game_object_ids_spec(s: Seq<(Seq<char>, ObjectModel)>) -> Seq<Seq<char>>
    decreases s.len(),
{
    if s.len() == 0 {
        Seq::empty()
    } else {
        let rest = game_object_ids_spec(s.drop_last());
        match s.last().1 {
            ObjectModel::GameObject(_) => rest.push(s.last().0),
            _ => rest,
        }
    }
}

pub proof fn lemma_find_obj(s: Seq<(Seq<char>, ObjectModel)>, k: Seq<char>, i: int)
    requires
        unique_keys(s),
        0 <= i < s.len(),
        s[i].0 == k,
    ensures
        find_obj(s, k) == Some(s[i].1),
    decreases s.len(),
{
    if i > 0 {
        assert(s[0].0 != s[i].0);
        let t = s.drop_first();
        assert forall|a: int, b: int| 0 <= a < b < t.len() implies #[trigger] t[a].0
            != #[trigger] t[b].0 by {
            assert(t[a] == s[a + 1] && t[b] == s[b + 1]);
        }
        lemma_find_obj(t, k, i - 1);
    }
}

pub proof fn lemma_find_obj_none(s: Seq<(Seq<char>, ObjectModel)>, k: Seq<char>)
    requires
        forall|i: int| 0 <= i < s.len() ==> #[trigger] s[i].0 != k,
    ensures
        find_obj(s, k) is None,
    decreases s.len(),
{
    if s.len() > 0 {
        let t = s.drop_first();
        assert forall|i: int| 0 <= i < t.len() implies #[trigger] t[i].0 != k by {
            assert(t[i] == s[i + 1]);
        }
        lemma_find_obj_none(t, k);
    }
}

pub proof fn lemma_remove_key(s: Seq<(Seq<char>, ObjectModel)>, k: Seq<char>)
    requires
        unique_keys(s),
    ensures
        unique_keys(remove_key(s, k)),
        forall|i: int| 0 <= i < remove_key(s, k).len() ==> #[trigger] remove_key(s, k)[i].0 != k,
        forall|i: int|
            0 <= i < remove_key(s, k).len() ==> exists|j: int|
                0 <= j < s.len() && #[trigger] remove_key(s, k)[i] == s[j],
    decreases s.len(),
{
    if s.len() > 0 {
        let d = s.drop_last();
        assert forall|a: int, b: int| 0 <= a < b < d.len() implies #[trigger] d[a].0
            != #[trigger] d[b].0 by {
            assert(d[a] == s[a] && d[b] == s[b]);
        }
        lemma_remove_key(d, k);
        let r = remove_key(d, k);
        assert forall|i: int| 0 <= i < r.len() implies exists|j: int|
            0 <= j < s.len() && #[trigger] r[i] == s[j] by {
            let j = choose|j: int| 0 <= j < d.len() && r[i] == d[j];
            assert(r[i] == s[j]);
        }
        if s.last().0 != k {
            let r2 = r.push(s.last());
            assert forall|a: int, b: int| 0 <= a < b < r2.len() implies #[trigger] r2[a].0
                != #[trigger] r2[b].0 by {
                if b == r2.len() - 1 {
                    let j = choose|j: int| 0 <= j < d.len() && r[a] == d[j];
                    assert(s[j].0 != s[s.len() - 1].0);
                } else {
                    assert(r2[a] == r[a] && r2[b] == r[b]);
                }
            }
            assert forall|i: int| 0 <= i < r2.len() implies exists|j: int|
                0 <= j < s.len() && #[trigger] r2[i] == s[j] by {
                if i == r2.len() - 1 {
                    assert(r2[i] == s[s.len() - 1]);
                } else {
                    assert(r2[i] == r[i]);
                }
            }
        }
    }
}

pub proof fn lemma_insert_last_unique(s: Seq<(Seq<char>, ObjectModel)>, k: Seq<char>, v: ObjectModel)
    requires
        unique_keys(s),
    ensures
        unique_keys(insert_last(s, k, v)),
{
    lemma_remove_key(s, k);
    let r = remove_key(s, k);
    let r2 = r.push((k, v));
    assert forall|a: int, b: int| 0 <= a < b < r2.len() implies #[trigger] r2[a].0
        != #[trigger] r2[b].0 by {
        if b == r2.len() - 1 {
            assert(r2[a] == r[a]);
        } else {
            assert(r2[a] == r[a] && r2[b] == r[b]);
        }
    }
}

pub proof fn lemma_mono_keeps_id(es: Seq<crate::value::EntryModel>, past: bool, acc: MonoModel)
    ensures
        crate::builders::mono_fold(es, past, acc) matches Some(m) ==> m.id == acc.id,
    decreases es.len(),
{
    if es.len() > 0 {
        let e = es[0];
        let rest = es.drop_first();
        if e.key == "m_Enabled"@ {
            if let Some(i) = crate::query::as_int(e.value) {
                lemma_mono_keeps_id(rest, past, MonoModel { enabled: i > 0, ..acc });
            }
        } else if e.key == "m_GameObject"@ {
            let id = match crate::query::as_map(e.value) {
                Some(m) => match crate::query::lookup(m, seq!['f', 'i', 'l', 'e', 'I', 'D']) {
                    Some(f) => crate::query::file_id_of(f),
                    None => None,
                },
                None => None,
            };
            if let Some(id) = id {
                lemma_mono_keeps_id(rest, past, MonoModel { game_object_id: id, ..acc });
            }
        } else if e.key == crate::builders::last_common_field() {
            lemma_mono_keeps_id(rest, true, acc);
        } else if past {
            lemma_mono_keeps_id(
                rest,
                past,
                MonoModel {
                    fields: crate::builders::set_field(
                        acc.fields,
                        e.key,
                        crate::builders::field_of(e.value),
                    ),
                    ..acc
                },
            );
        } else {
            lemma_mono_keeps_id(rest, past, acc);
        }
    }
}

pub proof fn lemma_build_keeps_id(doc: DocModel)
    ensures
        build_spec(doc) matches Some(o) ==> o.id() == doc.id,
{
    lemma_mono_keeps_id(
        doc.entries,
        false,
        MonoModel { id: doc.id, enabled: false, fields: Seq::empty(), game_object_id: Seq::empty() },
    );
}

proof fn lemma_unparented_members(c: Seq<(Seq<char>, ObjectModel)>, t: TransformModel)
    ensures
        unparented_spec(c).contains(t) <==> exists|i: int|
            0 <= i < c.len() && #[trigger] c[i].1 == ObjectModel::Component(
                ComponentModel::Transform(t),
            ) && t.father_id == seq!['0'],
    decreases c.len(),
{
    if c.len() > 0 {
        let d = c.drop_last();
        lemma_unparented_members(d, t);
        let rest = unparented_spec(d);
        if exists|i: int|
            0 <= i < d.len() && #[trigger] d[i].1 == ObjectModel::Component(
                ComponentModel::Transform(t),
            ) && t.father_id == seq!['0'] {
            let i = choose|i: int|
                0 <= i < d.len() && #[trigger] d[i].1 == ObjectModel::Component(
                    ComponentModel::Transform(t),
                ) && t.father_id == seq!['0'];
            assert(c[i] == d[i]);
        }
        if exists|i: int|
            0 <= i < c.len() && #[trigger] c[i].1 == ObjectModel::Component(
                ComponentModel::Transform(t),
            ) && t.father_id == seq!['0'] {
            let i = choose|i: int|
                0 <= i < c.len() && #[trigger] c[i].1 == ObjectModel::Component(
                    ComponentModel::Transform(t),
                ) && t.father_id == seq!['0'];
            if i < c.len() - 1 {
                assert(d[i] == c[i]);
                assert(rest.contains(t));
            }
        }
        match c.last().1 {
            ObjectModel::Component(ComponentModel::Transform(u)) => {
                if u.father_id == seq!['0'] {
                    assert(rest.push(u).last() == u);
                    assert forall|x: TransformModel| rest.contains(x) implies rest.push(u).contains(x) by {
                        let k = choose|k: int| 0 <= k < rest.len() && rest[k] == x;
                        assert(rest.push(u)[k] == x);
                    }
                    assert forall|x: TransformModel| rest.push(u).contains(x) implies (rest.contains(x) || x == u) by {
                        let k = choose|k: int| 0 <= k < rest.push(u).len() && rest.push(u)[k] == x;
                        if k < rest.len() {
                            assert(rest[k] == x);
                        }
                    }
                }
            },
            _ => {},
        }
    }
}

proof fn lemma_find_obj_some(s: Seq<(Seq<char>, ObjectModel)>, k: Seq<char>)
    ensures
        find_obj(s, k) matches Some(o) ==> exists|i: int| 0 <= i < s.len() && #[trigger] s[i] == (k, o),
    decreases s.len(),
{
    if s.len() > 0 && s[0].0 != k {
        lemma_find_obj_some(s.drop_first(), k);
        if let Some(o) = find_obj(s, k) {
            let i = choose|i: int| 0 <= i < s.drop_first().len() && #[trigger] s.drop_first()[i] == (k, o);
            assert(s[i + 1] == (k, o));
        }
    } else if s.len() > 0 {
        assert(s[0] == (k, s[0].1));
    }
}

proof fn lemma_unparented_no_duplicates(c: Seq<(Seq<char>, ObjectModel)>)
    requires
        unique_keys(c),
        keyed_by_id(c),
    ensures
        unparented_spec(c).no_duplicates(),
    decreases c.len(),
{
    if c.len() > 0 {
        let d = c.drop_last();
        assert forall|a: int, b: int| 0 <= a < b < d.len() implies #[trigger] d[a].0 != #[trigger] d[b].0 by {
            assert(d[a] == c[a] && d[b] == c[b]);
        }
        assert forall|k: int| 0 <= k < d.len() implies #[trigger] d[k].0 == d[k].1.id() by {
            assert(d[k] == c[k]);
        }
        lemma_unparented_no_duplicates(d);
        let rest = unparented_spec(d);
        match c.last().1 {
            ObjectModel::Component(ComponentModel::Transform(t)) => {
                if t.father_id == seq!['0'] {
                    lemma_unparented_members(d, t);
                    assert(!rest.contains(t)) by {
                        if rest.contains(t) {
                            let i = choose|i: int|
                                0 <= i < d.len() && #[trigger] d[i].1 == ObjectModel::Component(
                                    ComponentModel::Transform(t),
                                ) && t.father_id == seq!['0'];
                            assert(c[i] == d[i]);
                            assert(c[i].0 == t.id);
                            assert(c[c.len() - 1].0 == t.id);
                        }
                    }
                    let r = rest.push(t);
                    assert forall|a: int, b: int| 0 <= a < r.len() && 0 <= b < r.len() && a != b implies r[a] != r[b] by {
                        if a < rest.len() && b < rest.len() {
                            assert(r[a] == rest[a] && r[b] == rest[b]);
                        } else if a < rest.len() {
                            assert(rest.contains(r[a]));
                        } else if b < rest.len() {
                            assert(rest.contains(r[b]));
                        }
                    }
                }
            },
            _ => {},
        }
    }
}

/// The transforms without a parent are exactly the transforms that a lookup by some id
/// finds with father id `0`, each listed once.
pub proof fn lemma_unparented_by_lookup(repo: Repository, t: TransformModel)
    requires
        repo.wf(),
    ensures
        unparented_spec(repo.contents()).contains(t) <==> exists|id: Seq<char>|
            #[trigger] find_obj(repo.contents(), id) == Some(
                ObjectModel::Component(ComponentModel::Transform(t)),
            ) && t.father_id == seq!['0'],
        unparented_spec(repo.contents()).no_duplicates(),
{
    let c = repo.contents();
    let x = ObjectModel::Component(ComponentModel::Transform(t));
    lemma_unparented_members(c, t);
    lemma_unparented_no_duplicates(c);
    if unparented_spec(c).contains(t) {
        let i = choose|i: int| 0 <= i < c.len() && #[trigger] c[i].1 == x && t.father_id == seq!['0'];
        lemma_find_obj(c, c[i].0, i);
        assert(find_obj(c, c[i].0) == Some(x));
    }
    if exists|id: Seq<char>| #[trigger] find_obj(c, id) == Some(x) && t.father_id == seq!['0'] {
        let id = choose|id: Seq<char>| #[trigger] find_obj(c, id) == Some(x) && t.father_id == seq!['0'];
        lemma_find_obj_some(c, id);
        let i = choose|i: int| 0 <= i < c.len() && #[trigger] c[i] == (id, x);
        assert(c[i].1 == x);
    }
}

/// The transforms without a parent are exactly the repository's transforms whose father
/// id is `0`.
pub proof fn lemma_unparented_exact(repo: Repository, t: TransformModel)
    ensures
        unparented_spec(repo.contents()).contains(t) <==> exists|i: int|
            0 <= i < repo.contents().len() && #[trigger] repo.contents()[i].1
                == ObjectModel::Component(ComponentModel::Transform(t)) && t.father_id == seq!['0'],
{
    lemma_unparented_members(repo.contents(), t);
}

/// The objects of one file, by id, in the order their documents came.
pub struct Repository(LinkedHashMap<String, Object>);

impl Repository {
    /// Each id with the model of its object, in order.
    pub closed spec fn contents(&self) -> Seq<(Seq<char>, ObjectModel)> {
        stored(self.0)
    }

    /// Ids occur once each.
    pub closed spec fn wf(&self) -> bool {
        unique_keys(stored(self.0)) && keyed_by_id(stored(self.0))
    }

    /// The count of objects.
    pub fn len(&self) -> (r: usize)
        ensures
            r == self.contents().len(),
    {
        let all = map_values(&self.0);
        all.len()
    }

    /// The object stored under `id`.
    pub fn get(&self, id: &String) -> (r: Option<&Object>)
        requires
            self.wf(),
        ensures
            match find_obj(self.contents(), id@) {
                Some(o) => r matches Some(x) && x@ == o,
                None => r is None,
            },
    {
        let r = map_get(&self.0, id);
        proof {
            match r {
                Some(o) => {
                    let i = choose|i: int|
                        0 <= i < stored(self.0).len() && #[trigger] stored(self.0)[i] == (id@, o@);
                    lemma_find_obj(stored(self.0), id@, i);
                },
                None => {
                    lemma_find_obj_none(stored(self.0), id@);
                },
            }
        }
        r
    }

    /// The game object stored under `id`; `None` where there is none or the object is of
    /// another kind.
    pub fn get_game_object(&self, id: &String) -> (r: Option<&GameObject>)
        requires
            self.wf(),
        ensures
            match find_obj(self.contents(), id@) {
                Some(ObjectModel::GameObject(g)) => r matches Some(x) && x@ == g,
                _ => r is None,
            },
    {
        match self.get(id)? {
            Object::GameObject(obj) => Some(obj),
            _ => None,
        }
    }

    /// The component stored under `id`; `None` where there is none or the object is of
    /// another kind.
    pub fn get_component(&self, id: &String) -> (r: Option<&Component>)
        requires
            self.wf(),
        ensures
            match find_obj(self.contents(), id@) {
                Some(ObjectModel::Component(c)) => r matches Some(x) && x@ == c,
                _ => r is None,
            },
    {
        match self.get(id)? {
            Object::Component(comp) => Some(comp),
            _ => None,
        }
    }

    /// The transform stored under `id`; `None` where there is none or the object is of
    /// another kind.
    pub fn get_transform(&self, id: &String) -> (r: Option<&Transform>)
        requires
            self.wf(),
        ensures
            match find_obj(self.contents(), id@) {
                Some(ObjectModel::Component(ComponentModel::Transform(t))) => r matches Some(x)
                    && x@ == t,
                _ => r is None,
            },
    {
        match self.get_component(id)? {
            Component::Transform(trans) => Some(trans),
            _ => None,
        }
    }

    /// The scripted behaviour stored under `id`; `None` where there is none or the object
    /// is of another kind.
    pub fn get_monobehaviour(&self, id: &String) -> (r: Option<&MonoBehaviour>)
        requires
            self.wf(),
        ensures
            match find_obj(self.contents(), id@) {
                Some(ObjectModel::Component(ComponentModel::MonoBehaviour(m))) => r matches Some(
                    x,
                ) && x@ == m,
                _ => r is None,
            },
    {
        match self.get_component(id)? {
            Component::MonoBehaviour(mono) => Some(mono),
            _ => None,
        }
    }

    /// The transforms whose father id is `0`, in order.
    pub fn get_unparented_transforms(&self) -> (r: Vec<&Transform>)
        ensures
            r@.len() == unparented_spec(self.contents()).len(),
            forall|i: int| 0 <= i < r@.len() ==> #[trigger] r@[i]@ == unparented_spec(
                self.contents(),
            )[i],
    {
        let all = map_values(&self.0);
        let ghost s = stored(self.0);
        let mut out: Vec<&Transform> = Vec::new();
        let mut i: usize = 0;
        while i < all.len()
            invariant
                s == stored(self.0),
                all@.len() == s.len(),
                forall|k: int| 0 <= k < all@.len() ==> #[trigger] all@[k]@ == s[k].1,
                i <= all@.len(),
                out@.len() == unparented_spec(s.take(i as int)).len(),
                forall|k: int| 0 <= k < out@.len() ==> #[trigger] out@[k]@ == unparented_spec(
                    s.take(i as int),
                )[k],
            decreases all@.len() - i,
        {
            assert(s.take(i + 1int).drop_last() =~= s.take(i as int));
            assert(s.take(i + 1int).last() == s[i as int]);
            let o: &Object = all[i];
            assert(o@ == s[i as int].1);
            match o {
                Object::Component(Component::Transform(t)) => {
                    if !t.has_parent() {
                        out.push(t);
                    }
                },
                _ => {},
            }
            i = i + 1;
        }
        assert(s.take(i as int) =~= s);
        out
    }

    /// The ids of the game objects, in order.
    pub fn get_game_object_ids(&self) -> (r: Vec<String>)
        requires
            self.wf(),
        ensures
            r@.map_values(|x: String| x@) == game_object_ids_spec(self.contents()),
    {
        let all = map_values(&self.0);
        let ghost s = stored(self.0);
        let mut out: Vec<String> = Vec::new();
        let mut i: usize = 0;
        while i < all.len()
            invariant
                s == stored(self.0),
                all@.len() == s.len(),
                forall|k: int| 0 <= k < all@.len() ==> #[trigger] all@[k]@ == s[k].1,
                keyed_by_id(s),
                i <= all@.len(),
                out@.map_values(|x: String| x@) == game_object_ids_spec(s.take(i as int)),
            decreases all@.len() - i,
        {
            assert(s.take(i + 1int).drop_last() =~= s.take(i as int));
            assert(s.take(i + 1int).last() == s[i as int]);
            let o: &Object = all[i];
            assert(o@ == s[i as int].1);
            match o {
                Object::GameObject(g) => {
                    let ghost before = out@;
                    out.push(g.id.clone());
                    assert(out@.map_values(|x: String| x@) =~= before.map_values(|x: String| x@).push(s[i as int].0));
                },
                _ => {},
            }
            i = i + 1;
        }
        assert(s.take(i as int) =~= s);
        out
    }
}

/// Every entry is stored under its object's own id.
pub open spec fn keyed_by_id(s: Seq<(Seq<char>, ObjectModel)>) -> bool {
    forall|k: int| 0 <= k < s.len() ==> #[trigger] s[k].0 == s[k].1.id()
}

/// Builds the repository of one file from its documents: each document that builds is
/// stored under its id; the others are skipped.
pub fn construct_repository(docs: Vec<UnityObject>) -> (r: Repository)
    ensures
        r.wf(),
        r.contents() == repo_spec(docs_model(docs@)),
{
    let ghost dm = docs_model(docs@);
    let mut map = map_new();
    let mut i: usize = 0;
    while i < docs.len()
        invariant
            dm == docs_model(docs@),
            dm.len() == docs@.len(),
            i <= docs@.len(),
            unique_keys(stored(map)),
            keyed_by_id(stored(map)),
            stored(map) == repo_spec(dm.take(i as int)),
        decreases docs@.len() - i,
    {
        assert(dm.take(i + 1int).drop_last() =~= dm.take(i as int));
        assert(dm.take(i + 1int).last() == docs@[i as int]@);
        let doc = &docs[i];
        match build_object(doc) {
            Some(obj) => {
                proof {
                    lemma_insert_last_unique(stored(map), doc.id@, obj@);
                    lemma_build_keeps_id(doc@);
                    lemma_remove_key(stored(map), doc.id@);
                    let r = remove_key(stored(map), doc.id@);
                    let r2 = insert_last(stored(map), doc.id@, obj@);
                    assert forall|k: int| 0 <= k < r2.len() implies #[trigger] r2[k].0
                        == r2[k].1.id() by {
                        if k < r.len() {
                            assert(r2[k] == r[k]);
                        }
                    }
                }
                map_insert(&mut map, doc.id.clone(), obj);
            },
            None => {},
        }
        i = i + 1;
    }
    assert(dm.take(i as int) =~= dm);
    Repository(map)
}

} // verus!
