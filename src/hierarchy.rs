use vstd::prelude::*;
use crate::object::{Component, ComponentModel, GameObject, GameObjectModel, ObjectModel, Transform, TransformModel};
use crate::repository::{Repository, find_obj, unparented_spec};

verus! {

/// `t` placed into the list `s`, which is ordered by root order: after every transform of
/// a root order not above its own.
pub open spec fn insert_by_root_order(s: Seq<TransformModel>, t: TransformModel) -> Seq<
    TransformModel,
>
    decreases s.len(),
{
    if s.len() > 0 && s.last().root_order > t.root_order {
        insert_by_root_order(s.drop_last(), t).push(s.last())
    } else {
        s.push(t)
    }
}

/// `s` ordered by root order; transforms of equal root order keep their order.
pub open spec fn sort_by_root_order(s: Seq<TransformModel>) -> Seq<TransformModel>
    decreases s.len(),
{
    if s.len() == 0 {
        Seq::empty()
    } else {
        insert_by_root_order(sort_by_root_order(s.drop_last()), s.last())
    }
}

/// The transforms that the ids name, where each of them names one.
pub open spec fn resolve_transforms(c: Seq<(Seq<char>, ObjectModel)>, ids: Seq<Seq<char>>) -> Option<
    Seq<TransformModel>,
>
    decreases ids.len(),
{
    if ids.len() == 0 {
        Some(Seq::empty())
    } else {
        match (resolve_transforms(c, ids.drop_last()), find_obj(c, ids.last())) {
            (Some(ts), Some(ObjectModel::Component(ComponentModel::Transform(t)))) => Some(
                ts.push(t),
            ),
            _ => None,
        }
    }
}

/// The game object that `id` names.
pub open spec fn game_object_at(c: Seq<(Seq<char>, ObjectModel)>, id: Seq<char>) -> Option<
    GameObjectModel,
> {
    match find_obj(c, id) {
        Some(ObjectModel::GameObject(g)) => Some(g),
        _ => None,
    }
}

/// The label of a game object at depth `indent`: its name, after `indent - 1` spaces and
/// a corner below the top level.
pub open spec fn label(name: Seq<char>, indent: nat) -> Seq<char> {
    if indent == 0 {
        name
    } else {
        Seq::new((indent - 1) as nat, |i: int| ' ') + "\u{2514}"@ + name
    }
}

/// The rows of the subtree of `go` (whose transform is `t`) at depth `indent`, depth
/// first, children by root order; `None` where a child or its game object does not
/// resolve, or the tree is deeper than `fuel`.
pub open spec fn named_list_spec(
    c: Seq<(Seq<char>, ObjectModel)>,
    go: GameObjectModel,
    t: TransformModel,
    indent: nat,
    fuel: nat,
) -> Option<Seq<(Seq<char>, GameObjectModel)>>
    decreases fuel, 0nat,
{
    if fuel == 0 {
        None
    } else {
        match resolve_transforms(c, t.children_ids) {
            None => None,
            Some(kids) => match kids_spec(c, sort_by_root_order(kids), indent + 1, (fuel - 1) as nat) {
                None => None,
                Some(rows) => Some(seq![(label(go.name, indent), go)] + rows),
            },
        }
    }
}

/// The rows of the subtrees of `kids`, in order.
pub open spec fn kids_spec(
    c: Seq<(Seq<char>, ObjectModel)>,
    kids: Seq<TransformModel>,
    indent: nat,
    fuel: nat,
) -> Option<Seq<(Seq<char>, GameObjectModel)>>
    decreases fuel, kids.len(),
{
    if kids.len() == 0 {
        Some(Seq::empty())
    } else {
        match kids_spec(c, kids.drop_last(), indent, fuel) {
            None => None,
            Some(rows) => match game_object_at(c, kids.last().game_object_id) {
                None => None,
                Some(g) => match named_list_spec(c, g, kids.last(), indent, fuel) {
                    None => None,
                    Some(more) => Some(rows + more),
                },
            },
        }
    }
}

pub open spec fn rows_model(v: Seq<(String, &GameObject)>) -> Seq<(Seq<char>, GameObjectModel)> {
    v.map_values(|r: (String, &GameObject)| (r.0@, r.1@))
}

pub open spec fn transforms_model(v: Seq<&Transform>) -> Seq<TransformModel> {
    v.map_values(|t: &Transform| t@)
}

proof fn lemma_insert_position(s: Seq<TransformModel>, t: TransformModel, p: int)
    requires
        0 <= p <= s.len(),
        forall|k: int| p <= k < s.len() ==> #[trigger] s[k].root_order > t.root_order,
        p > 0 ==> s[p - 1].root_order <= t.root_order,
    ensures
        insert_by_root_order(s, t) == s.take(p).push(t) + s.skip(p),
    decreases s.len(),
{
    if s.len() > 0 && s.last().root_order > t.root_order {
        assert(p < s.len());
        let d = s.drop_last();
        lemma_insert_position(d, t, p);
        assert(d.take(p).push(t) + d.skip(p) + seq![s.last()] =~= s.take(p).push(t) + s.skip(p));
    } else {
        assert(p == s.len());
        assert(s.take(p).push(t) + s.skip(p) =~= s.push(t));
    }
}

/// Orders transforms by root order, keeping the order of equal ones.
pub fn sort_transforms<'a>(ts: Vec<&'a Transform>) -> (r: Vec<&'a Transform>)
    ensures
        transforms_model(r@) == sort_by_root_order(transforms_model(ts@)),
{
    let ghost tm = transforms_model(ts@);
    let mut out: Vec<&'a Transform> = Vec::new();
    let mut i: usize = 0;
    while i < ts.len()
        invariant
            tm == transforms_model(ts@),
            i <= ts@.len(),
            transforms_model(out@) == sort_by_root_order(tm.take(i as int)),
        decreases ts@.len() - i,
    {
        assert(tm.take(i + 1int).drop_last() =~= tm.take(i as int));
        assert(tm.take(i + 1int).last() == ts@[i as int]@);
        let t = ts[i];
        let key = t.get_root_order();
        let mut p = out.len();
        let ghost om = transforms_model(out@);
        while p > 0 && out[p - 1].get_root_order() > key
            invariant
                om == transforms_model(out@),
                p <= out@.len(),
                key as int == t@.root_order,
                forall|k: int| p <= k < om.len() ==> #[trigger] om[k].root_order > t@.root_order,
            decreases p,
        {
            p = p - 1;
        }
        proof {
            lemma_insert_position(om, t@, p as int);
        }
        out.insert(p, t);
        assert(transforms_model(out@) =~= om.take(p as int).push(t@) + om.skip(p as int));
        i = i + 1;
    }
    assert(tm.take(i as int) =~= tm);
    out
}


/// The label of a game object at depth `indent`.
pub fn make_label(name: &str, indent: usize) -> (r: String)
    ensures
        r@ == label(name@, indent as nat),
{
    if indent == 0 {
        return name.to_string();
    }
    let mut out = String::new();
    let mut k: usize = 0;
    proof {
        reveal_strlit(" ");
    }
    while k < indent - 1
        invariant
            k <= indent - 1,
            " "@ == seq![' '],
            out@ == Seq::new(k as nat, |i: int| ' '),
        decreases indent - 1 - k,
    {
        out.append(" ");
        assert(out@ =~= Seq::new((k + 1) as nat, |i: int| ' '));
        k = k + 1;
    }
    out.append("\u{2514}");
    out.append(name);
    out
}

/// Resolves the children of a transform.
fn resolve_children<'a>(repo: &'a Repository, t: &Transform) -> (r: Option<Vec<&'a Transform>>)
    requires
        repo.wf(),
    ensures
        match resolve_transforms(repo.contents(), t@.children_ids) {
            Some(ts) => r matches Some(v) && transforms_model(v@) == ts,
            None => r is None,
        },
{
    let ids = t.get_children_ids();
    let ghost im = t@.children_ids;
    let mut out: Vec<&'a Transform> = Vec::new();
    let mut i: usize = 0;
    while i < ids.len()
        invariant
            repo.wf(),
            im == crate::object::ids_model(ids@),
            im == t@.children_ids,
            i <= ids@.len(),
            resolve_transforms(repo.contents(), im.take(i as int)) == Some(
                transforms_model(out@),
            ),
        decreases ids@.len() - i,
    {
        assert(im.take(i + 1int).drop_last() =~= im.take(i as int));
        assert(im.take(i + 1int).last() == ids@[i as int]@);
        match repo.get_transform(&ids[i]) {
            Some(child) => {
                let ghost before = out@;
                out.push(child);
                assert(transforms_model(out@) =~= transforms_model(before).push(child@));
            },
            None => {
                proof {
                    assert(resolve_transforms(repo.contents(), im.take(i + 1int)) is None);
                    lemma_resolve_prefix(repo.contents(), im, i as int + 1);
                }
                return None;
            },
        }
        i = i + 1;
    }
    assert(im.take(i as int) =~= im);
    Some(out)
}

proof fn lemma_resolve_prefix(c: Seq<(Seq<char>, ObjectModel)>, ids: Seq<Seq<char>>, k: int)
    requires
        0 <= k <= ids.len(),
        resolve_transforms(c, ids.take(k)) is None,
    ensures
        resolve_transforms(c, ids) is None,
    decreases ids.len() - k,
{
    if k < ids.len() {
        assert(ids.take(k + 1).drop_last() =~= ids.take(k));
        lemma_resolve_prefix(c, ids, k + 1);
    } else {
        assert(ids.take(k) =~= ids);
    }
}

proof fn lemma_kids_prefix(c: Seq<(Seq<char>, ObjectModel)>, kids: Seq<TransformModel>, indent: nat, fuel: nat, k: int)
    requires
        0 <= k <= kids.len(),
        kids_spec(c, kids.take(k), indent, fuel) is None,
    ensures
        kids_spec(c, kids, indent, fuel) is None,
    decreases kids.len() - k,
{
    if k < kids.len() {
        assert(kids.take(k + 1).drop_last() =~= kids.take(k));
        lemma_kids_prefix(c, kids, indent, fuel, k + 1);
    } else {
        assert(kids.take(k) =~= kids);
    }
}

/// The rows of the subtree of `game_object` (whose transform is `transform`) at depth
/// `indent`: the game object's label, then the subtrees of its children by root order.
/// `None` where a child or a child's game object does not resolve, or the tree is deeper
/// than `fuel` (which a cycle of parents makes it).
pub fn generate_game_object_named_list<'a>(
    game_object: &'a GameObject,
    transform: &Transform,
    indent: usize,
    repo: &'a Repository,
    fuel: usize,
) -> (r: Option<Vec<(String, &'a GameObject)>>)
    requires
        repo.wf(),
        indent + fuel < usize::MAX,
    ensures
        match named_list_spec(repo.contents(), game_object@, transform@, indent as nat, fuel as nat) {
            Some(rows) => r matches Some(v) && rows_model(v@) == rows,
            None => r is None,
        },
    decreases fuel,
{
    if fuel == 0 {
        return None;
    }
    let kids = resolve_children(repo, transform)?;
    let sorted = sort_transforms(kids);
    let ghost sm = transforms_model(sorted@);
    let mut out: Vec<(String, &'a GameObject)> = Vec::new();
    out.push((make_label(game_object.name.as_str(), indent), game_object));
    let ghost head = rows_model(out@);
    let mut i: usize = 0;
    assert(sm.take(0) =~= Seq::<TransformModel>::empty());
    assert(rows_model(out@) =~= head + Seq::<(Seq<char>, GameObjectModel)>::empty());
    while i < sorted.len()
        invariant
            repo.wf(),
            indent + fuel < usize::MAX,
            fuel > 0,
            sm == transforms_model(sorted@),
            i <= sorted@.len(),
            head == seq![(label(game_object@.name, indent as nat), game_object@)],
            named_list_spec(repo.contents(), game_object@, transform@, indent as nat, fuel as nat)
                == (match kids_spec(repo.contents(), sm, (indent + 1) as nat, (fuel - 1) as nat) {
                None => None,
                Some(rows) => Some(head + rows),
            }),
            kids_spec(repo.contents(), sm.take(i as int), (indent + 1) as nat, (fuel - 1) as nat) matches Some(rows)
                && rows_model(out@) == head + rows,
        decreases sorted@.len() - i,
    {
        assert(sm.take(i + 1int).drop_last() =~= sm.take(i as int));
        assert(sm.take(i + 1int).last() == sorted@[i as int]@);
        let child = sorted[i];
        let go = match repo.get_game_object(child.get_game_object_id()) {
            Some(g) => g,
            None => {
                proof {
                    assert(game_object_at(repo.contents(), sm[i as int].game_object_id) is None);
                    assert(kids_spec(repo.contents(), sm.take(i + 1int), (indent + 1) as nat, (fuel - 1) as nat) is None);
                    lemma_kids_prefix(repo.contents(), sm, (indent + 1) as nat, (fuel - 1) as nat, i as int + 1);
                }
                return None;
            },
        };
        assert(game_object_at(repo.contents(), sm[i as int].game_object_id) == Some(go@));
        match generate_game_object_named_list(go, child, indent + 1, repo, fuel - 1) {
            Some(mut more) => {
                let ghost before = rows_model(out@);
                let ghost mm = rows_model(more@);
                out.append(&mut more);
                assert(rows_model(out@) =~= before + mm);
            },
            None => {
                proof {
                    assert(kids_spec(repo.contents(), sm.take(i + 1int), (indent + 1) as nat, (fuel - 1) as nat) is None);
                    lemma_kids_prefix(repo.contents(), sm, (indent + 1) as nat, (fuel - 1) as nat, i as int + 1);
                }
                return None;
            },
        }
        i = i + 1;
    }
    assert(sm.take(i as int) =~= sm);
    Some(out)
}

/// The labels of the subtree of `game_object`, as [`generate_game_object_named_list`]
/// gives its rows.
pub fn generate_game_object_names(
    game_object: &GameObject,
    transform: &Transform,
    indent: usize,
    repo: &Repository,
    fuel: usize,
) -> (r: Option<Vec<String>>)
    requires
        repo.wf(),
        indent + fuel < usize::MAX,
    ensures
        match named_list_spec(repo.contents(), game_object@, transform@, indent as nat, fuel as nat) {
            Some(rows) => r matches Some(v) && v@.map_values(|s: String| s@) == rows.map_values(
                |p: (Seq<char>, GameObjectModel)| p.0,
            ),
            None => r is None,
        },
{
    let rows = generate_game_object_named_list(game_object, transform, indent, repo, fuel)?;
    let ghost rm = rows_model(rows@);
    let mut names: Vec<String> = Vec::new();
    let mut i: usize = 0;
    while i < rows.len()
        invariant
            rm == rows_model(rows@),
            i <= rows@.len(),
            names@.map_values(|s: String| s@) == rm.take(i as int).map_values(
                |p: (Seq<char>, GameObjectModel)| p.0,
            ),
        decreases rows@.len() - i,
    {
        let ghost before = names@;
        names.push(rows[i].0.clone());
        assert(rm[i as int].0 == rows@[i as int].0@);
        assert(rm.take(i + 1int).map_values(|p: (Seq<char>, GameObjectModel)| p.0) =~= rm.take(
            i as int,
        ).map_values(|p: (Seq<char>, GameObjectModel)| p.0).push(rm[i as int].0));
        assert(names@.map_values(|s: String| s@) =~= rm.take(i + 1int).map_values(
            |p: (Seq<char>, GameObjectModel)| p.0,
        ));
        i = i + 1;
    }
    assert(rm.take(i as int) =~= rm);
    Some(names)
}

/// The game objects of `ts`, each paired with its transform; `None` where one does not
/// resolve.
pub open spec fn roots_of(c: Seq<(Seq<char>, ObjectModel)>, ts: Seq<TransformModel>) -> Option<
    Seq<(GameObjectModel, TransformModel)>,
>
    decreases ts.len(),
{
    if ts.len() == 0 {
        Some(Seq::empty())
    } else {
        match (roots_of(c, ts.drop_last()), game_object_at(c, ts.last().game_object_id)) {
            (Some(rs), Some(g)) => Some(rs.push((g, ts.last()))),
            _ => None,
        }
    }
}

/// The top-level entries of the hierarchy: the transforms without a parent, by root
/// order, with their game objects.
pub open spec fn unparented_roots(c: Seq<(Seq<char>, ObjectModel)>) -> Option<
    Seq<(GameObjectModel, TransformModel)>,
> {
    roots_of(c, sort_by_root_order(unparented_spec(c)))
}

/// The rows of the subtrees of `roots`, in order.
pub open spec fn forest_spec(
    c: Seq<(Seq<char>, ObjectModel)>,
    roots: Seq<(GameObjectModel, TransformModel)>,
    fuel: nat,
) -> Option<Seq<(Seq<char>, GameObjectModel)>>
    decreases roots.len(),
{
    if roots.len() == 0 {
        Some(Seq::empty())
    } else {
        match (forest_spec(c, roots.drop_last(), fuel), named_list_spec(c, roots.last().0, roots.last().1, 0, fuel)) {
            (Some(a), Some(b)) => Some(a + b),
            _ => None,
        }
    }
}

/// The depth bound of a hierarchy of `n` objects.
pub open spec fn fuel_for(n: nat) -> nat {
    if n < usize::MAX {
        n
    } else {
        (n - 1) as nat
    }
}

pub open spec fn pairs_model(v: Seq<(&GameObject, &Transform)>) -> Seq<(GameObjectModel, TransformModel)> {
    v.map_values(|p: (&GameObject, &Transform)| (p.0@, p.1@))
}

proof fn lemma_roots_prefix(c: Seq<(Seq<char>, ObjectModel)>, ts: Seq<TransformModel>, k: int)
    requires
        0 <= k <= ts.len(),
        roots_of(c, ts.take(k)) is None,
    ensures
        roots_of(c, ts) is None,
    decreases ts.len() - k,
{
    if k < ts.len() {
        assert(ts.take(k + 1).drop_last() =~= ts.take(k));
        lemma_roots_prefix(c, ts, k + 1);
    } else {
        assert(ts.take(k) =~= ts);
    }
}

proof fn lemma_forest_prefix(c: Seq<(Seq<char>, ObjectModel)>, rs: Seq<(GameObjectModel, TransformModel)>, fuel: nat, k: int)
    requires
        0 <= k <= rs.len(),
        forest_spec(c, rs.take(k), fuel) is None,
    ensures
        forest_spec(c, rs, fuel) is None,
    decreases rs.len() - k,
{
    if k < rs.len() {
        assert(rs.take(k + 1).drop_last() =~= rs.take(k));
        lemma_forest_prefix(c, rs, fuel, k + 1);
    } else {
        assert(rs.take(k) =~= rs);
    }
}

/// The transforms without a parent, by root order, each with its game object; `None`
/// where one of those game objects does not resolve.
pub fn get_unparented(repo: &Repository) -> (r: Option<Vec<(&GameObject, &Transform)>>)
    requires
        repo.wf(),
    ensures
        match unparented_roots(repo.contents()) {
            Some(rs) => r matches Some(v) && pairs_model(v@) == rs,
            None => r is None,
        },
{
    let roots = repo.get_unparented_transforms();
    let ghost um = unparented_spec(repo.contents());
    assert(transforms_model(roots@) =~= um);
    let sorted = sort_transforms(roots);
    let ghost ts = transforms_model(sorted@);
    let mut out: Vec<(&GameObject, &Transform)> = Vec::new();
    let mut i: usize = 0;
    assert(ts.take(0) =~= Seq::<TransformModel>::empty());
    assert(pairs_model(out@) =~= Seq::<(GameObjectModel, TransformModel)>::empty());
    while i < sorted.len()
        invariant
            repo.wf(),
            ts == transforms_model(sorted@),
            ts == sort_by_root_order(um),
            um == unparented_spec(repo.contents()),
            i <= sorted@.len(),
            roots_of(repo.contents(), ts.take(i as int)) == Some(pairs_model(out@)),
        decreases sorted@.len() - i,
    {
        assert(ts.take(i + 1int).drop_last() =~= ts.take(i as int));
        let t = sorted[i];
        assert(t@ == ts[i as int]);
        assert(ts.take(i + 1int).last() == t@);
        match repo.get_game_object(t.get_game_object_id()) {
            Some(g) => {
                let ghost before = out@;
                out.push((g, t));
                assert(pairs_model(out@) =~= pairs_model(before).push((g@, t@)));
            },
            None => {
                proof {
                    lemma_roots_prefix(repo.contents(), ts, i + 1);
                }
                return None;
            },
        }
        i = i + 1;
    }
    assert(ts.take(i as int) =~= ts);
    Some(out)
}

/// The rows of the whole hierarchy: the subtrees of the transforms without a parent, by
/// root order. Depth is bounded by the count of objects, so a cycle of parents gives
/// `None` rather than endless recursion.
pub fn hierarchy_rows(repo: &Repository) -> (r: Option<Vec<(String, &GameObject)>>)
    requires
        repo.wf(),
    ensures
        match unparented_roots(repo.contents()) {
            None => r is None,
            Some(rs) => match forest_spec(repo.contents(), rs, fuel_for(repo.contents().len())) {
                Some(rows) => r matches Some(v) && rows_model(v@) == rows,
                None => r is None,
            },
        },
{
    let roots = get_unparented(repo)?;
    let ghost rs = pairs_model(roots@);
    let n = repo.len();
    let fuel = if n < usize::MAX {
        n
    } else {
        n - 1
    };
    let mut out: Vec<(String, &GameObject)> = Vec::new();
    let mut i: usize = 0;
    assert(rs.take(0) =~= Seq::<(GameObjectModel, TransformModel)>::empty());
    assert(rows_model(out@) =~= Seq::<(Seq<char>, GameObjectModel)>::empty());
    while i < roots.len()
        invariant
            repo.wf(),
            rs == pairs_model(roots@),
            unparented_roots(repo.contents()) == Some(rs),
            i <= roots@.len(),
            fuel < usize::MAX,
            fuel == fuel_for(repo.contents().len()),
            forest_spec(repo.contents(), rs.take(i as int), fuel as nat) == Some(rows_model(out@)),
        decreases roots@.len() - i,
    {
        assert(rs.take(i + 1int).drop_last() =~= rs.take(i as int));
        let (g, t) = roots[i];
        assert(rs.take(i + 1int).last() == (g@, t@));
        match generate_game_object_named_list(g, t, 0, repo, fuel) {
            Some(mut rows) => {
                let ghost before = rows_model(out@);
                let ghost more = rows_model(rows@);
                out.append(&mut rows);
                assert(rows_model(out@) =~= before + more);
            },
            None => {
                proof {
                    assert(forest_spec(repo.contents(), rs.take(i + 1int), fuel as nat) is None);
                    lemma_forest_prefix(repo.contents(), rs, fuel as nat, i + 1);
                }
                return None;
            },
        }
        i = i + 1;
    }
    assert(rs.take(i as int) =~= rs);
    Some(out)
}

/// The components of a game object that the repository holds, in the order of its
/// component ids; ids of other or missing objects are skipped.
pub open spec fn components_spec(c: Seq<(Seq<char>, ObjectModel)>, ids: Seq<Seq<char>>) -> Seq<ComponentModel>
    decreases ids.len(),
{
    if ids.len() == 0 {
        Seq::empty()
    } else {
        let rest = components_spec(c, ids.drop_last());
        match find_obj(c, ids.last()) {
            Some(ObjectModel::Component(comp)) => rest.push(comp),
            _ => rest,
        }
    }
}

/// The components of `selected_game_object` that the repository holds.
pub fn get_game_object_components<'a>(repo: &'a Repository, selected_game_object: &GameObject) -> (r: Vec<&'a Component>)
    requires
        repo.wf(),
    ensures
        r@.map_values(|x: &Component| x@) == components_spec(repo.contents(), selected_game_object@.component_ids),
{
    let ids = &selected_game_object.component_ids;
    let ghost im = selected_game_object@.component_ids;
    let mut out: Vec<&'a Component> = Vec::new();
    let mut i: usize = 0;
    while i < ids.len()
        invariant
            repo.wf(),
            im == crate::object::ids_model(ids@),
            i <= ids@.len(),
            out@.map_values(|x: &Component| x@) == components_spec(repo.contents(), im.take(i as int)),
        decreases ids@.len() - i,
    {
        assert(im.take(i + 1int).drop_last() =~= im.take(i as int));
        assert(im.take(i + 1int).last() == ids@[i as int]@);
        let ghost before = out@;
        match repo.get_component(&ids[i]) {
            Some(comp) => {
                out.push(comp);
                assert(out@.map_values(|x: &Component| x@) =~= before.map_values(|x: &Component| x@).push(comp@));
            },
            None => {},
        }
        i = i + 1;
    }
    assert(im.take(i as int) =~= im);
    out
}


/// `u` is a child of `t`: one of `t`'s child ids names it.
pub open spec fn child_of(c: Seq<(Seq<char>, ObjectModel)>, t: TransformModel, u: TransformModel) -> bool {
    exists|i: int|
        0 <= i < t.children_ids.len() && #[trigger] find_obj(c, t.children_ids[i]) == Some(
            ObjectModel::Component(ComponentModel::Transform(u)),
        )
}

/// `u` lies `n` child links below `t`.
pub open spec fn reachable(c: Seq<(Seq<char>, ObjectModel)>, t: TransformModel, u: TransformModel, n: nat) -> bool
    decreases n,
{
    if n == 0 {
        u == t
    } else {
        exists|w: TransformModel| #[trigger] child_of(c, t, w) && reachable(c, w, u, (n - 1) as nat)
    }
}

proof fn lemma_insert_contains(s: Seq<TransformModel>, t: TransformModel, x: TransformModel)
    ensures
        insert_by_root_order(s, t).contains(x) <==> (s.contains(x) || x == t),
    decreases s.len(),
{
    if s.len() > 0 && s.last().root_order > t.root_order {
        let d = s.drop_last();
        lemma_insert_contains(d, t, x);
        let r = insert_by_root_order(d, t);
        if r.push(s.last()).contains(x) {
            let k = choose|k: int| 0 <= k < r.push(s.last()).len() && r.push(s.last())[k] == x;
            if k < r.len() {
                assert(r.contains(x));
                if d.contains(x) {
                    let j = choose|j: int| 0 <= j < d.len() && d[j] == x;
                    assert(s[j] == x);
                }
            } else {
                assert(s[s.len() - 1] == x);
            }
        }
        if s.contains(x) {
            let j = choose|j: int| 0 <= j < s.len() && s[j] == x;
            if j < s.len() - 1 {
                assert(d[j] == x);
                assert(r.contains(x));
                let k = choose|k: int| 0 <= k < r.len() && r[k] == x;
                assert(r.push(s.last())[k] == x);
            } else {
                assert(r.push(s.last())[r.len() as int] == x);
            }
        }
        if x == t {
            assert(r.contains(x));
            let k = choose|k: int| 0 <= k < r.len() && r[k] == x;
            assert(r.push(s.last())[k] == x);
        }
    } else {
        if s.push(t).contains(x) {
            let k = choose|k: int| 0 <= k < s.push(t).len() && s.push(t)[k] == x;
            if k < s.len() {
                assert(s[k] == x);
            }
        }
        if s.contains(x) {
            let j = choose|j: int| 0 <= j < s.len() && s[j] == x;
            assert(s.push(t)[j] == x);
        }
        if x == t {
            assert(s.push(t)[s.len() as int] == x);
        }
    }
}

proof fn lemma_sort_contains(s: Seq<TransformModel>, x: TransformModel)
    ensures
        sort_by_root_order(s).contains(x) <==> s.contains(x),
    decreases s.len(),
{
    if s.len() > 0 {
        let d = s.drop_last();
        lemma_sort_contains(d, x);
        lemma_insert_contains(sort_by_root_order(d), s.last(), x);
        if s.contains(x) {
            let j = choose|j: int| 0 <= j < s.len() && s[j] == x;
            if j < s.len() - 1 {
                assert(d[j] == x);
            }
        }
        if d.contains(x) {
            let j = choose|j: int| 0 <= j < d.len() && d[j] == x;
            assert(s[j] == x);
        }
    }
}

proof fn lemma_resolve_index(c: Seq<(Seq<char>, ObjectModel)>, ids: Seq<Seq<char>>, i: int)
    requires
        resolve_transforms(c, ids) is Some,
        0 <= i < ids.len(),
    ensures
        resolve_transforms(c, ids)->0.len() == ids.len(),
        find_obj(c, ids[i]) == Some(
            ObjectModel::Component(ComponentModel::Transform(resolve_transforms(c, ids)->0[i])),
        ),
    decreases ids.len(),
{
    let d = ids.drop_last();
    assert(resolve_transforms(c, d) is Some);
    let rd = resolve_transforms(c, d)->0;
    match find_obj(c, ids.last()) {
        Some(ObjectModel::Component(ComponentModel::Transform(t))) => {
            assert(resolve_transforms(c, ids)->0 == rd.push(t));
        },
        _ => {},
    }
    if d.len() > 0 {
        lemma_resolve_index(c, d, if i < d.len() { i } else { 0 });
    } else {
        assert(rd.len() == 0);
    }
    if i < ids.len() - 1 {
        assert(d[i] == ids[i]);
    }
}

proof fn lemma_kids_rows(
    c: Seq<(Seq<char>, ObjectModel)>,
    kids: Seq<TransformModel>,
    indent: nat,
    fuel: nat,
    k: int,
)
    requires
        kids_spec(c, kids, indent, fuel) is Some,
        0 <= k < kids.len(),
    ensures
        game_object_at(c, kids[k].game_object_id) is Some,
        named_list_spec(c, game_object_at(c, kids[k].game_object_id)->0, kids[k], indent, fuel) is Some,
        forall|j: int|
            0 <= j < named_list_spec(c, game_object_at(c, kids[k].game_object_id)->0, kids[k], indent, fuel)->0.len()
                ==> kids_spec(c, kids, indent, fuel)->0.contains(
                #[trigger] named_list_spec(c, game_object_at(c, kids[k].game_object_id)->0, kids[k], indent, fuel)->0[j],
            ),
    decreases kids.len(),
{
    let d = kids.drop_last();
    let rows = kids_spec(c, kids, indent, fuel)->0;
    let before = kids_spec(c, d, indent, fuel)->0;
    let g = game_object_at(c, kids.last().game_object_id)->0;
    let more = named_list_spec(c, g, kids.last(), indent, fuel)->0;
    assert(rows == before + more);
    if k < kids.len() - 1 {
        assert(d[k] == kids[k]);
        lemma_kids_rows(c, d, indent, fuel, k);
        let m = named_list_spec(c, game_object_at(c, kids[k].game_object_id)->0, kids[k], indent, fuel)->0;
        assert forall|j: int| 0 <= j < m.len() implies rows.contains(#[trigger] m[j]) by {
            assert(before.contains(m[j]));
            let q = choose|q: int| 0 <= q < before.len() && before[q] == m[j];
            assert(rows[q] == m[j]);
        }
    } else {
        assert forall|j: int| 0 <= j < more.len() implies rows.contains(#[trigger] more[j]) by {
            assert(rows[before.len() + j] == more[j]);
        }
    }
}

/// A traversal that succeeds lists every transform below its root: the game object of
/// each transform that lies some child links below the root transform is among the rows.
pub proof fn lemma_reachable_listed(
    c: Seq<(Seq<char>, ObjectModel)>,
    go: GameObjectModel,
    t: TransformModel,
    indent: nat,
    fuel: nat,
    u: TransformModel,
    n: nat,
)
    requires
        named_list_spec(c, go, t, indent, fuel) is Some,
        n >= 1,
        reachable(c, t, u, n),
    ensures
        game_object_at(c, u.game_object_id) is Some,
        exists|j: int|
            0 <= j < named_list_spec(c, go, t, indent, fuel)->0.len() && (#[trigger] named_list_spec(
                c,
                go,
                t,
                indent,
                fuel,
            )->0[j]).1 == game_object_at(c, u.game_object_id)->0,
    decreases n,
{
    let rows = named_list_spec(c, go, t, indent, fuel)->0;
    let kids = resolve_transforms(c, t.children_ids)->0;
    let sorted = sort_by_root_order(kids);
    let f1 = (fuel - 1) as nat;
    let w = choose|w: TransformModel| #[trigger] child_of(c, t, w) && reachable(c, w, u, (n - 1) as nat);
    let i = choose|i: int|
        0 <= i < t.children_ids.len() && #[trigger] find_obj(c, t.children_ids[i]) == Some(
            ObjectModel::Component(ComponentModel::Transform(w)),
        );
    lemma_resolve_index(c, t.children_ids, i);
    assert(kids[i] == w);
    assert(kids.contains(w));
    lemma_sort_contains(kids, w);
    let k = choose|k: int| 0 <= k < sorted.len() && sorted[k] == w;
    lemma_kids_rows(c, sorted, indent + 1, f1, k);
    let tail = kids_spec(c, sorted, indent + 1, f1)->0;
    assert(rows == seq![(label(go.name, indent), go)] + tail);
    let gw = game_object_at(c, w.game_object_id)->0;
    let more = named_list_spec(c, gw, w, indent + 1, f1)->0;
    if n == 1 {
        assert(u == w);
        assert(more[0].1 == gw);
        assert(tail.contains(more[0]));
        let q = choose|q: int| 0 <= q < tail.len() && tail[q] == more[0];
        assert(rows[q + 1] == tail[q]);
    } else {
        lemma_reachable_listed(c, gw, w, indent + 1, f1, u, (n - 1) as nat);
        let j = choose|j: int| 0 <= j < more.len() && (#[trigger] more[j]).1 == game_object_at(c, u.game_object_id)->0;
        assert(tail.contains(more[j]));
        let q = choose|q: int| 0 <= q < tail.len() && tail[q] == more[j];
        assert(rows[q + 1] == tail[q]);
    }
}

} // verus!
