use vstd::prelude::*;
use crate::object::{
    Component, ComponentModel, Field, FieldModel, GameObject, GameObjectModel, MonoBehaviour,
    MonoModel, Object, ObjectModel, RectModel, RectTransform, Transform, Transform3D,
    TransformModel, fields_model, ids_model,
};
use crate::query::{
    as_int, as_items, as_map, as_text, clone_value, file_id_of, find_ref_id, find_value,
    ids_of_items, item_ids, lookup, obj_to_vec2, obj_to_vec3, obj_to_vec4, ref_id, str_eq, vec2_of,
    vec3_of, vec4_of, value_int, value_items, value_map, value_text, file_id_text,
};
use crate::vector::{Number, NumberModel, Vec3, Vector4, Vector4Model};
use crate::value::{DocModel, YamlEntry, EntryModel, UnityObject, YamlValue, ValueModel, entries_model,
    lemma_entries_model_index, lemma_entries_model_len};

verus! {

/// The type names of the class tags that the library models.
pub open spec fn class_name(class_id: int) -> Option<Seq<char>> {
    if class_id == 1 {
        Some("GameObject"@)
    } else if class_id == 4 {
        Some("Transform"@)
    } else if class_id == 114 {
        Some("MonoBehaviour"@)
    } else if class_id == 224 {
        Some("RectTransform"@)
    } else {
        None
    }
}

/// Looks up the type name of a class tag.
pub fn class_name_of(class_id: i64) -> (r: Option<&'static str>)
    ensures
        match class_name(class_id as int) {
            Some(n) => r matches Some(x) && x@ == n,
            None => r is None,
        },
{
    if class_id == 1 {
        Some("GameObject")
    } else if class_id == 4 {
        Some("Transform")
    } else if class_id == 114 {
        Some("MonoBehaviour")
    } else if class_id == 224 {
        Some("RectTransform")
    } else {
        None
    }
}

pub open spec fn text_at(es: Seq<EntryModel>, key: Seq<char>) -> Option<Seq<char>> {
    match lookup(es, key) {
        Some(v) => as_text(v),
        None => None,
    }
}

pub open spec fn int_at(es: Seq<EntryModel>, key: Seq<char>) -> Option<int> {
    match lookup(es, key) {
        Some(v) => as_int(v),
        None => None,
    }
}

pub open spec fn map_at(es: Seq<EntryModel>, key: Seq<char>) -> Option<Seq<EntryModel>> {
    match lookup(es, key) {
        Some(v) => as_map(v),
        None => None,
    }
}

/// The reference ids of the sequence under `key`.
pub open spec fn ids_at(es: Seq<EntryModel>, key: Seq<char>, nested: bool) -> Option<Seq<Seq<char>>> {
    match lookup(es, key) {
        Some(v) => match as_items(v) {
            Some(gs) => ids_of_items(gs, nested),
            None => None,
        },
        None => None,
    }
}

/// A layer number kept to its low eight bits.
pub open spec fn layer_of(i: int) -> u8 {
    (i % 256) as u8
}

/// The game object that a document describes, where it has a text `m_Name` and
/// `m_TagString`, integer `m_IsActive` and `m_Layer`, and component references under
/// `m_Component`.
pub open spec fn game_object_spec(doc: DocModel) -> Option<GameObjectModel> {
    let es = doc.entries;
    match (
        text_at(es, "m_Name"@),
        int_at(es, "m_IsActive"@),
        int_at(es, "m_Layer"@),
        text_at(es, "m_TagString"@),
        ids_at(es, "m_Component"@, true),
    ) {
        (Some(name), Some(active), Some(layer), Some(tag), Some(component_ids)) => Some(
            GameObjectModel {
                id: doc.id,
                name,
                component_ids,
                active: active > 0,
                layer: layer_of(layer),
                tag,
                transform_id: Seq::empty(),
            },
        ),
        _ => None,
    }
}

pub open spec fn vec2_at(es: Seq<EntryModel>, key: Seq<char>) -> Option<crate::vector::Vec2<crate::vector::NumberModel>> {
    match map_at(es, key) {
        Some(m) => vec2_of(m),
        None => None,
    }
}

/// The parts of a rect transform that a plain transform lacks.
pub open spec fn rect_spec(es: Seq<EntryModel>) -> Option<RectModel> {
    match (
        vec2_at(es, "m_AnchorMin"@),
        vec2_at(es, "m_AnchorMax"@),
        vec2_at(es, "m_AnchoredPosition"@),
        vec2_at(es, "m_SizeDelta"@),
        vec2_at(es, "m_Pivot"@),
    ) {
        (Some(anchor_min), Some(anchor_max), Some(anchored_position), Some(size_delta), Some(pivot)) => Some(
            RectModel { anchor_min, anchor_max, anchored_position, size_delta, pivot },
        ),
        _ => None,
    }
}

/// The rotation a transform has where its document gives none: the identity quaternion.
pub open spec fn identity_rotation() -> Vector4Model {
    Vector4Model {
        x: NumberModel::Int(0),
        y: NumberModel::Int(0),
        z: NumberModel::Int(0),
        w: NumberModel::Int(1),
    }
}

/// Three equal integer components.
pub open spec fn uniform3(n: int) -> Vec3<NumberModel> {
    Vec3 { x: NumberModel::Int(n), y: NumberModel::Int(n), z: NumberModel::Int(n) }
}

/// The four components under `key`, or `default` where the key is absent and not
/// `required`; `None` where it is absent and required, or holds no mapping of four numbers.
pub open spec fn vec4_or(
    es: Seq<EntryModel>,
    key: Seq<char>,
    default: Vector4Model,
    required: bool,
) -> Option<Vector4Model> {
    match lookup(es, key) {
        None => if required {
            None
        } else {
            Some(default)
        },
        Some(v) => match as_map(v) {
            Some(m) => vec4_of(m),
            None => None,
        },
    }
}

/// The three components under `key`, or `default` where the key is absent and not
/// `required`; `None` where it is absent and required, or holds no mapping of three numbers.
pub open spec fn vec3_or(
    es: Seq<EntryModel>,
    key: Seq<char>,
    default: Vec3<NumberModel>,
    required: bool,
) -> Option<Vec3<NumberModel>> {
    match lookup(es, key) {
        None => if required {
            None
        } else {
            Some(default)
        },
        Some(v) => match as_map(v) {
            Some(m) => vec3_of(m),
            None => None,
        },
    }
}

/// The transform that a document describes (a rect transform where `rect`). In a plain
/// transform a missing local rotation, position or scale takes the identity rotation, the
/// origin and unit scale; a rect transform needs all three, and both kinds need the other
/// keys.
pub open spec fn transform_spec(doc: DocModel, rect: bool) -> Option<TransformModel> {
    let es = doc.entries;
    let rot = vec4_or(es, "m_LocalRotation"@, identity_rotation(), rect);
    let pos = vec3_or(es, "m_LocalPosition"@, uniform3(0), rect);
    let scale = vec3_or(es, "m_LocalScale"@, uniform3(1), rect);
    let rect_part = if rect {
        match rect_spec(es) {
            Some(r) => Some(Some(r)),
            None => None,
        }
    } else {
        Some(None)
    };
    match (
        rot,
        pos,
        scale,
        rect_part,
        int_at(es, "m_RootOrder"@),
        ref_id(es, "m_GameObject"@),
        ref_id(es, "m_Father"@),
        ids_at(es, "m_Children"@, false),
    ) {
        (
            Some(local_rotation),
            Some(local_position),
            Some(local_scale),
            Some(rect),
            Some(root_order),
            Some(game_object_id),
            Some(father_id),
            Some(children_ids),
        ) => if i64::MIN <= root_order <= i64::MAX {
            Some(
                TransformModel {
                    id: doc.id,
                    local_rotation,
                    local_position,
                    local_scale,
                    root_order,
                    father_id,
                    children_ids,
                    game_object_id,
                    rect,
                },
            )
        } else {
            None
        },
        _ => None,
    }
}


/// How a user field of a scripted behaviour is read: a mapping with numeric `x`, `y`,
/// `z`, `w` (or fewer) is a vector, scalars keep their kind, and anything else is kept raw.
pub open spec fn field_of(v: ValueModel) -> FieldModel {
    match v {
        ValueModel::Int(i) => FieldModel::I64(i),
        ValueModel::Float(s) => FieldModel::Float(s),
        ValueModel::Str(s) => FieldModel::Str(s),
        ValueModel::Entries(es) | ValueModel::Object(es) => match vec4_of(es) {
            Some(q) => FieldModel::Vector4(q),
            None => match vec3_of(es) {
                Some(t) => FieldModel::Vector3(t),
                None => match vec2_of(es) {
                    Some(d) => FieldModel::Vector2(d),
                    None => FieldModel::Raw(v),
                },
            },
        },
        ValueModel::Array(_) => FieldModel::Raw(v),
    }
}

/// Index of the field named `k`.
pub open spec fn field_index(fs: Seq<(Seq<char>, FieldModel)>, k: Seq<char>) -> Option<nat>
    decreases fs.len(),
{
    if fs.len() == 0 {
        None
    } else if fs.last().0 == k {
        Some((fs.len() - 1) as nat)
    } else {
        field_index(fs.drop_last(), k)
    }
}

/// Sets field `k` to `f`: in place where it exists, else at the end.
pub open spec fn set_field(fs: Seq<(Seq<char>, FieldModel)>, k: Seq<char>, f: FieldModel) -> Seq<
    (Seq<char>, FieldModel),
> {
    match field_index(fs, k) {
        Some(i) => fs.update(i as int, (k, f)),
        None => fs.push((k, f)),
    }
}

/// The marker after which a scripted behaviour's entries are its user fields.
pub open spec fn last_common_field() -> Seq<char> {
    "m_EditorClassIdentifier"@
}

/// Reads a scripted behaviour's entries in order into `acc`; `past` tells whether the
/// marker of the user fields has been passed.
pub open spec fn mono_fold(es: Seq<EntryModel>, past: bool, acc: MonoModel) -> Option<MonoModel>
    decreases es.len(),
{
    if es.len() == 0 {
        Some(acc)
    } else {
        let e = es[0];
        let rest = es.drop_first();
        if e.key == "m_Enabled"@ {
            match as_int(e.value) {
                Some(i) => mono_fold(rest, past, MonoModel { enabled: i > 0, ..acc }),
                None => None,
            }
        } else if e.key == "m_GameObject"@ {
            let id = match as_map(e.value) {
                Some(m) => match lookup(m, seq!['f', 'i', 'l', 'e', 'I', 'D']) {
                    Some(f) => file_id_of(f),
                    None => None,
                },
                None => None,
            };
            match id {
                Some(id) => mono_fold(rest, past, MonoModel { game_object_id: id, ..acc }),
                None => None,
            }
        } else if e.key == last_common_field() {
            mono_fold(rest, true, acc)
        } else if past {
            mono_fold(
                rest,
                past,
                MonoModel { fields: set_field(acc.fields, e.key, field_of(e.value)), ..acc },
            )
        } else {
            mono_fold(rest, past, acc)
        }
    }
}

/// The scripted behaviour that a document describes.
pub open spec fn mono_spec(doc: DocModel) -> Option<MonoModel> {
    mono_fold(
        doc.entries,
        false,
        MonoModel { id: doc.id, enabled: false, fields: Seq::empty(), game_object_id: Seq::empty() },
    )
}

/// The object that a document describes: its class tag names one of the modeled types,
/// the document's type name is that name, and the type's builder succeeds.
pub open spec fn build_spec(doc: DocModel) -> Option<ObjectModel> {
    match class_name(doc.class_id) {
        None => None,
        Some(n) => if doc.kind_name != n {
            None
        } else if n == "GameObject"@ {
            match game_object_spec(doc) {
                Some(g) => Some(ObjectModel::GameObject(g)),
                None => None,
            }
        } else if n == "MonoBehaviour"@ {
            match mono_spec(doc) {
                Some(m) => Some(ObjectModel::Component(ComponentModel::MonoBehaviour(m))),
                None => None,
            }
        } else {
            match transform_spec(doc, n == "RectTransform"@) {
                Some(t) => Some(ObjectModel::Component(ComponentModel::Transform(t))),
                None => None,
            }
        },
    }
}

fn text_under(es: &Vec<YamlEntry>, key: &str) -> (r: Option<String>)
    ensures
        match text_at(entries_model(es@), key@) {
            Some(s) => r matches Some(x) && x@ == s,
            None => r is None,
        },
{
    value_text(find_value(es, key)?)
}

fn int_under(es: &Vec<YamlEntry>, key: &str) -> (r: Option<i64>)
    ensures
        match int_at(entries_model(es@), key@) {
            Some(i) => r matches Some(x) && x as int == i,
            None => r is None,
        },
{
    value_int(find_value(es, key)?)
}

fn map_under<'a>(es: &'a Vec<YamlEntry>, key: &str) -> (r: Option<&'a Vec<YamlEntry>>)
    ensures
        match map_at(entries_model(es@), key@) {
            Some(m) => r matches Some(x) && entries_model(x@) == m,
            None => r is None,
        },
{
    value_map(find_value(es, key)?)
}

fn ids_under(es: &Vec<YamlEntry>, key: &str, nested: bool) -> (r: Option<Vec<String>>)
    ensures
        match ids_at(entries_model(es@), key@, nested) {
            Some(ids) => r matches Some(x) && ids_model(x@) == ids,
            None => r is None,
        },
{
    let items = value_items(find_value(es, key)?)?;
    item_ids(&items, nested)
}

fn vec2_under(es: &Vec<YamlEntry>, key: &str) -> (r: Option<crate::vector::Vector2>)
    ensures
        match vec2_at(entries_model(es@), key@) {
            Some(m) => r matches Some(x) && x@ == m,
            None => r is None,
        },
{
    obj_to_vec2(map_under(es, key)?)
}

/// Builds a game object from its document.
pub fn game_object_from_yaml(doc: &UnityObject) -> (r: Option<GameObject>)
    ensures
        match game_object_spec(doc@) {
            Some(m) => r matches Some(g) && g@ == m,
            None => r is None,
        },
{
    let es = &doc.entries;
    let name = text_under(es, "m_Name")?;
    let active = int_under(es, "m_IsActive")?;
    let layer = int_under(es, "m_Layer")?;
    let tag = text_under(es, "m_TagString")?;
    let component_ids = ids_under(es, "m_Component", true)?;
    let low = layer % 256;
    let low = if low < 0 {
        low + 256
    } else {
        low
    };
    assert(low as u8 == layer_of(layer as int));
    Some(
        GameObject {
            id: doc.id.clone(),
            name,
            component_ids,
            active: active > 0,
            layer: low as u8,
            tag,
            transform_id: String::new(),
        },
    )
}

fn rect_parts(es: &Vec<YamlEntry>) -> (r: Option<
    (crate::vector::Vector2, crate::vector::Vector2, crate::vector::Vector2, crate::vector::Vector2, crate::vector::Vector2),
>)
    ensures
        match rect_spec(entries_model(es@)) {
            Some(m) => r matches Some(x) && m == (RectModel {
                anchor_min: x.0@,
                anchor_max: x.1@,
                anchored_position: x.2@,
                size_delta: x.3@,
                pivot: x.4@,
            }),
            None => r is None,
        },
{
    let a = vec2_under(es, "m_AnchorMin")?;
    let b = vec2_under(es, "m_AnchorMax")?;
    let c = vec2_under(es, "m_AnchoredPosition")?;
    let d = vec2_under(es, "m_SizeDelta")?;
    let e = vec2_under(es, "m_Pivot")?;
    Some((a, b, c, d, e))
}

fn vec4_under_or(es: &Vec<YamlEntry>, key: &str, default: Vector4, required: bool) -> (r: Option<
    Vector4,
>)
    ensures
        match vec4_or(entries_model(es@), key@, default@, required) {
            Some(m) => r matches Some(x) && x@ == m,
            None => r is None,
        },
{
    match find_value(es, key) {
        None => if required {
            None
        } else {
            Some(default)
        },
        Some(v) => obj_to_vec4(value_map(v)?),
    }
}

fn vec3_under_or(es: &Vec<YamlEntry>, key: &str, default: Vec3<Number>, required: bool) -> (r: Option<
    Vec3<Number>,
>)
    ensures
        match vec3_or(entries_model(es@), key@, default@, required) {
            Some(m) => r matches Some(x) && x@ == m,
            None => r is None,
        },
{
    match find_value(es, key) {
        None => if required {
            None
        } else {
            Some(default)
        },
        Some(v) => obj_to_vec3(value_map(v)?),
    }
}

/// Builds a transform from its document; a rect transform where `rect`.
pub fn transform_from_yaml(doc: &UnityObject, rect: bool) -> (r: Option<Transform>)
    ensures
        match transform_spec(doc@, rect) {
            Some(m) => r matches Some(t) && t@ == m,
            None => r is None,
        },
{
    let es = &doc.entries;
    let local_rotation = vec4_under_or(
        es,
        "m_LocalRotation",
        Vector4 { x: Number::Int(0), y: Number::Int(0), z: Number::Int(0), w: Number::Int(1) },
        rect,
    )?;
    let local_position = vec3_under_or(
        es,
        "m_LocalPosition",
        Vec3 { x: Number::Int(0), y: Number::Int(0), z: Number::Int(0) },
        rect,
    )?;
    let local_scale = vec3_under_or(
        es,
        "m_LocalScale",
        Vec3 { x: Number::Int(1), y: Number::Int(1), z: Number::Int(1) },
        rect,
    )?;
    let parts = if rect {
        Some(rect_parts(es)?)
    } else {
        None
    };
    let root_order = int_under(es, "m_RootOrder")?;
    let game_object_id = find_ref_id(es, "m_GameObject")?;
    let father_id = find_ref_id(es, "m_Father")?;
    let children_ids = ids_under(es, "m_Children", false)?;
    match parts {
        Some((anchor_min, anchor_max, anchored_position, size_delta, pivot)) => Some(
            Transform::RectTransform(
                RectTransform {
                    id: doc.id.clone(),
                    local_rotation,
                    local_position,
                    local_scale,
                    anchor_min,
                    anchor_max,
                    anchored_position,
                    size_delta,
                    pivot,
                    root_order,
                    father_id,
                    children_ids,
                    game_object_id,
                },
            ),
        ),
        None => Some(
            Transform::Transform3D(
                Transform3D {
                    id: doc.id.clone(),
                    local_rotation,
                    local_position,
                    local_scale,
                    root_order,
                    father_id,
                    children_ids,
                    game_object_id,
                },
            ),
        ),
    }
}


/// Reads a user field of a scripted behaviour.
pub fn field_from_value(v: &YamlValue) -> (r: Field)
    ensures
        r@ == field_of(v@),
{
    match v {
        YamlValue::Int(i) => Field::I64(*i),
        YamlValue::Float(s) => Field::Float(s.clone()),
        YamlValue::Str(s) => Field::Str(s.clone()),
        YamlValue::Entries(es) | YamlValue::Object(es) => {
            if let Some(q) = obj_to_vec4(es) {
                Field::Vector4(q)
            } else if let Some(t) = obj_to_vec3(es) {
                Field::Vector3(t)
            } else if let Some(d) = obj_to_vec2(es) {
                Field::Vector2(d)
            } else {
                Field::Raw(clone_value(v))
            }
        },
        YamlValue::Array(_) => Field::Raw(clone_value(v)),
    }
}

/// Sets field `k` to `f`: in place where a field of that name exists, else at the end.
pub fn set_field_exec(fields: &mut Vec<(String, Field)>, k: String, f: Field)
    ensures
        fields_model(final(fields)@) == set_field(fields_model(old(fields)@), k@, f@),
{
    let ghost fm = fields_model(fields@);
    let mut j = fields.len();
    assert(fm.take(j as int) =~= fm);
    while j > 0
        invariant
            fm == fields_model(fields@),
            fields@ == old(fields)@,
            fm.len() == fields@.len(),
            j <= fields@.len(),
            field_index(fm, k@) == field_index(fm.take(j as int), k@),
        decreases j,
    {
        assert(fm.take(j as int).drop_last() =~= fm.take(j - 1));
        assert(fm.take(j as int).last() == fm[j - 1]);
        assert(fm[j - 1] == (fields@[j - 1].0@, fields@[j - 1].1@));
        if str_eq(fields[j - 1].0.as_str(), k.as_str()) {
            assert(field_index(fm.take(j as int), k@) == Some((j - 1) as nat));
            fields[j - 1] = (k, f);
            assert(fields_model(fields@) =~= fm.update(j - 1, (k@, f@)));
            return;
        }
        j = j - 1;
    }
    let ghost kv = k@;
    let ghost fv = f@;
    fields.push((k, f));
    assert(fields_model(fields@) =~= fm.push((kv, fv)));
}

/// Builds a scripted behaviour from its document.
pub fn monobehaviour_from_yaml(doc: &UnityObject) -> (r: Option<MonoBehaviour>)
    ensures
        match mono_spec(doc@) {
            Some(m) => r matches Some(x) && x@ == m,
            None => r is None,
        },
{
    let es = &doc.entries;
    let ghost em = entries_model(es@);
    proof {
        lemma_entries_model_len(es@);
    }
    let mut comp = MonoBehaviour {
        id: doc.id.clone(),
        enabled: false,
        fields: Vec::new(),
        game_object_id: String::new(),
    };
    let mut past = false;
    let mut i: usize = 0;
    assert(em.skip(0) =~= em);
    assert(fields_model(comp.fields@) =~= Seq::<(Seq<char>, FieldModel)>::empty());
    proof {
        reveal_strlit("fileID");
        assert("fileID"@ =~= seq!['f', 'i', 'l', 'e', 'I', 'D']);
    }
    while i < es.len()
        invariant
            em == entries_model(es@),
            em.len() == es@.len(),
            i <= es@.len(),
            "fileID"@ == seq!['f', 'i', 'l', 'e', 'I', 'D'],
            mono_spec(doc@) == mono_fold(em.skip(i as int), past, comp@),
        decreases es@.len() - i,
    {
        proof {
            lemma_entries_model_index(es@, i as int);
            assert(em.skip(i as int)[0] == es@[i as int]@);
            assert(em.skip(i as int).drop_first() =~= em.skip(i + 1int));
        }
        let e = &es[i];
        let key = e.key.as_str();
        if str_eq(key, "m_Enabled") {
            let v = value_int(&e.value)?;
            comp.enabled = v > 0;
        } else if str_eq(key, "m_GameObject") {
            let m = value_map(&e.value)?;
            let fid = find_value(m, "fileID")?;
            comp.game_object_id = file_id_text(fid)?;
        } else if str_eq(key, "m_EditorClassIdentifier") {
            past = true;
        } else if past {
            let f = field_from_value(&e.value);
            set_field_exec(&mut comp.fields, e.key.clone(), f);
        }
        i = i + 1;
    }
    Some(comp)
}

/// Builds the object that a document describes; `None` for a class tag of no modeled
/// type, a type name that does not match it, or a document its builder rejects.
pub fn build_object(doc: &UnityObject) -> (r: Option<Object>)
    ensures
        match build_spec(doc@) {
            Some(m) => r matches Some(o) && o@ == m,
            None => r is None,
        },
{
    let name = class_name_of(doc.class_id)?;
    if !str_eq(doc.object_type_name.as_str(), name) {
        return None;
    }
    if str_eq(name, "GameObject") {
        Some(Object::GameObject(game_object_from_yaml(doc)?))
    } else if str_eq(name, "MonoBehaviour") {
        Some(Object::Component(Component::MonoBehaviour(monobehaviour_from_yaml(doc)?)))
    } else {
        let rect = str_eq(name, "RectTransform");
        Some(Object::Component(Component::Transform(transform_from_yaml(doc, rect)?)))
    }
}

} // verus!
