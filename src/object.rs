use vstd::prelude::*;
use crate::value::{YamlValue, ValueModel};
use crate::vector::{NumberModel, Quaternion, Vec2, Vec3, Vector2, Vector3, Vector4, Vector4Model};

verus! {

/// A game object: a named node that holds components.
#[derive(Debug, Clone, PartialEq)]
pub struct GameObject {
    pub id: String,
    pub name: String,
    pub component_ids: Vec<String>,
    pub active: bool,
    pub layer: u8,
    pub tag: String,
    pub transform_id: String,
}

/// A user field of a scripted behaviour.
#[derive(Debug, PartialEq)]
pub enum Field {
    Vector2(Vector2),
    Vector3(Vector3),
    Vector4(Vector4),
    /// A decimal number, kept as written.
    Float(String),
    I64(i64),
    Str(String),
    Bool(bool),
    /// A value of no recognised shape.
    Raw(YamlValue),
}

/// A scripted behaviour component and its user fields (keys unique).
#[derive(Debug, PartialEq)]
pub struct MonoBehaviour {
    pub id: String,
    pub enabled: bool,
    pub fields: Vec<(String, Field)>,
    pub game_object_id: String,
}

#[derive(Debug, Clone, PartialEq)]
pub struct Transform3D {
    pub id: String,
    pub local_rotation: Quaternion,
    pub local_position: Vector3,
    pub local_scale: Vector3,
    pub root_order: i64,
    pub father_id: String,
    pub children_ids: Vec<String>,
    pub game_object_id: String,
}

#[derive(Debug, Clone, PartialEq)]
pub struct RectTransform {
    pub id: String,
    pub local_rotation: Quaternion,
    pub local_position: Vector3,
    pub local_scale: Vector3,
    pub anchor_min: Vector2,
    pub anchor_max: Vector2,
    pub anchored_position: Vector2,
    pub size_delta: Vector2,
    pub pivot: Vector2,
    pub root_order: i64,
    pub father_id: String,
    pub children_ids: Vec<String>,
    pub game_object_id: String,
}

#[derive(Debug, Clone, PartialEq)]
pub enum Transform {
    Transform3D(Transform3D),
    RectTransform(RectTransform),
}

#[derive(Debug, PartialEq)]
pub enum Component {
    MonoBehaviour(MonoBehaviour),
    Transform(Transform),
}

#[derive(Debug, PartialEq)]
pub enum Object {
    GameObject(GameObject),
    Component(Component),
}

pub struct GameObjectModel {
    pub id: Seq<char>,
    pub name: Seq<char>,
    pub component_ids: Seq<Seq<char>>,
    pub active: bool,
    pub layer: u8,
    pub tag: Seq<char>,
    pub transform_id: Seq<char>,
}

pub enum FieldModel {
    Vector2(Vec2<NumberModel>),
    Vector3(Vec3<NumberModel>),
    Vector4(Vector4Model),
    Float(Seq<char>),
    I64(int),
    Str(Seq<char>),
    Bool(bool),
    Raw(ValueModel),
}

pub struct MonoModel {
    pub id: Seq<char>,
    pub enabled: bool,
    pub fields: Seq<(Seq<char>, FieldModel)>,
    pub game_object_id: Seq<char>,
}

/// The parts that only a rect transform has.
pub struct RectModel {
    pub anchor_min: Vec2<NumberModel>,
    pub anchor_max: Vec2<NumberModel>,
    pub anchored_position: Vec2<NumberModel>,
    pub size_delta: Vec2<NumberModel>,
    pub pivot: Vec2<NumberModel>,
}

/// A transform of either kind; `rect` holds the rect transform's own parts.
pub struct TransformModel {
    pub id: Seq<char>,
    pub local_rotation: Vector4Model,
    pub local_position: Vec3<NumberModel>,
    pub local_scale: Vec3<NumberModel>,
    pub root_order: int,
    pub father_id: Seq<char>,
    pub children_ids: Seq<Seq<char>>,
    pub game_object_id: Seq<char>,
    pub rect: Option<RectModel>,
}

pub enum ComponentModel {
    MonoBehaviour(MonoModel),
    Transform(TransformModel),
}

pub enum ObjectModel {
    GameObject(GameObjectModel),
    Component(ComponentModel),
}

pub open spec fn ids_model(v: Seq<String>) -> Seq<Seq<char>> {
    v.map_values(|s: String| s@)
}

impl View for GameObject {
    type V = GameObjectModel;

    open spec fn view(&self) -> GameObjectModel {
        GameObjectModel {
            id: self.id@,
            name: self.name@,
            component_ids: ids_model(self.component_ids@),
            active: self.active,
            layer: self.layer,
            tag: self.tag@,
            transform_id: self.transform_id@,
        }
    }
}

impl View for Field {
    type V = FieldModel;

    open spec fn view(&self) -> FieldModel {
        match self {
            Field::Vector2(v) => FieldModel::Vector2(v@),
            Field::Vector3(v) => FieldModel::Vector3(v@),
            Field::Vector4(v) => FieldModel::Vector4(v@),
            Field::Float(s) => FieldModel::Float(s@),
            Field::I64(i) => FieldModel::I64(*i as int),
            Field::Str(s) => FieldModel::Str(s@),
            Field::Bool(b) => FieldModel::Bool(*b),
            Field::Raw(v) => FieldModel::Raw(v@),
        }
    }
}

pub open spec fn fields_model(v: Seq<(String, Field)>) -> Seq<(Seq<char>, FieldModel)> {
    v.map_values(|p: (String, Field)| (p.0@, p.1@))
}

impl View for MonoBehaviour {
    type V = MonoModel;

    open spec fn view(&self) -> MonoModel {
        MonoModel {
            id: self.id@,
            enabled: self.enabled,
            fields: fields_model(self.fields@),
            game_object_id: self.game_object_id@,
        }
    }
}

impl View for Transform {
    type V = TransformModel;

    open spec fn view(&self) -> TransformModel {
        match self {
            Transform::Transform3D(t) => TransformModel {
                id: t.id@,
                local_rotation: t.local_rotation@,
                local_position: t.local_position@,
                local_scale: t.local_scale@,
                root_order: t.root_order as int,
                father_id: t.father_id@,
                children_ids: ids_model(t.children_ids@),
                game_object_id: t.game_object_id@,
                rect: None,
            },
            Transform::RectTransform(t) => TransformModel {
                id: t.id@,
                local_rotation: t.local_rotation@,
                local_position: t.local_position@,
                local_scale: t.local_scale@,
                root_order: t.root_order as int,
                father_id: t.father_id@,
                children_ids: ids_model(t.children_ids@),
                game_object_id: t.game_object_id@,
                rect: Some(
                    RectModel {
                        anchor_min: t.anchor_min@,
                        anchor_max: t.anchor_max@,
                        anchored_position: t.anchored_position@,
                        size_delta: t.size_delta@,
                        pivot: t.pivot@,
                    },
                ),
            },
        }
    }
}

impl View for Component {
    type V = ComponentModel;

    open spec fn view(&self) -> ComponentModel {
        match self {
            Component::MonoBehaviour(m) => ComponentModel::MonoBehaviour(m@),
            Component::Transform(t) => ComponentModel::Transform(t@),
        }
    }
}

impl View for Object {
    type V = ObjectModel;

    open spec fn view(&self) -> ObjectModel {
        match self {
            Object::GameObject(g) => ObjectModel::GameObject(g@),
            Object::Component(c) => ObjectModel::Component(c@),
        }
    }
}

impl ObjectModel {
    pub open spec fn id(self) -> Seq<char> {
        match self {
            ObjectModel::GameObject(g) => g.id,
            ObjectModel::Component(ComponentModel::MonoBehaviour(m)) => m.id,
            ObjectModel::Component(ComponentModel::Transform(t)) => t.id,
        }
    }
}

/// What has an id.
pub trait GetId {
    spec fn spec_id(&self) -> Seq<char>;

    fn get_id(&self) -> (r: &String)
        ensures
            r@ == self.spec_id(),
    ;
}

impl GetId for GameObject {
    open spec fn spec_id(&self) -> Seq<char> {
        self.id@
    }

    fn get_id(&self) -> (r: &String) {
        &self.id
    }
}

impl GetId for MonoBehaviour {
    open spec fn spec_id(&self) -> Seq<char> {
        self.id@
    }

    fn get_id(&self) -> (r: &String) {
        &self.id
    }
}

impl GetId for Transform3D {
    open spec fn spec_id(&self) -> Seq<char> {
        self.id@
    }

    fn get_id(&self) -> (r: &String) {
        &self.id
    }
}

impl GetId for RectTransform {
    open spec fn spec_id(&self) -> Seq<char> {
        self.id@
    }

    fn get_id(&self) -> (r: &String) {
        &self.id
    }
}

impl GetId for Transform {
    open spec fn spec_id(&self) -> Seq<char> {
        self@.id
    }

    fn get_id(&self) -> (r: &String) {
        match self {
            Transform::Transform3D(t) => &t.id,
            Transform::RectTransform(t) => &t.id,
        }
    }
}

impl GetId for Component {
    open spec fn spec_id(&self) -> Seq<char> {
        ObjectModel::Component(self@).id()
    }

    fn get_id(&self) -> (r: &String) {
        match self {
            Component::MonoBehaviour(m) => &m.id,
            Component::Transform(t) => t.get_id(),
        }
    }
}

impl GetId for Object {
    open spec fn spec_id(&self) -> Seq<char> {
        self@.id()
    }

    fn get_id(&self) -> (r: &String) {
        match self {
            Object::GameObject(g) => &g.id,
            Object::Component(c) => c.get_id(),
        }
    }
}

impl Transform {
    /// The component's display name.
    pub fn get_name(&self) -> (r: String)
        ensures
            r@ == (if self@.rect is Some {
                "RectTransform"@
            } else {
                "Transform"@
            }),
    {
        match self {
            Transform::Transform3D(_) => "Transform".to_string(),
            Transform::RectTransform(_) => "RectTransform".to_string(),
        }
    }

    pub fn get_children_ids(&self) -> (r: &Vec<String>)
        ensures
            ids_model(r@) == self@.children_ids,
    {
        match self {
            Transform::Transform3D(t) => &t.children_ids,
            Transform::RectTransform(t) => &t.children_ids,
        }
    }

    pub fn get_father_id(&self) -> (r: &String)
        ensures
            r@ == self@.father_id,
    {
        match self {
            Transform::Transform3D(t) => &t.father_id,
            Transform::RectTransform(t) => &t.father_id,
        }
    }

    pub fn get_game_object_id(&self) -> (r: &String)
        ensures
            r@ == self@.game_object_id,
    {
        match self {
            Transform::Transform3D(t) => &t.game_object_id,
            Transform::RectTransform(t) => &t.game_object_id,
        }
    }

    /// Whether the transform has a parent: its father id is not `0`.
    pub fn has_parent(&self) -> (r: bool)
        ensures
            r == (self@.father_id != seq!['0']),
    {
        let f = self.get_father_id().as_str();
        let root = f.unicode_len() == 1 && f.get_char(0) == '0';
        assert(root == (f@ == seq!['0'])) by {
            if f@ == seq!['0'] {
                assert(f@[0] == '0');
            }
            if root {
                assert(f@ =~= seq!['0']);
            }
        }
        !root
    }

    pub fn get_root_order(&self) -> (r: i64)
        ensures
            r as int == self@.root_order,
    {
        match self {
            Transform::Transform3D(t) => t.root_order,
            Transform::RectTransform(t) => t.root_order,
        }
    }

    /// Orders two transforms by their root order.
    pub fn partial_cmp_by_root_order(&self, other: &Transform) -> (r: core::cmp::Ordering)
        ensures
            r == (if self@.root_order < other@.root_order {
                core::cmp::Ordering::Less
            } else if self@.root_order == other@.root_order {
                core::cmp::Ordering::Equal
            } else {
                core::cmp::Ordering::Greater
            }),
    {
        let a = self.get_root_order();
        let b = other.get_root_order();
        if a < b {
            core::cmp::Ordering::Less
        } else if a == b {
            core::cmp::Ordering::Equal
        } else {
            core::cmp::Ordering::Greater
        }
    }
}

impl Component {
    /// The component's display name: a scripted behaviour's id, a transform's kind.
    pub fn get_name(&self) -> (r: String)
        ensures
            r@ == (match self@ {
                ComponentModel::MonoBehaviour(m) => m.id,
                ComponentModel::Transform(t) => if t.rect is Some {
                    "RectTransform"@
                } else {
                    "Transform"@
                },
            }),
    {
        match self {
            Component::MonoBehaviour(m) => m.id.clone(),
            Component::Transform(t) => t.get_name(),
        }
    }

    pub fn get_game_object_id(&self) -> (r: &String)
        ensures
            r@ == (match self@ {
                ComponentModel::MonoBehaviour(m) => m.game_object_id,
                ComponentModel::Transform(t) => t.game_object_id,
            }),
    {
        match self {
            Component::MonoBehaviour(m) => &m.game_object_id,
            Component::Transform(t) => t.get_game_object_id(),
        }
    }
}

} // verus!
