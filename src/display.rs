use vstd::prelude::*;
use crate::number::{decimal_text, int_to_string};
use crate::object::{Component, ComponentModel, Field, FieldModel, Transform, TransformModel};
use crate::readable::{field_name_to_readable, readable};
use crate::vector::{Number, NumberModel, Vec2, Vec3, Vector4Model};

verus! {

/// A number as text: an integer in decimal, a decimal number as written.
pub open spec fn number_text(n: NumberModel) -> Seq<char> {
    match n {
        NumberModel::Int(i) => decimal_text(i),
        NumberModel::Real(s) => s,
    }
}

pub open spec fn vec2_text(v: Vec2<NumberModel>) -> Seq<char> {
    "x:"@ + number_text(v.x) + " y:"@ + number_text(v.y)
}

pub open spec fn vec3_text(v: Vec3<NumberModel>) -> Seq<char> {
    "x:"@ + number_text(v.x) + " y:"@ + number_text(v.y) + " z:"@ + number_text(v.z)
}

pub open spec fn vec4_text(v: Vector4Model) -> Seq<char> {
    "x:"@ + number_text(v.x) + " y:"@ + number_text(v.y) + " z:"@ + number_text(v.z) + " w:"@
        + number_text(v.w)
}

/// A field's value as text; a raw value is not shown.
pub open spec fn field_text(f: FieldModel) -> Seq<char> {
    match f {
        FieldModel::Vector2(v) => vec2_text(v),
        FieldModel::Vector3(v) => vec3_text(v),
        FieldModel::Vector4(v) => vec4_text(v),
        FieldModel::Float(s) => s,
        FieldModel::I64(i) => decimal_text(i),
        FieldModel::Str(s) => s,
        FieldModel::Bool(b) => if b {
            "true"@
        } else {
            "false"@
        },
        FieldModel::Raw(_) => "TEMPORARILY UNAVAILABLE"@,
    }
}

fn number_to_string(n: &Number) -> (r: String)
    ensures
        r@ == number_text(n@),
{
    match n {
        Number::Int(i) => int_to_string(*i),
        Number::Real(s) => s.clone(),
    }
}

fn push_number(out: &mut String, label: &str, n: &Number)
    ensures
        final(out)@ == old(out)@ + label@ + number_text(n@),
{
    out.append(label);
    let t = number_to_string(n);
    out.append(t.as_str());
}

/// A field's value as text.
pub fn field_to_string(field: &Field) -> (r: String)
    ensures
        r@ == field_text(field@),
{
    match field {
        Field::Vector2(v) => {
            let mut out = String::new();
            push_number(&mut out, "x:", &v.x);
            push_number(&mut out, " y:", &v.y);
            assert(out@ =~= field_text(field@));
            out
        },
        Field::Vector3(v) => {
            let mut out = String::new();
            push_number(&mut out, "x:", &v.x);
            push_number(&mut out, " y:", &v.y);
            push_number(&mut out, " z:", &v.z);
            assert(out@ =~= field_text(field@));
            out
        },
        Field::Vector4(v) => {
            let mut out = String::new();
            push_number(&mut out, "x:", &v.x);
            push_number(&mut out, " y:", &v.y);
            push_number(&mut out, " z:", &v.z);
            push_number(&mut out, " w:", &v.w);
            assert(out@ =~= field_text(field@));
            out
        },
        Field::Float(s) => s.clone(),
        Field::I64(i) => int_to_string(*i),
        Field::Str(s) => s.clone(),
        Field::Bool(b) => if *b {
            "true".to_string()
        } else {
            "false".to_string()
        },
        Field::Raw(_) => "TEMPORARILY UNAVAILABLE".to_string(),
    }
}

/// The rows that describe a transform.
pub open spec fn transform_lines(t: TransformModel) -> Seq<Seq<char>> {
    let common = seq![
        "Local Position: "@ + vec3_text(t.local_position),
        "Local Rotation: "@ + vec4_text(t.local_rotation),
        "Local Scale: "@ + vec3_text(t.local_scale),
    ];
    match t.rect {
        None => common,
        Some(r) => common + seq![
            "Pivot: "@ + vec2_text(r.pivot),
            "Anchor Min: "@ + vec2_text(r.anchor_min),
            "Anchor Max: "@ + vec2_text(r.anchor_max),
            "Size Delta: "@ + vec2_text(r.size_delta),
            "Anchored Position: "@ + vec2_text(r.anchored_position),
        ],
    }
}

/// The rows that describe a scripted behaviour's fields, in order.
pub open spec fn field_lines(fs: Seq<(Seq<char>, FieldModel)>) -> Seq<Seq<char>>
    decreases fs.len(),
{
    if fs.len() == 0 {
        Seq::empty()
    } else {
        field_lines(fs.drop_last()).push(
            readable(fs.last().0) + ": "@ + field_text(fs.last().1),
        )
    }
}

/// The rows that describe a component.
pub open spec fn component_lines(c: ComponentModel) -> Seq<Seq<char>> {
    match c {
        ComponentModel::MonoBehaviour(m) => seq![
            "Enabled: "@ + (if m.enabled {
                "true"@
            } else {
                "false"@
            }),
        ] + field_lines(m.fields),
        ComponentModel::Transform(t) => transform_lines(t),
    }
}

fn labelled(label: &str, text: String) -> (r: String)
    ensures
        r@ == label@ + text@,
{
    let mut out = label.to_string();
    out.append(text.as_str());
    out
}

fn vec2_string(v: &Vec2<Number>) -> (r: String)
    ensures
        r@ == vec2_text(v@),
{
    field_to_string(&Field::Vector2(Vec2 { x: clone_number(&v.x), y: clone_number(&v.y) }))
}

fn clone_number(n: &Number) -> (r: Number)
    ensures
        r@ == n@,
{
    match n {
        Number::Int(i) => Number::Int(*i),
        Number::Real(s) => Number::Real(s.clone()),
    }
}

fn vec3_string(v: &Vec3<Number>) -> (r: String)
    ensures
        r@ == vec3_text(v@),
{
    let mut out = String::new();
    push_number(&mut out, "x:", &v.x);
    push_number(&mut out, " y:", &v.y);
    push_number(&mut out, " z:", &v.z);
    assert(out@ =~= vec3_text(v@));
    out
}

fn vec4_string(v: &crate::vector::Vector4) -> (r: String)
    ensures
        r@ == vec4_text(v@),
{
    let mut out = String::new();
    push_number(&mut out, "x:", &v.x);
    push_number(&mut out, " y:", &v.y);
    push_number(&mut out, " z:", &v.z);
    push_number(&mut out, " w:", &v.w);
    assert(out@ =~= vec4_text(v@));
    out
}

/// The rows that describe a component: a scripted behaviour's enabled flag and its fields
/// under readable names, or a transform's position, rotation, scale and rect parts.
pub fn get_components_fields(selected_component: &Component) -> (r: Vec<String>)
    ensures
        r@.map_values(|s: String| s@) == component_lines(selected_component@),
{
    let mut out: Vec<String> = Vec::new();
    match selected_component {
        Component::MonoBehaviour(mono) => {
            let flag = if mono.enabled {
                "true".to_string()
            } else {
                "false".to_string()
            };
            out.push(labelled("Enabled: ", flag));
            let ghost fm = crate::object::fields_model(mono.fields@);
            let ghost first = out@.map_values(|s: String| s@);
            let mut i: usize = 0;
            assert(fm.take(0) =~= Seq::<(Seq<char>, FieldModel)>::empty());
            assert(first + field_lines(fm.take(0)) =~= first);
            while i < mono.fields.len()
                invariant
                    fm == crate::object::fields_model(mono.fields@),
                    i <= mono.fields@.len(),
                    out@.map_values(|s: String| s@) == first + field_lines(fm.take(i as int)),
                decreases mono.fields@.len() - i,
            {
                assert(fm.take(i + 1int).drop_last() =~= fm.take(i as int));
                assert(fm.take(i + 1int).last() == (mono.fields@[i as int].0@, mono.fields@[i as int].1@));
                let (name, field) = &mono.fields[i];
                let mut row = field_name_to_readable(name.as_str());
                row.append(": ");
                let t = field_to_string(field);
                row.append(t.as_str());
                let ghost before = out@;
                out.push(row);
                assert(out@.map_values(|s: String| s@) =~= before.map_values(|s: String| s@).push(row@));
                i = i + 1;
            }
            assert(fm.take(i as int) =~= fm);
        },
        Component::Transform(trans) => {
            match trans {
                Transform::Transform3D(t) => {
                    out.push(labelled("Local Position: ", vec3_string(&t.local_position)));
                    out.push(labelled("Local Rotation: ", vec4_string(&t.local_rotation)));
                    out.push(labelled("Local Scale: ", vec3_string(&t.local_scale)));
                },
                Transform::RectTransform(t) => {
                    out.push(labelled("Local Position: ", vec3_string(&t.local_position)));
                    out.push(labelled("Local Rotation: ", vec4_string(&t.local_rotation)));
                    out.push(labelled("Local Scale: ", vec3_string(&t.local_scale)));
                    out.push(labelled("Pivot: ", vec2_string(&t.pivot)));
                    out.push(labelled("Anchor Min: ", vec2_string(&t.anchor_min)));
                    out.push(labelled("Anchor Max: ", vec2_string(&t.anchor_max)));
                    out.push(labelled("Size Delta: ", vec2_string(&t.size_delta)));
                    out.push(labelled("Anchored Position: ", vec2_string(&t.anchored_position)));
                },
            }
            assert(out@.map_values(|s: String| s@) =~= component_lines(selected_component@));
        },
    }
    out
}

} // verus!
