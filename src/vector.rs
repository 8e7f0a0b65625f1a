use vstd::prelude::*;

verus! {

/// A numeric component as the file writes it: an integer, or a decimal number kept as
/// its text.
#[derive(Debug, Clone, PartialEq)]
pub enum Number {
    Int(i64),
    Real(String),
}

/// Mathematical model of a [`Number`].
pub enum NumberModel {
    Int(int),
    Real(Seq<char>),
}

impl View for Number {
    type V = NumberModel;

    open spec fn view(&self) -> NumberModel {
        match self {
            Number::Int(i) => NumberModel::Int(*i as int),
            Number::Real(s) => NumberModel::Real(s@),
        }
    }
}

#[derive(Debug, Clone, PartialEq)]
pub struct Vec2<T> {
    pub x: T,
    pub y: T,
}

#[derive(Debug, Clone, PartialEq)]
pub struct Vec3<T> {
    pub x: T,
    pub y: T,
    pub z: T,
}

/// Four components; a rotation is written as such a quaternion.
#[derive(Debug, Clone, PartialEq)]
pub struct Vector4 {
    pub x: Number,
    pub y: Number,
    pub z: Number,
    pub w: Number,
}

/// Mathematical model of a [`Vector4`].
pub struct Vector4Model {
    pub x: NumberModel,
    pub y: NumberModel,
    pub z: NumberModel,
    pub w: NumberModel,
}

impl<T: View> View for Vec2<T> {
    type V = Vec2<T::V>;

    open spec fn view(&self) -> Vec2<T::V> {
        Vec2 { x: self.x@, y: self.y@ }
    }
}

impl<T: View> View for Vec3<T> {
    type V = Vec3<T::V>;

    open spec fn view(&self) -> Vec3<T::V> {
        Vec3 { x: self.x@, y: self.y@, z: self.z@ }
    }
}

impl View for Vector4 {
    type V = Vector4Model;

    open spec fn view(&self) -> Vector4Model {
        Vector4Model { x: self.x@, y: self.y@, z: self.z@, w: self.w@ }
    }
}

pub type Quaternion = Vector4;

pub type Vector3 = Vec3<Number>;

pub type Vector2 = Vec2<Number>;

} // verus!
