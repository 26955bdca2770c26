//! Names of the shader uniforms that describe lights.
use vstd::prelude::*;
use vstd::string::StringExecFns;
use crate::text::{decimal, push_decimal};

verus! {

/// A property of a point light that a shader reads.
#[derive(Debug, Clone, Copy, PartialEq, Eq, Structural)]
pub enum Prop {
    Position,
    Diffuse,
    Specular,
    Strength,
}

impl Prop {
    /// The name of the property as the shader spells it.
    pub open spec fn field(self) -> Seq<char> {
        match self {
            Prop::Position => "position"@,
            Prop::Diffuse => "diffuse"@,
            Prop::Specular => "specular"@,
            Prop::Strength => "strength"@,
        }
    }
}

/// The name of the uniform that holds the property `prop` of the point light
/// number `index`: `pointLights[index].prop`.
pub fn template_light(index: usize, prop: Prop) -> (name: String)
    ensures
        name@ == "pointLights["@ + decimal(index as nat) + "]."@ + prop.field(),
{
    let property = match prop {
        Prop::Position => "position",
        Prop::Diffuse => "diffuse",
        Prop::Specular => "specular",
        Prop::Strength => "strength",
    };
    let mut name = String::from_str("pointLights[");
    push_decimal(&mut name, index);
    name.append("].");
    name.append(property);
    name
}

/// A property of a directional light that a shader reads.
#[derive(Debug, Clone, Copy, PartialEq, Eq, Structural)]
pub enum DirLightProp {
    Direction,
    Diffuse,
    Specular,
}

impl DirLightProp {
    /// The name of the property as the shader spells it.
    pub open spec fn field(self) -> Seq<char> {
        match self {
            DirLightProp::Direction => "direction"@,
            DirLightProp::Diffuse => "diffuse"@,
            DirLightProp::Specular => "specular"@,
        }
    }
}

/// The name of the uniform that holds the property `prop` of the directional
/// light number `index`: `dirLights[index].prop`.
pub fn template_dir_light(index: usize, prop: DirLightProp) -> (name: String)
    ensures
        name@ == "dirLights["@ + decimal(index as nat) + "]."@ + prop.field(),
{
    let property = match prop {
        DirLightProp::Direction => "direction",
        DirLightProp::Diffuse => "diffuse",
        DirLightProp::Specular => "specular",
    };
    let mut name = String::from_str("dirLights[");
    push_decimal(&mut name, index);
    name.append("].");
    name.append(property);
    name
}

} // verus!
