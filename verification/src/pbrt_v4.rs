//! The state that the reader of the textual scene format keeps between its
//! directives: the current transformation, material and area light, each
//! with the stack of those that `AttributeBegin` has put aside.
//!
//! The state is generic in the transformation `T`: it stores and hands out
//! transformations, it does not compute with them.

use vstd::prelude::*;
use crate::tags::is_word;

verus! {

/// The words that start a directive.
pub open spec fn directive_words() -> Seq<Seq<char>> {
    seq![
        "LookAt"@,
        "Camera"@,
        "Sampler"@,
        "Integrator"@,
        "Film"@,
        "PixelFilter"@,
        "WorldBegin"@,
        "AttributeBegin"@,
        "AttributeEnd"@,
        "LightSource"@,
        "AreaLightSource"@,
        "Texture"@,
        "Material"@,
        "MakeNamedMaterial"@,
        "NamedMaterial"@,
        "Include"@,
        "Accelerator"@,
        "Shape"@,
        "Scale"@,
        "Translate"@,
        "Rotate"@,
        "Identity"@,
        "Transform"@,
        "ConcatTransform"@,
    ]
}

/// Whether the word starts a directive.
pub fn is_directive_word(word: &str) -> (b: bool)
    ensures
        b == directive_words().contains(word@),
{
    let found = is_word(word, "LookAt") || is_word(word, "Camera") || is_word(word, "Sampler")
        || is_word(word, "Integrator") || is_word(word, "Film") || is_word(word, "PixelFilter")
        || is_word(word, "WorldBegin") || is_word(word, "AttributeBegin") || is_word(
        word,
        "AttributeEnd",
    ) || is_word(word, "LightSource") || is_word(word, "AreaLightSource") || is_word(
        word,
        "Texture",
    ) || is_word(word, "Material") || is_word(word, "MakeNamedMaterial") || is_word(
        word,
        "NamedMaterial",
    ) || is_word(word, "Include") || is_word(word, "Accelerator") || is_word(word, "Shape")
        || is_word(word, "Scale") || is_word(word, "Translate") || is_word(word, "Rotate")
        || is_word(word, "Identity") || is_word(word, "Transform") || is_word(
        word,
        "ConcatTransform",
    );
    proof {
        let words = directive_words();
        if found {
            let i = choose|i: int| 0 <= i < 24 && #[trigger] words[i] == word@;
            assert(words[i] == word@);
        } else {
            assert forall|i: int| 0 <= i < words.len() implies #[trigger] words[i] != word@ by {}
        }
    }
    found
}

/// The state of the reader.
pub struct ParseState<T> {
    transformations: Vec<T>,
    materials: Vec<String>,
    area_lights: Vec<String>,
}

impl<T: Copy> ParseState<T> {
    /// The transformations, the current one last.
    pub closed spec fn transformations(&self) -> Seq<T> {
        self.transformations@
    }

    /// The names of the materials, the current one last.
    pub closed spec fn materials(&self) -> Seq<String> {
        self.materials@
    }

    /// The names of the area lights, the current one last.
    pub closed spec fn area_lights(&self) -> Seq<String> {
        self.area_lights@
    }

    /// A state with `identity` as its transformation and no material.
    pub fn new(identity: T) -> (state: Self)
        ensures
            state.transformations() == seq![identity],
            state.materials().len() == 0,
            state.area_lights().len() == 0,
    {
        let mut transformations = Vec::new();
        transformations.push(identity);
        Self { transformations, materials: Vec::new(), area_lights: Vec::new() }
    }

    /// Whether there is a current transformation.
    pub fn has_transformation(&self) -> (b: bool)
        ensures
            b == (self.transformations().len() > 0),
    {
        self.transformations.len() > 0
    }

    /// Whether there is a current material.
    pub fn has_material(&self) -> (b: bool)
        ensures
            b == (self.materials().len() > 0),
    {
        self.materials.len() > 0
    }

    /// Puts the current transformation and material aside, and the current
    /// area light if there is one; they stay current.
    pub fn push_state(&mut self)
        requires
            old(self).transformations().len() > 0,
            old(self).materials().len() > 0,
        ensures
            final(self).transformations() == old(self).transformations().push(
                old(self).transformations().last(),
            ),
            final(self).materials().len() == old(self).materials().len() + 1,
            final(self).materials().drop_last() == old(self).materials(),
            final(self).materials().last()@ == old(self).materials().last()@,
            old(self).area_lights().len() == 0 ==> final(self).area_lights().len() == 0,
            old(self).area_lights().len() > 0 ==> {
                &&& final(self).area_lights().len() == old(self).area_lights().len() + 1
                &&& final(self).area_lights().drop_last() == old(self).area_lights()
                &&& final(self).area_lights().last()@ == old(self).area_lights().last()@
            },
    {
        let transformation = self.transformations[self.transformations.len() - 1];
        self.transformations.push(transformation);
        let material = self.materials[self.materials.len() - 1].clone();
        self.materials.push(material);
        assert(self.materials@.drop_last() =~= old(self).materials());
        if self.area_lights.len() > 0 {
            let light = self.area_lights[self.area_lights.len() - 1].clone();
            self.area_lights.push(light);
            assert(self.area_lights@.drop_last() =~= old(self).area_lights());
        }
    }

    /// Takes back what was put aside last: the current transformation,
    /// material and area light are dropped.
    pub fn pop_state(&mut self)
        ensures
            final(self).transformations() == if old(self).transformations().len() > 0 {
                old(self).transformations().drop_last()
            } else {
                old(self).transformations()
            },
            final(self).materials() == if old(self).materials().len() > 0 {
                old(self).materials().drop_last()
            } else {
                old(self).materials()
            },
            final(self).area_lights() == if old(self).area_lights().len() > 0 {
                old(self).area_lights().drop_last()
            } else {
                old(self).area_lights()
            },
    {
        self.transformations.pop();
        self.materials.pop();
        self.area_lights.pop();
    }

    pub fn current_transformation(&self) -> (t: T)
        requires
            self.transformations().len() > 0,
        ensures
            t == self.transformations().last(),
    {
        self.transformations[self.transformations.len() - 1]
    }

    pub fn current_material(&self) -> (name: String)
        requires
            self.materials().len() > 0,
        ensures
            name@ == self.materials().last()@,
    {
        self.materials[self.materials.len() - 1].clone()
    }

    /// The area light that shapes take their material from, if there is one.
    pub fn current_area_light(&self) -> (name: Option<String>)
        ensures
            self.area_lights().len() == 0 ==> name.is_none(),
            self.area_lights().len() > 0 ==> name.is_some() && name.unwrap()@
                == self.area_lights().last()@,
    {
        if self.area_lights.len() > 0 {
            Some(self.area_lights[self.area_lights.len() - 1].clone())
        } else {
            None
        }
    }

    /// Replaces the current transformation; nothing happens where there is
    /// none.
    pub fn set_transformation(&mut self, transformation: T)
        ensures
            final(self).materials() == old(self).materials(),
            final(self).area_lights() == old(self).area_lights(),
            final(self).transformations() == if old(self).transformations().len() > 0 {
                old(self).transformations().drop_last().push(transformation)
            } else {
                old(self).transformations()
            },
    {
        let n = self.transformations.len();
        if n > 0 {
            self.transformations.set(n - 1, transformation);
            assert(self.transformations@ =~= old(self).transformations().drop_last().push(
                transformation,
            ));
        }
    }

    /// Replaces the current material, or makes `material` the first one.
    pub fn set_material(&mut self, material: String)
        ensures
            final(self).transformations() == old(self).transformations(),
            final(self).area_lights() == old(self).area_lights(),
            final(self).materials() == if old(self).materials().len() > 0 {
                old(self).materials().drop_last().push(material)
            } else {
                old(self).materials().push(material)
            },
    {
        let n = self.materials.len();
        if n == 0 {
            self.materials.push(material);
        } else {
            self.materials.set(n - 1, material);
            assert(self.materials@ =~= old(self).materials().drop_last().push(material));
        }
    }

    /// Replaces the current area light, or makes `material` the first one.
    pub fn set_area_light(&mut self, material: String)
        ensures
            final(self).transformations() == old(self).transformations(),
            final(self).materials() == old(self).materials(),
            final(self).area_lights() == if old(self).area_lights().len() > 0 {
                old(self).area_lights().drop_last().push(material)
            } else {
                old(self).area_lights().push(material)
            },
    {
        let n = self.area_lights.len();
        if n == 0 {
            self.area_lights.push(material);
        } else {
            self.area_lights.set(n - 1, material);
            assert(self.area_lights@ =~= old(self).area_lights().drop_last().push(material));
        }
    }

    /// Whether the word starts a directive.
    pub fn is_directive(&self, directive: &str) -> (b: bool)
        ensures
            b == directive_words().contains(directive@),
    {
        is_directive_word(directive)
    }
}

} // verus!
