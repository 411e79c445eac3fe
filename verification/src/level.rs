use vstd::prelude::*;
use crate::text::str_eq;

verus! {

/// An object placed in a level: its kind, by name, and where it is.
pub struct Object<P> {
    pub kind: String,
    pub pos: P,
}

/// The kind of fart that touching an object of the given kind gives.
pub open spec fn fart_type_of(kind: Seq<char>) -> Option<Seq<char>> {
    if kind == "unicorn"@ {
        Some("rainbow"@)
    } else if kind == "hot-pepper"@ {
        Some("fire"@)
    } else if kind == "guitar"@ {
        Some("melody"@)
    } else {
        None
    }
}

impl<P> Object<P> {
    /// The kind of fart that touching this object gives, if any.
    pub fn fart_type(&self) -> (r: Option<&'static str>)
        ensures
            r matches Some(t) ==> fart_type_of(self.kind@) == Some(t@),
            r is None <==> fart_type_of(self.kind@) is None,
    {
        let name = self.kind.as_str();
        if str_eq(name, "unicorn") {
            Some("rainbow")
        } else if str_eq(name, "hot-pepper") {
            Some("fire")
        } else if str_eq(name, "guitar") {
            Some("melody")
        } else {
            None
        }
    }
}

/// How many times a tile texture is drawn when its parameters do not say.
pub fn default_draw_times() -> (n: usize)
    ensures
        n == 1,
{
    1
}

/// How many sound effects a fart kind has when its configuration does not say.
pub fn one() -> (n: usize)
    ensures
        n == 1,
{
    1
}

/// Whether long farts make sound, and farticles spin at random, when a fart
/// configuration does not say.
pub fn create_true() -> (b: bool)
    ensures
        b,
{
    true
}

} // verus!
