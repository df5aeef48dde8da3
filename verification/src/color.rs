use vstd::prelude::*;

verus! {

/// The colour of one pixel as it is stored: red, green and blue bytes in the
/// sRGB encoding. Alpha is not part of a colour; it travels beside it.
#[derive(Clone, Copy, Debug, PartialEq, Eq)]
pub struct Rgb {
    pub red: u8,
    pub green: u8,
    pub blue: u8,
}

/// A colour in LAB: lightness `l` and the two chroma components `a` and `b`,
/// over whatever scalar type the caller's colour arithmetic works in.
#[derive(Debug, PartialEq)]
pub struct Lab<T> {
    pub l: T,
    pub a: T,
    pub b: T,
}

impl<T: Copy> Clone for Lab<T> {
    fn clone(&self) -> (copy: Self)
        ensures
            copy == *self,
    {
        Lab { l: self.l, a: self.a, b: self.b }
    }
}

impl<T: Copy> Copy for Lab<T> {

}

} // verus!
