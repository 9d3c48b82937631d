use vstd::prelude::*;

verus! {

/// One image pixel: four independent byte channels, red, green, blue, alpha.
#[derive(Clone, Copy, PartialEq, Eq, Structural, Debug)]
pub struct Pixel {
    pub r: u8,
    pub g: u8,
    pub b: u8,
    pub a: u8,
}

/// Colour channel `c` of a pixel, as a mathematical integer:
/// 0 is red, 1 is green, any other value is blue.
pub open spec fn chan(p: Pixel, c: int) -> int {
    if c == 0 {
        p.r as int
    } else if c == 1 {
        p.g as int
    } else {
        p.b as int
    }
}

/// The mathematical view of a grid held as a vector of row vectors.
pub open spec fn grid_view<T>(m: Vec<Vec<T>>) -> Seq<Seq<T>> {
    Seq::new(m@.len(), |i: int| m@[i]@)
}

/// Every row of the grid has the same length as the first one.
pub open spec fn rectangular<T>(m: Seq<Seq<T>>) -> bool {
    forall|i: int| 0 <= i < m.len() ==> #[trigger] m[i].len() == m[0].len()
}

/// Decide whether a grid is rectangular.
pub fn is_rectangular<T>(m: &Vec<Vec<T>>) -> (r: bool)
    ensures
        r == rectangular(grid_view(*m)),
{
    let mut i: usize = 0;
    while i < m.len()
        invariant
            i <= m@.len(),
            forall|t: int| 0 <= t < i ==> #[trigger] m@[t]@.len() == m@[0]@.len(),
        decreases m@.len() - i,
    {
        if m[i].len() != m[0].len() {
            assert(grid_view(*m)[i as int].len() != grid_view(*m)[0].len());
            return false;
        }
        i += 1;
    }
    assert forall|t: int| 0 <= t < grid_view(*m).len() implies #[trigger] grid_view(*m)[t].len()
        == grid_view(*m)[0].len() by {
        assert(grid_view(*m)[t] == m@[t]@);
    }
    true
}

} // verus!
