use vstd::prelude::*;

verus! {

/// The scene: the entity that shows the simulated cube.
pub struct World<E> {
    pub cube: E,
}

impl<E: Clone> World<E> {
    pub fn new(cube: E) -> (r: World<E>)
        ensures
            r.cube == cube,
    {
        World { cube }
    }

    /// The entities to draw: a copy of the cube's.
    pub fn entities(&self) -> (r: Vec<E>)
        ensures
            r@.len() == 1,
            cloned(self.cube, r@[0]),
    {
        let mut r: Vec<E> = Vec::new();
        r.push(self.cube.clone());
        r
    }
}

} // verus!
