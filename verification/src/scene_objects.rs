use vstd::prelude::*;

verus! {

/// The objects of a scene, in the order they were added.
pub struct SceneObjects<O> {
    pub objects: Vec<O>,
}

impl<O> SceneObjects<O> {
    pub fn new() -> (s: Self)
        ensures
            s.objects@ == Seq::<O>::empty(),
    {
        Self { objects: Vec::new() }
    }

    pub fn add_object(&mut self, object: O)
        ensures
            final(self).objects@ == old(self).objects@.push(object),
    {
        self.objects.push(object);
    }
}

} // verus!
