use vstd::prelude::*;

verus! {

/// The triangle that a ray hit, from the face feature reported by the ray caster: a hit on
/// the back of triangle `t` of a mesh of `num_triangles` triangles is reported as face
/// `t + num_triangles`, which is mapped back to `t`.
pub fn front_face_index(face: usize, num_triangles: usize) -> (triangle: usize)
    ensures
        triangle == if face >= num_triangles {
            (face - num_triangles) as usize
        } else {
            face
        },
{
    let mut triangle_index = face;
    if triangle_index >= num_triangles {
        triangle_index -= num_triangles;
    }
    triangle_index
}

} // verus!
