//! Triangle soups from indexed meshes.

use vstd::prelude::*;
use crate::scalar::Scalar;
use crate::vector::Vec3;

verus! {

/// One triangle of an indexed mesh: the numbers of its three vertices,
/// counted from one.
#[derive(Clone, Copy, Debug, PartialEq, Eq, Structural)]
pub struct Face {
    pub a: usize,
    pub b: usize,
    pub c: usize,
}

/// Whether a vertex number names one of `count` vertices.
pub open spec fn names_vertex(index: usize, count: nat) -> bool {
    1 <= index <= count
}

/// Whether every vertex number of a face names one of `count` vertices.
pub open spec fn face_valid(face: Face, count: nat) -> bool {
    names_vertex(face.a, count) && names_vertex(face.b, count) && names_vertex(face.c, count)
}

/// Whether every face of a list is valid.
pub open spec fn faces_valid(faces: Seq<Face>, count: nat) -> bool {
    forall|i: int| 0 <= i < faces.len() ==> face_valid(#[trigger] faces[i], count)
}

/// The vertex number at a corner of a face: corner zero, one or two.
pub open spec fn corner(face: Face, k: int) -> usize {
    if k == 0 {
        face.a
    } else if k == 1 {
        face.b
    } else {
        face.c
    }
}

/// A coordinate of a vector: zero for `x`, one for `y`, else `z`.
pub open spec fn coordinate(v: Vec3, k: int) -> Scalar {
    if k == 0 {
        v.x
    } else if k == 1 {
        v.y
    } else {
        v.z
    }
}

/// The soup of a mesh: for every face in order its three vertices, and for
/// every vertex its three coordinates.
pub open spec fn soup_of(vertices: Seq<Vec3>, faces: Seq<Face>) -> Seq<Scalar> {
    Seq::new(
        9 * faces.len(),
        |k: int| coordinate(vertices[corner(faces[k / 9], (k % 9) / 3) - 1], k % 3),
    )
}

/// The soup of an indexed mesh; `None` if a face names a vertex that the
/// mesh does not have.
pub fn soup_from_faces(vertices: &[Vec3], faces: &[Face]) -> (r: Option<Vec<Scalar>>)
    ensures
        r matches Some(soup) ==> soup@ == soup_of(vertices@, faces@),
        r is Some <==> faces_valid(faces@, vertices@.len()),
{
    let count: usize = vertices.len();
    let n: usize = faces.len();
    let mut soup: Vec<Scalar> = Vec::new();
    let mut i: usize = 0;
    while i < n
        invariant
            i <= n,
            n == faces@.len(),
            count == vertices@.len(),
            faces_valid(faces@.take(i as int), count as nat),
            soup@ == soup_of(vertices@, faces@.take(i as int)),
        decreases n - i,
    {
        let face: Face = faces[i];
        if face.a < 1 || face.a > count || face.b < 1 || face.b > count || face.c < 1 || face.c
            > count {
            assert(!face_valid(faces@[i as int], count as nat));
            return None;
        }
        let a: Vec3 = vertices[face.a - 1];
        let b: Vec3 = vertices[face.b - 1];
        let c: Vec3 = vertices[face.c - 1];
        let ghost before = soup@;
        soup.push(a.x);
        soup.push(a.y);
        soup.push(a.z);
        soup.push(b.x);
        soup.push(b.y);
        soup.push(b.z);
        soup.push(c.x);
        soup.push(c.y);
        soup.push(c.z);
        proof {
            let done = faces@.take(i as int);
            let next = faces@.take(i as int + 1);
            assert forall|j: int| 0 <= j < next.len() implies face_valid(
                #[trigger] next[j],
                count as nat,
            ) by {
                if j < i {
                    assert(face_valid(done[j], count as nat));
                }
            }
            assert(soup@.len() == 9 * (i + 1));
            assert forall|k: int| 0 <= k < soup@.len() implies soup@[k] == soup_of(
                vertices@,
                next,
            )[k] by {
                if k < 9 * i {
                    assert(soup@[k] == before[k]);
                    assert(done[k / 9] == next[k / 9]);
                } else {
                    assert(k / 9 == i as int);
                    assert(next[i as int] == face);
                }
            }
            assert(soup@ =~= soup_of(vertices@, next));
        }
        i += 1;
    }
    proof {
        assert(faces@.take(n as int) =~= faces@);
    }
    Some(soup)
}

} // verus!
