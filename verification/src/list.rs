//! Short lists of triangles, kept inline while they are short.

use vstd::prelude::*;
use smallvec::SmallVec;
use crate::vector::Vec3;

verus! {

/// An ordered triple of vertices. The order is the winding.
pub type Triangle = (Vec3, Vec3, Vec3);

/// Whether all three vertices are stored vectors.
pub open spec fn triangle_wf(t: Triangle) -> bool {
    t.0.wf() && t.1.wf() && t.2.wf()
}

/// A list of triangles in a `smallvec::SmallVec` with room for two inline.
#[verifier::external_body]
pub struct TriangleList {
    items: SmallVec<[Triangle; 2]>,
}

/// The triangles that a list holds, first to last.
pub uninterp spec fn triangles_of(list: TriangleList) -> Seq<Triangle>;

impl View for TriangleList {
    type V = Seq<Triangle>;

    open spec fn view(&self) -> Seq<Triangle> {
        triangles_of(*self)
    }
}

/// `SmallVec::new`: the new list holds nothing.
#[verifier::external_body]
fn list_new() -> (list: TriangleList)
    ensures
        triangles_of(list) == Seq::<Triangle>::empty(),
{
    TriangleList { items: SmallVec::new() }
}

/// `SmallVec::push`: the list afterwards is the list before with `t` at its end.
#[verifier::external_body]
fn list_push(list: &mut TriangleList, t: Triangle)
    ensures
        triangles_of(*final(list)) == triangles_of(*old(list)).push(t),
{
    list.items.push(t)
}

/// `SmallVec::len`: the number of triangles held.
#[verifier::external_body]
fn list_len(list: &TriangleList) -> (n: usize)
    ensures
        n == triangles_of(*list).len(),
{
    list.items.len()
}

/// Indexing a `SmallVec`, which goes through its slice: the triangle at
/// position `i`. An index past the end is left out, since it panics.
#[verifier::external_body]
fn list_index(list: &TriangleList, i: usize) -> (t: Triangle)
    requires
        i < triangles_of(*list).len(),
    ensures
        t == triangles_of(*list)[i as int],
{
    list.items[i]
}

/// `SmallVec::append`: moves every triangle of `other`, in order, to the end
/// of `list`, and leaves `other` empty.
#[verifier::external_body]
fn list_append(list: &mut TriangleList, other: &mut TriangleList)
    ensures
        triangles_of(*final(list)) == triangles_of(*old(list)) + triangles_of(*old(other)),
        triangles_of(*final(other)) == Seq::<Triangle>::empty(),
{
    list.items.append(&mut other.items)
}

impl TriangleList {
    /// An empty list.
    pub fn new() -> (list: TriangleList)
        ensures
            list@ == Seq::<Triangle>::empty(),
    {
        list_new()
    }

    /// Adds `t` at the end.
    pub fn push(&mut self, t: Triangle)
        ensures
            final(self)@ == old(self)@.push(t),
    {
        list_push(self, t)
    }

    /// The number of triangles.
    pub fn len(&self) -> (n: usize)
        ensures
            n == self@.len(),
    {
        list_len(self)
    }

    /// The triangle at position `i`, if there is one.
    pub fn get(&self, i: usize) -> (t: Option<Triangle>)
        ensures
            t == (if i < self@.len() { Some(self@[i as int]) } else { None }),
    {
        if i < list_len(self) {
            Some(list_index(self, i))
        } else {
            None
        }
    }

    /// Moves every triangle of `other` to the end of this list.
    pub fn append(&mut self, other: &mut TriangleList)
        ensures
            final(self)@ == old(self)@ + old(other)@,
            final(other)@ == Seq::<Triangle>::empty(),
    {
        list_append(self, other)
    }
}

} // verus!
