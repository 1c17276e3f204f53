//! The scene tree's data and its mathematical view.

use vstd::prelude::*;

verus! {

/// One unit (a world unit, a pixel, a degree, a zoom factor of one) in
/// fixed-point thousandths.
pub const UNIT: i64 = 1000;

/// How a node is drawn.
#[derive(Debug, Clone, Copy, PartialEq, Eq, Structural)]
pub enum Shape {
    Square,
    Circle,
    Triangle,
}

/// A colour with eight bits per channel.
#[derive(Debug, Clone, Copy, PartialEq, Eq, Structural)]
pub struct Rgba {
    pub r: u8,
    pub g: u8,
    pub b: u8,
    pub a: u8,
}

/// The colour without transparency that has the given channels.
pub open spec fn opaque(r: u8, g: u8, b: u8) -> Rgba {
    Rgba { r, g, b, a: 255 }
}

impl Rgba {
    /// The colour without transparency that has the given channels.
    pub fn opaque(r: u8, g: u8, b: u8) -> (c: Rgba)
        ensures
            c == opaque(r, g, b),
    {
        Rgba { r, g, b, a: 255 }
    }
}

/// A point or an offset in the plane, in thousandths.
#[derive(Debug, Clone, Copy, PartialEq, Eq, Structural)]
pub struct Vec2 {
    pub x: i64,
    pub y: i64,
}

/// A single object of the scene tree. It owns its children; a child holds no
/// reference to its parent.
#[derive(Debug)]
pub struct SceneObject {
    pub id: u32,
    /// The committed label.
    pub text: String,
    pub shape: Shape,
    pub color: Rgba,
    /// Thousandths of a degree per second, signed.
    pub rotation_speed: i64,
    /// Thousandths of a degree, accumulated.
    pub current_rotation: i64,
    pub children: Vec<SceneObject>,
    /// The working copy of the label while it is being edited.
    pub text_buffer: String,
}

/// What a `SceneObject` is, as a mathematical value.
#[verifier::ext_equal]
pub struct NodeView {
    pub id: u32,
    pub text: Seq<char>,
    pub shape: Shape,
    pub color: Rgba,
    pub rotation_speed: i64,
    pub current_rotation: i64,
    pub children: Seq<NodeView>,
    pub text_buffer: Seq<char>,
}

/// The view of one object: its fields, and the views of its children in order.
pub open spec fn node_view(o: SceneObject) -> NodeView
    decreases o,
{
    NodeView {
        id: o.id,
        text: o.text@,
        shape: o.shape,
        color: o.color,
        rotation_speed: o.rotation_speed,
        current_rotation: o.current_rotation,
        children: Seq::new(
            o.children@.len(),
            |i: int|
                if 0 <= i < o.children@.len() {
                    node_view(o.children@[i])
                } else {
                    arbitrary()
                },
        ),
        text_buffer: o.text_buffer@,
    }
}

/// The views of a sequence of objects, in order.
pub open spec fn forest_view(s: Seq<SceneObject>) -> Seq<NodeView> {
    Seq::new(s.len(), |i: int| node_view(s[i]))
}

impl View for SceneObject {
    type V = NodeView;

    open spec fn view(&self) -> NodeView {
        node_view(*self)
    }
}

/// The children of an object's view are the views of its children.
pub proof fn lemma_children_view(o: SceneObject)
    ensures
        node_view(o).children == forest_view(o.children@),
{
    assert(node_view(o).children =~= forest_view(o.children@));
}

/// Rotation speed of a new object: twenty degrees per second.
pub const DEFAULT_ROTATION_SPEED: i64 = 20000;

/// The view of an object as `SceneObject::new` makes it.
pub open spec fn new_node(id: u32, text: Seq<char>, shape: Shape, color: Rgba) -> NodeView {
    NodeView {
        id,
        text,
        shape,
        color,
        rotation_speed: DEFAULT_ROTATION_SPEED,
        current_rotation: 0,
        children: Seq::empty(),
        text_buffer: text,
    }
}

/// `child` as the last child of `parent`.
pub open spec fn with_child(parent: NodeView, child: NodeView) -> NodeView {
    NodeView { children: parent.children.push(child), ..parent }
}

impl SceneObject {
    /// A childless object at rest, whose edit buffer holds its label.
    pub fn new(id: u32, text: &str, shape: Shape, color: Rgba) -> (o: SceneObject)
        ensures
            o@ == new_node(id, text@, shape, color),
    {
        let o = SceneObject {
            id,
            text: text.to_owned(),
            shape,
            color,
            rotation_speed: DEFAULT_ROTATION_SPEED,
            current_rotation: 0,
            children: Vec::new(),
            text_buffer: text.to_owned(),
        };
        assert(node_view(o).children =~= Seq::empty());
        o
    }

    /// Appends `child` to the children.
    pub fn push_child(&mut self, child: SceneObject)
        ensures
            node_view(*final(self)) == with_child(node_view(*old(self)), node_view(child)),
    {
        proof {
            lemma_children_view(*self);
        }
        let ghost before = self.children@;
        self.children.push(child);
        proof {
            lemma_children_view(*self);
            assert(forest_view(self.children@) =~= forest_view(before).push(node_view(child)));
            assert(node_view(*self) =~= with_child(node_view(*old(self)), node_view(child)));
        }
    }
}

impl Clone for SceneObject {
    /// A copy of the object and of everything below it.
    fn clone(&self) -> (copy: SceneObject)
        ensures
            node_view(copy) == node_view(*self),
        decreases self,
    {
        let mut children: Vec<SceneObject> = Vec::new();
        let mut i: usize = 0;
        while i < self.children.len()
            invariant
                i <= self.children.len(),
                children.len() == i,
                forall|j: int|
                    0 <= j < i ==> node_view(#[trigger] children@[j]) == node_view(
                        self.children@[j],
                    ),
            decreases self.children.len() - i,
        {
            children.push(self.children[i].clone());
            i += 1;
        }
        let copy = SceneObject {
            id: self.id,
            text: self.text.clone(),
            shape: self.shape,
            color: self.color,
            rotation_speed: self.rotation_speed,
            current_rotation: self.current_rotation,
            children,
            text_buffer: self.text_buffer.clone(),
        };
        proof {
            assert(node_view(copy).children =~= node_view(*self).children);
        }
        copy
    }
}

/// The ids of a tree in pre-order: the node, then its children's trees from
/// first to last.
pub open spec fn node_ids(n: NodeView) -> Seq<u32>
    decreases n,
{
    seq![n.id] + forest_ids(n.children)
}

/// The ids of a forest in pre-order.
pub open spec fn forest_ids(s: Seq<NodeView>) -> Seq<u32>
    decreases s,
{
    if s.len() == 0 {
        Seq::empty()
    } else {
        forest_ids(s.drop_last()) + node_ids(s.last())
    }
}

/// The first node of the tree, in pre-order, that carries `id`.
pub open spec fn node_find(n: NodeView, id: u32) -> Option<NodeView>
    decreases n,
{
    if n.id == id {
        Some(n)
    } else {
        forest_find(n.children, id)
    }
}

/// The first node of the forest, in pre-order, that carries `id`.
pub open spec fn forest_find(s: Seq<NodeView>, id: u32) -> Option<NodeView>
    decreases s,
{
    if s.len() == 0 {
        None
    } else {
        match forest_find(s.drop_last(), id) {
            Some(n) => Some(n),
            None => node_find(s.last(), id),
        }
    }
}

/// The tree with the first node that carries `id`, in pre-order, replaced by
/// `with`; the tree itself where no node carries `id`.
pub open spec fn node_replace(n: NodeView, id: u32, with: NodeView) -> NodeView
    decreases n,
{
    if n.id == id {
        with
    } else {
        NodeView { children: forest_replace(n.children, id, with), ..n }
    }
}

/// The forest with the first node that carries `id`, in pre-order, replaced
/// by `with`.
pub open spec fn forest_replace(s: Seq<NodeView>, id: u32, with: NodeView) -> Seq<NodeView>
    decreases s,
{
    if s.len() == 0 {
        s
    } else if forest_find(s.drop_last(), id) is Some {
        forest_replace(s.drop_last(), id, with).push(s.last())
    } else {
        s.drop_last().push(node_replace(s.last(), id, with))
    }
}

} // verus!
