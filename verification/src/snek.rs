use vstd::prelude::*;

verus! {

/// A direction on the board, as the arrow keys and WASD give it.
#[derive(Copy, Clone, Debug, PartialEq, Eq, Structural)]
pub enum Direction {
    Up,
    Left,
    Down,
    Right,
}

/// The board offset of one step in a direction (rows grow downwards).
pub open spec fn direction_offset(d: Direction) -> (i32, i32) {
    match d {
        Direction::Up => (0i32, -1i32),
        Direction::Left => (-1i32, 0i32),
        Direction::Down => (0i32, 1i32),
        Direction::Right => (1i32, 0i32),
    }
}

pub open spec fn is_unit_step(v: (i32, i32)) -> bool {
    v == (0i32, -1i32) || v == (-1i32, 0i32) || v == (0i32, 1i32) || v == (1i32, 0i32)
}

pub open spec fn reversed(v: (i32, i32)) -> (i32, i32) {
    (-v.0 as i32, -v.1 as i32)
}

/// The snake: its nodes from tail to head, the way it faces, the way it
/// faced when it last moved, and where its tail was before that move.
pub struct Snake {
    nodes: std::collections::VecDeque<(i32, i32)>,
    face: (i32, i32),
    prev_face: (i32, i32),
    prev_tail: (i32, i32),
}

impl Snake {
    pub closed spec fn nodes_view(&self) -> Seq<(i32, i32)> {
        self.nodes@
    }

    pub closed spec fn face_view(&self) -> (i32, i32) {
        self.face
    }

    pub closed spec fn prev_face_view(&self) -> (i32, i32) {
        self.prev_face
    }

    pub closed spec fn prev_tail_view(&self) -> (i32, i32) {
        self.prev_tail
    }

    /// The snake is never empty, faces and last moved one step along an
    /// axis, and never faces straight back the way it last moved.
    pub open spec fn wf(&self) -> bool {
        &&& self.nodes_view().len() > 0
        &&& is_unit_step(self.face_view())
        &&& is_unit_step(self.prev_face_view())
        &&& self.face_view() != reversed(self.prev_face_view())
    }

    pub open spec fn head_view(&self) -> (i32, i32) {
        self.nodes_view().last()
    }

    /// Where the next step takes the head, when that stays in range.
    pub open spec fn can_step(&self) -> bool {
        let h = self.head_view();
        let f = self.face_view();
        &&& i32::MIN <= h.0 + f.0 <= i32::MAX
        &&& i32::MIN <= h.1 + f.1 <= i32::MAX
    }

    /// The snake at the start: three nodes in row 5, facing right.
    pub fn new() -> (r: Self)
        ensures
            r.wf(),
            r.nodes_view() == seq![(1i32, 5i32), (2i32, 5i32), (3i32, 5i32)],
            r.face_view() == (1i32, 0i32),
            r.prev_face_view() == (1i32, 0i32),
            r.prev_tail_view() == (0i32, 5i32),
    {
        let mut nodes = std::collections::VecDeque::new();
        nodes.push_back((1, 5));
        nodes.push_back((2, 5));
        nodes.push_back((3, 5));
        proof {
            assert(nodes@ =~= seq![(1i32, 5i32), (2i32, 5i32), (3i32, 5i32)]);
        }
        Snake { nodes, face: (1, 0), prev_face: (1, 0), prev_tail: (0, 5) }
    }

    pub fn nodes(&self) -> (r: &std::collections::VecDeque<(i32, i32)>)
        ensures
            r@ == self.nodes_view(),
    {
        &self.nodes
    }

    pub fn face(&self) -> (r: (i32, i32))
        ensures
            r == self.face_view(),
    {
        self.face
    }

    pub fn prev_tail(&self) -> (r: (i32, i32))
        ensures
            r == self.prev_tail_view(),
    {
        self.prev_tail
    }

    pub fn head(&self) -> (r: (i32, i32))
        requires
            self.wf(),
        ensures
            r == self.head_view(),
    {
        self.nodes[self.nodes.len() - 1]
    }

    /// Whether the head can take its next step without leaving the range of
    /// board coordinates.
    pub fn step_in_range(&self) -> (r: bool)
        requires
            self.wf(),
        ensures
            r == self.can_step(),
    {
        let h = self.head();
        h.0.checked_add(self.face.0).is_some() && h.1.checked_add(self.face.1).is_some()
    }

    /// Moves the snake one step the way it faces: the tail node leaves (and
    /// is remembered), a new head comes one step past the old one, and the
    /// facing becomes the one it last moved in.
    pub fn step(&mut self)
        requires
            old(self).wf(),
            old(self).can_step(),
        ensures
            final(self).wf(),
            final(self).prev_tail_view() == old(self).nodes_view()[0],
            final(self).nodes_view() == old(self).nodes_view().drop_first().push(
                (
                    (old(self).head_view().0 + old(self).face_view().0) as i32,
                    (old(self).head_view().1 + old(self).face_view().1) as i32,
                ),
            ),
            final(self).face_view() == old(self).face_view(),
            final(self).prev_face_view() == old(self).face_view(),
    {
        let head = self.head();
        let tail = self.nodes.pop_front();
        match tail {
            Some(t) => {
                self.prev_tail = t;
            },
            None => {},
        }
        self.nodes.push_back((head.0 + self.face.0, head.1 + self.face.1));
        self.prev_face = self.face;
    }

    /// Turns the snake to face `direction`, unless that is straight back
    /// the way it last moved; says whether it turned.
    pub fn turn(&mut self, direction: Direction) -> (r: bool)
        requires
            old(self).wf(),
        ensures
            final(self).wf(),
            r == (direction_offset(direction) != reversed(old(self).prev_face_view())),
            final(self).face_view() == if r {
                direction_offset(direction)
            } else {
                old(self).face_view()
            },
            final(self).nodes_view() == old(self).nodes_view(),
            final(self).prev_face_view() == old(self).prev_face_view(),
            final(self).prev_tail_view() == old(self).prev_tail_view(),
    {
        let p = self.prev_face;
        let allowed = match direction {
            Direction::Up => p.0 != 0 || p.1 <= 0,
            Direction::Left => p.1 != 0 || p.0 <= 0,
            Direction::Down => p.0 != 0 || p.1 >= 0,
            Direction::Right => p.1 != 0 || p.0 >= 0,
        };
        if allowed {
            self.face = match direction {
                Direction::Up => (0, -1),
                Direction::Left => (-1, 0),
                Direction::Down => (0, 1),
                Direction::Right => (1, 0),
            };
        }
        allowed
    }
}

} // verus!
