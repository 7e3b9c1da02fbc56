use std::collections::{HashMap, VecDeque};
use vstd::multiset::Multiset;
use vstd::prelude::*;

verus! {

broadcast use vstd::seq_lib::group_to_multiset_ensures;

/// One of the four headings a snake can move in.
#[derive(Copy, Clone, PartialEq, Eq, Structural, Debug)]
pub enum Direction {
    Up,
    Down,
    Left,
    Right,
}

impl Direction {
    /// The heading pointing the other way.
    pub open spec fn spec_opposite(self) -> Direction {
        match self {
            Direction::Up => Direction::Down,
            Direction::Down => Direction::Up,
            Direction::Left => Direction::Right,
            Direction::Right => Direction::Left,
        }
    }

    /// Horizontal component of the unit step (x grows to the right).
    pub open spec fn dx(self) -> int {
        match self {
            Direction::Left => -1,
            Direction::Right => 1,
            _ => 0,
        }
    }

    /// Vertical component of the unit step (y grows downwards).
    pub open spec fn dy(self) -> int {
        match self {
            Direction::Up => -1,
            Direction::Down => 1,
            _ => 0,
        }
    }

    pub fn opposite(&self) -> (r: Direction)
        ensures
            r == self.spec_opposite(),
    {
        match *self {
            Direction::Up => Direction::Down,
            Direction::Down => Direction::Up,
            Direction::Left => Direction::Right,
            Direction::Right => Direction::Left,
        }
    }

    /// The unit step as `[dx, dy]`.
    pub fn as_array(&self) -> (r: [i32; 2])
        ensures
            r[0] == self.dx(),
            r[1] == self.dy(),
    {
        match *self {
            Direction::Up => [0, -1],
            Direction::Down => [0, 1],
            Direction::Left => [-1, 0],
            Direction::Right => [1, 0],
        }
    }
}

/// Turning around twice gives back the heading one started with.
pub proof fn lemma_opposite_involutive(d: Direction)
    ensures
        d.spec_opposite().spec_opposite() == d,
{
}

/// The step of the opposite heading is the negated step.
pub proof fn lemma_opposite_negates_step(d: Direction)
    ensures
        d.spec_opposite().dx() == -d.dx(),
        d.spec_opposite().dy() == -d.dy(),
{
}

/// Looking ahead is pure: two look-aheads with no move in between give the
/// same cell.
pub proof fn lemma_next_head_idempotent(
    s: SnakeModel,
    dir: Option<Direction>,
    first: (i32, i32),
    second: (i32, i32),
)
    requires
        first.0 == s.next_cell(dir).0 && first.1 == s.next_cell(dir).1,
        second.0 == s.next_cell(dir).0 && second.1 == s.next_cell(dir).1,
    ensures
        first == second,
{
}

/// What a snake is, as far as its contracts are concerned.
pub struct SnakeModel {
    /// The cells, head first.
    pub body: Seq<(i32, i32)>,
    pub heading: Direction,
    /// The cell most recently dropped from the tail, kept for growth.
    pub pending: Option<(i32, i32)>,
}

impl SnakeModel {
    pub open spec fn head(self) -> (i32, i32) {
        self.body[0]
    }

    /// The heading a move with `dir` uses.
    pub open spec fn step_heading(self, dir: Option<Direction>) -> Direction {
        match dir {
            Some(d) => d,
            None => self.heading,
        }
    }

    /// The cell the head reaches by one move with `dir`.
    pub open spec fn next_cell(self, dir: Option<Direction>) -> (int, int) {
        let d = self.step_heading(dir);
        (self.head().0 + d.dx(), self.head().1 + d.dy())
    }

    /// The next cell has coordinates that fit in `i32`.
    pub open spec fn can_step(self, dir: Option<Direction>) -> bool {
        let n = self.next_cell(dir);
        &&& i32::MIN <= n.0 <= i32::MAX
        &&& i32::MIN <= n.1 <= i32::MAX
    }

    /// `c` is one of the cells behind the head.
    pub open spec fn occupies(self, c: (i32, i32)) -> bool {
        self.body.skip(1).contains(c)
    }

    /// `c` is any cell of the body, the head included.
    pub open spec fn covers(self, c: (i32, i32)) -> bool {
        self.body.contains(c)
    }

    /// The snake after one move with `dir`.
    pub open spec fn moved(self, dir: Option<Direction>) -> SnakeModel {
        let n = self.next_cell(dir);
        SnakeModel {
            body: seq![(n.0 as i32, n.1 as i32)] + self.body.drop_last(),
            heading: self.step_heading(dir),
            pending: Some(self.body.last()),
        }
    }

    /// The snake after the pending tail cell is put back.
    pub open spec fn grown(self) -> SnakeModel {
        match self.pending {
            Some(c) => SnakeModel { body: self.body.push(c), ..self },
            None => self,
        }
    }

    /// The three-cell snake laid out to the right of `(x, y)`.
    pub open spec fn fresh(x: i32, y: i32) -> SnakeModel {
        SnakeModel {
            body: seq![((x + 2) as i32, y), ((x + 1) as i32, y), (x, y)],
            heading: Direction::Right,
            pending: None,
        }
    }
}

/// The index key of a cell: both coordinates shifted to be non-negative
/// and packed into one `u64`.
pub open spec fn cell_key(c: (i32, i32)) -> u64 {
    ((c.0 + 0x8000_0000) * 0x1_0000_0000 + (c.1 + 0x8000_0000)) as u64
}

proof fn lemma_cell_key_injective(a: (i32, i32), b: (i32, i32))
    requires
        cell_key(a) == cell_key(b),
    ensures
        a == b,
{
    let p: int = a.0 + 0x8000_0000;
    let q: int = a.1 + 0x8000_0000;
    let r: int = b.0 + 0x8000_0000;
    let t: int = b.1 + 0x8000_0000;
    assert(0 <= p * 0x1_0000_0000 + q <= 0xffff_ffff_ffff_ffff) by (nonlinear_arith)
        requires
            0 <= p < 0x1_0000_0000,
            0 <= q < 0x1_0000_0000,
    ;
    assert(0 <= r * 0x1_0000_0000 + t <= 0xffff_ffff_ffff_ffff) by (nonlinear_arith)
        requires
            0 <= r < 0x1_0000_0000,
            0 <= t < 0x1_0000_0000,
    ;
    assert(p == r && q == t) by (nonlinear_arith)
        requires
            0 <= q < 0x1_0000_0000,
            0 <= t < 0x1_0000_0000,
            p * 0x1_0000_0000 + q == r * 0x1_0000_0000 + t,
    ;
}

fn key_of(x: i32, y: i32) -> (r: u64)
    ensures
        r == cell_key((x, y)),
{
    let p: u64 = (x as i64 + 0x8000_0000) as u64;
    let q: u64 = (y as i64 + 0x8000_0000) as u64;
    assert(p * 0x1_0000_0000 + q <= 0xffff_ffff_ffff_ffff) by (nonlinear_arith)
        requires
            p < 0x1_0000_0000,
            q < 0x1_0000_0000,
    ;
    p * 0x1_0000_0000 + q
}

/// A snake: an ordered body of cells, head first, and a heading. Beside the
/// body it keeps an index that counts, for each cell, how often the body
/// holds it, so that membership is a lookup rather than a scan; only
/// `move_forward` and `restore_tail` change the two, together.
pub struct Snake {
    direction: Direction,
    body: VecDeque<(i32, i32)>,
    index: HashMap<u64, usize>,
    tail: Option<(i32, i32)>,
}

impl View for Snake {
    type V = SnakeModel;

    closed spec fn view(&self) -> SnakeModel {
        SnakeModel { body: self.body@, heading: self.direction, pending: self.tail }
    }
}

impl Snake {
    /// How often the index says the body holds `c`.
    closed spec fn indexed(&self, c: (i32, i32)) -> nat {
        if self.index@.contains_key(cell_key(c)) {
            self.index@[cell_key(c)] as nat
        } else {
            0
        }
    }

    /// The index counts exactly the cells of the body and holds no zero
    /// counts.
    pub closed spec fn index_ok(&self) -> bool {
        &&& forall|c: (i32, i32)| #[trigger]
            self.body@.to_multiset().count(c) == self.indexed(c)
        &&& forall|c: (i32, i32)| #[trigger]
            self.index@.contains_key(cell_key(c)) ==> self.index@[cell_key(c)] > 0
    }

    /// The body is never empty and the index matches it.
    pub open spec fn wf(&self) -> bool {
        &&& self@.body.len() >= 1
        &&& self.index_ok()
    }

    /// Records one more occurrence of `c`, which the body has just gained.
    fn index_add(&mut self, c: (i32, i32))
        requires
            forall|d: (i32, i32)|
                d != c ==> #[trigger] old(self).body@.to_multiset().count(d) == old(self).indexed(d),
            old(self).body@.to_multiset().count(c) == old(self).indexed(c) + 1,
            forall|d: (i32, i32)| #[trigger]
                old(self).index@.contains_key(cell_key(d)) ==> old(self).index@[cell_key(d)] > 0,
            old(self).body@.len() <= usize::MAX,
        ensures
            final(self).index_ok(),
            final(self).body == old(self).body,
            final(self).direction == old(self).direction,
            final(self).tail == old(self).tail,
    {
        let k = key_of(c.0, c.1);
        let n: usize = match self.index.get(&k) {
            Some(n) => *n,
            None => 0,
        };
        proof {
            assert(n == old(self).indexed(c));
            assert(self.body@.to_multiset().count(c) <= self.body@.to_multiset().len());
        }
        self.index.insert(k, n + 1);
        proof {
            assert forall|d: (i32, i32)| #[trigger]
                self.body@.to_multiset().count(d) == self.indexed(d) by {
                if d != c {
                    if cell_key(d) == cell_key(c) {
                        lemma_cell_key_injective(d, c);
                    }
                }
            }
            assert forall|d: (i32, i32)| #[trigger]
                self.index@.contains_key(cell_key(d)) implies self.index@[cell_key(d)] > 0 by {
                if cell_key(d) != cell_key(c) {
                    assert(old(self).index@.contains_key(cell_key(d)));
                }
            }
        }
    }

    /// Records one occurrence fewer of `c`, which the body has just lost.
    fn index_remove(&mut self, c: (i32, i32))
        requires
            forall|d: (i32, i32)|
                d != c ==> #[trigger] old(self).body@.to_multiset().count(d) == old(self).indexed(d),
            old(self).body@.to_multiset().count(c) + 1 == old(self).indexed(c),
            forall|d: (i32, i32)| #[trigger]
                old(self).index@.contains_key(cell_key(d)) ==> old(self).index@[cell_key(d)] > 0,
        ensures
            final(self).index_ok(),
            final(self).body == old(self).body,
            final(self).direction == old(self).direction,
            final(self).tail == old(self).tail,
    {
        let k = key_of(c.0, c.1);
        let n: usize = match self.index.get(&k) {
            Some(n) => *n,
            None => 0,
        };
        assert(n == old(self).indexed(c));
        if n <= 1 {
            self.index.remove(&k);
        } else {
            self.index.insert(k, n - 1);
        }
        proof {
            assert forall|d: (i32, i32)| #[trigger]
                self.body@.to_multiset().count(d) == self.indexed(d) by {
                if d != c {
                    if cell_key(d) == cell_key(c) {
                        lemma_cell_key_injective(d, c);
                    }
                }
            }
            assert forall|d: (i32, i32)| #[trigger]
                self.index@.contains_key(cell_key(d)) implies self.index@[cell_key(d)] > 0 by {
                if cell_key(d) != cell_key(c) {
                    assert(old(self).index@.contains_key(cell_key(d)));
                }
            }
        }
    }

    /// A snake of three cells with its tail at `(x, y)` and its head two
    /// cells to the right, heading right.
    pub fn new(x: i32, y: i32) -> (r: Snake)
        requires
            x + 2 <= i32::MAX,
        ensures
            r.wf(),
            r@ == SnakeModel::fresh(x, y),
            r@.body.len() == 3,
            r@.heading == Direction::Right,
    {
        let mut r = Snake {
            direction: Direction::Right,
            body: VecDeque::new(),
            index: HashMap::new(),
            tail: None,
        };
        proof {
            assert(r.body@.to_multiset() =~= Multiset::empty());
        }
        r.push_back_indexed((x + 2, y));
        r.push_back_indexed((x + 1, y));
        r.push_back_indexed((x, y));
        assert(r@.body =~= SnakeModel::fresh(x, y).body);
        r
    }

    /// Appends `c` at the tail, keeping the index in step.
    fn push_back_indexed(&mut self, c: (i32, i32))
        requires
            old(self).index_ok(),
        ensures
            final(self).index_ok(),
            final(self).body@ == old(self).body@.push(c),
            final(self).direction == old(self).direction,
            final(self).tail == old(self).tail,
    {
        self.body.push_back(c);
        let _ = self.body.len();
        proof {
            assert(self.body@.to_multiset() =~= old(self).body@.to_multiset().insert(c));
        }
        self.index_add(c);
    }

    pub fn head_position(&self) -> (r: (i32, i32))
        requires
            self.wf(),
        ensures
            r == self@.head(),
    {
        self.body[0]
    }

    /// Moves one cell: the heading becomes `dir` if one is given, a new head
    /// is pushed and the tail cell is dropped and kept as pending.
    pub fn move_forward(&mut self, dir: Option<Direction>)
        requires
            old(self).wf(),
            old(self)@.can_step(dir),
        ensures
            final(self).wf(),
            final(self)@ == old(self)@.moved(dir),
    {
        match dir {
            Some(d) => self.direction = d,
            None => (),
        }
        let (last_x, last_y) = self.head_position();
        let step = self.direction.as_array();
        let new_block = (last_x + step[0], last_y + step[1]);
        let ghost b0 = self.body@;
        self.body.push_front(new_block);
        let _ = self.body.len();
        proof {
            assert(self.body@ =~= b0.insert(0, new_block));
        }
        self.index_add(new_block);
        let ghost b1 = self.body@;
        let removed = self.body.pop_back();
        match removed {
            Some(b) => {
                proof {
                    assert(b1.remove(b1.len() - 1) =~= self.body@);
                }
                self.index_remove(b);
                self.tail = Some(b);
            },
            None => (),
        }
        proof {
            assert(self@.body =~= old(self)@.moved(dir).body);
        }
    }

    pub fn head_direction(&self) -> (r: Direction)
        ensures
            r == self@.heading,
    {
        self.direction
    }

    /// The cell the head would reach by moving with `dir`, or with the
    /// current heading when `dir` is `None`. Changes nothing.
    pub fn next_head(&self, dir: Option<Direction>) -> (r: (i32, i32))
        requires
            self.wf(),
            self@.can_step(dir),
        ensures
            r.0 == self@.next_cell(dir).0,
            r.1 == self@.next_cell(dir).1,
    {
        let moving_dir = match dir {
            Some(d) => d,
            None => self.direction,
        };
        let step = moving_dir.as_array();
        let (x, y) = self.head_position();
        (x + step[0], y + step[1])
    }

    /// Puts the pending tail cell back at the end of the body; does nothing
    /// when no cell has been dropped yet.
    pub fn restore_tail(&mut self)
        requires
            old(self).wf(),
        ensures
            final(self).wf(),
            final(self)@ == old(self)@.grown(),
    {
        match self.tail {
            Some(blk) => self.push_back_indexed(blk),
            None => (),
        }
    }

    /// How often the body holds `(x, y)`, read from the index.
    fn count(&self, x: i32, y: i32) -> (r: usize)
        requires
            self.wf(),
        ensures
            r == self@.body.to_multiset().count((x, y)),
    {
        let k = key_of(x, y);
        match self.index.get(&k) {
            Some(n) => *n,
            None => 0,
        }
    }

    /// Whether `(x, y)` is one of the cells behind the head.
    pub fn overlap_tail(&self, x: i32, y: i32) -> (r: bool)
        requires
            self.wf(),
        ensures
            r == self@.occupies((x, y)),
    {
        let n = self.count(x, y);
        let h = self.head_position();
        let at_head: usize = if h.0 == x && h.1 == y {
            1
        } else {
            0
        };
        proof {
            let b = self@.body;
            assert(b =~= b.skip(1).insert(0, b[0]));
            assert(b.skip(1).insert(0, b[0]).to_multiset() =~= b.skip(1).to_multiset().insert(
                b[0],
            ));
        }
        n > at_head
    }

    /// Whether `(x, y)` is any cell of the body, the head included.
    pub fn covers(&self, x: i32, y: i32) -> (r: bool)
        requires
            self.wf(),
        ensures
            r == self@.covers((x, y)),
    {
        self.count(x, y) > 0
    }

    /// The number of cells; it doubles as the score.
    pub fn len(&self) -> (r: usize)
        ensures
            r == self@.body.len(),
    {
        self.body.len()
    }

    /// The cells of the body, head first.
    pub fn cells(&self) -> (r: Vec<(i32, i32)>)
        ensures
            r@ == self@.body,
    {
        let mut v: Vec<(i32, i32)> = Vec::new();
        let n = self.body.len();
        let mut i: usize = 0;
        while i < n
            invariant
                i <= n,
                n == self@.body.len(),
                v@ == self@.body.take(i as int),
            decreases n - i,
        {
            v.push(self.body[i]);
            i += 1;
            proof {
                assert(v@ =~= self@.body.take(i as int));
            }
        }
        assert(self@.body.take(n as int) =~= self@.body);
        v
    }
}

} // verus!
