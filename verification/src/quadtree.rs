//! A 2D point index over an origin-anchored rectangle: recursive 4-way
//! subdivision, point insertion, rectangular range query, size and clear.
//!
//! A leaf holds at most one point; inserting a second point into an
//! occupied leaf subdivides it and pushes the resident point one level
//! down. Subdivision halves integer extents, so a cell of extent below 2
//! on both axes cannot split further: such a cell holds its points in a
//! bucket, which bounds the recursion that coincident points would
//! otherwise make unbounded.

use vstd::prelude::*;
use vstd::seq_lib::lemma_multiset_commutative;

verus! {

/// Greatest width or height a quadtree accepts: keeps all rectangle
/// arithmetic inside `i64`.
pub const QT_BOUND: i64 = 0x1000_0000_0000_0000;

/// A stored point with its caller-chosen id.
#[derive(Clone, Copy, PartialEq, Eq, Structural, Debug)]
pub struct Point {
    pub x: i64,
    pub y: i64,
    pub id: u32,
}

/// Closed membership of a point in the rectangle at `(x, y)` with extent
/// `(w, h)`: boundary points belong to the cell.
pub open spec fn in_rect(x: int, y: int, w: int, h: int, p: Point) -> bool {
    &&& x <= p.x <= x + w
    &&& y <= p.y <= y + h
}

/// Strict membership of a point in the query rectangle: points on the
/// query's boundary are excluded.
pub open spec fn hit(qx: int, qy: int, qw: int, qh: int, p: Point) -> bool {
    &&& qx < p.x < qx + qw
    &&& qy < p.y < qy + qh
}

/// The x coordinate of a child cell: the parent's, moved by half the
/// width on the upper side.
pub open spec fn child_x(x: int, w: int, up: bool) -> int {
    if up {
        x + w / 2
    } else {
        x
    }
}

/// The width of a child cell: the lower child takes the rounded-down
/// half, the upper child the rest, so the two tile the parent exactly.
pub open spec fn child_w(w: int, up: bool) -> int {
    if up {
        w - w / 2
    } else {
        w / 2
    }
}

/// A quadtree node: empty, one point, a bucket of points in a cell too
/// small to split, or four children indexed by (upper-x, upper-y) with
/// index `bx + 2 by`.
pub enum Node {
    Empty,
    Pt(Point),
    Bucket(Vec<Point>),
    Sub(Box<Quarters>),
}

/// The four children of a subdivided cell.
pub struct Quarters {
    pub q0: Node,
    pub q1: Node,
    pub q2: Node,
    pub q3: Node,
}

impl Node {
    /// The points stored beneath this node, in traversal order.
    pub open spec fn points(self) -> Seq<Point>
        decreases self,
    {
        match self {
            Node::Empty => seq![],
            Node::Pt(p) => seq![p],
            Node::Bucket(v) => v@,
            Node::Sub(q) => q.q0.points() + q.q1.points() + q.q2.points() + q.q3.points(),
        }
    }

    /// Structural validity over the node's cell: every stored point lies
    /// in the cell, buckets appear only in cells too small to split, and
    /// subdivided cells are large enough to have split.
    pub open spec fn wf(self, x: int, y: int, w: int, h: int) -> bool
        decreases self,
    {
        match self {
            Node::Empty => true,
            Node::Pt(p) => in_rect(x, y, w, h, p),
            Node::Bucket(v) => {
                &&& w < 2 && h < 2
                &&& forall|i: int| 0 <= i < v@.len() ==> in_rect(x, y, w, h, #[trigger] v@[i])
            },
            Node::Sub(q) => {
                &&& w >= 2 || h >= 2
                &&& q.q0.wf(child_x(x, w, false), child_x(y, h, false), child_w(w, false), child_w(h, false))
                &&& q.q1.wf(child_x(x, w, true), child_x(y, h, false), child_w(w, true), child_w(h, false))
                &&& q.q2.wf(child_x(x, w, false), child_x(y, h, true), child_w(w, false), child_w(h, true))
                &&& q.q3.wf(child_x(x, w, true), child_x(y, h, true), child_w(w, true), child_w(h, true))
            },
        }
    }
}

/// The ids of the points of `s` that lie strictly inside the query
/// rectangle, in the order of `s`.
pub open spec fn hits(s: Seq<Point>, qx: int, qy: int, qw: int, qh: int) -> Seq<u32>
    decreases s.len(),
{
    if s.len() == 0 {
        seq![]
    } else {
        (if hit(qx, qy, qw, qh, s[0]) {
            seq![s[0].id]
        } else {
            seq![]
        }) + hits(s.subrange(1, s.len() as int), qx, qy, qw, qh)
    }
}

/// Matching ids distribute over concatenation of point sequences.
pub proof fn lemma_hits_add(s: Seq<Point>, t: Seq<Point>, qx: int, qy: int, qw: int, qh: int)
    ensures
        hits(s + t, qx, qy, qw, qh) == hits(s, qx, qy, qw, qh) + hits(t, qx, qy, qw, qh),
    decreases s.len(),
{
    if s.len() == 0 {
        assert(s + t =~= t);
        assert(hits(s, qx, qy, qw, qh) + hits(t, qx, qy, qw, qh) =~= hits(t, qx, qy, qw, qh));
    } else {
        let rest = s.subrange(1, s.len() as int);
        assert((s + t).subrange(1, (s + t).len() as int) =~= rest + t);
        lemma_hits_add(rest, t, qx, qy, qw, qh);
        assert((s + t)[0] == s[0]);
        assert(hits(s + t, qx, qy, qw, qh) =~= hits(s, qx, qy, qw, qh) + hits(t, qx, qy, qw, qh));
    }
}

/// Appending one point appends its id when it matches.
pub proof fn lemma_hits_push(s: Seq<Point>, p: Point, qx: int, qy: int, qw: int, qh: int)
    ensures
        hits(s.push(p), qx, qy, qw, qh) == hits(s, qx, qy, qw, qh) + (if hit(qx, qy, qw, qh, p) {
            seq![p.id]
        } else {
            Seq::<u32>::empty()
        }),
{
    assert(s.push(p) =~= s + seq![p]);
    lemma_hits_add(s, seq![p], qx, qy, qw, qh);
    let single = seq![p];
    assert(single.subrange(1, 1) =~= Seq::<Point>::empty());
    assert(hits(Seq::<Point>::empty(), qx, qy, qw, qh) == Seq::<u32>::empty());
    assert(hits(single, qx, qy, qw, qh) =~= (if hit(qx, qy, qw, qh, p) {
        seq![p.id]
    } else {
        Seq::<u32>::empty()
    }));
}

/// A sequence of points none of which matches contributes no id.
pub proof fn lemma_hits_none(s: Seq<Point>, qx: int, qy: int, qw: int, qh: int)
    requires
        forall|i: int| 0 <= i < s.len() ==> !hit(qx, qy, qw, qh, #[trigger] s[i]),
    ensures
        hits(s, qx, qy, qw, qh) == Seq::<u32>::empty(),
    decreases s.len(),
{
    if s.len() > 0 {
        let rest = s.subrange(1, s.len() as int);
        lemma_hits_none(rest, qx, qy, qw, qh);
        assert(hits(s, qx, qy, qw, qh) =~= Seq::<u32>::empty());
    }
}

/// The ids of one point, when it matches the query.
pub proof fn lemma_hits_single(p: Point, qx: int, qy: int, qw: int, qh: int)
    ensures
        hits(seq![p], qx, qy, qw, qh) == (if hit(qx, qy, qw, qh, p) {
            seq![p.id]
        } else {
            Seq::<u32>::empty()
        }),
{
    let single = seq![p];
    assert(single.subrange(1, 1) =~= Seq::<Point>::empty());
    assert(hits(Seq::<Point>::empty(), qx, qy, qw, qh) == Seq::<u32>::empty());
    assert(hits(single, qx, qy, qw, qh) =~= (if hit(qx, qy, qw, qh, p) {
        seq![p.id]
    } else {
        Seq::<u32>::empty()
    }));
}

/// Every point beneath a well-formed node lies in the node's cell.
pub proof fn lemma_wf_points_in_rect(n: Node, x: int, y: int, w: int, h: int)
    requires
        n.wf(x, y, w, h),
        0 <= w,
        0 <= h,
    ensures
        forall|i: int| 0 <= i < n.points().len() ==> in_rect(x, y, w, h, #[trigger] n.points()[i]),
    decreases n,
{
    match n {
        Node::Sub(q) => {
            lemma_wf_points_in_rect(
                q.q0,
                child_x(x, w, false),
                child_x(y, h, false),
                child_w(w, false),
                child_w(h, false),
            );
            lemma_wf_points_in_rect(
                q.q1,
                child_x(x, w, true),
                child_x(y, h, false),
                child_w(w, true),
                child_w(h, false),
            );
            lemma_wf_points_in_rect(
                q.q2,
                child_x(x, w, false),
                child_x(y, h, true),
                child_w(w, false),
                child_w(h, true),
            );
            lemma_wf_points_in_rect(
                q.q3,
                child_x(x, w, true),
                child_x(y, h, true),
                child_w(w, true),
                child_w(h, true),
            );
            let s0 = q.q0.points();
            let s1 = q.q1.points();
            let s2 = q.q2.points();
            let s3 = q.q3.points();
            assert forall|i: int| 0 <= i < n.points().len() implies in_rect(
                x,
                y,
                w,
                h,
                #[trigger] n.points()[i],
            ) by {
                if i < s0.len() {
                    assert(n.points()[i] == s0[i]);
                } else if i < s0.len() + s1.len() {
                    assert(n.points()[i] == s1[i - s0.len()]);
                } else if i < s0.len() + s1.len() + s2.len() {
                    assert(n.points()[i] == s2[i - s0.len() - s1.len()]);
                } else {
                    assert(n.points()[i] == s3[i - s0.len() - s1.len() - s2.len()]);
                }
            }
        },
        _ => {},
    }
}

/// The points beneath the four children of a subdivided cell, in child
/// order.
pub open spec fn qpoints(q: Quarters) -> Seq<Point> {
    q.q0.points() + q.q1.points() + q.q2.points() + q.q3.points()
}

impl Quarters {
    /// Insert a point into the child its coordinates select.
    fn insert_child(&mut self, x: i64, y: i64, w: i64, h: i64, p: Point)
        requires
            2 <= w || 2 <= h,
            0 <= w,
            0 <= h,
            x + w <= i64::MAX,
            y + h <= i64::MAX,
            in_rect(x as int, y as int, w as int, h as int, p),
            old(self).q0.wf(child_x(x as int, w as int, false), child_x(y as int, h as int, false), child_w(w as int, false), child_w(h as int, false)),
            old(self).q1.wf(child_x(x as int, w as int, true), child_x(y as int, h as int, false), child_w(w as int, true), child_w(h as int, false)),
            old(self).q2.wf(child_x(x as int, w as int, false), child_x(y as int, h as int, true), child_w(w as int, false), child_w(h as int, true)),
            old(self).q3.wf(child_x(x as int, w as int, true), child_x(y as int, h as int, true), child_w(w as int, true), child_w(h as int, true)),
        ensures
            final(self).q0.wf(child_x(x as int, w as int, false), child_x(y as int, h as int, false), child_w(w as int, false), child_w(h as int, false)),
            final(self).q1.wf(child_x(x as int, w as int, true), child_x(y as int, h as int, false), child_w(w as int, true), child_w(h as int, false)),
            final(self).q2.wf(child_x(x as int, w as int, false), child_x(y as int, h as int, true), child_w(w as int, false), child_w(h as int, true)),
            final(self).q3.wf(child_x(x as int, w as int, true), child_x(y as int, h as int, true), child_w(w as int, true), child_w(h as int, true)),
            qpoints(*final(self)).to_multiset() == qpoints(*old(self)).to_multiset().insert(p),
        decreases w + h, 0int,
    {
        let x_side = p.x > x + w / 2;
        let y_side = p.y > y + h / 2;
        let cx = if x_side {
            x + w / 2
        } else {
            x
        };
        let cy = if y_side {
            y + h / 2
        } else {
            y
        };
        let cw = if x_side {
            w - w / 2
        } else {
            w / 2
        };
        let chh = if y_side {
            h - h / 2
        } else {
            h / 2
        };
        let ghost before = *self;
        if x_side {
            if y_side {
                self.q3.insert(cx, cy, cw, chh, p);
            } else {
                self.q1.insert(cx, cy, cw, chh, p);
            }
        } else {
            if y_side {
                self.q2.insert(cx, cy, cw, chh, p);
            } else {
                self.q0.insert(cx, cy, cw, chh, p);
            }
        }
        proof {
            let s0 = before.q0.points();
            let s1 = before.q1.points();
            let s2 = before.q2.points();
            let s3 = before.q3.points();
            let t0 = self.q0.points();
            let t1 = self.q1.points();
            let t2 = self.q2.points();
            let t3 = self.q3.points();
            lemma_multiset_commutative(s0, s1);
            lemma_multiset_commutative(s0 + s1, s2);
            lemma_multiset_commutative(s0 + s1 + s2, s3);
            lemma_multiset_commutative(t0, t1);
            lemma_multiset_commutative(t0 + t1, t2);
            lemma_multiset_commutative(t0 + t1 + t2, t3);
            assert(qpoints(*self).to_multiset() =~= qpoints(before).to_multiset().insert(p));
        }
    }
}

impl Node {
    /// Insert a point into the cell at `(x, y)` with extent `(w, h)`. An
    /// empty leaf takes the point; an occupied leaf of a splittable cell
    /// subdivides, pushes its resident point one level down and then
    /// descends with the new point; an occupied leaf of a minimal cell
    /// becomes a bucket.
    pub fn insert(&mut self, x: i64, y: i64, w: i64, h: i64, p: Point)
        requires
            0 <= w,
            0 <= h,
            x + w <= i64::MAX,
            y + h <= i64::MAX,
            in_rect(x as int, y as int, w as int, h as int, p),
            old(self).wf(x as int, y as int, w as int, h as int),
        ensures
            final(self).wf(x as int, y as int, w as int, h as int),
            final(self).points().to_multiset() == old(self).points().to_multiset().insert(p),
        decreases w + h, 1int,
    {
        match self {
            Node::Empty => {
                *self = Node::Pt(p);
                proof {
                    broadcast use vstd::seq_lib::group_to_multiset_ensures;

                    assert(seq![p] =~= Seq::<Point>::empty().push(p));
                }
            },
            Node::Pt(q) => {
                let q0 = *q;
                if w < 2 && h < 2 {
                    let mut bucket: Vec<Point> = Vec::new();
                    bucket.push(q0);
                    bucket.push(p);
                    *self = Node::Bucket(bucket);
                    proof {
                        broadcast use vstd::seq_lib::group_to_multiset_ensures;

                        assert(seq![q0, p] =~= Seq::<Point>::empty().push(q0).push(p));
                        assert(seq![q0] =~= Seq::<Point>::empty().push(q0));
                    }
                } else {
                    let mut quarters = Box::new(
                        Quarters { q0: Node::Empty, q1: Node::Empty, q2: Node::Empty, q3: Node::Empty },
                    );
                    quarters.insert_child(x, y, w, h, q0);
                    quarters.insert_child(x, y, w, h, p);
                    proof {
                        broadcast use vstd::seq_lib::group_to_multiset_ensures;

                        let empty4 = Quarters {
                            q0: Node::Empty,
                            q1: Node::Empty,
                            q2: Node::Empty,
                            q3: Node::Empty,
                        };
                        assert(qpoints(empty4) =~= Seq::<Point>::empty());
                        assert(seq![q0] =~= Seq::<Point>::empty().push(q0));
                    }
                    *self = Node::Sub(quarters);
                }
            },
            Node::Bucket(v) => {
                v.push(p);
                proof {
                    broadcast use vstd::seq_lib::group_to_multiset_ensures;

                }
            },
            Node::Sub(quarters) => {
                quarters.insert_child(x, y, w, h, p);
            },
        }
    }

    /// The number of points beneath this node.
    pub fn size(&self) -> (r: usize)
        requires
            self.points().len() <= usize::MAX,
        ensures
            r == self.points().len(),
        decreases self,
    {
        match self {
            Node::Empty => 0,
            Node::Pt(_) => 1,
            Node::Bucket(v) => v.len(),
            Node::Sub(q) => {
                let c0 = q.q0.size();
                let c1 = q.q1.size();
                let c2 = q.q2.size();
                let c3 = q.q3.size();
                c0 + c1 + c2 + c3
            },
        }
    }

    /// Append to `out` the ids of the points beneath this node that lie
    /// strictly inside the query rectangle, descending into a child only
    /// when the child's cell overlaps the query.
    pub fn find_in(
        &self,
        x: i64,
        y: i64,
        w: i64,
        h: i64,
        qx: i64,
        qy: i64,
        qw: i64,
        qh: i64,
        out: &mut Vec<u32>,
    )
        requires
            0 <= w,
            0 <= h,
            x + w <= i64::MAX,
            y + h <= i64::MAX,
            i64::MIN <= qx + qw <= i64::MAX,
            i64::MIN <= qy + qh <= i64::MAX,
            self.wf(x as int, y as int, w as int, h as int),
        ensures
            final(out)@ == old(out)@ + hits(self.points(), qx as int, qy as int, qw as int, qh as int),
        decreases self,
    {
        let ghost qxi = qx as int;
        let ghost qyi = qy as int;
        let ghost qwi = qw as int;
        let ghost qhi = qh as int;
        let overlap = qx < x + w && x < qx + qw && qy < y + h && y < qy + qh;
        if !overlap {
            proof {
                lemma_wf_points_in_rect(*self, x as int, y as int, w as int, h as int);
                lemma_hits_none(self.points(), qxi, qyi, qwi, qhi);
                assert(out@ =~= out@ + hits(self.points(), qxi, qyi, qwi, qhi));
            }
        } else {
            match self {
                Node::Empty => {
                    proof {
                        assert(out@ =~= out@ + hits(self.points(), qxi, qyi, qwi, qhi));
                    }
                },
                Node::Pt(p) => {
                    if qx < p.x && p.x < qx + qw && qy < p.y && p.y < qy + qh {
                        out.push(p.id);
                    }
                    proof {
                        lemma_hits_single(*p, qxi, qyi, qwi, qhi);
                        assert(final(out)@ =~= old(out)@ + hits(
                            self.points(),
                            qxi,
                            qyi,
                            qwi,
                            qhi,
                        ));
                    }
                },
                Node::Bucket(v) => {
                    let ghost start = out@;
                    let mut j: usize = 0;
                    while j < v.len()
                        invariant
                            j <= v.len(),
                            i64::MIN <= qxi + qwi <= i64::MAX,
                            i64::MIN <= qyi + qhi <= i64::MAX,
                            qxi == qx as int && qyi == qy as int && qwi == qw as int && qhi
                                == qh as int,
                            out@ == start + hits(v@.take(j as int), qxi, qyi, qwi, qhi),
                        decreases v.len() - j,
                    {
                        let p = v[j];
                        if qx < p.x && p.x < qx + qw && qy < p.y && p.y < qy + qh {
                            out.push(p.id);
                        }
                        proof {
                            lemma_hits_push(v@.take(j as int), v@[j as int], qxi, qyi, qwi, qhi);
                            assert(v@.take(j as int + 1) =~= v@.take(j as int).push(v@[j as int]));
                            assert(out@ =~= start + hits(v@.take(j as int + 1), qxi, qyi, qwi, qhi));
                        }
                        j = j + 1;
                    }
                    proof {
                        assert(v@.take(v@.len() as int) =~= v@);
                    }
                },
                Node::Sub(q) => {
                    let lx = x;
                    let ux = x + w / 2;
                    let ly = y;
                    let uy = y + h / 2;
                    let lw = w / 2;
                    let uw = w - w / 2;
                    let lh = h / 2;
                    let uh = h - h / 2;
                    let ghost before = out@;
                    q.q0.find_in(lx, ly, lw, lh, qx, qy, qw, qh, out);
                    q.q1.find_in(ux, ly, uw, lh, qx, qy, qw, qh, out);
                    q.q2.find_in(lx, uy, lw, uh, qx, qy, qw, qh, out);
                    q.q3.find_in(ux, uy, uw, uh, qx, qy, qw, qh, out);
                    proof {
                        lemma_hits_add(q.q0.points(), q.q1.points(), qxi, qyi, qwi, qhi);
                        lemma_hits_add(q.q0.points() + q.q1.points(), q.q2.points(), qxi, qyi, qwi, qhi);
                        lemma_hits_add(
                            q.q0.points() + q.q1.points() + q.q2.points(),
                            q.q3.points(),
                            qxi,
                            qyi,
                            qwi,
                            qhi,
                        );
                        assert(out@ =~= before + hits(self.points(), qxi, qyi, qwi, qhi));
                    }
                },
            }
        }
    }
}

/// The 2D point index over the rectangle from the origin to
/// `(width, height)`.
pub struct QuadTree {
    pub width: i64,
    pub height: i64,
    pub root: Node,
}

impl QuadTree {
    /// A usable tree: extents within bounds and a well-formed root.
    pub open spec fn inv(self) -> bool {
        &&& 0 <= self.width <= QT_BOUND
        &&& 0 <= self.height <= QT_BOUND
        &&& self.root.wf(0, 0, self.width as int, self.height as int)
    }

    /// The stored points, in traversal order.
    pub open spec fn points(self) -> Seq<Point> {
        self.root.points()
    }

    /// An empty index over the rectangle from the origin to
    /// `(width, height)`.
    pub fn new(width: i64, height: i64) -> (t: QuadTree)
        requires
            0 <= width <= QT_BOUND,
            0 <= height <= QT_BOUND,
        ensures
            t.inv(),
            t.width == width,
            t.height == height,
            t.points() == Seq::<Point>::empty(),
    {
        QuadTree { width, height, root: Node::Empty }
    }

    /// How many points are stored.
    pub fn size(&self) -> (r: usize)
        requires
            self.inv(),
            self.points().len() <= usize::MAX,
        ensures
            r == self.points().len(),
    {
        self.root.size()
    }

    /// Remove every stored point.
    pub fn clear(&mut self)
        requires
            old(self).inv(),
        ensures
            final(self).inv(),
            final(self).width == old(self).width,
            final(self).height == old(self).height,
            final(self).points() == Seq::<Point>::empty(),
    {
        self.root = Node::Empty;
    }

    /// Store a point with its id. The point must lie within the tree's
    /// rectangle, boundary included.
    pub fn insert(&mut self, x: i64, y: i64, id: u32)
        requires
            old(self).inv(),
            0 <= x <= old(self).width,
            0 <= y <= old(self).height,
        ensures
            final(self).inv(),
            final(self).width == old(self).width,
            final(self).height == old(self).height,
            final(self).points().to_multiset() == old(self).points().to_multiset().insert(
                Point { x, y, id },
            ),
            final(self).points().len() == old(self).points().len() + 1,
    {
        let w = self.width;
        let h = self.height;
        self.root.insert(0, 0, w, h, Point { x, y, id });
        proof {
            broadcast use vstd::seq_lib::group_to_multiset_ensures;

            assert(self.points().to_multiset().len() == old(self).points().to_multiset().len()
                + 1);
        }
    }

    /// The ids of every stored point strictly inside the rectangle at
    /// `(x, y)` with extent `(w, h)`, in traversal order.
    pub fn find_in_range(&self, x: i64, y: i64, w: i64, h: i64) -> (r: Vec<u32>)
        requires
            self.inv(),
            i64::MIN <= x + w <= i64::MAX,
            i64::MIN <= y + h <= i64::MAX,
        ensures
            r@ == hits(self.points(), x as int, y as int, w as int, h as int),
    {
        let mut result: Vec<u32> = Vec::new();
        self.root.find_in(0, 0, self.width, self.height, x, y, w, h, &mut result);
        result
    }
}

/// The cells of the leaves of a subtree, in traversal order: what a
/// drawing of the tree's subdivision strokes.
pub open spec fn leaf_rects_spec(n: Node, x: i64, y: i64, w: i64, h: i64) -> Seq<
    (i64, i64, i64, i64),
>
    decreases n,
{
    match n {
        Node::Sub(q) => leaf_rects_spec(
            q.q0,
            x,
            y,
            (w as int / 2) as i64,
            (h as int / 2) as i64,
        ) + leaf_rects_spec(
            q.q1,
            (x + w as int / 2) as i64,
            y,
            (w - w as int / 2) as i64,
            (h as int / 2) as i64,
        ) + leaf_rects_spec(
            q.q2,
            x,
            (y + h as int / 2) as i64,
            (w as int / 2) as i64,
            (h - h as int / 2) as i64,
        ) + leaf_rects_spec(
            q.q3,
            (x + w as int / 2) as i64,
            (y + h as int / 2) as i64,
            (w - w as int / 2) as i64,
            (h - h as int / 2) as i64,
        ),
        _ => seq![(x, y, w, h)],
    }
}

impl Node {
    /// Append the cells of this subtree's leaves to `out`.
    fn leaf_rects_into(&self, x: i64, y: i64, w: i64, h: i64, out: &mut Vec<(i64, i64, i64, i64)>)
        requires
            0 <= w,
            0 <= h,
            x + w <= i64::MAX,
            y + h <= i64::MAX,
        ensures
            final(out)@ == old(out)@ + leaf_rects_spec(*self, x, y, w, h),
        decreases self,
    {
        match self {
            Node::Sub(q) => {
                let ghost before = out@;
                q.q0.leaf_rects_into(x, y, w / 2, h / 2, out);
                q.q1.leaf_rects_into(x + w / 2, y, w - w / 2, h / 2, out);
                q.q2.leaf_rects_into(x, y + h / 2, w / 2, h - h / 2, out);
                q.q3.leaf_rects_into(x + w / 2, y + h / 2, w - w / 2, h - h / 2, out);
                proof {
                    assert(out@ =~= before + leaf_rects_spec(*self, x, y, w, h));
                }
            },
            _ => {
                out.push((x, y, w, h));
                proof {
                    assert(out@ =~= old(out)@ + leaf_rects_spec(*self, x, y, w, h));
                }
            },
        }
    }
}

impl QuadTree {
    /// The cells of the tree's leaves, outermost rectangle included: the
    /// rectangles a rendering of the subdivision strokes.
    pub fn leaf_rects(&self) -> (r: Vec<(i64, i64, i64, i64)>)
        requires
            self.inv(),
        ensures
            r@ == leaf_rects_spec(self.root, 0, 0, self.width, self.height),
    {
        let mut result: Vec<(i64, i64, i64, i64)> = Vec::new();
        self.root.leaf_rects_into(0, 0, self.width, self.height, &mut result);
        result
    }
}

/// A query rectangle that strictly contains every stored point returns
/// every stored id, in storage order.
pub proof fn lemma_query_covering_returns_all(
    s: Seq<Point>,
    qx: int,
    qy: int,
    qw: int,
    qh: int,
)
    requires
        forall|i: int| 0 <= i < s.len() ==> hit(qx, qy, qw, qh, #[trigger] s[i]),
    ensures
        hits(s, qx, qy, qw, qh) == s.map_values(|p: Point| p.id),
    decreases s.len(),
{
    if s.len() == 0 {
        assert(hits(s, qx, qy, qw, qh) =~= s.map_values(|p: Point| p.id));
    } else {
        let rest = s.subrange(1, s.len() as int);
        lemma_query_covering_returns_all(rest, qx, qy, qw, qh);
        assert(hits(s, qx, qy, qw, qh) =~= s.map_values(|p: Point| p.id));
    }
}

} // verus!
