use vstd::prelude::*;

verus! {

/// Positions and displacements are kept in thousandths of a distance unit, so
/// every computation on them is exact integer arithmetic.
pub const UNIT: i32 = 1000;

/// Half-extent of the rectangular domain on the x axis (five units).
pub const HALF_WIDTH: i32 = 5000;

/// Half-extent of the rectangular domain on the y axis (five units).
pub const HALF_HEIGHT: i32 = 5000;

/// Squared collision radius: a quarter of a unit (250 thousandths), squared.
pub const COLLIDE_DIST_SQ: i64 = 62500;

/// A point particle: a mutable position and a stable identity, assigned at
/// creation as the particle's position in its collection and never changed.
#[derive(Debug, Copy, Clone, PartialEq, Eq, Structural)]
pub struct Particle {
    pub x: i32,
    pub y: i32,
    pub id: usize,
}

/// Squared Euclidean distance between two particle positions.
pub open spec fn sq_dist(a: Particle, b: Particle) -> int {
    (b.x - a.x) * (b.x - a.x) + (b.y - a.y) * (b.y - a.y)
}

/// Two particles are in proximity when their squared distance is at most the
/// squared collision radius.
pub open spec fn proximate(a: Particle, b: Particle) -> bool {
    sq_dist(a, b) <= COLLIDE_DIST_SQ
}

/// The particle lies inside the rectangular domain.
pub open spec fn in_bounds(p: Particle) -> bool {
    &&& -HALF_WIDTH <= p.x <= HALF_WIDTH
    &&& -HALF_HEIGHT <= p.y <= HALF_HEIGHT
}

impl Particle {
    pub fn new(x_param: i32, y_param: i32, id_param: usize) -> (p: Particle)
        ensures
            p == (Particle { x: x_param, y: y_param, id: id_param }),
    {
        Particle { x: x_param, y: y_param, id: id_param }
    }

    /// The pairwise proximity predicate: true iff `other` lies within the
    /// collision radius of `self`.
    pub fn collide(&self, other: &Particle) -> (r: bool)
        ensures
            r == proximate(*self, *other),
    {
        let dx: i64 = other.x as i64 - self.x as i64;
        let dy: i64 = other.y as i64 - self.y as i64;
        proof {
            assert(dx * dx < 0x10000000000000000i128 && dy * dy < 0x10000000000000000i128
                && dx * dx >= 0 && dy * dy >= 0) by (nonlinear_arith)
                requires
                    -0x100000000i64 < dx < 0x100000000i64,
                    -0x100000000i64 < dy < 0x100000000i64,
            ;
        }
        let d2: i128 = (dx as i128) * (dx as i128) + (dy as i128) * (dy as i128);
        d2 <= COLLIDE_DIST_SQ as i128
    }
}

/// Self-proximity always holds: the squared distance of a particle to itself
/// is zero, and the squared collision radius is not negative.
pub proof fn lemma_proximity_self(a: Particle)
    ensures
        proximate(a, a),
{
    assert(sq_dist(a, a) == 0);
}

/// The proximity predicate is symmetric in its two arguments.
pub proof fn lemma_proximity_symmetric(a: Particle, b: Particle)
    ensures
        proximate(a, b) == proximate(b, a),
{
    assert(sq_dist(a, b) == sq_dist(b, a)) by (nonlinear_arith);
}

} // verus!
