//! Quadrant directions around a grid vertex, and the classification of a
//! vertex by which of its quadrants face a blocked tile.
use vstd::prelude::*;

verus! {

/// The line along which a compass side lies.
#[derive(Clone, Copy, Debug, PartialEq, Eq, Structural)]
pub enum CardinalAxis {
    Vert,
    Horz,
}

/// The diagonal along which an ordinal lies: `Inc` runs southwest to
/// northeast, `Dec` runs northwest to southeast.
#[derive(Clone, Copy, Debug, PartialEq, Eq, Structural)]
pub enum OrdinalAxis {
    Inc,
    Dec,
}

impl OrdinalAxis {
    /// The two ordinals on this diagonal, the northern one first.
    pub open spec fn pair(self) -> (Ordinal, Ordinal) {
        match self {
            OrdinalAxis::Inc => (Ordinal::Northeast, Ordinal::Southwest),
            OrdinalAxis::Dec => (Ordinal::Northwest, Ordinal::Southeast),
        }
    }

    /// The other diagonal.
    pub fn neg(self) -> (r: Self)
        ensures
            r != self,
    {
        match self {
            Self::Inc => Self::Dec,
            Self::Dec => Self::Inc,
        }
    }

    /// The two ordinals on this diagonal, the northern one first.
    pub fn ordinals(self) -> (r: [Ordinal; 2])
        ensures
            r@ == seq![self.pair().0, self.pair().1],
            r[0].axis_of() == self && r[1].axis_of() == self,
            r[0].is_north() && r[1] == r[0].opposite(),
    {
        match self {
            Self::Inc => [Ordinal::Northeast, Ordinal::Southwest],
            Self::Dec => [Ordinal::Northwest, Ordinal::Southeast],
        }
    }
}

/// A compass side.
#[derive(Clone, Copy, Debug, PartialEq, Eq, Structural)]
pub enum Cardinal {
    East,
    North,
    South,
    West,
}

impl Cardinal {
    pub open spec fn axis_of(self) -> CardinalAxis {
        match self {
            Cardinal::North | Cardinal::South => CardinalAxis::Vert,
            Cardinal::East | Cardinal::West => CardinalAxis::Horz,
        }
    }

    /// `Vert` for north and south, `Horz` for east and west.
    pub fn axis(self) -> (r: CardinalAxis)
        ensures
            r == self.axis_of(),
    {
        match self {
            Self::North | Self::South => CardinalAxis::Vert,
            Self::East | Self::West => CardinalAxis::Horz,
        }
    }
}

/// One of the four diagonal quadrants around a grid vertex.
#[derive(Clone, Copy, Debug, PartialEq, Eq, Structural)]
pub enum Ordinal {
    Northeast,
    Northwest,
    Southeast,
    Southwest,
}

impl Ordinal {
    pub open spec fn is_north(self) -> bool {
        self == Ordinal::Northeast || self == Ordinal::Northwest
    }

    pub open spec fn is_east(self) -> bool {
        self == Ordinal::Northeast || self == Ordinal::Southeast
    }

    /// The ordinal whose two parts are `north` and `east`.
    pub open spec fn from_parts(north: bool, east: bool) -> Ordinal {
        if north {
            if east { Ordinal::Northeast } else { Ordinal::Northwest }
        } else {
            if east { Ordinal::Southeast } else { Ordinal::Southwest }
        }
    }

    pub open spec fn axis_of(self) -> OrdinalAxis {
        if self.is_north() == self.is_east() { OrdinalAxis::Inc } else { OrdinalAxis::Dec }
    }

    /// The point reflection through the vertex.
    pub open spec fn opposite(self) -> Ordinal {
        Ordinal::from_parts(!self.is_north(), !self.is_east())
    }

    /// Whether `side` is one of the two sides that this ordinal lies between.
    pub open spec fn has_side(self, side: Cardinal) -> bool {
        match side {
            Cardinal::North => self.is_north(),
            Cardinal::South => !self.is_north(),
            Cardinal::East => self.is_east(),
            Cardinal::West => !self.is_east(),
        }
    }

    /// The mirror image across the line `axis` (a vertical line flips east and west).
    pub open spec fn mirrored(self, axis: CardinalAxis) -> Ordinal {
        match axis {
            CardinalAxis::Vert => Ordinal::from_parts(self.is_north(), !self.is_east()),
            CardinalAxis::Horz => Ordinal::from_parts(!self.is_north(), self.is_east()),
        }
    }

    pub fn axis(self) -> (r: OrdinalAxis)
        ensures
            r == self.axis_of(),
    {
        match self {
            Self::Northeast | Self::Southwest => OrdinalAxis::Inc,
            Self::Northwest | Self::Southeast => OrdinalAxis::Dec,
        }
    }

    pub fn neg(self) -> (r: Self)
        ensures
            r == self.opposite(),
    {
        match self {
            Self::Northeast => Self::Southwest,
            Self::Northwest => Self::Southeast,
            Self::Southeast => Self::Northwest,
            Self::Southwest => Self::Northeast,
        }
    }

    pub fn contains_cardinal(self, other: Cardinal) -> (r: bool)
        ensures
            r == self.has_side(other),
    {
        match (self, other) {
            (Self::Northeast, Cardinal::North)
            | (Self::Northeast, Cardinal::East)
            | (Self::Northwest, Cardinal::North)
            | (Self::Northwest, Cardinal::West)
            | (Self::Southeast, Cardinal::South)
            | (Self::Southeast, Cardinal::East)
            | (Self::Southwest, Cardinal::South)
            | (Self::Southwest, Cardinal::West) => true,
            _ => false,
        }
    }

    /// The side shared by two adjacent ordinals; none for equal or opposite ones.
    pub fn shared_cardinal(self, other: Self) -> (r: Option<Cardinal>)
        ensures
            r.is_some() <==> ((self.is_north() == other.is_north()) != (self.is_east()
                == other.is_east())),
            r matches Some(c) ==> self.has_side(c) && other.has_side(c),
    {
        match (self, other) {
            (Self::Northeast, Self::Northwest) | (Self::Northwest, Self::Northeast) => {
                Some(Cardinal::North)
            },
            (Self::Southeast, Self::Southwest) | (Self::Southwest, Self::Southeast) => {
                Some(Cardinal::South)
            },
            (Self::Northeast, Self::Southeast) | (Self::Southeast, Self::Northeast) => {
                Some(Cardinal::East)
            },
            (Self::Northwest, Self::Southwest) | (Self::Southwest, Self::Northwest) => {
                Some(Cardinal::West)
            },
            _ => None,
        }
    }

    pub fn reflect(self, other: CardinalAxis) -> (r: Self)
        ensures
            r == self.mirrored(other),
    {
        match (self, other) {
            (Self::Northeast, CardinalAxis::Vert) | (Self::Southwest, CardinalAxis::Horz) => {
                Self::Northwest
            },
            (Self::Northeast, CardinalAxis::Horz) | (Self::Southwest, CardinalAxis::Vert) => {
                Self::Southeast
            },
            (Self::Northwest, CardinalAxis::Vert) | (Self::Southeast, CardinalAxis::Horz) => {
                Self::Northeast
            },
            (Self::Northwest, CardinalAxis::Horz) | (Self::Southeast, CardinalAxis::Vert) => {
                Self::Southwest
            },
        }
    }

    /// Whether this ordinal points north, and whether it points east.
    pub fn parts(self) -> (r: (bool, bool))
        ensures
            r == (self.is_north(), self.is_east()),
    {
        match self {
            Self::Northeast => (true, true),
            Self::Northwest => (true, false),
            Self::Southeast => (false, true),
            Self::Southwest => (false, false),
        }
    }
}

/// The classification of a grid vertex by its set of normals. A normal is an
/// ordinal pointing away from a blocked quadrant: the quadrant in direction
/// `o.opposite()` is blocked exactly when `o` is in the set.
#[derive(Clone, Copy, Debug, PartialEq, Eq, Structural)]
pub enum VertexNormal {
    Open,
    One(Ordinal),
    TwoAdj(Cardinal),
    TwoDiag(OrdinalAxis),
    /// Three normals; the payload is the one whose opposite is missing.
    Three(Ordinal),
    Four,
}

impl VertexNormal {
    pub open spec fn has_normal(self, o: Ordinal) -> bool {
        match self {
            VertexNormal::Open => false,
            VertexNormal::One(p) => o == p,
            VertexNormal::TwoAdj(side) => o.has_side(side),
            VertexNormal::TwoDiag(axis) => o.axis_of() == axis,
            VertexNormal::Three(p) => o != p.opposite(),
            VertexNormal::Four => true,
        }
    }

    /// The set of normals that this classification stands for.
    pub open spec fn normal_set(self) -> Set<Ordinal> {
        Set::new(|o: Ordinal| self.has_normal(o))
    }

    /// The classification of the vertex whose normals are given by the four flags.
    pub open spec fn from_flags(ne: bool, nw: bool, se: bool, sw: bool) -> VertexNormal {
        let n = (if ne { 1int } else { 0 }) + (if nw { 1int } else { 0 }) + (if se { 1int } else { 0 })
            + (if sw { 1int } else { 0 });
        if n == 0 {
            VertexNormal::Open
        } else if n == 4 {
            VertexNormal::Four
        } else if n == 1 {
            VertexNormal::One(
                if ne { Ordinal::Northeast } else if nw { Ordinal::Northwest } else if se {
                    Ordinal::Southeast
                } else { Ordinal::Southwest },
            )
        } else if n == 3 {
            VertexNormal::Three(
                if !sw { Ordinal::Northeast } else if !se { Ordinal::Northwest } else if !nw {
                    Ordinal::Southeast
                } else { Ordinal::Southwest },
            )
        } else if ne && nw {
            VertexNormal::TwoAdj(Cardinal::North)
        } else if se && sw {
            VertexNormal::TwoAdj(Cardinal::South)
        } else if ne && se {
            VertexNormal::TwoAdj(Cardinal::East)
        } else if nw && sw {
            VertexNormal::TwoAdj(Cardinal::West)
        } else if ne {
            VertexNormal::TwoDiag(OrdinalAxis::Inc)
        } else {
            VertexNormal::TwoDiag(OrdinalAxis::Dec)
        }
    }

    /// The offset points of this vertex, each with the ordinal it faces and
    /// whether it lies on the inner side of the boundary.
    pub open spec fn emitted(self) -> Seq<(Ordinal, bool)> {
        match self {
            VertexNormal::One(o) => seq![(o, false)],
            VertexNormal::TwoDiag(axis) => {
                let other = if axis == OrdinalAxis::Inc { OrdinalAxis::Dec } else { OrdinalAxis::Inc };
                seq![(other.pair().0, true), (other.pair().1, true)]
            },
            VertexNormal::Three(o) => seq![(o, true)],
            _ => seq![],
        }
    }

    /// The offset points of this vertex (see `emitted`).
    pub fn normals(self) -> (r: Vec<(Ordinal, bool)>)
        ensures
            r@ == self.emitted(),
    {
        match self {
            Self::One(ordinal) => vec![(ordinal, false)],
            Self::TwoDiag(axis) => {
                let pair = axis.neg().ordinals();
                vec![(pair[0], true), (pair[1], true)]
            },
            Self::Three(ordinal) => vec![(ordinal, true)],
            _ => Vec::new(),
        }
    }

    /// Adds a normal that the vertex does not have yet. Every such addition is
    /// defined, whatever the current classification.
    pub fn add(self, rhs: Ordinal) -> (r: Self)
        requires
            !self.has_normal(rhs),
        ensures
            r.normal_set() == self.normal_set().insert(rhs),
    {
        let r = match self {
            Self::Open => Self::One(rhs),
            Self::One(lhs) => match lhs.shared_cardinal(rhs) {
                Some(side) => Self::TwoAdj(side),
                None => Self::TwoDiag(lhs.axis()),
            },
            Self::TwoAdj(dir) => Self::Three(rhs.reflect(dir.axis()).neg()),
            Self::TwoDiag(_) => Self::Three(rhs),
            Self::Three(_) | Self::Four => Self::Four,
        };
        assert(r.normal_set() =~= self.normal_set().insert(rhs));
        r
    }

    pub fn add_assn(&mut self, rhs: Ordinal)
        requires
            !old(self).has_normal(rhs),
        ensures
            final(self).normal_set() == old(self).normal_set().insert(rhs),
    {
        *self = self.add(rhs);
    }
}

/// A classification is determined by its set of normals: whatever order the
/// normals were added in, the same set gives the same classification.
pub proof fn lemma_normal_set_determines(a: VertexNormal, b: VertexNormal)
    requires
        a.normal_set() == b.normal_set(),
    ensures
        a == b,
{
    assert forall|o: Ordinal| a.has_normal(o) == b.has_normal(o) by {
        assert(a.normal_set().contains(o) == a.has_normal(o));
        assert(b.normal_set().contains(o) == b.has_normal(o));
    }
    lemma_from_flags(a);
    lemma_from_flags(b);
}

/// Every classification is the one that its four normal flags give.
pub proof fn lemma_from_flags(v: VertexNormal)
    ensures
        v == VertexNormal::from_flags(
            v.has_normal(Ordinal::Northeast),
            v.has_normal(Ordinal::Northwest),
            v.has_normal(Ordinal::Southeast),
            v.has_normal(Ordinal::Southwest),
        ),
{
}

} // verus!
