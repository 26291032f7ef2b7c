//! The binding-power table of the expression parser.

use vstd::prelude::*;

verus! {

/// The priority levels of the expression grammar, from the loosest to the
/// tightest.
#[derive(Debug, Clone, Copy, PartialEq, Eq, Structural)]
pub enum Precedence {
    /// The level of every token that is no operator.
    Lowest,
    /// `=`, `=+`, `=-` and the other assignments.
    Assignment,
    /// `?:`
    Ternary,
    BitOr,
    BitXor,
    BitAnd,
    /// `==`, `!=`
    Equality,
    /// `<`, `>`, `<=`, `>=`
    Comparison,
    Shift,
    Addition,
    Multiplication,
    /// Prefix operators.
    Unary,
    /// Postfix operators, calls and indexing.
    Postfix,
}

impl Precedence {
    /// The place of the level in the order of the levels, counted from zero.
    pub open spec fn rank(self) -> nat {
        match self {
            Precedence::Lowest => 0,
            Precedence::Assignment => 1,
            Precedence::Ternary => 2,
            Precedence::BitOr => 3,
            Precedence::BitXor => 4,
            Precedence::BitAnd => 5,
            Precedence::Equality => 6,
            Precedence::Comparison => 7,
            Precedence::Shift => 8,
            Precedence::Addition => 9,
            Precedence::Multiplication => 10,
            Precedence::Unary => 11,
            Precedence::Postfix => 12,
        }
    }

    /// Whether an operator of this level takes a left and a right operand and
    /// groups to the left.
    pub open spec fn is_left_associative(self) -> bool {
        3 <= self.rank() <= 10
    }

    /// Whether an operator of this level takes a left and a right operand and
    /// groups to the right.
    pub open spec fn is_right_associative(self) -> bool {
        self == Precedence::Assignment || self == Precedence::Ternary
    }

    /// The left and the right binding power of the level.
    ///
    /// The powers rise with the levels, and no two levels share one. A level
    /// that groups to the right has equal powers; one that groups to the left
    /// has a left power one above its right power.
    ///
    /// An operator is taken as the continuation of an operand while its left
    /// power exceeds the limit the operand is parsed under. The operand of a
    /// prefix operator is parsed under the right power of `Unary`. The right
    /// operand of an operator between two operands is not parsed under the
    /// right power of its level: with this table and that test, a level with a
    /// left power above its right one would take its own operators into its
    /// right operand and group to the right, and a level with equal powers
    /// would leave a chain of its operators to the left. It is parsed under
    /// [`Precedence::operand_limit`], which the powers determine.
    pub open spec fn binding_power(self) -> (u8, u8) {
        match self {
            Precedence::Lowest => (0, 0),
            Precedence::Assignment => (1, 1),
            Precedence::Ternary => (2, 2),
            Precedence::BitOr => (4, 3),
            Precedence::BitXor => (6, 5),
            Precedence::BitAnd => (8, 7),
            Precedence::Equality => (10, 9),
            Precedence::Comparison => (12, 11),
            Precedence::Shift => (14, 13),
            Precedence::Addition => (16, 15),
            Precedence::Multiplication => (18, 17),
            Precedence::Unary => (19, 19),
            Precedence::Postfix => (21, 20),
        }
    }

    /// The limit under which the right operand of an operator of the level is
    /// parsed: for a level that groups to the left its left power, so that an
    /// operator of the same level ends the operand; for a level that groups
    /// to the right one below its right power, so that an operator of the
    /// same level is taken into the operand; for any other level its right
    /// power.
    pub open spec fn operand_limit(self) -> u8 {
        match self {
            Precedence::Lowest => 0,
            Precedence::Assignment => 0,
            Precedence::Ternary => 1,
            Precedence::BitOr => 4,
            Precedence::BitXor => 6,
            Precedence::BitAnd => 8,
            Precedence::Equality => 10,
            Precedence::Comparison => 12,
            Precedence::Shift => 14,
            Precedence::Addition => 16,
            Precedence::Multiplication => 18,
            Precedence::Unary => 19,
            Precedence::Postfix => 20,
        }
    }

    /// The left and the right binding power of the level.
    pub fn bp(self) -> (powers: (u8, u8))
        ensures
            powers == self.binding_power(),
    {
        match self {
            Precedence::Lowest => (0, 0),
            Precedence::Assignment => (1, 1),
            Precedence::Ternary => (2, 2),
            Precedence::BitOr => (4, 3),
            Precedence::BitXor => (6, 5),
            Precedence::BitAnd => (8, 7),
            Precedence::Equality => (10, 9),
            Precedence::Comparison => (12, 11),
            Precedence::Shift => (14, 13),
            Precedence::Addition => (16, 15),
            Precedence::Multiplication => (18, 17),
            Precedence::Unary => (19, 19),
            Precedence::Postfix => (21, 20),
        }
    }

    /// The limit under which the right operand of an operator of the level is
    /// parsed.
    pub fn limit(self) -> (limit: u8)
        ensures
            limit == self.operand_limit(),
    {
        let (left, right) = self.bp();
        match self {
            Precedence::Assignment | Precedence::Ternary => right - 1,
            Precedence::BitOr
            | Precedence::BitXor
            | Precedence::BitAnd
            | Precedence::Equality
            | Precedence::Comparison
            | Precedence::Shift
            | Precedence::Addition
            | Precedence::Multiplication => left,
            _ => right,
        }
    }
}

/// The levels are strictly ordered and no two share a binding power: both
/// powers of a level lie below both powers of every later level. The level
/// `Lowest` has the powers zero.
pub proof fn lemma_levels_ordered(looser: Precedence, tighter: Precedence)
    requires
        looser.rank() < tighter.rank(),
    ensures
        looser.binding_power().0 < tighter.binding_power().0,
        looser.binding_power().0 < tighter.binding_power().1,
        looser.binding_power().1 < tighter.binding_power().0,
        looser.binding_power().1 < tighter.binding_power().1,
        Precedence::Lowest.binding_power() == (0u8, 0u8),
{
}

/// A level that groups to the right has equal powers, and a level that
/// groups to the left has a left power one above its right power.
pub proof fn lemma_power_gaps(level: Precedence)
    ensures
        level.is_right_associative() ==> level.binding_power().0 == level.binding_power().1,
        level.is_left_associative() ==> level.binding_power().0 == level.binding_power().1 + 1,
{
}

/// The limit of the right operand is given by the powers: the left power
/// for a level that groups to the left, one below the right power for a
/// level that groups to the right, and the right power for any other level.
pub proof fn lemma_operand_limit(level: Precedence)
    ensures
        level.is_left_associative() ==> level.operand_limit() == level.binding_power().0,
        level.is_right_associative() ==> level.operand_limit() == level.binding_power().1 - 1,
        !level.is_left_associative() && !level.is_right_associative() ==> level.operand_limit()
            == level.binding_power().1,
{
}

/// A level that groups to the left does not take an operator of its own level
/// into its right operand; a level that groups to the right does.
pub proof fn lemma_associativity(level: Precedence)
    ensures
        level.is_left_associative() ==> !(level.binding_power().0 > level.operand_limit()),
        level.is_right_associative() ==> level.binding_power().0 > level.operand_limit(),
{
}

/// A looser operator is never taken into the right operand of a tighter or an
/// equally tight one that groups to the left: it ends that operand.
pub proof fn lemma_looser_ends_operand(operator: Precedence, next: Precedence)
    requires
        operator.is_left_associative(),
        next.rank() <= operator.rank(),
    ensures
        !(next.binding_power().0 > operator.operand_limit()),
{
}

/// A tighter operator is taken into the operand of a looser one: into the
/// right operand of an operator between two operands and into the operand of
/// a prefix operator.
pub proof fn lemma_tighter_is_taken(operator: Precedence, next: Precedence)
    requires
        operator.rank() < next.rank(),
    ensures
        next.binding_power().0 > operator.operand_limit(),
{
}

} // verus!
