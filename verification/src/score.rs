//! Scores and the filters that compare them against a threshold.
//!
//! A score is held as the bit pattern of a binary64 floating point number,
//! so that no precision is lost between the source of the scores and the
//! comparison. The top bit of a pattern is the sign; the other 63 bits, its
//! magnitude, hold an exponent above a fraction. A magnitude beyond that of
//! infinity is not a number and compares with nothing. The other patterns
//! are compared by rank, the magnitude with its sign: both zeros have the
//! rank zero, and `lemma_ranks_order_as_numbers` shows that ranks are
//! ordered as the numbers that exponent and fraction stand for.

use vstd::arithmetic::power2::{
    lemma_pow2_pos, lemma_pow2_strictly_increases, lemma_pow2_unfold, pow2,
};
use vstd::prelude::*;

verus! {

/// The sign bit of a score's pattern.
pub const SIGN_BIT: u64 = 0x8000_0000_0000_0000;

/// The magnitude of infinity; a larger magnitude is not a number.
pub const INFINITY_MAGNITUDE: u64 = 0x7ff0_0000_0000_0000;

/// The number of fractions under one exponent: two to the power of 52.
pub const FRACTIONS: u64 = 0x10_0000_0000_0000;

/// A score, as the bit pattern of a binary64 number.
#[derive(Clone, Copy, Debug)]
pub struct Score {
    bits: u64,
}

/// The comparison that a score filter makes.
#[derive(Clone, Copy, Debug, PartialEq, Eq, Structural)]
pub enum Comparator {
    Less,
    LessOrEqual,
    Equal,
    GreaterOrEqual,
    Greater,
}

/// A predicate on scores: the score stands on the left of the operator, the
/// threshold on its right.
#[derive(Clone, Copy, Debug)]
pub struct ScoreFilter {
    pub operator: Comparator,
    pub threshold: Score,
}

/// What a score filter means: an operator and the rank of its threshold,
/// absent when the threshold is not a number.
pub struct ScoreFilterView {
    pub operator: Comparator,
    pub threshold: Option<int>,
}

/// The pattern without its sign bit.
pub open spec fn magnitude_of(bits: u64) -> int {
    if bits >= SIGN_BIT {
        bits - SIGN_BIT
    } else {
        bits as int
    }
}

/// The place of a pattern on the number line, when it stands for a number:
/// its magnitude, negated under a sign bit. Ranks are ordered as the numbers
/// that the patterns stand for, and both zeros have the rank zero.
pub open spec fn rank_of(bits: u64) -> Option<int> {
    if magnitude_of(bits) > INFINITY_MAGNITUDE {
        None
    } else if bits >= SIGN_BIT {
        Some(-magnitude_of(bits))
    } else {
        Some(magnitude_of(bits))
    }
}

/// The number that a magnitude stands for, counted in steps of the smallest
/// positive number, which is two to the power of -1074. Below the first
/// exponent the fraction counts the steps; from there on the fraction, with
/// a leading one before it, is doubled with each exponent. Infinity counts
/// as the number that would follow the largest finite exponent.
pub open spec fn steps_of(magnitude: int) -> int {
    let exponent = magnitude / (FRACTIONS as int);
    let fraction = magnitude % (FRACTIONS as int);
    if exponent == 0 {
        fraction
    } else {
        (FRACTIONS + fraction) * pow2((exponent - 1) as nat)
    }
}

/// The number that a rank stands for, in the same steps.
pub open spec fn number_of(rank: int) -> int {
    if rank < 0 {
        -steps_of(-rank)
    } else {
        steps_of(rank)
    }
}

/// A larger magnitude stands for a larger number.
proof fn lemma_steps_increase(smaller: int, larger: int)
    requires
        0 <= smaller < larger,
    ensures
        0 <= steps_of(smaller) < steps_of(larger),
{
    let unit = FRACTIONS as int;
    let low_exponent = smaller / unit;
    let low_fraction = smaller % unit;
    let high_exponent = larger / unit;
    let high_fraction = larger % unit;
    assert(low_exponent <= high_exponent);
    if low_exponent > 0 {
        lemma_pow2_pos((low_exponent - 1) as nat);
    }
    lemma_pow2_pos((high_exponent - 1) as nat);
    let low_power = pow2((low_exponent - 1) as nat) as int;
    let high_power = pow2((high_exponent - 1) as nat) as int;
    if low_exponent == high_exponent {
        if low_exponent > 0 {
            assert((unit + low_fraction) * low_power < (unit + high_fraction) * low_power)
                by (nonlinear_arith)
                requires
                    low_fraction < high_fraction,
                    low_power > 0,
            ;
            assert(0 <= (unit + low_fraction) * low_power) by (nonlinear_arith)
                requires
                    0 <= unit + low_fraction,
                    low_power > 0,
            ;
        }
    } else {
        assert(unit * 1 <= (unit + high_fraction) * high_power) by (nonlinear_arith)
            requires
                unit > 0,
                0 <= high_fraction,
                high_power >= 1,
        ;
        if low_exponent > 0 {
            lemma_pow2_unfold(low_exponent as nat);
            if low_exponent < high_exponent - 1 {
                lemma_pow2_strictly_increases(low_exponent as nat, (high_exponent - 1) as nat);
            }
            let doubled = pow2(low_exponent as nat) as int;
            assert(doubled <= high_power);
            assert((unit + low_fraction) * low_power < unit * doubled) by (nonlinear_arith)
                requires
                    0 <= low_fraction < unit,
                    low_power > 0,
                    doubled == 2 * low_power,
            ;
            assert(unit * doubled <= (unit + high_fraction) * high_power) by (nonlinear_arith)
                requires
                    unit > 0,
                    0 <= high_fraction,
                    0 < doubled <= high_power,
            ;
            assert(0 <= (unit + low_fraction) * low_power) by (nonlinear_arith)
                requires
                    0 <= unit + low_fraction,
                    low_power > 0,
            ;
        }
    }
}

/// Ranks are ordered as the numbers they stand for: the smaller rank stands
/// for the smaller number, and two ranks stand for one number only when
/// they are equal.
pub proof fn lemma_ranks_order_as_numbers(left: int, right: int)
    ensures
        left < right <==> number_of(left) < number_of(right),
        left == right <==> number_of(left) == number_of(right),
{
    if left < right {
        lemma_rank_order(left, right);
    }
    if right < left {
        lemma_rank_order(right, left);
    }
}

/// The smaller of two ranks stands for the smaller number.
proof fn lemma_rank_order(smaller: int, larger: int)
    requires
        smaller < larger,
    ensures
        number_of(smaller) < number_of(larger),
{
    if smaller >= 0 {
        lemma_steps_increase(smaller, larger);
    } else if larger < 0 {
        lemma_steps_increase(-larger, -smaller);
    } else {
        lemma_steps_increase(0, -smaller);
        if larger > 0 {
            lemma_steps_increase(0, larger);
        }
    }
}

impl Score {
    /// The bit pattern that the score was made from.
    pub closed spec fn bits(self) -> u64 {
        self.bits
    }

    /// A score from the bit pattern of a binary64 number.
    pub fn from_bits(bits: u64) -> (score: Score)
        ensures
            score.bits() == bits,
    {
        Score { bits }
    }

    /// The bit pattern of the score.
    pub fn to_bits(&self) -> (bits: u64)
        ensures
            bits == self.bits(),
    {
        self.bits
    }

    /// The rank of the score, or `None` when it is not a number.
    pub fn rank(&self) -> (rank: Option<i64>)
        ensures
            rank is Some == self@ is Some,
            rank matches Some(r) ==> self@ == Some(r as int),
    {
        if self.bits >= SIGN_BIT {
            let magnitude: u64 = self.bits - SIGN_BIT;
            if magnitude > INFINITY_MAGNITUDE {
                None
            } else {
                Some(-(magnitude as i64))
            }
        } else if self.bits > INFINITY_MAGNITUDE {
            None
        } else {
            Some(self.bits as i64)
        }
    }
}

impl View for Score {
    type V = Option<int>;

    /// The rank of the score, absent when the score is not a number.
    open spec fn view(&self) -> Option<int> {
        rank_of(self.bits())
    }
}

impl Comparator {
    /// Whether the comparison holds between two ranks.
    pub open spec fn holds(self, left: int, right: int) -> bool {
        match self {
            Comparator::Less => left < right,
            Comparator::LessOrEqual => left <= right,
            Comparator::Equal => left == right,
            Comparator::GreaterOrEqual => left >= right,
            Comparator::Greater => left > right,
        }
    }

    /// The characters that an operator is written with.
    pub open spec fn symbol(self) -> Seq<char> {
        match self {
            Comparator::Less => seq!['<'],
            Comparator::LessOrEqual => seq!['<', '='],
            Comparator::Equal => seq!['='],
            Comparator::GreaterOrEqual => seq!['>', '='],
            Comparator::Greater => seq!['>'],
        }
    }

    /// Reads an operator from its symbol: `<`, `<=`, `=`, `>=` or `>`.
    /// Any other text is no operator.
    pub fn from_symbol(text: &str) -> (operator: Option<Comparator>)
        ensures
            (match operator {
                Some(op) => text@ == op.symbol(),
                None => forall|op: Comparator| text@ != op.symbol(),
            }),
    {
        let n = text.unicode_len();
        if n == 1 {
            let c = text.get_char(0);
            let found = if c == '<' {
                Some(Comparator::Less)
            } else if c == '=' {
                Some(Comparator::Equal)
            } else if c == '>' {
                Some(Comparator::Greater)
            } else {
                None
            };
            proof {
                match found {
                    Some(op) => {
                        assert(text@ =~= op.symbol());
                    },
                    None => {
                        assert forall|op: Comparator| text@ != op.symbol() by {
                            assert(op.symbol().len() == 1 ==> op.symbol()[0] != c);
                        }
                    },
                }
            }
            found
        } else if n == 2 {
            let c = text.get_char(0);
            let d = text.get_char(1);
            let found = if d != '=' {
                None
            } else if c == '<' {
                Some(Comparator::LessOrEqual)
            } else if c == '>' {
                Some(Comparator::GreaterOrEqual)
            } else {
                None
            };
            proof {
                match found {
                    Some(op) => {
                        assert(text@ =~= op.symbol());
                    },
                    None => {
                        assert forall|op: Comparator| text@ != op.symbol() by {
                            assert(op.symbol().len() == 2 ==> op.symbol()[0] != c
                                || op.symbol()[1] != d);
                        }
                    },
                }
            }
            found
        } else {
            proof {
                assert forall|op: Comparator| text@ != op.symbol() by {
                    assert(op.symbol().len() == 1 || op.symbol().len() == 2);
                }
            }
            None
        }
    }
}

impl View for ScoreFilter {
    type V = ScoreFilterView;

    open spec fn view(&self) -> ScoreFilterView {
        ScoreFilterView { operator: self.operator, threshold: self.threshold@ }
    }
}

impl DeepView for ScoreFilter {
    type V = ScoreFilterView;

    open spec fn deep_view(&self) -> ScoreFilterView {
        self@
    }
}

/// The rank that a record's score gives: absent when the record has no
/// score, or one that is not a number.
pub open spec fn score_rank(score: Option<Score>) -> Option<int> {
    match score {
        Some(s) => s@,
        None => None,
    }
}

/// Whether a score passes a filter: score and threshold are both numbers,
/// and the filter's comparison holds with the score on the left and the
/// threshold on the right. A score that is absent passes no filter.
pub open spec fn satisfies(score: Option<int>, filter: ScoreFilterView) -> bool {
    match (score, filter.threshold) {
        (Some(s), Some(t)) => filter.operator.holds(s, t),
        _ => false,
    }
}

impl ScoreFilter {
    /// Decides whether a score, which may be missing, passes the filter.
    pub fn admits(&self, score: Option<Score>) -> (passed: bool)
        ensures
            passed == satisfies(score_rank(score), self@),
    {
        let left = match score {
            Some(s) => s.rank(),
            None => None,
        };
        let right = self.threshold.rank();
        match (left, right) {
            (Some(s), Some(t)) => match self.operator {
                Comparator::Less => s < t,
                Comparator::LessOrEqual => s <= t,
                Comparator::Equal => s == t,
                Comparator::GreaterOrEqual => s >= t,
                Comparator::Greater => s > t,
            },
            _ => false,
        }
    }
}

/// A score that is not a number passes no filter, and a threshold that is
/// not a number admits no score.
pub proof fn lemma_not_a_number_fails_every_filter(score: Option<int>, filter: ScoreFilterView)
    requires
        score is None || filter.threshold is None,
    ensures
        !satisfies(score, filter),
{
}

} // verus!
