use crate::buffer::{unchanged_outside, Buffer};
use crate::math::{vec2, Vec2};
use crate::render::Render;
use vstd::prelude::*;

verus! {

/// A sizing rule for one row (its height) or one column (its width).
#[derive(Debug, Clone, Copy, PartialEq, Eq, Structural)]
pub enum Constraint {
    /// A share of the whole space, in whole percent (0 to 100). It shrinks
    /// when fixed sizes and percentages together do not fit.
    Percentage(u16),
    /// Exactly this many units.
    Fixed(u16),
    /// At least `min` units and, when space is handed out, at most `max`.
    Range { min: u16, max: u16 },
    /// At least this many units; it may grow without bound.
    Min(u16),
    /// It may grow up to this many units, starting from none.
    Max(u16),
    /// Takes a share of the space left over, split evenly with the others.
    Flexible,
}

/// The ways in which a layout can fail.
#[derive(Debug, Clone, Copy, PartialEq, Eq, Structural)]
pub enum LayoutError {
    /// The fixed sizes, or the fixed sizes with the minimums, exceed the space.
    InsufficientSpace,
    /// A percentage is above 100, or the percentages add up to more than 100.
    InvalidPercentages,
    /// Kept for constraints that can never be met together; never returned yet.
    ConstraintConflict,
}

/// A rectangular area: its top-left corner and its size.
#[derive(Debug, Clone, Copy, PartialEq, Eq, Structural)]
pub struct Rect {
    /// The column of the top-left corner.
    pub x: u16,
    /// The row of the top-left corner.
    pub y: u16,
    /// The width of the rectangle.
    pub width: u16,
    /// The height of the rectangle.
    pub height: u16,
}

impl Rect {
    /// Creates a rectangle from its corner and its size.
    pub fn new(x: u16, y: u16, width: u16, height: u16) -> (r: Rect)
        ensures
            r == (Rect { x, y, width, height }),
    {
        Rect { x, y, width, height }
    }

    /// The top-left corner.
    pub fn position(&self) -> (r: Vec2)
        ensures
            r == (Vec2 { x: self.x, y: self.y }),
    {
        vec2(self.x, self.y)
    }

    /// The size.
    pub fn size(&self) -> (r: Vec2)
        ensures
            r == (Vec2 { x: self.width, y: self.height }),
    {
        vec2(self.width, self.height)
    }

    /// The corner just past the bottom-right cell.
    pub fn bottom_right(&self) -> (r: Vec2)
        requires
            self.x + self.width <= 0xffff,
            self.y + self.height <= 0xffff,
        ensures
            r == (Vec2 { x: (self.x + self.width) as u16, y: (self.y + self.height) as u16 }),
    {
        vec2(self.x + self.width, self.y + self.height)
    }

    /// The centre, rounded towards the top-left.
    pub fn center(&self) -> (r: Vec2)
        requires
            self.x + self.width / 2 <= 0xffff,
            self.y + self.height / 2 <= 0xffff,
        ensures
            r == (Vec2 {
                x: (self.x + self.width / 2) as u16,
                y: (self.y + self.height / 2) as u16,
            }),
    {
        vec2(self.x + self.width / 2, self.y + self.height / 2)
    }

    /// The rectangle between two corners; a corner below or left of the
    /// first gives an empty extent.
    pub fn from_corners(top_left: Vec2, bottom_right: Vec2) -> (r: Rect)
        ensures
            r.x == top_left.x,
            r.y == top_left.y,
            r.width == (if bottom_right.x > top_left.x {
                bottom_right.x - top_left.x
            } else {
                0
            }),
            r.height == (if bottom_right.y > top_left.y {
                bottom_right.y - top_left.y
            } else {
                0
            }),
    {
        Rect {
            x: top_left.x,
            y: top_left.y,
            width: bottom_right.x.saturating_sub(top_left.x),
            height: bottom_right.y.saturating_sub(top_left.y),
        }
    }

    /// The rectangle at a position with a size.
    pub fn from_pos_size(pos: Vec2, size: Vec2) -> (r: Rect)
        ensures
            r == (Rect { x: pos.x, y: pos.y, width: size.x, height: size.y }),
    {
        Rect { x: pos.x, y: pos.y, width: size.x, height: size.y }
    }

    /// The rectangle shrunk by `padding` on every side (an extent never
    /// drops below zero).
    pub fn with_padding(&self, padding: u16) -> (r: Rect)
        requires
            self.x + padding <= 0xffff,
            self.y + padding <= 0xffff,
            2 * padding <= 0xffff,
        ensures
            r.x == self.x + padding,
            r.y == self.y + padding,
            r.width == (if self.width > 2 * padding {
                self.width - 2 * padding
            } else {
                0
            }),
            r.height == (if self.height > 2 * padding {
                self.height - 2 * padding
            } else {
                0
            }),
    {
        Rect {
            x: self.x + padding,
            y: self.y + padding,
            width: self.width.saturating_sub(padding * 2),
            height: self.height.saturating_sub(padding * 2),
        }
    }

    /// The rectangle shrunk by a padding of its own on each side.
    pub fn with_padding_sides(&self, top: u16, right: u16, bottom: u16, left: u16) -> (r: Rect)
        requires
            self.x + left <= 0xffff,
            self.y + top <= 0xffff,
            left + right <= 0xffff,
            top + bottom <= 0xffff,
        ensures
            r.x == self.x + left,
            r.y == self.y + top,
            r.width == (if self.width > left + right {
                self.width - (left + right)
            } else {
                0
            }),
            r.height == (if self.height > top + bottom {
                self.height - (top + bottom)
            } else {
                0
            }),
    {
        Rect {
            x: self.x + left,
            y: self.y + top,
            width: self.width.saturating_sub(left + right),
            height: self.height.saturating_sub(top + bottom),
        }
    }
}

impl From<Rect> for Vec2 {
    fn from(rect: Rect) -> (r: Vec2) {
        vec2(rect.x, rect.y)
    }
}

impl vstd::std_specs::convert::FromSpecImpl<Rect> for Vec2 {
    open spec fn obeys_from_spec() -> bool {
        true
    }

    open spec fn from_spec(rect: Rect) -> Vec2 {
        Vec2 { x: rect.x, y: rect.y }
    }
}

/// Creates a `Constraint::Percentage`.
pub fn percent(value: u16) -> (r: Constraint)
    ensures
        r == Constraint::Percentage(value),
{
    Constraint::Percentage(value)
}

/// Creates a `Constraint::Fixed`.
pub fn fixed(value: u16) -> (r: Constraint)
    ensures
        r == Constraint::Fixed(value),
{
    Constraint::Fixed(value)
}

/// Creates a `Constraint::Range`.
pub fn range(min_val: u16, max_val: u16) -> (r: Constraint)
    ensures
        r == (Constraint::Range { min: min_val, max: max_val }),
{
    Constraint::Range { min: min_val, max: max_val }
}

/// Creates a `Constraint::Min`.
pub fn min(value: u16) -> (r: Constraint)
    ensures
        r == Constraint::Min(value),
{
    Constraint::Min(value)
}

/// Creates a `Constraint::Max`.
pub fn max(value: u16) -> (r: Constraint)
    ensures
        r == Constraint::Max(value),
{
    Constraint::Max(value)
}

/// Creates a `Constraint::Flexible`.
pub fn flexible() -> (r: Constraint)
    ensures
        r == Constraint::Flexible,
{
    Constraint::Flexible
}

/// The percentage of a constraint (0 for any other kind).
pub open spec fn pct_of(c: Constraint) -> int {
    match c {
        Constraint::Percentage(p) => p as int,
        _ => 0,
    }
}

/// The fixed size of a constraint (0 for any other kind).
pub open spec fn fixed_of(c: Constraint) -> int {
    match c {
        Constraint::Fixed(s) => s as int,
        _ => 0,
    }
}

/// The sum of the percentages of the first `n` constraints.
pub open spec fn pct_sum(cs: Seq<Constraint>, n: int) -> int
    decreases n,
{
    if n <= 0 {
        0
    } else {
        pct_sum(cs, n - 1) + pct_of(cs[n - 1])
    }
}

/// The sum of the fixed sizes of the first `n` constraints.
pub open spec fn fixed_sum(cs: Seq<Constraint>, n: int) -> int
    decreases n,
{
    if n <= 0 {
        0
    } else {
        fixed_sum(cs, n - 1) + fixed_of(cs[n - 1])
    }
}

/// Every percentage is at most 100 and together they are at most 100.
pub open spec fn percentages_valid(cs: Seq<Constraint>) -> bool {
    &&& forall|i: int| 0 <= i < cs.len() ==> pct_of(#[trigger] cs[i]) <= 100
    &&& pct_sum(cs, cs.len() as int) <= 100
}

/// `available * p / 100`, rounded to the nearest unit (halves round up).
pub open spec fn ideal_share(available: int, p: int) -> int {
    (available * p + 50) / 100
}

/// The sum of the ideal shares of the percentages among the first `n` constraints.
pub open spec fn ideal_sum(cs: Seq<Constraint>, available: int, n: int) -> int
    decreases n,
{
    if n <= 0 {
        0
    } else {
        ideal_sum(cs, available, n - 1) + match cs[n - 1] {
            Constraint::Percentage(p) => ideal_share(available, p as int),
            _ => 0,
        }
    }
}

/// The size a constraint starts with before left-over space is handed out.
/// A percentage takes its ideal share; where fixed sizes and ideal shares
/// together exceed the space, every share is scaled by
/// `(available - fixed) / shares` and rounded down, so that they fit.
/// `Range` and `Min` start at their minimum; `Max` and `Flexible` at zero.
pub open spec fn base_size(cs: Seq<Constraint>, available: int, c: Constraint) -> int {
    let fixed = fixed_sum(cs, cs.len() as int);
    let shares = ideal_sum(cs, available, cs.len() as int);
    match c {
        Constraint::Fixed(s) => s as int,
        Constraint::Percentage(p) => if fixed + shares > available {
            ideal_share(available, p as int) * (available - fixed) / shares
        } else {
            ideal_share(available, p as int)
        },
        Constraint::Range { min, max } => min as int,
        Constraint::Min(m) => m as int,
        _ => 0,
    }
}

/// The starting sizes of all constraints.
pub open spec fn base_sizes(cs: Seq<Constraint>, available: int) -> Seq<u16> {
    Seq::new(cs.len(), |i: int| base_size(cs, available, cs[i]) as u16)
}

/// The sum of the first `n` sizes.
pub open spec fn size_sum(s: Seq<u16>, n: int) -> int
    decreases n,
{
    if n <= 0 {
        0
    } else {
        size_sum(s, n - 1) + s[n - 1]
    }
}

/// How far a constraint may grow when left-over space is handed out;
/// `None` for those that never grow (`Fixed`, `Percentage`).
pub open spec fn cap_of(c: Constraint) -> Option<int> {
    match c {
        Constraint::Range { min, max } => Some(max as int),
        Constraint::Max(m) => Some(m as int),
        Constraint::Min(_) => Some(0xffff),
        Constraint::Flexible => Some(0xffff),
        _ => None,
    }
}

/// Whether a constraint of the given current size may still grow.
pub open spec fn can_grow(c: Constraint, size: int) -> bool {
    match cap_of(c) {
        Some(cap) => size < cap,
        None => false,
    }
}

/// The number of constraints among the first `n` that may still grow.
pub open spec fn growable_count(cs: Seq<Constraint>, sizes: Seq<u16>, n: int) -> int
    decreases n,
{
    if n <= 0 {
        0
    } else {
        growable_count(cs, sizes, n - 1) + if can_grow(cs[n - 1], sizes[n - 1] as int) {
            1int
        } else {
            0
        }
    }
}

/// One round of handing out space, from constraint `i` on: each constraint
/// that may grow takes up to `per` units (no more than its cap allows and no
/// more than is left), in order. Returns the sizes and what is left.
pub open spec fn hand_out_round(
    cs: Seq<Constraint>,
    sizes: Seq<u16>,
    i: int,
    per: int,
    left: int,
) -> (Seq<u16>, int)
    decreases cs.len() - i,
{
    if i < 0 || i >= cs.len() || left <= 0 {
        (sizes, left)
    } else if can_grow(cs[i], sizes[i] as int) {
        let room = cap_of(cs[i])->0 - sizes[i];
        let add = if room < per {
            if room < left {
                room
            } else {
                left
            }
        } else if per < left {
            per
        } else {
            left
        };
        hand_out_round(cs, sizes.update(i, (sizes[i] + add) as u16), i + 1, per, left - add)
    } else {
        hand_out_round(cs, sizes, i + 1, per, left)
    }
}

/// Hands out `left` units in rounds until none is left or nothing can grow.
/// Each round gives every growable constraint `left / count` units (at least
/// one), so constraints split the space evenly and earlier ones take the
/// remainder first.
pub open spec fn hand_out(cs: Seq<Constraint>, sizes: Seq<u16>, left: int) -> Seq<u16>
    decreases left,
{
    if left <= 0 {
        sizes
    } else {
        let k = growable_count(cs, sizes, cs.len() as int);
        if k <= 0 {
            sizes
        } else {
            let per = if left / k > 1 {
                left / k
            } else {
                1
            };
            let (next, rest) = hand_out_round(cs, sizes, 0, per, left);
            if rest >= left || rest < 0 {
                next
            } else {
                hand_out(cs, next, rest)
            }
        }
    }
}

/// The sizes that `resolve_constraints` gives a list of constraints sharing
/// `available` units, or the error it reports.
pub open spec fn resolved(cs: Seq<Constraint>, available: int) -> Result<Seq<u16>, LayoutError> {
    if cs.len() == 0 {
        Ok(Seq::empty())
    } else if !percentages_valid(cs) {
        Err(LayoutError::InvalidPercentages)
    } else if fixed_sum(cs, cs.len() as int) > available {
        Err(LayoutError::InsufficientSpace)
    } else {
        let base = base_sizes(cs, available);
        let used = size_sum(base, cs.len() as int);
        if used > available {
            Err(LayoutError::InsufficientSpace)
        } else {
            Ok(hand_out(cs, base, available - used))
        }
    }
}

proof fn lemma_size_sum_update(s: Seq<u16>, n: int, i: int, v: u16)
    requires
        0 <= i < n <= s.len(),
    ensures
        size_sum(s.update(i, v), n) == size_sum(s, n) - s[i] + v,
    decreases n,
{
    if n - 1 > i {
        lemma_size_sum_update(s, n - 1, i, v);
    } else {
        lemma_size_sum_same(s, s.update(i, v), n - 1);
    }
}

proof fn lemma_size_sum_same(s: Seq<u16>, t: Seq<u16>, n: int)
    requires
        0 <= n <= s.len(),
        n <= t.len(),
        forall|j: int| 0 <= j < n ==> s[j] == t[j],
    ensures
        size_sum(s, n) == size_sum(t, n),
    decreases n,
{
    if n > 0 {
        lemma_size_sum_same(s, t, n - 1);
    }
}

proof fn lemma_round_keeps_total(
    cs: Seq<Constraint>,
    sizes: Seq<u16>,
    i: int,
    per: int,
    left: int,
)
    requires
        sizes.len() == cs.len(),
        0 <= i,
        0 <= left,
        1 <= per,
    ensures
        hand_out_round(cs, sizes, i, per, left).0.len() == cs.len(),
        0 <= hand_out_round(cs, sizes, i, per, left).1 <= left,
        size_sum(hand_out_round(cs, sizes, i, per, left).0, cs.len() as int) + hand_out_round(
            cs,
            sizes,
            i,
            per,
            left,
        ).1 == size_sum(sizes, cs.len() as int) + left,
    decreases cs.len() - i,
{
    if i < 0 || i >= cs.len() || left <= 0 {
    } else if can_grow(cs[i], sizes[i] as int) {
        let room = cap_of(cs[i])->0 - sizes[i];
        let add = if room < per {
            if room < left {
                room
            } else {
                left
            }
        } else if per < left {
            per
        } else {
            left
        };
        let next = sizes.update(i, (sizes[i] + add) as u16);
        assert(0 <= add <= left);
        assert(sizes[i] + add <= 0xffff);
        lemma_size_sum_update(sizes, cs.len() as int, i, (sizes[i] + add) as u16);
        lemma_round_keeps_total(cs, next, i + 1, per, left - add);
    } else {
        lemma_round_keeps_total(cs, sizes, i + 1, per, left);
    }
}

proof fn lemma_hand_out_total(cs: Seq<Constraint>, sizes: Seq<u16>, left: int)
    requires
        sizes.len() == cs.len(),
        0 <= left,
    ensures
        hand_out(cs, sizes, left).len() == cs.len(),
        size_sum(hand_out(cs, sizes, left), cs.len() as int) <= size_sum(sizes, cs.len() as int)
            + left,
    decreases left,
{
    if left > 0 {
        let k = growable_count(cs, sizes, cs.len() as int);
        if k > 0 {
            let per = if left / k > 1 {
                left / k
            } else {
                1
            };
            lemma_round_keeps_total(cs, sizes, 0, per, left);
            let (next, rest) = hand_out_round(cs, sizes, 0, per, left);
            if rest < left && rest >= 0 {
                lemma_hand_out_total(cs, next, rest);
            }
        }
    }
}

/// Whatever the constraints, the sizes that `resolve_constraints` returns are
/// one per constraint and together never exceed the space they share.
pub proof fn lemma_resolved_fits(cs: Seq<Constraint>, available: int)
    requires
        0 <= available <= 0xffff,
        resolved(cs, available) is Ok,
    ensures
        resolved(cs, available)->Ok_0.len() == cs.len(),
        size_sum(resolved(cs, available)->Ok_0, cs.len() as int) <= available,
{
    if cs.len() > 0 {
        let base = base_sizes(cs, available);
        let used = size_sum(base, cs.len() as int);
        lemma_hand_out_total(cs, base, available - used);
    }
}

proof fn lemma_pct_sum_grows(cs: Seq<Constraint>, i: int, j: int)
    requires
        0 <= i <= j <= cs.len(),
    ensures
        pct_sum(cs, i) <= pct_sum(cs, j),
    decreases j - i,
{
    if i < j {
        lemma_pct_sum_grows(cs, i, j - 1);
    }
}

proof fn lemma_fixed_sum_grows(cs: Seq<Constraint>, i: int, j: int)
    requires
        0 <= i <= j <= cs.len(),
    ensures
        fixed_sum(cs, i) <= fixed_sum(cs, j),
    decreases j - i,
{
    if i < j {
        lemma_fixed_sum_grows(cs, i, j - 1);
    }
}

proof fn lemma_size_sum_grows(s: Seq<u16>, i: int, j: int)
    requires
        0 <= i <= j <= s.len(),
    ensures
        size_sum(s, i) <= size_sum(s, j),
    decreases j - i,
{
    if i < j {
        lemma_size_sum_grows(s, i, j - 1);
    }
}

proof fn lemma_ideal_sum_bound(cs: Seq<Constraint>, available: int, n: int)
    requires
        0 <= available <= 0xffff,
        0 <= n <= cs.len(),
    ensures
        0 <= ideal_sum(cs, available, n) <= 656 * pct_sum(cs, n),
    decreases n,
{
    if n > 0 {
        lemma_ideal_sum_bound(cs, available, n - 1);
        if let Constraint::Percentage(p) = cs[n - 1] {
            let p = p as int;
            assert(0 <= ideal_share(available, p) <= 656 * p) by (nonlinear_arith)
                requires
                    0 <= available <= 0xffff,
                    0 <= p,
            {
                if p == 0 {
                    assert(available * p == 0);
                } else {
                    assert(available * p <= 0xffff * p);
                }
            }
        }
    }
}

/// Shares `available` units among `constraints`, in order: fixed sizes first,
/// then percentages, then minimums, and what is left is handed out in even
/// rounds to the constraints that may grow.
pub fn resolve_constraints(constraints: &[Constraint], available: u16) -> (r: Result<
    Vec<u16>,
    LayoutError,
>)
    ensures
        (match r {
            Ok(v) => Ok(v@),
            Err(e) => Err(e),
        }) == resolved(constraints@, available as int),
{
    let ghost cs = constraints@;
    let ghost a = available as int;
    let n = constraints.len();
    if n == 0 {
        return Ok(Vec::new());
    }
    // Percentages: each at most 100, and at most 100 together.

    let mut pct_total: u32 = 0;
    let mut i: usize = 0;
    while i < n
        invariant
            n == cs.len(),
            cs == constraints@,
            i <= n,
            pct_total == pct_sum(cs, i as int),
            pct_total <= 100,
            forall|j: int| 0 <= j < i ==> pct_of(#[trigger] cs[j]) <= 100,
        decreases n - i,
    {
        if let Constraint::Percentage(p) = constraints[i] {
            if p > 100 {
                return Err(LayoutError::InvalidPercentages);
            }
            pct_total = pct_total + p as u32;
            if pct_total > 100 {
                proof {
                    lemma_pct_sum_grows(cs, i + 1, n as int);
                }
                return Err(LayoutError::InvalidPercentages);
            }
        }
        i = i + 1;
    }
    // Fixed sizes must fit.

    let mut fixed_total: u32 = 0;
    i = 0;
    while i < n
        invariant
            n == cs.len(),
            cs == constraints@,
            i <= n,
            fixed_total == fixed_sum(cs, i as int),
            fixed_total <= available,
            percentages_valid(cs),
        decreases n - i,
    {
        if let Constraint::Fixed(s) = constraints[i] {
            fixed_total = fixed_total + s as u32;
            if fixed_total > available as u32 {
                proof {
                    lemma_fixed_sum_grows(cs, i + 1, n as int);
                }
                return Err(LayoutError::InsufficientSpace);
            }
        }
        i = i + 1;
    }
    // The ideal shares of the percentages.

    let mut shares: u32 = 0;
    i = 0;
    while i < n
        invariant
            n == cs.len(),
            cs == constraints@,
            i <= n,
            pct_sum(cs, n as int) <= 100,
            forall|j: int| 0 <= j < n ==> pct_of(#[trigger] cs[j]) <= 100,
            shares == ideal_sum(cs, a, i as int),
            a == available,
            percentages_valid(cs),
            fixed_total == fixed_sum(cs, n as int),
            fixed_total <= available,
        decreases n - i,
    {
        proof {
            lemma_ideal_sum_bound(cs, a, i + 1);
            lemma_pct_sum_grows(cs, i + 1, n as int);
        }
        if let Constraint::Percentage(p) = constraints[i] {
            proof {
                assert(pct_of(cs[i as int]) <= 100);
                assert(available * p <= 0xffff * 100) by (nonlinear_arith)
                    requires
                        available <= 0xffff,
                        p <= 100,
                ;
            }
            shares = shares + (available as u32 * p as u32 + 50) / 100;
        }
        i = i + 1;
    }
    proof {
        lemma_ideal_sum_bound(cs, a, n as int);
    }
    // The starting sizes, which must fit together.

    let shrink = fixed_total + shares > available as u32;
    let mut sizes: Vec<u16> = Vec::new();
    let mut used: u32 = 0;
    i = 0;
    while i < n
        invariant
            n == cs.len(),
            cs == constraints@,
            i <= n,
            a == available,
            fixed_total == fixed_sum(cs, n as int),
            fixed_total <= available,
            shares == ideal_sum(cs, a, n as int),
            shrink == (fixed_total + shares > available),
            shares <= 65600,
            forall|j: int| 0 <= j < n ==> pct_of(#[trigger] cs[j]) <= 100,
            sizes@.len() == i,
            forall|j: int| 0 <= j < i ==> sizes@[j] == #[trigger] base_sizes(cs, a)[j],
            used == size_sum(base_sizes(cs, a), i as int),
            used <= available,
            percentages_valid(cs),
        decreases n - i,
    {
        let size: u16 = match constraints[i] {
            Constraint::Fixed(s) => s,
            Constraint::Percentage(p) => {
                proof {
                    assert(pct_of(cs[i as int]) <= 100);
                    assert(available * p <= 0xffff * 100) by (nonlinear_arith)
                        requires
                            available <= 0xffff,
                            p <= 100,
                    ;
                    assert(((available * p + 50) / 100) * (available - fixed_total) <= 0xffff * 0xffff) by (nonlinear_arith)
                        requires
                            available <= 0xffff,
                            p <= 100,
                            fixed_total <= available,
                    {
                        assert((available * p + 50) / 100 <= 0xffff);
                    }
                }
                let ideal: u64 = (available as u64 * p as u64 + 50) / 100;
                if shrink {
                    (ideal * (available as u64 - fixed_total as u64) / shares as u64) as u16
                } else {
                    ideal as u16
                }
            },
            Constraint::Range { min, max } => min,
            Constraint::Min(m) => m,
            _ => 0,
        };
        sizes.push(size);
        used = used + size as u32;
        if used > available as u32 {
            proof {
                lemma_size_sum_grows(base_sizes(cs, a), i + 1, n as int);
            }
            return Err(LayoutError::InsufficientSpace);
        }
        i = i + 1;
    }
    proof {
        assert(sizes@ =~= base_sizes(cs, a));
    }
    // Hand out what is left, in rounds.

    let ghost left0 = (available - used) as int;
    let mut remaining: u32 = available as u32 - used;
    while remaining > 0
        invariant
            n == cs.len(),
            cs == constraints@,
            sizes@.len() == n,
            hand_out(cs, sizes@, remaining as int) == hand_out(cs, base_sizes(cs, a), left0),
            remaining <= 0xffff,
            a == available,
            percentages_valid(cs),
            fixed_sum(cs, n as int) <= a,
            size_sum(base_sizes(cs, a), n as int) <= a,
            left0 == a - size_sum(base_sizes(cs, a), n as int),
        ensures
            remaining == 0,
            hand_out(cs, sizes@, remaining as int) == hand_out(cs, base_sizes(cs, a), left0),
        decreases remaining,
    {
        let mut k: usize = 0;
        i = 0;
        while i < n
            invariant
                n == cs.len(),
                cs == constraints@,
                sizes@.len() == n,
                i <= n,
                k == growable_count(cs, sizes@, i as int),
                k <= i,
            decreases n - i,
        {
            if grows(constraints[i], sizes[i]) {
                k = k + 1;
            }
            i = i + 1;
        }
        if k == 0 {
            remaining = 0;
            break ;
        }
        let per: u32 = if remaining as usize / k > 1 {
            (remaining as usize / k) as u32
        } else {
            1
        };
        let ghost start = sizes@;
        let mut left = remaining;
        i = 0;
        while i < n
            invariant
                n == cs.len(),
                cs == constraints@,
                sizes@.len() == n,
                i <= n,
                left <= remaining,
                hand_out_round(cs, sizes@, i as int, per as int, left as int) == hand_out_round(
                    cs,
                    start,
                    0,
                    per as int,
                    remaining as int,
                ),
            ensures
                i == n || left == 0,
                left <= remaining,
                hand_out_round(cs, sizes@, i as int, per as int, left as int) == hand_out_round(
                    cs,
                    start,
                    0,
                    per as int,
                    remaining as int,
                ),
            decreases n - i,
        {
            if left == 0 {
                break ;
            }
            if grows(constraints[i], sizes[i]) {
                let cap: u32 = match constraints[i] {
                    Constraint::Range { min, max } => max as u32,
                    Constraint::Max(m) => m as u32,
                    _ => 0xffff,
                };
                let room = cap - sizes[i] as u32;
                let add = if room < per {
                    if room < left {
                        room
                    } else {
                        left
                    }
                } else if per < left {
                    per
                } else {
                    left
                };
                let grown = (sizes[i] as u32 + add) as u16;
                sizes.set(i, grown);
                left = left - add;
            }
            i = i + 1;
        }
        proof {
            assert(hand_out_round(cs, sizes@, i as int, per as int, left as int) == (
            sizes@, left as int));
        }
        if left >= remaining {
            remaining = 0;
            break ;
        }
        remaining = left;
    }
    Ok(sizes)
}

/// Whether a constraint of the given size may still grow.
fn grows(c: Constraint, size: u16) -> (r: bool)
    ensures
        r == can_grow(c, size as int),
{
    match c {
        Constraint::Range { min, max } => size < max,
        Constraint::Max(m) => size < m,
        Constraint::Min(_) => size < 0xffff,
        Constraint::Flexible => size < 0xffff,
        _ => false,
    }
}

/// The height constraints of the rows of a grid.
pub open spec fn row_heights(rows: Seq<(Constraint, Vec<Constraint>)>) -> Seq<Constraint> {
    Seq::new(rows.len(), |i: int| rows[i].0)
}

/// The rectangles of one row: side by side from column 0, each as wide as
/// its resolved width, all at row `y` with the same height.
pub open spec fn row_rects(widths: Seq<u16>, y: int, height: u16) -> Seq<Rect> {
    Seq::new(
        widths.len(),
        |j: int| Rect { x: size_sum(widths, j) as u16, y: y as u16, width: widths[j], height },
    )
}

/// The rectangles of the first `n` rows, given the resolved row heights; the
/// first row whose widths cannot be resolved gives its error.
pub open spec fn rows_prefix(
    space: Vec2,
    rows: Seq<(Constraint, Vec<Constraint>)>,
    heights: Seq<u16>,
    n: int,
) -> Result<Seq<Seq<Rect>>, LayoutError>
    decreases n,
{
    if n <= 0 {
        Ok(Seq::empty())
    } else {
        match rows_prefix(space, rows, heights, n - 1) {
            Err(e) => Err(e),
            Ok(prev) => match resolved(rows[n - 1].1@, space.x as int) {
                Err(e) => Err(e),
                Ok(widths) => Ok(
                    prev.push(row_rects(widths, size_sum(heights, n - 1), heights[n - 1])),
                ),
            },
        }
    }
}

/// The rectangles of a grid of rows in the given space: row heights are
/// resolved over the height, then each row's column widths over the width,
/// and rows stack from the top.
pub open spec fn grid_rects(space: Vec2, rows: Seq<(Constraint, Vec<Constraint>)>) -> Result<
    Seq<Seq<Rect>>,
    LayoutError,
> {
    match resolved(row_heights(rows), space.y as int) {
        Err(e) => Err(e),
        Ok(heights) => rows_prefix(space, rows, heights, rows.len() as int),
    }
}

/// The view of a grid of rectangles.
pub open spec fn rects_view(r: Seq<Vec<Rect>>) -> Seq<Seq<Rect>> {
    r.map_values(|row: Vec<Rect>| row@)
}

proof fn lemma_rows_prefix_err(
    space: Vec2,
    rows: Seq<(Constraint, Vec<Constraint>)>,
    heights: Seq<u16>,
    i: int,
    n: int,
)
    requires
        0 <= i <= n,
        rows_prefix(space, rows, heights, i) is Err,
    ensures
        rows_prefix(space, rows, heights, n) == rows_prefix(space, rows, heights, i),
    decreases n - i,
{
    if i < n {
        lemma_rows_prefix_err(space, rows, heights, i, n - 1);
    }
}

proof fn lemma_size_sum_prefix(s: Seq<u16>, j: int, n: int)
    requires
        0 <= j <= n <= s.len(),
    ensures
        size_sum(s, j) <= size_sum(s, n),
        0 <= size_sum(s, j),
    decreases n - j,
{
    if j < n {
        lemma_size_sum_prefix(s, j, n - 1);
    } else {
        lemma_size_sum_nonneg(s, j);
    }
}

proof fn lemma_size_sum_nonneg(s: Seq<u16>, n: int)
    requires
        0 <= n <= s.len(),
    ensures
        0 <= size_sum(s, n),
    decreases n,
{
    if n > 0 {
        lemma_size_sum_nonneg(s, n - 1);
    }
}

/// Calculates the rectangles of a grid: row heights share the height of the
/// space, and in each row the column widths share its width.
pub fn calculate_layout(total_space: Vec2, rows: Vec<(Constraint, Vec<Constraint>)>) -> (r: Result<
    Vec<Vec<Rect>>,
    LayoutError,
>)
    ensures
        (match r {
            Ok(v) => Ok(rects_view(v@)),
            Err(e) => Err(e),
        }) == grid_rects(total_space, rows@),
{
    let mut height_constraints: Vec<Constraint> = Vec::new();
    let mut i: usize = 0;
    while i < rows.len()
        invariant
            i <= rows@.len(),
            height_constraints@ =~= row_heights(rows@).take(i as int),
        decreases rows@.len() - i,
    {
        height_constraints.push(rows[i].0);
        i = i + 1;
    }
    proof {
        assert(height_constraints@ =~= row_heights(rows@));
    }
    let heights = resolve_constraints(height_constraints.as_slice(), total_space.y)?;
    proof {
        lemma_resolved_fits(row_heights(rows@), total_space.y as int);
    }
    let ghost hs = heights@;
    let mut result: Vec<Vec<Rect>> = Vec::new();
    let mut current_y: u16 = 0;
    proof {
        assert(rects_view(result@) =~= Seq::<Seq<Rect>>::empty());
    }
    i = 0;
    while i < rows.len()
        invariant
            i <= rows@.len(),
            hs == heights@,
            hs.len() == rows@.len(),
            resolved(row_heights(rows@), total_space.y as int) == Ok::<Seq<u16>, LayoutError>(hs),
            size_sum(hs, rows@.len() as int) <= total_space.y,
            current_y == size_sum(hs, i as int),
            rows_prefix(total_space, rows@, hs, i as int) == Ok::<Seq<Seq<Rect>>, LayoutError>(
                rects_view(result@),
            ),
        decreases rows@.len() - i,
    {
        let widths = match resolve_constraints(rows[i].1.as_slice(), total_space.x) {
            Ok(w) => w,
            Err(e) => {
                proof {
                    lemma_rows_prefix_err(total_space, rows@, hs, i + 1, rows@.len() as int);
                }
                return Err(e);
            },
        };
        proof {
            lemma_resolved_fits(rows@[i as int].1@, total_space.x as int);
        }
        let row_height = heights[i];
        let mut row_elements: Vec<Rect> = Vec::new();
        let mut current_x: u16 = 0;
        let mut j: usize = 0;
        while j < widths.len()
            invariant
                j <= widths@.len(),
                size_sum(widths@, widths@.len() as int) <= total_space.x,
                current_x == size_sum(widths@, j as int),
                row_elements@ =~= row_rects(widths@, current_y as int, row_height).take(j as int),
            decreases widths@.len() - j,
        {
            proof {
                lemma_size_sum_prefix(widths@, j + 1, widths@.len() as int);
            }
            row_elements.push(Rect::new(current_x, current_y, widths[j], row_height));
            current_x = current_x + widths[j];
            j = j + 1;
        }
        proof {
            assert(row_elements@ =~= row_rects(widths@, current_y as int, row_height));
            lemma_size_sum_prefix(hs, i + 1, rows@.len() as int);
        }
        let ghost prev = result@;
        result.push(row_elements);
        proof {
            assert(rects_view(result@) =~= rects_view(prev).push(row_elements@));
        }
        current_y = current_y + row_height;
        i = i + 1;
    }
    Ok(result)
}

/// A grid of rows, each a height constraint with the width constraints of
/// its columns, built row by row and turned into rectangles by `calculate`.
#[derive(Debug)]
pub struct Layout {
    rows: Vec<(Constraint, Vec<Constraint>)>,
}

impl View for Layout {
    type V = Seq<(Constraint, Vec<Constraint>)>;

    closed spec fn view(&self) -> Seq<(Constraint, Vec<Constraint>)> {
        self.rows@
    }
}

impl Layout {
    /// Starts a layout with no rows.
    pub fn new() -> (r: Layout)
        ensures
            r@ == Seq::<(Constraint, Vec<Constraint>)>::empty(),
    {
        Layout { rows: Vec::new() }
    }

    /// Adds a row with a height constraint and the width constraints of its columns.
    pub fn row(self, height_constraint: Constraint, width_constraints: Vec<Constraint>) -> (r: Layout)
        ensures
            r@ == self@.push((height_constraint, width_constraints)),
    {
        let mut rows = self.rows;
        rows.push((height_constraint, width_constraints));
        Layout { rows }
    }

    /// Adds a row with a height constraint and a single column filling the width.
    pub fn empty_row(self, constraint: Constraint) -> (r: Layout)
        ensures
            r@.len() == self@.len() + 1,
            r@.take(self@.len() as int) == self@,
            r@.last().0 == constraint,
            r@.last().1@ == seq![Constraint::Flexible],
    {
        let r = self.row(constraint, vec![flexible()]);
        proof {
            assert(r@.take(self@.len() as int) =~= self@);
        }
        r
    }

    /// Calculates the layout, then renders `elements[row][col]` at the corner
    /// of the matching rectangle (elements without a rectangle, and
    /// rectangles without an element, are passed over).
    pub fn render<R: Render>(self, space: Vec2, buffer: &mut Buffer, elements: Vec<Vec<R>>) -> (r:
        Result<Vec<Vec<Rect>>, LayoutError>)
        ensures
            (match r {
                Ok(v) => Ok(rects_view(v@)),
                Err(e) => Err(e),
            }) == grid_rects(space, self@),
            final(buffer)@.size == old(buffer)@.size,
    {
        let rects = self.calculate(space)?;
        let mut i: usize = 0;
        while i < rects.len() && i < elements.len()
            invariant
                buffer@.size == old(buffer)@.size,
            decreases rects@.len() - i,
        {
            let mut j: usize = 0;
            while j < rects[i].len() && j < elements[i].len()
                invariant
                    i < rects@.len(),
                    i < elements@.len(),
                    buffer@.size == old(buffer)@.size,
                decreases rects@[i as int]@.len() - j,
            {
                elements[i][j].render(rects[i][j].position(), buffer);
                j = j + 1;
            }
            i = i + 1;
        }
        Ok(rects)
    }

    /// Calculates the layout, then renders each element clipped to its
    /// rectangle: nothing outside the rectangles changes.
    pub fn render_clipped<R: Render>(self, space: Vec2, buffer: &mut Buffer, elements: Vec<Vec<R>>) -> (r:
        Result<Vec<Vec<Rect>>, LayoutError>)
        ensures
            (match r {
                Ok(v) => Ok(rects_view(v@)),
                Err(e) => Err(e),
            }) == grid_rects(space, self@),
            final(buffer)@.size == old(buffer)@.size,
    {
        let rects = self.calculate(space)?;
        let mut i: usize = 0;
        while i < rects.len() && i < elements.len()
            invariant
                buffer@.size == old(buffer)@.size,
            decreases rects@.len() - i,
        {
            let mut j: usize = 0;
            while j < rects[i].len() && j < elements[i].len()
                invariant
                    i < rects@.len(),
                    i < elements@.len(),
                    buffer@.size == old(buffer)@.size,
                decreases rects@[i as int]@.len() - j,
            {
                let rect = rects[i][j];
                elements[i][j].render_clipped(rect.position(), rect.size(), buffer);
                j = j + 1;
            }
            i = i + 1;
        }
        Ok(rects)
    }

    /// Calculates the rectangles of every cell of the grid in the given space.
    pub fn calculate(self, space: Vec2) -> (r: Result<Vec<Vec<Rect>>, LayoutError>)
        ensures
            (match r {
                Ok(v) => Ok(rects_view(v@)),
                Err(e) => Err(e),
            }) == grid_rects(space, self@),
    {
        calculate_layout(space, self.rows)
    }
}

/// The rectangles of a calculated layout, by row and column.
pub struct CalculatedLayout {
    rects: Vec<Vec<Rect>>,
}

impl View for CalculatedLayout {
    type V = Seq<Seq<Rect>>;

    closed spec fn view(&self) -> Seq<Seq<Rect>> {
        rects_view(self.rects@)
    }
}

impl CalculatedLayout {
    /// Wraps the rectangles of a calculated layout.
    pub fn new(rects: Vec<Vec<Rect>>) -> (r: CalculatedLayout)
        ensures
            r@ == rects_view(rects@),
    {
        CalculatedLayout { rects }
    }

    /// The rectangle at a row and column, if there is one.
    pub fn get(&self, row: usize, col: usize) -> (r: Option<&Rect>)
        ensures
            r is Some <==> (row < self@.len() && col < self@[row as int].len()),
            r is Some ==> *r->0 == self@[row as int][col as int],
    {
        if row < self.rects.len() && col < self.rects[row].len() {
            Some(&self.rects[row][col])
        } else {
            None
        }
    }

    /// The rectangles of a row, if there is one.
    pub fn row(&self, row: usize) -> (r: Option<&[Rect]>)
        ensures
            r is Some <==> row < self@.len(),
            r is Some ==> r->0@ == self@[row as int],
    {
        if row < self.rects.len() {
            Some(self.rects[row].as_slice())
        } else {
            None
        }
    }

    /// The number of rows.
    pub fn row_count(&self) -> (r: usize)
        ensures
            r == self@.len(),
    {
        self.rects.len()
    }

    /// The number of columns in a row (0 for a row that does not exist).
    pub fn col_count(&self, row: usize) -> (r: usize)
        ensures
            r == (if row < self@.len() {
                self@[row as int].len()
            } else {
                0
            }),
    {
        if row < self.rects.len() {
            self.rects[row].len()
        } else {
            0
        }
    }

    /// Renders an element at the corner of the rectangle at a row and column;
    /// `None`, and nothing drawn, where there is no such rectangle.
    pub fn render_at<R: Render>(&self, row: usize, col: usize, element: R, buffer: &mut Buffer) -> (r:
        Option<Vec2>)
        ensures
            r is Some <==> (row < self@.len() && col < self@[row as int].len()),
            r is None ==> final(buffer)@ == old(buffer)@,
            final(buffer)@.size == old(buffer)@.size,
    {
        match self.get(row, col) {
            Some(rect) => Some(element.render(rect.position(), buffer)),
            None => None,
        }
    }

    /// Renders an element clipped to the rectangle at a row and column:
    /// nothing outside that rectangle changes. `None`, and nothing drawn,
    /// where there is no such rectangle.
    pub fn render_clipped_at<R: Render>(
        &self,
        row: usize,
        col: usize,
        element: R,
        buffer: &mut Buffer,
    ) -> (r: Option<Vec2>)
        ensures
            r is Some <==> (row < self@.len() && col < self@[row as int].len()),
            r is None ==> final(buffer)@ == old(buffer)@,
            r is Some ==> unchanged_outside(
                old(buffer)@,
                final(buffer)@,
                Vec2 { x: self@[row as int][col as int].x, y: self@[row as int][col as int].y },
                Vec2 {
                    x: self@[row as int][col as int].width,
                    y: self@[row as int][col as int].height,
                },
            ),
    {
        match self.get(row, col) {
            Some(rect) => Some(element.render_clipped(rect.position(), rect.size(), buffer)),
            None => None,
        }
    }

    /// Every rectangle with its row and column, row by row, each once.
    pub fn iter(&self) -> (r: Vec<(usize, usize, Rect)>)
        ensures
            r@ == flat_rects(self@, self@.len() as int),
    {
        let mut out: Vec<(usize, usize, Rect)> = Vec::new();
        let mut i: usize = 0;
        while i < self.rects.len()
            invariant
                i <= self@.len(),
                out@ == flat_rects(self@, i as int),
            decreases self@.len() - i,
        {
            let row = &self.rects[i];
            let mut j: usize = 0;
            while j < row.len()
                invariant
                    i < self@.len(),
                    row@ == self@[i as int],
                    j <= row@.len(),
                    out@ == flat_rects(self@, i as int) + row_entries(self@, i as int).take(j as int),
                decreases row@.len() - j,
            {
                proof {
                    assert(row_entries(self@, i as int).take(j + 1) =~= row_entries(self@, i as int).take(
                        j as int,
                    ).push((i, j, row@[j as int])));
                }
                out.push((i, j, row[j]));
                j = j + 1;
            }
            proof {
                assert(row_entries(self@, i as int).take(j as int) =~= row_entries(self@, i as int));
            }
            i = i + 1;
        }
        out
    }
}

/// The rectangles of row `i`, each with its row and column.
pub open spec fn row_entries(rects: Seq<Seq<Rect>>, i: int) -> Seq<(usize, usize, Rect)> {
    Seq::new(rects[i].len(), |j: int| (i as usize, j as usize, rects[i][j]))
}

/// The rectangles of the first `n` rows with their rows and columns, row by
/// row and left to right.
pub open spec fn flat_rects(rects: Seq<Seq<Rect>>, n: int) -> Seq<(usize, usize, Rect)>
    decreases n,
{
    if n <= 0 {
        Seq::empty()
    } else {
        flat_rects(rects, n - 1) + row_entries(rects, n - 1)
    }
}

} // verus!

verus! {

/// Calculating a layout depends on nothing but the rows and the space: two
/// calculations of the same rows in the same space give the same rectangles.
pub proof fn lemma_layout_deterministic(
    space: Vec2,
    rows: Seq<(Constraint, Vec<Constraint>)>,
    first: Result<Seq<Seq<Rect>>, LayoutError>,
    second: Result<Seq<Seq<Rect>>, LayoutError>,
)
    requires
        first == grid_rects(space, rows),
        second == grid_rects(space, rows),
    ensures
        first == second,
{
}

} // verus!

verus! {

/// Adjacent columns of a row meet with no gap and no overlap, and the row
/// ends within `width`.
pub open spec fn row_tiles(row: Seq<Rect>, width: int, y: int, height: u16) -> bool {
    &&& forall|j: int| 0 <= j < row.len() ==> (#[trigger] row[j]).y == y && row[j].height == height
    &&& forall|j: int| 0 <= j < row.len() ==> (#[trigger] row[j]).x + row[j].width <= width
    &&& forall|j: int| 0 < j < row.len() ==> (#[trigger] row[j]).x == row[j - 1].x + row[j - 1].width
    &&& row.len() > 0 ==> row[0].x == 0
}

proof fn lemma_row_rects_tile(widths: Seq<u16>, y: int, height: u16, width: int)
    requires
        size_sum(widths, widths.len() as int) <= width <= 0xffff,
        0 <= y <= 0xffff,
    ensures
        row_tiles(row_rects(widths, y, height), width, y, height),
{
    let row = row_rects(widths, y, height);
    assert forall|j: int| 0 <= j < row.len() implies (#[trigger] row[j]).x + row[j].width <= width by {
        lemma_size_sum_prefix(widths, j + 1, widths.len() as int);
        lemma_size_sum_prefix(widths, j, widths.len() as int);
    }
    assert forall|j: int| 0 < j < row.len() implies (#[trigger] row[j]).x == row[j - 1].x + row[
        j - 1
    ].width by {
        lemma_size_sum_prefix(widths, j, widths.len() as int);
        lemma_size_sum_prefix(widths, j - 1, widths.len() as int);
    }
}

proof fn lemma_rows_prefix_tile(
    space: Vec2,
    rows: Seq<(Constraint, Vec<Constraint>)>,
    heights: Seq<u16>,
    n: int,
)
    requires
        0 <= n <= rows.len(),
        heights.len() == rows.len(),
        size_sum(heights, heights.len() as int) <= space.y,
        rows_prefix(space, rows, heights, n) is Ok,
    ensures
        rows_prefix(space, rows, heights, n)->Ok_0.len() == n,
        forall|i: int|
            0 <= i < n ==> row_tiles(
                #[trigger] rows_prefix(space, rows, heights, n)->Ok_0[i],
                space.x as int,
                size_sum(heights, i),
                heights[i],
            ),
        forall|i: int| 0 <= i < n ==> size_sum(heights, i) + heights[i] <= space.y,
    decreases n,
{
    if n > 0 {
        lemma_rows_prefix_tile(space, rows, heights, n - 1);
        let widths = resolved(rows[n - 1].1@, space.x as int)->Ok_0;
        lemma_resolved_fits(rows[n - 1].1@, space.x as int);
        lemma_size_sum_prefix(heights, n, heights.len() as int);
        lemma_size_sum_prefix(heights, n - 1, heights.len() as int);
        lemma_row_rects_tile(widths, size_sum(heights, n - 1), heights[n - 1], space.x as int);
        assert forall|i: int| 0 <= i < n implies size_sum(heights, i) + heights[i] <= space.y by {
            lemma_size_sum_prefix(heights, i + 1, heights.len() as int);
        }
    }
}

/// A calculated grid tiles its space: in every row the rectangles sit side
/// by side from column 0 with no gap or overlap and end within the width;
/// the rows stack from row 0, each starting where the one above ends, and
/// end within the height.
pub proof fn lemma_grid_tiles(space: Vec2, rows: Seq<(Constraint, Vec<Constraint>)>)
    requires
        grid_rects(space, rows) is Ok,
    ensures
        grid_rects(space, rows)->Ok_0.len() == rows.len(),
        forall|i: int|
            0 <= i < rows.len() ==> row_tiles(
                #[trigger] grid_rects(space, rows)->Ok_0[i],
                space.x as int,
                size_sum(resolved(row_heights(rows), space.y as int)->Ok_0, i),
                resolved(row_heights(rows), space.y as int)->Ok_0[i],
            ),
        forall|i: int|
            0 <= i < rows.len() ==> size_sum(resolved(row_heights(rows), space.y as int)->Ok_0, i)
                + #[trigger] resolved(row_heights(rows), space.y as int)->Ok_0[i] <= space.y,
        forall|i: int|
            0 < i < rows.len() ==> size_sum(resolved(row_heights(rows), space.y as int)->Ok_0, i)
                == size_sum(resolved(row_heights(rows), space.y as int)->Ok_0, i - 1) + #[trigger] resolved(
                row_heights(rows),
                space.y as int,
            )->Ok_0[i - 1],
{
    let hs = resolved(row_heights(rows), space.y as int)->Ok_0;
    lemma_resolved_fits(row_heights(rows), space.y as int);
    lemma_rows_prefix_tile(space, rows, hs, rows.len() as int);
}

} // verus!
