//! Cell selection allows players to interact with the board. It allows for
//! cell inspection and multi-cell state toggle.
//!
//! A selection is a set of coordinates: toggling a pair adds it when absent
//! and removes it when present, and the whole selection can be moved,
//! re-centered or rotated by 90 degrees around its bounding box.

use crate::coords::div_trunc;
use crate::engine::coords::Coords;
use vstd::prelude::*;

verus! {

/// No pair of coordinates occurs twice: the vector stands for a set.
pub open spec fn distinct(s: Seq<Coords>) -> bool {
    forall|i: int, j: int| 0 <= i < j < s.len() ==> s[i] != s[j]
}

/// Smallest x among the listed coordinates.
pub open spec fn min_x(s: Seq<Coords>) -> int
    recommends
        s.len() > 0,
    decreases s.len(),
{
    if s.len() <= 1 {
        s[0].x as int
    } else {
        let m = min_x(s.drop_last());
        if s.last().x < m {
            s.last().x as int
        } else {
            m
        }
    }
}

/// Largest x among the listed coordinates.
pub open spec fn max_x(s: Seq<Coords>) -> int
    recommends
        s.len() > 0,
    decreases s.len(),
{
    if s.len() <= 1 {
        s[0].x as int
    } else {
        let m = max_x(s.drop_last());
        if s.last().x > m {
            s.last().x as int
        } else {
            m
        }
    }
}

/// Smallest y among the listed coordinates.
pub open spec fn min_y(s: Seq<Coords>) -> int
    recommends
        s.len() > 0,
    decreases s.len(),
{
    if s.len() <= 1 {
        s[0].y as int
    } else {
        let m = min_y(s.drop_last());
        if s.last().y < m {
            s.last().y as int
        } else {
            m
        }
    }
}

/// Largest y among the listed coordinates.
pub open spec fn max_y(s: Seq<Coords>) -> int
    recommends
        s.len() > 0,
    decreases s.len(),
{
    if s.len() <= 1 {
        s[0].y as int
    } else {
        let m = max_y(s.drop_last());
        if s.last().y > m {
            s.last().y as int
        } else {
            m
        }
    }
}

/// Every coordinate pair shifted by `(dx, dy)`.
pub open spec fn translated(s: Seq<Coords>, dx: int, dy: int) -> Seq<Coords> {
    Seq::new(s.len(), |j: int| Coords { x: (s[j].x + dx) as i32, y: (s[j].y + dy) as i32 })
}

/// A pair rotated 90 degrees around the selection's bounding box: clockwise
/// `(x, y) -> (y, -x)` after normalizing to the top-left corner, then
/// normalized back so the box keeps its top-left corner.
pub open spec fn rot_cw(c: Coords, x_min: int, x_max: int, y_min: int) -> Coords {
    Coords { x: (c.y - y_min + x_min) as i32, y: (x_max - c.x + y_min) as i32 }
}

/// The counterclockwise counterpart of [`rot_cw`]: `(x, y) -> (-y, x)` in
/// normalized coordinates.
pub open spec fn rot_ccw(c: Coords, x_min: int, y_min: int, y_max: int) -> Coords {
    Coords { x: (y_max - c.y + x_min) as i32, y: (c.x - x_min + y_min) as i32 }
}

/// The bounding box of a selection.
struct Bounds {
    x_min: i32,
    x_max: i32,
    y_min: i32,
    y_max: i32,
}

/// Calculate x and y bounds of a selection.
///
/// The bounds are used for those operations that require manipulating the
/// whole selection, like re-center and rotate.
fn calc_bounds(selection: &Vec<Coords>) -> (r: Option<Bounds>)
    ensures
        r is None <==> selection@.len() == 0,
        r matches Some(b) ==> {
            &&& b.x_min == min_x(selection@)
            &&& b.x_max == max_x(selection@)
            &&& b.y_min == min_y(selection@)
            &&& b.y_max == max_y(selection@)
        },
{
    if selection.len() == 0 {
        return None;
    }
    let ghost s = selection@;
    let first = selection[0];
    let mut b = Bounds { x_min: first.x, x_max: first.x, y_min: first.y, y_max: first.y };
    proof {
        assert(s.take(1).len() == 1);
        assert(s.take(1)[0] == s[0]);
    }
    let mut k: usize = 1;
    while k < selection.len()
        invariant
            s == selection@,
            1 <= k <= s.len(),
            b.x_min == min_x(s.take(k as int)),
            b.x_max == max_x(s.take(k as int)),
            b.y_min == min_y(s.take(k as int)),
            b.y_max == max_y(s.take(k as int)),
        decreases s.len() - k,
    {
        let c = selection[k];
        proof {
            assert(s.take(k + 1).drop_last() =~= s.take(k as int));
            assert(s.take(k + 1).last() == s[k as int]);
            assert(s.take(k + 1).len() == k + 1 > 1);
        }
        if c.x < b.x_min {
            b.x_min = c.x;
        }
        if c.x > b.x_max {
            b.x_max = c.x;
        }
        if c.y < b.y_min {
            b.y_min = c.y;
        }
        if c.y > b.y_max {
            b.y_max = c.y;
        }
        k = k + 1;
    }
    proof {
        assert(s.take(s.len() as int) =~= s);
    }
    Some(b)
}

pub struct Selection {
    pub coords: Vec<Coords>,
}

impl Default for Selection {
    /// An empty selection.
    fn default() -> (r: Self)
        ensures
            r.coords@.len() == 0,
    {
        Selection { coords: Vec::new() }
    }
}

impl Selection {
    /// Clear the existing selection.
    pub fn clear(&mut self)
        ensures
            final(self).coords@.len() == 0,
    {
        self.coords.clear();
    }

    /// Returns `true` when the existing selection contains the (x,y)
    /// coordinates.
    pub fn contains(&self, coords: Coords) -> (r: bool)
        ensures
            r == self.coords@.contains(coords),
    {
        let n = self.coords.len();
        let mut k: usize = 0;
        while k < n
            invariant
                n == self.coords@.len(),
                k <= n,
                forall|j: int| 0 <= j < k ==> self.coords@[j] != coords,
            decreases n - k,
        {
            if self.coords[k] == coords {
                return true;
            }
            k = k + 1;
        }
        false
    }

    /// Returns `true` when the existing selection is empty.
    pub fn is_empty(&self) -> (r: bool)
        ensures
            r == (self.coords@.len() == 0),
    {
        self.coords.is_empty()
    }

    /// The selected coordinates. Element ordering carries no meaning: the
    /// vector stands for a set.
    pub fn iter(&self) -> (r: &Vec<Coords>)
        ensures
            r@ == self.coords@,
    {
        &self.coords
    }

    /// Returns the number of selected cells.
    pub fn len(&self) -> (r: usize)
        ensures
            r == self.coords@.len(),
    {
        self.coords.len()
    }

    /// Move every selected coords by (dx,dy).
    pub fn move_by(&mut self, delta: Coords)
        requires
            forall|j: int|
                0 <= j < old(self).coords@.len() ==> i32::MIN <= #[trigger] old(
                    self,
                ).coords@[j].x + delta.x <= i32::MAX && i32::MIN <= old(self).coords@[j].y
                    + delta.y <= i32::MAX,
        ensures
            final(self).coords@ == translated(old(self).coords@, delta.x as int, delta.y as int),
    {
        let ghost s = self.coords@;
        let n = self.coords.len();
        let mut k: usize = 0;
        while k < n
            invariant
                n == self.coords@.len(),
                k <= n,
                s.len() == n,
                s == old(self).coords@,
                forall|j: int|
                    0 <= j < n ==> i32::MIN <= #[trigger] s[j].x + delta.x <= i32::MAX
                        && i32::MIN <= s[j].y + delta.y <= i32::MAX,
                forall|j: int| k <= j < n ==> self.coords@[j] == s[j],
                forall|j: int|
                    0 <= j < k ==> self.coords@[j] == translated(s, delta.x as int, delta.y as int)[j],
            decreases n - k,
        {
            let c = self.coords[k];
            proof {
                assert(c == s[k as int]);
                assert(i32::MIN <= s[k as int].x + delta.x <= i32::MAX && i32::MIN <= s[
                    k as int
                ].y + delta.y <= i32::MAX);
            }
            self.coords[k] = Coords { x: c.x + delta.x, y: c.y + delta.y };
            proof {
                let tr = translated(s, delta.x as int, delta.y as int);
                assert(tr.len() == s.len());
                assert(tr[k as int] == Coords {
                    x: (s[k as int].x + delta.x) as i32,
                    y: (s[k as int].y + delta.y) as i32,
                });
                assert(self.coords@[k as int] == tr[k as int]);
            }
            k = k + 1;
        }
        proof {
            assert(self.coords@ =~= translated(s, delta.x as int, delta.y as int));
        }
    }

    /// Re-center the existing selection (if any) to the given coordinates:
    /// the whole selection moves so that the center of its bounding box
    /// lands there. An empty selection stays empty.
    pub fn recenter_at(&mut self, coords: Coords)
        requires
            old(self).coords@.len() > 0 ==> {
                let cx = div_trunc(min_x(old(self).coords@) + max_x(old(self).coords@), 2);
                let cy = div_trunc(min_y(old(self).coords@) + max_y(old(self).coords@), 2);
                &&& i32::MIN <= coords.x - cx <= i32::MAX
                &&& i32::MIN <= coords.y - cy <= i32::MAX
                &&& forall|j: int|
                    0 <= j < old(self).coords@.len() ==> i32::MIN <= #[trigger] old(
                        self,
                    ).coords@[j].x + (coords.x - cx) <= i32::MAX && i32::MIN <= old(
                        self,
                    ).coords@[j].y + (coords.y - cy) <= i32::MAX
            },
        ensures
            old(self).coords@.len() == 0 ==> final(self).coords@ == old(self).coords@,
            old(self).coords@.len() > 0 ==> final(self).coords@ == translated(
                old(self).coords@,
                coords.x - div_trunc(min_x(old(self).coords@) + max_x(old(self).coords@), 2),
                coords.y - div_trunc(min_y(old(self).coords@) + max_y(old(self).coords@), 2),
            ),
    {
        let new_center = coords;
        // Center is None when selection is empty
        if let Some(center) = self.calc_center() {
            self.move_by(Coords { x: new_center.x - center.x, y: new_center.y - center.y });
        }
    }

    /// Rotate existing selection around its center by 90 degrees
    /// counterclockwise.
    pub fn rotate_left(&mut self)
        requires
            distinct(old(self).coords@),
            old(self).coords@.len() > 0 ==> {
                let s = old(self).coords@;
                forall|j: int|
                    0 <= j < s.len() ==> i32::MIN <= max_y(s) - #[trigger] s[j].y + min_x(s)
                        <= i32::MAX && i32::MIN <= s[j].x - min_x(s) + min_y(s) <= i32::MAX
            },
        ensures
            final(self).coords@.len() == old(self).coords@.len(),
            distinct(final(self).coords@),
            forall|j: int|
                0 <= j < old(self).coords@.len() ==> final(self).coords@[j] == rot_ccw(
                    #[trigger] old(self).coords@[j],
                    min_x(old(self).coords@),
                    min_y(old(self).coords@),
                    max_y(old(self).coords@),
                ),
    {
        self.rotate(false);
    }

    /// Rotate existing selection around its center by 90 degrees clockwise.
    pub fn rotate_right(&mut self)
        requires
            distinct(old(self).coords@),
            old(self).coords@.len() > 0 ==> {
                let s = old(self).coords@;
                forall|j: int|
                    0 <= j < s.len() ==> i32::MIN <= #[trigger] s[j].y - min_y(s) + min_x(s)
                        <= i32::MAX && i32::MIN <= max_x(s) - s[j].x + min_y(s) <= i32::MAX
            },
        ensures
            final(self).coords@.len() == old(self).coords@.len(),
            distinct(final(self).coords@),
            forall|j: int|
                0 <= j < old(self).coords@.len() ==> final(self).coords@[j] == rot_cw(
                    #[trigger] old(self).coords@[j],
                    min_x(old(self).coords@),
                    max_x(old(self).coords@),
                    min_y(old(self).coords@),
                ),
    {
        self.rotate(true);
    }

    /// Rotate existing selection around its center by 90 degrees, either
    /// clockwise or counterclockwise.
    ///
    /// Rotation is computed as follows:
    ///   1. calculate bounds
    ///   2. normalize coords to top-left (x_min, y_min)
    ///   3. apply rotation
    ///      clockwise (x',y') = (y, -x)
    ///      counterclockwise (x',y') = (-y, x)
    ///   4. normalize coords to the new top-left after rotation
    ///   5. move back to the old top-left
    ///
    /// Steps 2 to 5 compose into one affine map per direction, which is what
    /// the loop below applies: the rotated box's top-left offset is known
    /// from the old bounds, because rotating the box swaps its two side
    /// lengths.
    fn rotate(&mut self, clockwise: bool)
        requires
            distinct(old(self).coords@),
            old(self).coords@.len() > 0 ==> {
                let s = old(self).coords@;
                if clockwise {
                    forall|j: int|
                        0 <= j < s.len() ==> i32::MIN <= #[trigger] s[j].y - min_y(s) + min_x(s)
                            <= i32::MAX && i32::MIN <= max_x(s) - s[j].x + min_y(s) <= i32::MAX
                } else {
                    forall|j: int|
                        0 <= j < s.len() ==> i32::MIN <= max_y(s) - #[trigger] s[j].y + min_x(s)
                            <= i32::MAX && i32::MIN <= s[j].x - min_x(s) + min_y(s) <= i32::MAX
                }
            },
        ensures
            final(self).coords@.len() == old(self).coords@.len(),
            distinct(final(self).coords@),
            forall|j: int|
                0 <= j < old(self).coords@.len() ==> final(self).coords@[j] == (if clockwise {
                    rot_cw(
                        #[trigger] old(self).coords@[j],
                        min_x(old(self).coords@),
                        max_x(old(self).coords@),
                        min_y(old(self).coords@),
                    )
                } else {
                    rot_ccw(
                        old(self).coords@[j],
                        min_x(old(self).coords@),
                        min_y(old(self).coords@),
                        max_y(old(self).coords@),
                    )
                }),
    {
        let ghost s = self.coords@;
        if let Some(bounds) = calc_bounds(&self.coords) {
            let n = self.coords.len();
            let mut k: usize = 0;
            while k < n
                invariant
                    n == self.coords@.len(),
                    k <= n,
                    s.len() == n,
                    s == old(self).coords@,
                    n > 0,
                    distinct(s),
                    bounds.x_min == min_x(s),
                    bounds.x_max == max_x(s),
                    bounds.y_min == min_y(s),
                    bounds.y_max == max_y(s),
                    if clockwise {
                        forall|j: int|
                            0 <= j < s.len() ==> i32::MIN <= #[trigger] s[j].y - min_y(s) + min_x(
                                s,
                            ) <= i32::MAX && i32::MIN <= max_x(s) - s[j].x + min_y(s) <= i32::MAX
                    } else {
                        forall|j: int|
                            0 <= j < s.len() ==> i32::MIN <= max_y(s) - #[trigger] s[j].y + min_x(
                                s,
                            ) <= i32::MAX && i32::MIN <= s[j].x - min_x(s) + min_y(s) <= i32::MAX
                    },
                    forall|j: int| k <= j < n ==> self.coords@[j] == s[j],
                    forall|j: int|
                        0 <= j < k ==> self.coords@[j] == (if clockwise {
                            rot_cw(#[trigger] s[j], min_x(s), max_x(s), min_y(s))
                        } else {
                            rot_ccw(s[j], min_x(s), min_y(s), max_y(s))
                        }),
                decreases n - k,
            {
                let c = self.coords[k];
                let rotated = if clockwise {
                    let x = (c.y as i64 - bounds.y_min as i64 + bounds.x_min as i64) as i32;
                    let y = (bounds.x_max as i64 - c.x as i64 + bounds.y_min as i64) as i32;
                    Coords { x, y }
                } else {
                    let x = (bounds.y_max as i64 - c.y as i64 + bounds.x_min as i64) as i32;
                    let y = (c.x as i64 - bounds.x_min as i64 + bounds.y_min as i64) as i32;
                    Coords { x, y }
                };
                self.coords[k] = rotated;
                k = k + 1;
            }
            proof {
                // The map is injective, so distinctness survives it.
                assert forall|i: int, j: int| 0 <= i < j < self.coords@.len() implies self.coords@[i]
                    != self.coords@[j] by {
                    assert(s[i] != s[j]);
                }
            }
        }
    }

    /// Adds/removes (x,y) to/from the existing selection according to
    /// whether it is already included or not.
    pub fn toggle(&mut self, coords: Coords)
        requires
            distinct(old(self).coords@),
        ensures
            distinct(final(self).coords@),
            forall|c: Coords|
                final(self).coords@.contains(c) <==> (old(self).coords@.contains(c) && c != coords
                    || !old(self).coords@.contains(coords) && c == coords),
    {
        let ghost s = self.coords@;
        let n = self.coords.len();
        let mut k: usize = 0;
        while k < n
            invariant
                s == self.coords@,
                s == old(self).coords@,
                n == s.len(),
                k <= n,
                distinct(s),
                forall|j: int| 0 <= j < k ==> s[j] != coords,
            decreases n - k,
        {
            if self.coords[k] == coords {
                self.coords.remove(k);
                proof {
                    let t = self.coords@;
                    assert(t =~= s.subrange(0, k as int) + s.subrange(k + 1, n as int));
                    assert forall|c: Coords| t.contains(c) implies s.contains(c) && c
                        != coords by {
                        let w = choose|w: int| 0 <= w < t.len() && t[w] == c;
                        if w < k {
                            assert(s[w] == c);
                            assert(s[w] != coords);
                        } else {
                            assert(s[w + 1] == c);
                            assert(s[k as int] != s[w + 1]);
                            assert(s[k as int] == coords);
                        }
                    }
                    assert forall|c: Coords| s.contains(c) && c != coords implies t.contains(
                        c,
                    ) by {
                        let w = choose|w: int| 0 <= w < s.len() && s[w] == c;
                        if w < k {
                            assert(t[w] == c);
                        } else {
                            assert(w != k);
                            assert(t[w - 1] == c);
                        }
                    }
                    assert(s.contains(coords)) by {
                        assert(s[k as int] == coords);
                    }
                    assert forall|i: int, j: int| 0 <= i < j < t.len() implies t[i] != t[j] by {
                        if j < k {
                            assert(t[i] == s[i] && t[j] == s[j]);
                        } else if i < k {
                            assert(t[i] == s[i] && t[j] == s[j + 1]);
                        } else {
                            assert(t[i] == s[i + 1] && t[j] == s[j + 1]);
                        }
                    }
                }
                return ;
            }
            k = k + 1;
        }
        self.coords.push(coords);
        proof {
            let t = self.coords@;
            assert(!s.contains(coords));
            assert forall|c: Coords| t.contains(c) implies s.contains(c) || c == coords by {
                let w = choose|w: int| 0 <= w < t.len() && t[w] == c;
                if w < n {
                    assert(s[w] == c);
                }
            }
            assert forall|c: Coords| s.contains(c) implies t.contains(c) by {
                let w = choose|w: int| 0 <= w < s.len() && s[w] == c;
                assert(t[w] == c);
            }
            assert(t[n as int] == coords);
            assert(t.contains(coords));
        }
    }

    /// Compute the center of current selection.
    ///
    /// This computation is used for re-centering the selection.
    ///
    /// The center of a selection is calculated collecting x and y bounds and
    /// then calculating their middle points.
    fn calc_center(&self) -> (r: Option<Coords>)
        ensures
            r is None <==> self.coords@.len() == 0,
            r matches Some(c) ==> {
                &&& c.x == div_trunc(min_x(self.coords@) + max_x(self.coords@), 2)
                &&& c.y == div_trunc(min_y(self.coords@) + max_y(self.coords@), 2)
            },
    {
        match calc_bounds(&self.coords) {
            None => None,
            Some(b) => {
                proof {
                    lemma_min_le_max_x(self.coords@);
                    lemma_min_le_max_y(self.coords@);
                    lemma_mid_in_range(b.x_min as int, b.x_max as int);
                    lemma_mid_in_range(b.y_min as int, b.y_max as int);
                }
                let x = ((b.x_min as i64 + b.x_max as i64) / 2) as i32;
                let y = ((b.y_min as i64 + b.y_max as i64) / 2) as i32;
                Some(Coords { x, y })
            },
        }
    }
}

/// In a nonempty selection the smallest x is at most the largest x.
proof fn lemma_min_le_max_x(s: Seq<Coords>)
    requires
        s.len() > 0,
    ensures
        min_x(s) <= max_x(s),
        i32::MIN <= min_x(s) <= i32::MAX,
        i32::MIN <= max_x(s) <= i32::MAX,
    decreases s.len(),
{
    if s.len() > 1 {
        lemma_min_le_max_x(s.drop_last());
    }
}

/// In a nonempty selection the smallest y is at most the largest y.
proof fn lemma_min_le_max_y(s: Seq<Coords>)
    requires
        s.len() > 0,
    ensures
        min_y(s) <= max_y(s),
        i32::MIN <= min_y(s) <= i32::MAX,
        i32::MIN <= max_y(s) <= i32::MAX,
    decreases s.len(),
{
    if s.len() > 1 {
        lemma_min_le_max_y(s.drop_last());
    }
}

/// The truncated midpoint of two ordered values lies between them.
proof fn lemma_mid_in_range(lo: int, hi: int)
    requires
        lo <= hi,
    ensures
        lo <= div_trunc(lo + hi, 2) <= hi,
{
    let sum = lo + hi;
    if sum >= 0 {
        assert(lo <= sum / 2 <= hi) by (nonlinear_arith)
            requires
                sum == lo + hi,
                lo <= hi,
                sum >= 0,
        ;
    } else {
        assert(lo <= -((-sum) / 2) <= hi) by (nonlinear_arith)
            requires
                sum == lo + hi,
                lo <= hi,
                sum < 0,
        ;
    }
}

} // verus!
