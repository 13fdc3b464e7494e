use vstd::prelude::*;

verus! {

/// Sum of the lengths.
pub open spec fn total(s: Seq<u16>) -> int
    decreases s.len(),
{
    if s.len() == 0 {
        0
    } else {
        total(s.drop_last()) + s.last()
    }
}

/// A length scaled from the old total to `new_total`, rounded down.
pub open spec fn scaled(s: Seq<u16>, i: int, new_total: int) -> int {
    s[i] * new_total / total(s)
}

/// The scaled lengths of all parts but the last.
pub open spec fn scaled_all_but_last(s: Seq<u16>, new_total: int) -> Seq<int> {
    Seq::new((s.len() - 1) as nat, |i: int| scaled(s, i, new_total))
}

pub open spec fn total_int(s: Seq<int>) -> int
    decreases s.len(),
{
    if s.len() == 0 {
        0
    } else {
        total_int(s.drop_last()) + s.last()
    }
}

/// Resizing can scale every part that it reaches without overflow: it
/// stops at the first scaled length not above the minimum.
pub open spec fn rescale_ok(s: Seq<u16>, min_length: int, new_total: int) -> bool {
    &&& total(s) <= u16::MAX
    &&& s.len() >= 2 ==> total(s) > 0
    &&& forall|i: int|
        0 <= i < s.len() - 1 && (forall|j: int|
            0 <= j < i ==> scaled(s, j, new_total) > min_length) ==> s[i] * new_total
            <= u16::MAX
    &&& (forall|j: int| 0 <= j < s.len() - 1 ==> scaled(s, j, new_total) > min_length)
        ==> total_int(scaled_all_but_last(s, new_total)) + min_length <= u16::MAX
}

/// The lengths after resizing the container to `new_total`: all parts but
/// the last scaled (rounded down), the last taking the rest; unchanged when
/// a scaled part would not be above the minimum or the last part would be
/// below it.
pub open spec fn rescaled(s: Seq<u16>, min_length: int, new_total: int) -> Seq<u16> {
    let head = scaled_all_but_last(s, new_total);
    if s.len() == 0 {
        s
    } else if exists|j: int| 0 <= j < s.len() - 1 && scaled(s, j, new_total) <= min_length {
        s
    } else if total_int(head) + min_length <= new_total {
        Seq::new(
            s.len(),
            |i: int|
                if i < s.len() - 1 {
                    head[i] as u16
                } else {
                    (new_total - total_int(head)) as u16
                },
        )
    } else {
        s
    }
}

/// The lengths of the parts of a layout, as seen by the resizing logic.
pub struct LayoutResizeView {
    pub lengths: Seq<u16>,
    pub min_length: u16,
    pub moving_border: Option<(usize, u16)>,
}

/// Lengths of the parts of a layout, resized with the container and by
/// dragging the borders between parts.
pub struct LayoutResize<const N: usize> {
    lengths: [u16; N],
    min_length: u16,
    moving_border: Option<(usize, u16)>,
}

impl<const N: usize> View for LayoutResize<N> {
    type V = LayoutResizeView;

    closed spec fn view(&self) -> LayoutResizeView {
        LayoutResizeView {
            lengths: self.lengths@,
            min_length: self.min_length,
            moving_border: self.moving_border,
        }
    }
}

impl<const N: usize> LayoutResize<N> {
    /// A border being moved lies between two parts.
    #[verifier::type_invariant]
    spec fn inv(self) -> bool {
        &&& self.lengths@.len() == N
        &&& self.moving_border matches Some((b, _)) ==> 1 <= b < N
    }

    pub closed spec fn well_formed(self) -> bool {
        self.inv()
    }

    pub fn new(lengths: [u16; N], min_length: u16) -> (r: Self)
        ensures
            r@ == (LayoutResizeView { lengths: lengths@, min_length, moving_border: None }),
    {
        Self { lengths: lengths, min_length: min_length, moving_border: None }
    }

    /// The current lengths.
    pub fn lengths(&self) -> (r: [u16; N])
        ensures
            r@ == self@.lengths,
    {
        self.lengths
    }

    /// Sum of the lengths.
    pub fn get_container_length(&self) -> (r: u16)
        requires
            total(self@.lengths) <= u16::MAX,
        ensures
            r == total(self@.lengths),
    {
        proof {
            use_type_invariant(self);
        }
        let mut total_length: u16 = 0;
        let mut i: usize = 0;
        while i < N
            invariant
                i <= N,
                self.lengths@.len() == N,
                total(self.lengths@) <= u16::MAX,
                total_length == total(self.lengths@.take(i as int)),
            decreases N - i,
        {
            proof {
                assert(self.lengths@.take(i + 1).drop_last() =~= self.lengths@.take(i as int));
                lemma_total_prefix(self.lengths@, i as int + 1);
            }
            total_length += self.lengths[i];
            i += 1;
        }
        assert(self.lengths@.take(N as int) =~= self.lengths@);
        total_length
    }
}

impl<const N: usize> LayoutResize<N> {
    /// Scales the lengths to a container of `get_container_length`; see
    /// `rescaled`.
    pub fn resize_container(&mut self, get_container_length: u16)
        requires
            rescale_ok(old(self)@.lengths, old(self)@.min_length as int, get_container_length as int),
        ensures
            final(self)@ == (LayoutResizeView {
                lengths: rescaled(
                    old(self)@.lengths,
                    old(self)@.min_length as int,
                    get_container_length as int,
                ),
                ..old(self)@
            }),
    {
        proof {
            use_type_invariant(&*self);
        }
        if N == 0 {
            return;
        }
        let ghost s = self.lengths@;
        let ghost l = get_container_length as int;
        let old_container_length = self.get_container_length();
        let mut new_lengths = self.lengths;
        let mut all_but_last_length: u16 = 0;
        let mut i: usize = 0;
        while i < N - 1
            invariant
                N >= 1,
                i <= N - 1,
                s == self.lengths@,
                s.len() == N,
                l == get_container_length,
                old_container_length == total(s),
                rescale_ok(s, self.min_length as int, l),
                new_lengths@.len() == N,
                forall|j: int| 0 <= j < i ==> scaled(s, j, l) > self.min_length,
                forall|j: int| 0 <= j < i ==> new_lengths@[j] == scaled(s, j, l),
                forall|j: int| i <= j < N ==> new_lengths@[j] == s[j],
                all_but_last_length == total_int(scaled_all_but_last(s, l).take(i as int)),
                all_but_last_length * total(s) <= l * total(s.take(i as int)),
            decreases N - 1 - i,
        {
            proof {
                lemma_total_prefix(s, i as int + 1);
                assert(s.take(i + 1).drop_last() =~= s.take(i as int));
            }
            let new_length = ((self.lengths[i] * get_container_length) as u32
                / old_container_length as u32) as u16;
            proof {
                assert(new_length == scaled(s, i as int, l));
                lemma_scaled_step(
                    all_but_last_length as int,
                    s[i as int] as int,
                    l,
                    total(s),
                    total(s.take(i as int)),
                    new_length as int,
                );
                lemma_total_prefix(s, i as int + 1);
                let a2 = all_but_last_length as int + new_length as int;
                let t = total(s);
                assert(a2 * t <= l * t) by (nonlinear_arith)
                    requires
                        a2 * t <= l * total(s.take(i + 1)),
                        total(s.take(i + 1)) <= t,
                        0 <= l,
                ;
                assert(a2 <= l) by (nonlinear_arith)
                    requires
                        a2 * t <= l * t,
                        t > 0,
                ;
                assert(scaled_all_but_last(s, l).take(i + 1).drop_last() =~= scaled_all_but_last(
                    s,
                    l,
                ).take(i as int));
            }
            if new_length > self.min_length {
                new_lengths[i] = new_length;
                all_but_last_length += new_length;
            } else {
                return;
            }
            i += 1;
        }
        proof {
            assert(scaled_all_but_last(s, l).take(i as int) =~= scaled_all_but_last(s, l));
        }
        if all_but_last_length + self.min_length <= get_container_length {
            new_lengths[N - 1] = get_container_length - all_but_last_length;
        } else {
            return;
        }
        self.lengths = new_lengths;
        assert(self.lengths@ =~= rescaled(s, self.min_length as int, l));
    }
}

/// The pointer at `pos` is within `border_size` of the border after the
/// first `b` parts.
pub open spec fn near_border(s: Seq<u16>, b: int, pos: int, border_size: int) -> bool {
    total(s.take(b)) - border_size <= pos < total(s.take(b)) + border_size
}

/// Every border that the search reaches (all up to the first one near the
/// pointer) can be checked without leaving `u16`.
pub open spec fn border_search_ok(s: Seq<u16>, pos: int, border_size: int) -> bool {
    forall|b: int|
        1 <= b < s.len() && (forall|c: int| 1 <= c < b ==> !near_border(s, c, pos, border_size))
            ==> #[trigger] total(s.take(b)) <= u16::MAX && total(s.take(b)) >= border_size
            && total(s.take(b)) + border_size <= u16::MAX
}

/// The lengths after dragging border `b` from `old_pos` to `pos`: the parts
/// on both sides change by the distance moved, unless one would drop below
/// the minimum.
pub open spec fn dragged(s: Seq<u16>, min_length: u16, b: int, old_pos: u16, pos: u16) -> Seq<u16> {
    let diff = (pos as i16) - (old_pos as i16);
    let left = (s[b - 1] as i16) + diff;
    let right = (s[b] as i16) - diff;
    if left >= (min_length as i16) && right >= (min_length as i16) {
        s.update(b - 1, left as u16).update(b, right as u16)
    } else {
        s
    }
}

impl<const N: usize> LayoutResize<N> {
    /// Starts moving the first border within `border_size` of `pos`, if any.
    pub fn handle_mouse_down(&mut self, pos: u16, border_size: u16)
        requires
            border_search_ok(old(self)@.lengths, pos as int, border_size as int),
        ensures
            ({
                let s = old(self)@.lengths;
                if exists|b: int| 1 <= b < s.len() && near_border(s, b, pos as int, border_size as int) {
                    let b = choose|b: int|
                        1 <= b < s.len() && near_border(s, b, pos as int, border_size as int) && (
                        forall|c: int| 1 <= c < b ==> !near_border(s, c, pos as int, border_size as int));
                    final(self)@ == (LayoutResizeView { moving_border: Some((b as usize, pos)), ..old(self)@ })
                } else {
                    final(self)@ == old(self)@
                }
            }),
    {
        proof {
            use_type_invariant(&*self);
        }
        let ghost s = self.lengths@;
        let mut offset: u16 = 0;
        let mut border: usize = 1;
        while border < N
            invariant
                1 <= border <= N || N == 0,
                s == self.lengths@,
                s.len() == N,
                *self == *old(self),
                border_search_ok(s, pos as int, border_size as int),
                N > 0 ==> offset == total(s.take(border - 1)),
                forall|c: int| 1 <= c < border ==> !near_border(s, c, pos as int, border_size as int),
            decreases N - border,
        {
            proof {
                assert(s.take(border as int).drop_last() =~= s.take(border - 1));
                assert(total(s.take(border as int)) <= u16::MAX);
            }
            offset += self.lengths[border - 1];
            if (offset - border_size) <= pos && pos < (offset + border_size) {
                self.moving_border = Some((border, pos));
                proof {
                    let b = border as int;
                    assert(near_border(s, b, pos as int, border_size as int));
                    let b2 = choose|b: int|
                        1 <= b < s.len() && near_border(s, b, pos as int, border_size as int) && (
                        forall|c: int| 1 <= c < b ==> !near_border(s, c, pos as int, border_size as int));
                    assert(b2 == b) by {
                        if b2 < b {
                        } else if b2 > b {
                        }
                    }
                }
                return;
            }
            border += 1;
        }
        proof {
            assert(!exists|b: int| 1 <= b < s.len() && near_border(s, b, pos as int, border_size as int));
        }
    }

    /// Moves the border being dragged to `pos`, resizing the parts on both
    /// of its sides.
    pub fn handle_mouse_drag(&mut self, pos: u16)
        requires
            old(self)@.moving_border matches Some((b, old_pos)) ==> {
                let diff = (pos as i16) - (old_pos as i16);
                &&& i16::MIN <= diff <= i16::MAX
                &&& i16::MIN <= (old(self)@.lengths[b - 1] as i16) + diff <= i16::MAX
                &&& i16::MIN <= (old(self)@.lengths[b as int] as i16) - diff <= i16::MAX
            },
        ensures
            match old(self)@.moving_border {
                Some((b, old_pos)) => final(self)@ == (LayoutResizeView {
                    lengths: dragged(old(self)@.lengths, old(self)@.min_length, b as int, old_pos, pos),
                    moving_border: Some((b, pos)),
                    ..old(self)@
                }),
                None => final(self)@ == old(self)@,
            },
            old(self)@.moving_border matches Some((b, _)) && old(self)@.lengths[b - 1] <= i16::MAX
                && old(self)@.lengths[b as int] <= i16::MAX && old(self)@.min_length <= i16::MAX ==> {
                &&& total(final(self)@.lengths) == total(old(self)@.lengths)
                &&& (forall|i: int|
                    0 <= i < old(self)@.lengths.len() ==> old(self)@.lengths[i] >= old(self)@.min_length)
                    ==> (forall|i: int|
                    0 <= i < final(self)@.lengths.len() ==> #[trigger] final(self)@.lengths[i]
                        >= final(self)@.min_length)
            },
    {
        proof {
            use_type_invariant(&*self);
            if let Some((b, old_pos)) = self.moving_border {
                if self.lengths@[b - 1] <= i16::MAX && self.lengths@[b as int] <= i16::MAX
                    && self.min_length <= i16::MAX {
                    lemma_drag_keeps_total(self.lengths@, self.min_length, b as int, old_pos, pos);
                }
            }
        }
        if let Some((border, old_pos)) = self.moving_border {
            let diff = (pos as i16) - (old_pos as i16);
            let left_length = (self.lengths[border - 1] as i16) + diff;
            let right_length = (self.lengths[border] as i16) - diff;
            if left_length >= (self.min_length as i16) && right_length >= (self.min_length as i16) {
                self.lengths[border - 1] = left_length as u16;
                self.lengths[border] = right_length as u16;
            }
            self.moving_border = Some((border, pos));
        }
    }

    /// Stops moving a border.
    pub fn handle_mouse_done(&mut self)
        ensures
            final(self)@ == (LayoutResizeView { moving_border: None, ..old(self)@ }),
    {
        self.moving_border = None;
    }
}

proof fn lemma_scaled_step(acc: int, x: int, l: int, t: int, tp: int, q: int)
    requires
        t > 0,
        0 <= x,
        0 <= l,
        q == x * l / t,
        acc * t <= l * tp,
    ensures
        (acc + q) * t <= l * (tp + x),
{
    assert(q * t <= x * l) by (nonlinear_arith)
        requires
            t > 0,
            0 <= x,
            0 <= l,
            q == x * l / t,
    ;
    assert((acc + q) * t <= l * (tp + x)) by (nonlinear_arith)
        requires
            q * t <= x * l,
            acc * t <= l * tp,
    ;
}

/// Changing one length changes the total by the difference.
pub proof fn lemma_total_update(s: Seq<u16>, i: int, v: u16)
    requires
        0 <= i < s.len(),
    ensures
        total(s.update(i, v)) == total(s) - s[i] + v,
    decreases s.len(),
{
    if i < s.len() - 1 {
        lemma_total_update(s.drop_last(), i, v);
        assert(s.update(i, v).drop_last() =~= s.drop_last().update(i, v));
    } else {
        assert(s.update(i, v).drop_last() =~= s.drop_last());
    }
}

/// Dragging a border moves length from one side to the other, so the total
/// stays the same, and no length drops below the minimum (for the two
/// lengths and a minimum within `i16`).
pub proof fn lemma_drag_keeps_total(s: Seq<u16>, min_length: u16, b: int, old_pos: u16, pos: u16)
    requires
        1 <= b < s.len(),
        s[b - 1] <= i16::MAX,
        s[b] <= i16::MAX,
        min_length <= i16::MAX,
    ensures
        total(dragged(s, min_length, b, old_pos, pos)) == total(s),
        (forall|i: int| 0 <= i < s.len() ==> s[i] >= min_length) ==> (forall|i: int|
            0 <= i < s.len() ==> #[trigger] dragged(s, min_length, b, old_pos, pos)[i] >= min_length),
{
    let diff = (pos as i16) - (old_pos as i16);
    let left = (s[b - 1] as i16) + diff;
    let right = (s[b] as i16) - diff;
    if left >= (min_length as i16) && right >= (min_length as i16) {
        let s1 = s.update(b - 1, left as u16);
        lemma_total_update(s, b - 1, left as u16);
        lemma_total_update(s1, b, right as u16);
    }
}

proof fn lemma_total_of_ints(head: Seq<int>, n: nat, last: int, t: Seq<u16>)
    requires
        t.len() == n + 1,
        head.len() == n,
        forall|i: int| 0 <= i < n ==> 0 <= #[trigger] head[i] <= u16::MAX && t[i] == head[i],
        t[n as int] == last,
    ensures
        total(t) == total_int(head) + last,
    decreases n,
{
    if n > 0 {
        assert forall|i: int| 0 <= i < n implies t.drop_last()[i] == #[trigger] head[i] by {
            assert(t.drop_last()[i] == t[i]);
        }
        lemma_total_prefix_int(head, t.drop_last(), n);
        assert(t.last() == last);
        assert(total(t) == total(t.drop_last()) + t.last());
    } else {
        assert(t.drop_last() =~= Seq::<u16>::empty());
        assert(total(Seq::<u16>::empty()) == 0);
        assert(t.last() == last);
        assert(total(t) == total(t.drop_last()) + t.last());
    }
}

proof fn lemma_total_prefix_int(head: Seq<int>, t: Seq<u16>, n: nat)
    requires
        t.len() == n,
        head.len() == n,
        forall|i: int| 0 <= i < n ==> t[i] == #[trigger] head[i],
    ensures
        total(t) == total_int(head),
    decreases n,
{
    if n > 0 {
        lemma_total_prefix_int(head.drop_last(), t.drop_last(), (n - 1) as nat);
    }
}

/// Resizing the container either leaves the lengths as they were or makes
/// them add up to the new container length.
pub proof fn lemma_rescaled_total(s: Seq<u16>, min_length: u16, new_total: u16)
    requires
        rescale_ok(s, min_length as int, new_total as int),
    ensures
        rescaled(s, min_length as int, new_total as int) == s || total(
            rescaled(s, min_length as int, new_total as int),
        ) == new_total,
{
    let l = new_total as int;
    let head = scaled_all_but_last(s, l);
    let r = rescaled(s, min_length as int, l);
    if s.len() > 0 && !(exists|j: int| 0 <= j < s.len() - 1 && scaled(s, j, l) <= min_length)
        && total_int(head) + min_length <= l {
        assert forall|i: int| 0 <= i < head.len() implies 0 <= #[trigger] head[i] <= u16::MAX by {
            assert(scaled(s, i, l) > min_length);
            lemma_total_elem(s, i);
            let x = s[i] as int;
            let t = total(s);
            assert(x * l / t <= l) by (nonlinear_arith)
                requires
                    0 <= x <= t,
                    t > 0,
                    0 <= l,
            ;
        }
        lemma_total_int_nonneg(head);
        assert(r[s.len() - 1] == l - total_int(head));
        lemma_total_of_ints(head, (s.len() - 1) as nat, l - total_int(head), r);
    }
}

proof fn lemma_total_int_nonneg(s: Seq<int>)
    requires
        forall|i: int| 0 <= i < s.len() ==> #[trigger] s[i] >= 0,
    ensures
        total_int(s) >= 0,
    decreases s.len(),
{
    if s.len() > 0 {
        lemma_total_int_nonneg(s.drop_last());
    }
}

/// Each length is at most the total.
proof fn lemma_total_elem(s: Seq<u16>, i: int)
    requires
        0 <= i < s.len(),
    ensures
        s[i] <= total(s),
        total(s) > 0 || s[i] == 0,
    decreases s.len(),
{
    lemma_total_nonneg(s.drop_last());
    if i < s.len() - 1 {
        lemma_total_elem(s.drop_last(), i);
    }
}

/// A prefix never sums to more than the whole.
pub proof fn lemma_total_prefix(s: Seq<u16>, i: int)
    requires
        0 <= i <= s.len(),
    ensures
        0 <= total(s.take(i)) <= total(s),
    decreases s.len() - i,
{
    if i < s.len() {
        lemma_total_prefix(s, i + 1);
        assert(s.take(i + 1).drop_last() =~= s.take(i));
    } else {
        assert(s.take(i) =~= s);
    }
    lemma_total_nonneg(s.take(i));
}

proof fn lemma_total_nonneg(s: Seq<u16>)
    ensures
        total(s) >= 0,
    decreases s.len(),
{
    if s.len() > 0 {
        lemma_total_nonneg(s.drop_last());
    }
}

} // verus!
