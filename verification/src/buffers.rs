//! Bounded histories: price series and ledgers that keep only their
//! most recent entries.

use vstd::prelude::*;
use std::collections::VecDeque;
use vstd::arithmetic::div_mod::{
    lemma_add_mod_noop, lemma_mod_add_multiples_vanish, lemma_mod_pos_bound, lemma_small_mod,
};

verus! {

/// The history after appending `x` to `s` and dropping the oldest entry
/// once the history is longer than `cap`.
pub open spec fn appended_capped<T>(s: Seq<T>, x: T, cap: nat) -> Seq<T> {
    let t = s.push(x);
    if t.len() > cap {
        t.drop_first()
    } else {
        t
    }
}

/// The ledger after putting `x` in front of `s` and dropping entries from
/// the back until at most `cap` remain.
pub open spec fn prepended_trimmed<T>(s: Seq<T>, x: T, cap: nat) -> Seq<T> {
    let t = seq![x] + s;
    if t.len() > cap {
        t.subrange(0, cap as int)
    } else {
        t
    }
}

/// Appends `x` to the back of `q`; if `q` then holds more than `cap`
/// entries, the oldest one is dropped.
pub fn push_back_capped<T>(q: &mut VecDeque<T>, x: T, cap: usize)
    ensures
        final(q)@ == appended_capped(old(q)@, x, cap as nat),
{
    q.push_back(x);
    if q.len() > cap {
        q.pop_front();
    }
}

/// Puts `x` in front of `q`, then drops entries from the back while
/// more than `cap` remain.
pub fn push_front_trimmed<T>(q: &mut VecDeque<T>, x: T, cap: usize)
    ensures
        final(q)@ == prepended_trimmed(old(q)@, x, cap as nat),
{
    q.push_front(x);
    let ghost t = q@;
    while q.len() > cap
        invariant
            t == seq![x] + old(q)@,
            q@.len() <= t.len(),
            q@ == t.subrange(0, q@.len() as int),
            q@.len() >= if t.len() > cap {
                cap as int
            } else {
                t.len() as int
            },
        decreases q@.len(),
    {
        q.pop_back();
    }
    proof {
        if t.len() <= cap {
            assert(q@ =~= t);
        }
    }
}

/// The daily closes followed by the intraday prices, as one series.
pub fn joined<T: Copy>(a: &VecDeque<T>, b: &VecDeque<T>) -> (r: Vec<T>)
    ensures
        r@ == a@ + b@,
{
    let mut r: Vec<T> = Vec::new();
    let mut i: usize = 0;
    while i < a.len()
        invariant
            i <= a@.len(),
            r@ == a@.subrange(0, i as int),
        decreases a@.len() - i,
    {
        r.push(a[i]);
        assert(r@ =~= a@.subrange(0, i + 1));
        i += 1;
    }
    let mut j: usize = 0;
    while j < b.len()
        invariant
            j <= b@.len(),
            r@ == a@ + b@.subrange(0, j as int),
        decreases b@.len() - j,
    {
        r.push(b[j]);
        assert(r@ =~= a@ + b@.subrange(0, j + 1));
        j += 1;
    }
    assert(a@.subrange(0, a@.len() as int) =~= a@);
    assert(b@.subrange(0, b@.len() as int) =~= b@);
    r
}

/// `s` rotated left by `k` places.
pub open spec fn rotated_left<T>(s: Seq<T>, k: int) -> Seq<T> {
    s.subrange(k, s.len() as int) + s.subrange(0, k)
}

/// What a ticker tape shows: the cells rotated left by `steps` places
/// (modulo their number), cut to at most `width` cells.
pub open spec fn tape<T>(cells: Seq<T>, steps: nat, width: nat) -> Seq<T> {
    let k = if cells.len() == 0 {
        0
    } else {
        steps % cells.len()
    };
    let r = rotated_left(cells, k as int);
    if width < r.len() {
        r.subrange(0, width as int)
    } else {
        r
    }
}

/// The visible part of a scrolling ticker tape after `steps` scroll steps.
pub fn tape_window<T: Copy>(cells: &Vec<T>, steps: usize, width: usize) -> (r: Vec<T>)
    ensures
        r@ == tape(cells@, steps as nat, width as nat),
{
    let n = cells.len();
    let k = steps % if n > 1 { n } else { 1 };
    let shown = if width < n { width } else { n };
    let mut r: Vec<T> = Vec::new();
    let mut i: usize = 0;
    let ghost full = tape(cells@, steps as nat, width as nat);
    proof {
        if n == 0 {
            assert(rotated_left(cells@, 0) =~= cells@);
        }
    }
    while i < shown
        invariant
            n == cells@.len(),
            k < n || n == 0,
            k as nat == if n == 0 { 0 } else { steps as nat % n as nat },
            shown <= n,
            shown == full.len(),
            full == tape(cells@, steps as nat, width as nat),
            i <= shown,
            r@ == full.subrange(0, i as int),
        decreases shown - i,
    {
        let j = if i < n - k { k + i } else { i - (n - k) };
        let x = cells[j];
        proof {
            let rot = rotated_left(cells@, k as int);
            assert(rot[i as int] == cells@[j as int]);
            assert(full[i as int] == rot[i as int]);
        }
        r.push(x);
        assert(r@ =~= full.subrange(0, i + 1));
        i += 1;
    }
    assert(r@ =~= full);
    r
}

/// A history kept with [`push_back_capped`] never grows past its cap, and
/// its newest entry is the one just appended.
pub proof fn lemma_appended_capped_bounded<T>(s: Seq<T>, x: T, cap: nat)
    requires
        s.len() <= cap,
        cap > 0,
    ensures
        appended_capped(s, x, cap).len() <= cap,
        appended_capped(s, x, cap).last() == x,
        appended_capped(s, x, cap).len() == if s.len() < cap { s.len() + 1 } else { cap },
{
}

/// Entries kept by [`push_back_capped`] are the newest entries of the whole
/// series, in order.
pub proof fn lemma_appended_capped_suffix<T>(s: Seq<T>, x: T, cap: nat)
    ensures
        appended_capped(s, x, cap) == s.push(x).subrange(
            s.push(x).len() - appended_capped(s, x, cap).len(),
            s.push(x).len() as int,
        ),
{
    let t = s.push(x);
    if t.len() > cap {
        assert(t.drop_first() =~= t.subrange(1, t.len() as int));
    } else {
        assert(t =~= t.subrange(0, t.len() as int));
    }
}

/// A ledger kept with [`push_front_trimmed`] holds at most `cap` entries,
/// the newest first.
pub proof fn lemma_prepended_trimmed_bounded<T>(s: Seq<T>, x: T, cap: nat)
    requires
        cap > 0,
    ensures
        prepended_trimmed(s, x, cap).len() <= cap,
        prepended_trimmed(s, x, cap)[0] == x,
        forall|i: int|
            1 <= i < prepended_trimmed(s, x, cap).len() ==> #[trigger] prepended_trimmed(s, x, cap)[i]
                == s[i - 1],
{
}

/// Cell `i` of a ticker tape window after `steps` scroll steps is the cell
/// `steps + i` places on, counted round the tape; the window shows as many
/// cells as fit in `width`.
pub proof fn lemma_tape_cell<T>(cells: Seq<T>, steps: nat, width: nat, i: int)
    requires
        cells.len() > 0,
        0 <= i < cells.len(),
        i < width,
    ensures
        tape(cells, steps, width).len() == if width < cells.len() { width } else { cells.len() },
        tape(cells, steps, width)[i] == cells[((steps + i) % (cells.len() as int))],
{
    let n = cells.len() as int;
    let k = (steps % cells.len()) as int;
    lemma_mod_pos_bound(steps as int, n);
    lemma_add_mod_noop(steps as int, i, n);
    lemma_small_mod(i as nat, n as nat);
    if k + i < n {
        lemma_small_mod((k + i) as nat, n as nat);
    } else {
        lemma_small_mod((k + i - n) as nat, n as nat);
        lemma_mod_add_multiples_vanish(k + i - n, n);
    }
}

/// One more scroll step moves the window on by one cell: what stood at
/// position `i + 1` now stands at `i`, and the cell that enters last is the
/// one after the previous window, round the tape.
pub proof fn lemma_tape_scrolls<T>(cells: Seq<T>, steps: nat, width: nat, i: int)
    requires
        cells.len() > 0,
        0 <= i,
        i + 1 < cells.len(),
        i + 1 < width,
    ensures
        tape(cells, steps + 1, width)[i] == tape(cells, steps, width)[i + 1],
{
    lemma_tape_cell(cells, steps + 1, width, i);
    lemma_tape_cell(cells, steps, width, i + 1);
    assert((steps + 1) + i == steps + (i + 1));
}

/// A tape with no cells shows nothing, however far it has scrolled.
pub proof fn lemma_empty_tape<T>(cells: Seq<T>, steps: nat, width: nat)
    requires
        cells.len() == 0,
    ensures
        tape(cells, steps, width).len() == 0,
{
}

} // verus!
