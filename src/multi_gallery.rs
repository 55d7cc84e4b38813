//! The grid collection: entries laid out `images_per_row` to a row, with
//! the visible rows and a margin of preloaded rows either side kept
//! resident, and at most a given number of loads in flight at once.
use vstd::prelude::*;
use crate::entry::{Entry, LoadState};
use crate::text::string_eq;

verus! {

pub struct MultiGallery<I, H> {
    imgs: Vec<Entry<I, H>>,
    images_per_row: usize,
    preloaded_rows: usize,
    simultaneous_load: usize,
    total_rows: usize,
}

/// The number of rows that `len` entries fill, `per_row` to a row.
pub open spec fn rows_for(len: int, per_row: int) -> int {
    if len % per_row == 0 {
        len / per_row
    } else {
        len / per_row + 1
    }
}

/// The place of entry `j` in a frame's pass over `n` entries that starts
/// at the first visible entry `v0`: the visible rows and those below come
/// first, in order, then the rows above.
pub open spec fn scan_rank(n: int, v0: int, j: int) -> int {
    if j >= v0 {
        j - v0
    } else {
        n - v0 + j
    }
}

/// What one pass over entry `i` does: outside the preload rows it is
/// unloaded; inside, it is started (`started`) from idle, or left alone.
pub open spec fn swept<I, H>(
    old: Entry<I, H>,
    new: Entry<I, H>,
    in_range: bool,
    finished: bool,
    started: bool,
) -> bool {
    if !in_range {
        !started && Entry::unloaded_from(&old, &new, finished)
    } else if started {
        old.state() == LoadState::Idle && Entry::loaded_from(&old, &new)
    } else {
        new == old
    }
}

/// The number of rows that `len` entries fill, `per_row` to a row.
pub fn rows_of(len: usize, per_row: usize) -> (r: usize)
    requires
        per_row >= 1,
    ensures
        r == rows_for(len as int, per_row as int),
{
    let q = len / per_row;
    proof {
        vstd::arithmetic::div_mod::lemma_fundamental_div_mod(len as int, per_row as int);
        assert(q as int <= (per_row as int) * (q as int)) by (nonlinear_arith)
            requires
                per_row >= 1,
                q >= 0,
        ;
    }
    if len % per_row == 0 {
        q
    } else {
        q + 1
    }
}

/// The number of entries among the first `k` whose job is still running.
pub open spec fn running_count<I, H>(s: Seq<Entry<I, H>>, finished: Seq<bool>, k: int) -> int
    decreases k,
{
    if k <= 0 {
        0
    } else {
        running_count(s, finished, k - 1) + if s[k - 1].job() is Some && !finished[k - 1] {
            1int
        } else {
            0int
        }
    }
}

/// Membership in `s` of a value outside `[lo, hi)` is decided by the first
/// `k` elements when all later ones lie in `[lo, hi)`; membership of a value
/// inside `[lo, hi)` by the elements from `k` on, when all earlier ones lie
/// outside.
proof fn lemma_contains_parts(s: Seq<usize>, k: int, j: usize, lo: int, hi: int)
    requires
        0 <= k <= s.len(),
    ensures
        (forall|x: int| k <= x < s.len() ==> lo <= #[trigger] s[x] < hi) && !(lo <= j < hi)
            ==> s.contains(j) == s.subrange(0, k).contains(j),
        (forall|x: int| 0 <= x < k ==> !(lo <= #[trigger] s[x] < hi)) && lo <= j < hi
            ==> s.contains(j) == s.subrange(k, s.len() as int).contains(j),
{
    if s.contains(j) {
        let x = choose|x: int| 0 <= x < s.len() && s[x] == j;
        if x < k {
            assert(s.subrange(0, k)[x] == j);
        } else {
            assert(s.subrange(k, s.len() as int)[x - k] == j);
        }
    }
    if s.subrange(0, k).contains(j) {
        let x = choose|x: int| 0 <= x < k && s.subrange(0, k)[x] == j;
        assert(s[x] == j);
    }
    if s.subrange(k, s.len() as int).contains(j) {
        let x = choose|x: int| 0 <= x < s.len() - k && s.subrange(k, s.len() as int)[x] == j;
        assert(s[x + k] == j);
    }
}

impl<I, H> MultiGallery<I, H> {
    /// The number of entries whose job is still running, `finished` telling
    /// which jobs have finished.
    pub open spec fn count_running(&self, finished: Seq<bool>) -> int {
        running_count(self.entries(), finished, self.entries().len() as int)
    }

    pub closed spec fn entries(&self) -> Seq<Entry<I, H>> {
        self.imgs@
    }

    pub closed spec fn per_row(&self) -> int {
        self.images_per_row as int
    }

    pub closed spec fn margin(&self) -> int {
        self.preloaded_rows as int
    }

    pub closed spec fn cap(&self) -> int {
        self.simultaneous_load as int
    }

    pub closed spec fn rows(&self) -> int {
        self.total_rows as int
    }

    /// The index of the first entry of row `row`, clipped to the entries.
    pub open spec fn first_visible(&self, row: int) -> int {
        if row * self.per_row() > self.entries().len() {
            self.entries().len() as int
        } else {
            row * self.per_row()
        }
    }

    pub open spec fn wf(&self) -> bool {
        &&& self.per_row() >= 1
        &&& self.rows() == rows_for(self.entries().len() as int, self.per_row())
        &&& forall|i: int| 0 <= i < self.entries().len() ==> #[trigger] self.entries()[i].wf()
    }

    pub open spec fn same_settings(&self, other: &Self) -> bool {
        &&& self.per_row() == other.per_row()
        &&& self.margin() == other.margin()
        &&& self.cap() == other.cap()
    }

    fn fresh_entries(paths: &Vec<String>) -> (r: Vec<Entry<I, H>>)
        ensures
            r@.len() == paths@.len(),
            forall|j: int|
                #![trigger r@[j]]
                0 <= j < r@.len() ==> r@[j].path_view() == paths@[j]@ && r@[j].state()
                    == LoadState::Idle && r@[j].wf(),
    {
        let mut imgs: Vec<Entry<I, H>> = Vec::new();
        let mut i: usize = 0;
        while i < paths.len()
            invariant
                i <= paths@.len(),
                imgs@.len() == i,
                forall|j: int|
                    #![trigger imgs@[j]]
                    0 <= j < i ==> imgs@[j].path_view() == paths@[j]@ && imgs@[j].state()
                        == LoadState::Idle && imgs@[j].wf(),
            decreases paths@.len() - i,
        {
            imgs.push(Entry::from_path(&paths[i]));
            i = i + 1;
        }
        imgs
    }

    /// A grid over `paths`; a row holds at least one entry.
    pub fn new(
        image_paths: &Vec<String>,
        images_per_row: usize,
        preloaded_rows: usize,
        simultaneous_load: usize,
    ) -> (r: Self)
        ensures
            r.wf(),
            r.per_row() == if images_per_row == 0 {
                1
            } else {
                images_per_row as int
            },
            r.margin() == preloaded_rows,
            r.cap() == simultaneous_load,
            r.entries().len() == image_paths@.len(),
            forall|i: int|
                #![trigger r.entries()[i]]
                0 <= i < image_paths@.len() ==> r.entries()[i].path_view() == image_paths@[i]@
                    && r.entries()[i].state() == LoadState::Idle,
    {
        let mut g = MultiGallery {
            imgs: Self::fresh_entries(image_paths),
            images_per_row: if images_per_row == 0 {
                1
            } else {
                images_per_row
            },
            preloaded_rows,
            simultaneous_load,
            total_rows: 0,
        };
        g.set_total_rows();
        g
    }

    /// Replaces the entries with fresh ones over `img_paths`.
    pub fn set_images(&mut self, img_paths: &Vec<String>)
        requires
            old(self).wf(),
        ensures
            final(self).wf(),
            final(self).same_settings(old(self)),
            final(self).entries().len() == img_paths@.len(),
            forall|i: int|
                #![trigger final(self).entries()[i]]
                0 <= i < img_paths@.len() ==> final(self).entries()[i].path_view()
                    == img_paths@[i]@ && final(self).entries()[i].state() == LoadState::Idle,
    {
        self.imgs = Self::fresh_entries(img_paths);
        self.set_total_rows();
    }

    /// Recomputes the number of rows from the number of entries.
    pub fn set_total_rows(&mut self)
        requires
            old(self).per_row() >= 1,
            forall|i: int|
                0 <= i < old(self).entries().len() ==> #[trigger] old(self).entries()[i].wf(),
        ensures
            final(self).wf(),
            final(self).entries() == old(self).entries(),
            final(self).same_settings(old(self)),
    {
        let len = self.imgs.len();
        let per = self.images_per_row;
        self.total_rows = rows_of(len, per);
        assert(self.entries() == old(self).entries());
        assert forall|i: int| 0 <= i < self.entries().len() implies #[trigger] self.entries()[i].wf() by {
            assert(old(self).entries()[i].wf());
        }
    }

    pub fn len(&self) -> (r: usize)
        ensures
            r == self.entries().len(),
    {
        self.imgs.len()
    }

    pub fn total_rows(&self) -> (r: usize)
        ensures
            r == self.rows(),
    {
        self.total_rows
    }

    pub fn images_per_row(&self) -> (r: usize)
        ensures
            r == self.per_row(),
    {
        self.images_per_row
    }

    pub fn entry(&self, i: usize) -> (r: &Entry<I, H>)
        requires
            i < self.entries().len(),
        ensures
            *r == self.entries()[i as int],
    {
        &self.imgs[i]
    }

    /// One more entry per row, up to sixteen.
    pub fn more_per_row(&mut self)
        requires
            old(self).wf(),
        ensures
            final(self).wf(),
            final(self).entries() == old(self).entries(),
            final(self).per_row() == if old(self).per_row() <= 15 {
                old(self).per_row() + 1
            } else {
                old(self).per_row()
            },
    {
        if self.images_per_row <= 15 {
            self.images_per_row = self.images_per_row + 1;
            self.set_total_rows();
        }
    }

    /// One entry fewer per row, down to one.
    pub fn less_per_row(&mut self)
        requires
            old(self).wf(),
        ensures
            final(self).wf(),
            final(self).entries() == old(self).entries(),
            final(self).per_row() == if old(self).per_row() != 1 {
                old(self).per_row() - 1
            } else {
                old(self).per_row()
            },
    {
        if self.images_per_row != 1 {
            self.images_per_row = self.images_per_row - 1;
            self.set_total_rows();
        }
    }

    /// The preload rows around the visible rows `[row_start, row_end)`:
    /// the margin either side, clipped to the grid.
    pub fn preload_bounds(&self, row_start: usize, row_end: usize) -> (r: (usize, usize))
        requires
            row_start <= row_end <= self.rows(),
        ensures
            r.0 == if row_start <= self.margin() {
                0
            } else {
                row_start - self.margin()
            },
            r.1 == if row_end + self.margin() > self.rows() {
                self.rows()
            } else {
                row_end + self.margin()
            },
    {
        let from = if row_start <= self.preloaded_rows {
            0
        } else {
            row_start - self.preloaded_rows
        };
        let to = if self.preloaded_rows > self.total_rows - row_end {
            self.total_rows
        } else {
            row_end + self.preloaded_rows
        };
        (from, to)
    }

    /// The number of entries whose job is still running.
    pub fn count_loading(&self, finished: &Vec<bool>) -> (r: usize)
        requires
            finished@.len() == self.entries().len(),
        ensures
            r == self.count_running(finished@),
    {
        let mut c: usize = 0;
        let mut i: usize = 0;
        while i < self.imgs.len()
            invariant
                i <= self.entries().len(),
                finished@.len() == self.entries().len(),
                c <= i,
                c == running_count(self.entries(), finished@, i as int),
            decreases self.entries().len() - i,
        {
            if self.imgs[i].is_loading() && !finished[i] {
                c = c + 1;
            }
            i = i + 1;
        }
        c
    }

    /// Passes over entries `[lo, hi)`: those in rows `[from, to)` are
    /// requested while fewer than the cap are loading, the others unloaded.
    fn sweep<F: Fn(&String) -> H>(
        &mut self,
        lo: usize,
        hi: usize,
        from: usize,
        to: usize,
        loading: &mut usize,
        started: &mut Vec<usize>,
        finished: &Vec<bool>,
        spawn: &F,
    )
        requires
            old(self).wf(),
            lo <= hi <= old(self).entries().len(),
            finished@.len() == old(self).entries().len(),
            forall|p: &String| spawn.requires((p,)),
            forall|x: int|
                0 <= x < old(started)@.len() ==> !(lo <= #[trigger] old(started)@[x] < hi),
        ensures
            final(self).wf(),
            final(self).same_settings(old(self)),
            final(self).entries().len() == old(self).entries().len(),
            final(self).rows() == old(self).rows(),
            *final(loading) == *old(loading) + final(started)@.len() - old(started)@.len(),
            final(started)@.len() >= old(started)@.len(),
            final(started)@.subrange(0, old(started)@.len() as int) == old(started)@,
            *old(loading) >= old(self).cap() ==> *final(loading) == *old(loading),
            *old(loading) < old(self).cap() ==> *final(loading) <= old(self).cap(),
            forall|x: int|
                old(started)@.len() <= x < final(started)@.len() ==> lo <= #[trigger] final(started)@[x] < hi,
            forall|x: int, y: int|
                old(started)@.len() <= x < y < final(started)@.len() ==> #[trigger] final(started)@[x]
                    < #[trigger] final(started)@[y],
            forall|j: int|
                0 <= j < old(self).entries().len() && !(lo <= j < hi) ==> #[trigger] final(self).entries()[j] == old(self).entries()[j],
            forall|j: int|
                #![trigger final(self).entries()[j]]
                lo <= j < hi ==> swept(
                    old(self).entries()[j],
                    final(self).entries()[j],
                    from <= j / old(self).per_row() < to,
                    finished@[j],
                    final(started)@.subrange(old(started)@.len() as int, final(started)@.len() as int).contains(j as usize),
                ),
            forall|j: int|
                lo <= j < hi && from <= j / old(self).per_row() < to && old(self).entries()[j].state()
                    == LoadState::Idle && !final(started)@.contains(j as usize) ==> *final(loading)
                    >= old(self).cap(),
            forall|j: int|
                #![trigger old(self).entries()[j]]
                lo <= j < hi && from <= j / old(self).per_row() < to && old(self).entries()[j].state()
                    == LoadState::Idle && !final(started)@.contains(j as usize) ==> forall|x: int|
                    old(started)@.len() <= x < final(started)@.len() ==> #[trigger] final(started)@[x]
                        < j,
    {
        let ghost s0 = *self;
        let ghost st0 = started@;
        let ghost l0 = *loading;
        let mut i: usize = lo;
        while i < hi
            invariant
                s0.wf(),
                lo <= i <= hi <= s0.entries().len(),
                finished@.len() == s0.entries().len(),
                forall|p: &String| spawn.requires((p,)),
                self.entries().len() == s0.entries().len(),
                self.images_per_row == s0.images_per_row,
                self.preloaded_rows == s0.preloaded_rows,
                self.simultaneous_load == s0.simultaneous_load,
                self.total_rows == s0.total_rows,
                forall|j: int| 0 <= j < self.entries().len() ==> #[trigger] self.entries()[j].wf(),
                forall|x: int| 0 <= x < st0.len() ==> !(lo <= #[trigger] st0[x] < hi),
                forall|x: int, y: int|
                    st0.len() <= x < y < started@.len() ==> #[trigger] started@[x] < #[trigger] started@[y],
                *loading == l0 + started@.len() - st0.len(),
                started@.len() >= st0.len(),
                started@.subrange(0, st0.len() as int) == st0,
                l0 >= s0.cap() ==> *loading == l0,
                l0 < s0.cap() ==> *loading <= s0.cap(),
                forall|x: int|
                    st0.len() <= x < started@.len() ==> lo <= #[trigger] started@[x] < i,
                forall|j: int|
                    0 <= j < s0.entries().len() && !(lo <= j < i) ==> #[trigger] self.entries()[j]
                        == s0.entries()[j],
                forall|j: int|
                    #![trigger self.entries()[j]]
                    lo <= j < i ==> swept(
                        s0.entries()[j],
                        self.entries()[j],
                        from <= j / s0.per_row() < to,
                        finished@[j],
                        started@.subrange(st0.len() as int, started@.len() as int).contains(
                            j as usize,
                        ),
                    ),
                forall|j: int|
                    lo <= j < i && from <= j / s0.per_row() < to && s0.entries()[j].state()
                        == LoadState::Idle && !started@.contains(j as usize) ==> *loading
                        >= s0.cap(),
                forall|j: int|
                    #![trigger s0.entries()[j]]
                    lo <= j < i && from <= j / s0.per_row() < to && s0.entries()[j].state()
                        == LoadState::Idle && !started@.contains(j as usize) ==> forall|x: int|
                        st0.len() <= x < started@.len() ==> #[trigger] started@[x] < j,
            decreases hi - i,
        {
            let row = i / self.images_per_row;
            let ghost before = started@;
            let ghost lb = *loading;
            if from <= row && row < to {
                if *loading < self.simultaneous_load {
                    if self.imgs[i].load(spawn) {
                        *loading = *loading + 1;
                        started.push(i);
                    }
                }
            } else {
                self.imgs[i].unload(finished[i]);
            }
            proof {
                assert(started@.subrange(0, st0.len() as int) == st0);
                assert forall|j: int|
                    #![trigger self.entries()[j]]
                    lo <= j <= i implies swept(
                        s0.entries()[j],
                        self.entries()[j],
                        from <= j / s0.per_row() < to,
                        finished@[j],
                        started@.subrange(st0.len() as int, started@.len() as int).contains(
                            j as usize,
                        ),
                    ) by {
                    let new_part = started@.subrange(st0.len() as int, started@.len() as int);
                    let old_part = before.subrange(st0.len() as int, before.len() as int);
                    if j < i {
                        if started@.len() > before.len() {
                            assert(new_part == old_part.push(i));
                            if new_part.contains(j as usize) {
                                let x = choose|x: int| 0 <= x < new_part.len() && new_part[x] == j as usize;
                                assert(x < old_part.len());
                                assert(old_part[x] == j as usize);
                            }
                            if old_part.contains(j as usize) {
                                let x = choose|x: int| 0 <= x < old_part.len() && old_part[x] == j as usize;
                                assert(new_part[x] == j as usize);
                            }
                        } else {
                            assert(new_part == old_part);
                        }
                    } else {
                        if started@.len() > before.len() {
                            assert(new_part == old_part.push(i));
                            assert(new_part[new_part.len() - 1] == i);
                        } else {
                            assert(new_part == old_part);
                            assert forall|x: int| 0 <= x < old_part.len() implies old_part[x] != i by {
                                assert(started@[st0.len() + x] == old_part[x]);
                            }
                        }
                    }
                }
                assert forall|j: int|
                    #![trigger s0.entries()[j]]
                    lo <= j <= i && from <= j / s0.per_row() < to && s0.entries()[j].state()
                        == LoadState::Idle && !started@.contains(j as usize) implies forall|x: int|
                        st0.len() <= x < started@.len() ==> #[trigger] started@[x] < j by {
                    if started@.len() > before.len() {
                        assert(started@ == before.push(i));
                        assert(started@[started@.len() - 1] == i);
                        if j < i {
                            assert(!before.contains(j as usize)) by {
                                if before.contains(j as usize) {
                                    let x = choose|x: int| 0 <= x < before.len() && before[x] == j as usize;
                                    assert(started@[x] == j as usize);
                                }
                            }
                            assert(lb >= s0.cap());
                        }
                    } else {
                        assert(started@ == before);
                    }
                }
                assert forall|j: int|
                    lo <= j <= i && from <= j / s0.per_row() < to && s0.entries()[j].state()
                        == LoadState::Idle && !started@.contains(j as usize) implies *loading
                        >= s0.cap() by {
                    if j == i {
                        if started@.len() > before.len() {
                            assert(started@[started@.len() - 1] == i);
                        }
                    } else if started@.len() > before.len() {
                        assert(started@ == before.push(i));
                        assert(!before.contains(j as usize)) by {
                            if before.contains(j as usize) {
                                let x = choose|x: int| 0 <= x < before.len() && before[x] == j as usize;
                                assert(started@[x] == j as usize);
                            }
                        }
                    }
                }
            }
            i = i + 1;
        }
    }

    /// The start of row `row` as an entry index, clipped to the entries.
    fn row_start_index(&self, row: usize) -> (r: usize)
        requires
            self.per_row() >= 1,
        ensures
            r == if row * self.per_row() > self.entries().len() {
                self.entries().len() as int
            } else {
                row * self.per_row()
            },
    {
        match row.checked_mul(self.images_per_row) {
            Some(x) => if x > self.imgs.len() {
                self.imgs.len()
            } else {
                x
            },
            None => self.imgs.len(),
        }
    }

    /// One frame's pass over the grid while rows `[row_start, row_end)` are
    /// visible: entries in the preload rows are requested, visible rows
    /// first, then the rows below, then those above, while fewer than the
    /// cap are loading; every other entry is unloaded. Returns the entries
    /// whose load was started, in that order.
    pub fn update_window<F: Fn(&String) -> H>(
        &mut self,
        row_start: usize,
        row_end: usize,
        finished: &Vec<bool>,
        spawn: &F,
    ) -> (started: Vec<usize>)
        requires
            old(self).wf(),
            row_start <= row_end <= old(self).rows(),
            finished@.len() == old(self).entries().len(),
            forall|p: &String| spawn.requires((p,)),
        ensures
            final(self).wf(),
            final(self).same_settings(old(self)),
            final(self).entries().len() == old(self).entries().len(),
            ({
                let from = if row_start <= old(self).margin() {
                    0
                } else {
                    row_start - old(self).margin()
                };
                let to = if row_end + old(self).margin() > old(self).rows() {
                    old(self).rows()
                } else {
                    row_end + old(self).margin()
                };
                &&& forall|j: int|
                    #![trigger final(self).entries()[j]]
                    0 <= j < old(self).entries().len() ==> swept(
                        old(self).entries()[j],
                        final(self).entries()[j],
                        from <= j / old(self).per_row() < to,
                        finished@[j],
                        started@.contains(j as usize),
                    )
                &&& forall|j: int|
                    0 <= j < old(self).entries().len() && from <= j / old(self).per_row() < to
                        && old(self).entries()[j].state() == LoadState::Idle
                        && !started@.contains(j as usize) ==> old(self).count_running(finished@)
                        + started@.len() >= old(self).cap()
                &&& forall|j: int|
                    #![trigger old(self).entries()[j]]
                    0 <= j < old(self).entries().len() && from <= j / old(self).per_row() < to
                        && old(self).entries()[j].state() == LoadState::Idle
                        && !started@.contains(j as usize) ==> forall|x: int|
                        0 <= x < started@.len() ==> scan_rank(
                            old(self).entries().len() as int,
                            old(self).first_visible(row_start as int),
                            #[trigger] started@[x] as int,
                        ) < scan_rank(
                            old(self).entries().len() as int,
                            old(self).first_visible(row_start as int),
                            j,
                        )
            }),
            started@.no_duplicates(),
            old(self).count_running(finished@) >= old(self).cap() ==> started@.len() == 0,
            old(self).count_running(finished@) < old(self).cap() ==> old(self).count_running(
                finished@,
            ) + started@.len() <= old(self).cap(),
    {
        let (from, to) = self.preload_bounds(row_start, row_end);
        let mut loading = self.count_loading(finished);
        let ghost l0 = loading as int;
        let ghost s0 = *self;
        let v0 = self.row_start_index(row_start);
        let v1 = self.row_start_index(row_end);
        let n = self.imgs.len();
        proof {
            assert(row_start * s0.per_row() <= row_end * s0.per_row()) by (nonlinear_arith)
                requires
                    row_start <= row_end,
                    s0.per_row() >= 1,
            ;
        }
        let mut started: Vec<usize> = Vec::new();
        self.sweep(v0, v1, from, to, &mut loading, &mut started, finished, spawn);
        let ghost st1 = started@;
        let ghost s1 = *self;
        let ghost l1 = loading as int;
        self.sweep(v1, n, from, to, &mut loading, &mut started, finished, spawn);
        let ghost st2 = started@;
        let ghost s2 = *self;
        let ghost l2 = loading as int;
        proof {
            assert(st2.subrange(0, st1.len() as int) == st1);
            assert forall|x: int| 0 <= x < st2.len() implies !(0 <= #[trigger] st2[x] < v0) by {
                if x < st1.len() {
                    assert(st2[x] == st1[x]);
                }
            }
        }
        self.sweep(0, v0, from, to, &mut loading, &mut started, finished, spawn);
        proof {
            let st3 = started@;
            assert(st2.subrange(0, st1.len() as int) == st1) by {
                assert(st2.subrange(0, 0) == Seq::<usize>::empty());
            }
            assert(st3.subrange(0, st2.len() as int) == st2);
            assert forall|x: int| 0 <= x < st1.len() implies v0 <= #[trigger] st3[x] < v1 by {
                assert(st3[x] == st2[x]);
                assert(st2[x] == st1[x]);
            }
            assert forall|x: int| st1.len() <= x < st2.len() implies v1 <= #[trigger] st3[x] < n by {
                assert(st3[x] == st2[x]);
            }
            assert forall|j: int|
                #![trigger self.entries()[j]]
                0 <= j < n implies swept(
                s0.entries()[j],
                self.entries()[j],
                from <= j / s0.per_row() < to,
                finished@[j],
                st3.contains(j as usize),
            ) by {
                if v0 <= j < v1 {
                    lemma_contains_parts(st1, 0, j as usize, v0 as int, v1 as int);
                    assert(st1.subrange(0, st1.len() as int) == st1);
                    lemma_contains_parts(st2, st1.len() as int, j as usize, v1 as int, n as int);
                    lemma_contains_parts(st3, st2.len() as int, j as usize, 0, v0 as int);
                    assert(self.entries()[j] == s2.entries()[j]);
                    assert(s2.entries()[j] == s1.entries()[j]);
                } else if v1 <= j < n {
                    assert forall|x: int| 0 <= x < st1.len() implies !(v1 <= #[trigger] st2[x] < n) by {
                        assert(st2[x] == st1[x]);
                    }
                    lemma_contains_parts(st2, st1.len() as int, j as usize, v1 as int, n as int);
                    lemma_contains_parts(st3, st2.len() as int, j as usize, 0, v0 as int);
                    assert(self.entries()[j] == s2.entries()[j]);
                    assert(s1.entries()[j] == s0.entries()[j]);
                } else {
                    assert forall|x: int| 0 <= x < st2.len() implies !(0 <= #[trigger] st3[x] < v0) by {
                        if x >= st1.len() {
                            assert(st3[x] == st2[x]);
                        }
                    }
                    lemma_contains_parts(st3, st2.len() as int, j as usize, 0, v0 as int);
                    assert(s2.entries()[j] == s0.entries()[j]);
                    assert(st3.subrange(st2.len() as int, st3.len() as int).contains(j as usize) == st3.contains(j as usize));
                }
            }
            assert forall|j: int|
                0 <= j < n && from <= j / s0.per_row() < to
                    && s0.entries()[j].state() == LoadState::Idle
                    && !st3.contains(j as usize) implies l0 + st3.len() >= s0.cap() by {
                if st2.contains(j as usize) {
                    let x = choose|x: int| 0 <= x < st2.len() && st2[x] == j as usize;
                    assert(st3[x] == j as usize);
                }
                if st1.contains(j as usize) {
                    let x = choose|x: int| 0 <= x < st1.len() && st1[x] == j as usize;
                    assert(st2[x] == j as usize);
                }
                if v0 <= j < v1 {
                } else if v1 <= j < n {
                    assert(s1.entries()[j] == s0.entries()[j]);
                } else {
                    assert(s2.entries()[j] == s0.entries()[j]);
                }
            }
            assert forall|j: int|
                #![trigger s0.entries()[j]]
                0 <= j < n && from <= j / s0.per_row() < to && s0.entries()[j].state()
                    == LoadState::Idle && !st3.contains(j as usize) implies forall|x: int|
                    0 <= x < st3.len() ==> scan_rank(n as int, v0 as int, #[trigger] st3[x] as int)
                        < scan_rank(n as int, v0 as int, j) by {
                if st2.contains(j as usize) {
                    let x = choose|x: int| 0 <= x < st2.len() && st2[x] == j as usize;
                    assert(st3[x] == j as usize);
                }
                if st1.contains(j as usize) {
                    let x = choose|x: int| 0 <= x < st1.len() && st1[x] == j as usize;
                    assert(st2[x] == j as usize);
                }
                assert forall|x: int| 0 <= x < st3.len() implies scan_rank(
                    n as int,
                    v0 as int,
                    #[trigger] st3[x] as int,
                ) < scan_rank(n as int, v0 as int, j) by {
                    if v0 <= j < v1 {
                        assert(st2.len() == st1.len());
                        assert(st3.len() == st2.len());
                        assert(st3[x] == st2[x] && st2[x] == st1[x]);
                    } else if v1 <= j < n {
                        assert(s1.entries()[j] == s0.entries()[j]);
                        assert(st3.len() == st2.len());
                        assert(st3[x] == st2[x]);
                        if x < st1.len() {
                            assert(st2[x] == st1[x]);
                        }
                    } else {
                        assert(s2.entries()[j] == s0.entries()[j]);
                        if x < st2.len() {
                            assert(st3[x] == st2[x]);
                            if x < st1.len() {
                                assert(st2[x] == st1[x]);
                            }
                        }
                    }
                }
            }
            assert forall|x: int, y: int| 0 <= x < y < st3.len() implies st3[x] != st3[y] by {
                if y < st1.len() {
                    assert(st3[x] == st1[x] && st3[y] == st1[y]);
                } else if y < st2.len() {
                    if x >= st1.len() {
                        assert(st3[x] == st2[x] && st3[y] == st2[y]);
                    }
                } else if x >= st2.len() {
                } else {
                }
            }
        }
        started
    }

    /// The first entry whose path is `path`.
    pub fn position_of_path(&self, path: &String) -> (r: Option<usize>)
        ensures
            match r {
                Some(k) => k < self.entries().len() && self.entries()[k as int].path_view()
                    == path@ && forall|j: int|
                    0 <= j < k ==> #[trigger] self.entries()[j].path_view() != path@,
                None => forall|j: int|
                    0 <= j < self.entries().len() ==> #[trigger] self.entries()[j].path_view()
                        != path@,
            },
    {
        let mut i: usize = 0;
        while i < self.imgs.len()
            invariant
                i <= self.entries().len(),
                forall|j: int| 0 <= j < i ==> #[trigger] self.entries()[j].path_view() != path@,
            decreases self.entries().len() - i,
        {
            if string_eq(self.imgs[i].path(), path) {
                return Some(i);
            }
            i = i + 1;
        }
        None
    }

    /// Removes the first entry whose path is `path`, returning its former
    /// position.
    pub fn pop(&mut self, path: &String) -> (r: Option<usize>)
        requires
            old(self).wf(),
        ensures
            final(self).wf(),
            final(self).same_settings(old(self)),
            match r {
                None => {
                    &&& forall|j: int|
                        0 <= j < old(self).entries().len() ==> #[trigger] old(self).entries()[j].path_view()
                            != path@
                    &&& final(self).entries() == old(self).entries()
                },
                Some(k) => {
                    &&& k < old(self).entries().len()
                    &&& old(self).entries()[k as int].path_view() == path@
                    &&& forall|j: int|
                        0 <= j < k ==> #[trigger] old(self).entries()[j].path_view() != path@
                    &&& final(self).entries() == old(self).entries().remove(k as int)
                },
            },
    {
        match self.position_of_path(path) {
            None => None,
            Some(k) => {
                self.imgs.remove(k);
                proof {
                    assert forall|j: int| 0 <= j < self.entries().len() implies #[trigger] self.entries()[j].wf() by {
                        if j < k {
                            assert(self.entries()[j] == old(self).entries()[j]);
                        } else {
                            assert(self.entries()[j] == old(self).entries()[j + 1]);
                        }
                    }
                }
                self.set_total_rows();
                Some(k)
            },
        }
    }

    /// Unloads the first entry whose path is `path`, so that the next pass
    /// requests it again.
    pub fn reload_at(&mut self, path: &String, finished: &Vec<bool>)
        requires
            old(self).wf(),
            finished@.len() == old(self).entries().len(),
        ensures
            final(self).wf(),
            final(self).same_settings(old(self)),
            final(self).entries().len() == old(self).entries().len(),
            forall|j: int|
                0 <= j < old(self).entries().len() ==> if old(self).entries()[j].path_view() == path@
                    && forall|i: int| 0 <= i < j ==> old(self).entries()[i].path_view() != path@ {
                    Entry::unloaded_from(
                        &old(self).entries()[j],
                        &final(self).entries()[j],
                        finished@[j],
                    )
                } else {
                    final(self).entries()[j] == old(self).entries()[j]
                },
    {
        if let Some(k) = self.position_of_path(path) {
            self.imgs[k].unload(finished[k]);
        }
    }

    /// Polls the job of entry `i`; see `Entry::poll`.
    pub fn poll_at(&mut self, i: usize, finished: bool) -> (r: Option<H>)
        requires
            old(self).wf(),
            i < old(self).entries().len(),
        ensures
            final(self).wf(),
            final(self).same_settings(old(self)),
            final(self).entries().len() == old(self).entries().len(),
            Entry::polled_from(&old(self).entries()[i as int], &final(self).entries()[i as int], finished, r),
            forall|j: int|
                0 <= j < old(self).entries().len() && j != i ==> #[trigger] final(self).entries()[j]
                    == old(self).entries()[j],
    {
        self.imgs[i].poll(finished)
    }

    /// Stores the result of the joined job of entry `i`.
    pub fn complete_at(&mut self, i: usize, result: Option<I>)
        requires
            old(self).wf(),
            i < old(self).entries().len(),
        ensures
            final(self).wf(),
            final(self).same_settings(old(self)),
            final(self).entries().len() == old(self).entries().len(),
            final(self).entries()[i as int].same_identity(&old(self).entries()[i as int]),
            final(self).entries()[i as int].slot() == result,
            final(self).entries()[i as int].job() is None,
            forall|j: int|
                0 <= j < old(self).entries().len() && j != i ==> #[trigger] final(self).entries()[j]
                    == old(self).entries()[j],
    {
        self.imgs[i].complete(result);
    }
}

} // verus!
