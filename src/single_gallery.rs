//! The single-focus collection: one visible entry, with the entries within
//! a preload depth of it (either way round) kept resident.
use vstd::prelude::*;
use crate::entry::{Entry, LoadState};
use crate::text::string_eq;
use crate::window::{
    in_window,
    window_set,
    window_contains,
    get_vec_index_subtracted_by,
    get_vec_index_sum_by,
    lemma_window_size,
    lemma_mod_range,
};

verus! {

pub struct SingleGallery<I, H> {
    imgs: Vec<Entry<I, H>>,
    selected_img_index: usize,
    preload_active: bool,
    nr_loaded_images: usize,
    should_wait: bool,
}

/// Whether a collection of `image_count` entries keeps only a window of
/// `preload_nr` entries either side of the focus resident.
pub fn is_valid_for_preload(preload_nr: usize, image_count: usize) -> (r: bool)
    ensures
        r == (2 * preload_nr <= image_count),
{
    preload_nr <= image_count / 2
}

impl<I, H> SingleGallery<I, H> {
    pub closed spec fn entries(&self) -> Seq<Entry<I, H>> {
        self.imgs@
    }

    pub closed spec fn focus(&self) -> int {
        self.selected_img_index as int
    }

    /// The preload depth.
    pub closed spec fn depth(&self) -> int {
        self.nr_loaded_images as int
    }

    pub closed spec fn preloading(&self) -> bool {
        self.preload_active
    }

    /// Whether advancing waits for the focused entry to finish loading.
    pub closed spec fn waits(&self) -> bool {
        self.should_wait
    }

    pub open spec fn wf(&self) -> bool {
        &&& self.entries().len() == 0 ==> self.focus() == 0
        &&& self.entries().len() > 0 ==> 0 <= self.focus() < self.entries().len()
        &&& self.preloading() == (2 * self.depth() <= self.entries().len())
        &&& forall|i: int| 0 <= i < self.entries().len() ==> #[trigger] self.entries()[i].wf()
    }

    /// Whether entry `i` belongs to the resident set around the focus.
    pub open spec fn resident(&self, i: int) -> bool {
        !self.preloading() || in_window(
            self.entries().len() as int,
            self.focus(),
            self.depth(),
            i,
        )
    }

    pub open spec fn same_settings(&self, other: &Self) -> bool {
        &&& self.depth() == other.depth()
        &&& self.waits() == other.waits()
    }

    /// `new` holds the entries `prev` with every entry resident around
    /// `new`'s focus requested and every other entry unloaded, `finished`
    /// telling which jobs have finished.
    pub open spec fn applied(prev: Seq<Entry<I, H>>, new: &Self, finished: Seq<bool>) -> bool {
        &&& new.wf()
        &&& new.entries().len() == prev.len()
        &&& forall|i: int|
            0 <= i < prev.len() ==> if new.resident(i) {
                Entry::loaded_from(&prev[i], #[trigger] &new.entries()[i])
            } else {
                Entry::unloaded_from(&prev[i], &new.entries()[i], finished[i])
            }
    }

    /// Whether an advance of the focus is refused: the collection is empty,
    /// or advancing waits and the focused entry is still loading.
    pub open spec fn advance_blocked(&self) -> bool {
        self.entries().len() == 0 || (self.waits() && self.entries()[self.focus()].job() is Some)
    }

    /// `new` is `old` after a move of the focus to the next entry: nothing
    /// changes where the move is refused; otherwise the focus moves on by
    /// one (wrapping round) and, where the window is smaller than the
    /// collection, the entry `d` before the old focus is unloaded and the
    /// entry `d` after the new focus requested, all others kept.
    pub open spec fn advanced(old: &Self, new: &Self, finished: Seq<bool>) -> bool {
        &&& old.advance_blocked() ==> new.entries() == old.entries() && new.focus() == old.focus()
        &&& !old.advance_blocked() ==> ({
            let n = old.entries().len() as int;
            let f = old.focus();
            let d = old.depth();
            &&& new.focus() == (f + 1) % n
            &&& if old.preloading() && 2 * d + 1 < n {
                let leave = (f - d) % n;
                let enter = (f + 1 + d) % n;
                &&& Entry::unloaded_from(&old.entries()[leave], &new.entries()[leave], finished[leave])
                &&& Entry::loaded_from(&old.entries()[enter], &new.entries()[enter])
                &&& forall|i: int|
                    0 <= i < n && i != leave && i != enter ==> #[trigger] new.entries()[i]
                        == old.entries()[i]
            } else {
                new.entries() == old.entries()
            }
        })
    }

    pub fn len(&self) -> (r: usize)
        ensures
            r == self.entries().len(),
    {
        self.imgs.len()
    }

    pub fn entry(&self, i: usize) -> (r: &Entry<I, H>)
        requires
            i < self.entries().len(),
        ensures
            *r == self.entries()[i as int],
    {
        &self.imgs[i]
    }

    pub fn selected_index(&self) -> (r: usize)
        ensures
            r == self.focus(),
    {
        self.selected_img_index
    }

    /// The focused entry's position counted from one.
    pub fn get_active_img_nr(&self) -> (r: usize)
        requires
            self.wf(),
        ensures
            r == self.focus() + 1,
    {
        let n = self.imgs.len();
        self.selected_img_index + 1
    }

    pub fn get_active_img(&self) -> (r: Option<&Entry<I, H>>)
        requires
            self.wf(),
        ensures
            match r {
                Some(e) => self.entries().len() > 0 && *e == self.entries()[self.focus()],
                None => self.entries().len() == 0,
            },
    {
        if self.imgs.len() > 0 {
            Some(&self.imgs[self.selected_img_index])
        } else {
            None
        }
    }

    pub fn active_img_is_loading(&self) -> (r: bool)
        requires
            self.wf(),
        ensures
            r == (self.entries().len() > 0 && self.entries()[self.focus()].job() is Some),
    {
        if self.imgs.len() > 0 {
            self.imgs[self.selected_img_index].is_loading()
        } else {
            false
        }
    }

    /// The first entry whose path is `path`.
    pub fn position_of_path(&self, path: &String) -> (r: Option<usize>)
        ensures
            match r {
                Some(k) => k < self.entries().len() && self.entries()[k as int].path_view()
                    == path@ && forall|j: int|
                    0 <= j < k ==> #[trigger] self.entries()[j].path_view() != path@,
                None => forall|j: int|
                    0 <= j < self.entries().len() ==> #[trigger] self.entries()[j].path_view()
                        != path@,
            },
    {
        let mut i: usize = 0;
        while i < self.imgs.len()
            invariant
                i <= self.entries().len(),
                forall|j: int| 0 <= j < i ==> #[trigger] self.entries()[j].path_view() != path@,
            decreases self.entries().len() - i,
        {
            if string_eq(self.imgs[i].path(), path) {
                return Some(i);
            }
            i = i + 1;
        }
        None
    }

    /// The first entry whose name is `name`.
    pub fn position_of_name(&self, name: &String) -> (r: Option<usize>)
        ensures
            match r {
                Some(k) => k < self.entries().len() && self.entries()[k as int].name_view()
                    == name@ && forall|j: int|
                    0 <= j < k ==> #[trigger] self.entries()[j].name_view() != name@,
                None => forall|j: int|
                    0 <= j < self.entries().len() ==> #[trigger] self.entries()[j].name_view()
                        != name@,
            },
    {
        let mut i: usize = 0;
        while i < self.imgs.len()
            invariant
                i <= self.entries().len(),
                forall|j: int| 0 <= j < i ==> #[trigger] self.entries()[j].name_view() != name@,
            decreases self.entries().len() - i,
        {
            if string_eq(self.imgs[i].name(), name) {
                return Some(i);
            }
            i = i + 1;
        }
        None
    }

    /// Requests every resident entry and unloads every other one.
    pub fn load<F: Fn(&String) -> H>(&mut self, finished: &Vec<bool>, spawn: &F)
        requires
            old(self).wf(),
            finished@.len() == old(self).entries().len(),
            forall|p: &String| spawn.requires((p,)),
        ensures
            Self::applied(old(self).entries(), final(self), finished@),
            final(self).same_settings(old(self)),
            final(self).focus() == old(self).focus(),
            final(self).preloading() == old(self).preloading(),
    {
        let n = self.imgs.len();
        let ghost start = *self;
        let mut i: usize = 0;
        while i < n
            invariant
                start.wf(),
                n == start.entries().len(),
                finished@.len() == n,
                forall|p: &String| spawn.requires((p,)),
                i <= n,
                self.entries().len() == n,
                self.selected_img_index == start.selected_img_index,
                self.preload_active == start.preload_active,
                self.nr_loaded_images == start.nr_loaded_images,
                self.should_wait == start.should_wait,
                forall|j: int| 0 <= j < n ==> #[trigger] self.entries()[j].wf(),
                forall|j: int|
                    i <= j < n ==> #[trigger] self.entries()[j] == start.entries()[j],
                forall|j: int|
                    0 <= j < i ==> if start.resident(j) {
                        Entry::loaded_from(&start.entries()[j], #[trigger] &self.entries()[j])
                    } else {
                        Entry::unloaded_from(&start.entries()[j], &self.entries()[j], finished@[j])
                    },
            decreases n - i,
        {
            let resident = !self.preload_active || window_contains(
                n,
                self.selected_img_index,
                self.nr_loaded_images,
                i,
            );
            if resident {
                self.imgs[i].load(spawn);
            } else {
                self.imgs[i].unload(finished[i]);
            }
            i = i + 1;
        }
    }

    /// A collection over `paths`, focused on the first entry whose path is
    /// `selected` (or the first entry), with its resident set requested.
    pub fn new<F: Fn(&String) -> H>(
        image_paths: &Vec<String>,
        selected_image_path: &Option<String>,
        nr_loaded_images: usize,
        should_wait: bool,
        spawn: &F,
    ) -> (r: Self)
        requires
            forall|p: &String| spawn.requires((p,)),
        ensures
            r.wf(),
            r.depth() == nr_loaded_images,
            r.waits() == should_wait,
            r.entries().len() == image_paths@.len(),
            forall|i: int|
                0 <= i < image_paths@.len() ==> #[trigger] r.entries()[i].path_view()
                    == image_paths@[i]@,
            forall|i: int|
                0 <= i < image_paths@.len() ==> #[trigger] r.entries()[i].state() == if r.resident(
                    i,
                ) {
                    LoadState::Loading
                } else {
                    LoadState::Idle
                },
    {
        let mut g = SingleGallery {
            imgs: Vec::new(),
            selected_img_index: 0,
            preload_active: true,
            nr_loaded_images,
            should_wait,
        };
        g.set_images(image_paths, selected_image_path, spawn);
        g
    }

    /// Moves the focus to the next entry (wrapping round): the entry that
    /// leaves the window is unloaded and the one that enters it requested.
    /// Nothing moves on an empty collection, or while the focused entry is
    /// loading and advancing waits for it. Where the window spans the whole
    /// collection no entry leaves it.
    pub fn next_image<F: Fn(&String) -> H>(&mut self, finished: &Vec<bool>, spawn: &F)
        requires
            old(self).wf(),
            finished@.len() == old(self).entries().len(),
            forall|p: &String| spawn.requires((p,)),
        ensures
            final(self).wf(),
            final(self).same_settings(old(self)),
            final(self).preloading() == old(self).preloading(),
            final(self).entries().len() == old(self).entries().len(),
            Self::advanced(old(self), final(self), finished@),
    {
        if self.imgs.len() == 0 {
            return;
        }
        if self.should_wait && self.active_img_is_loading() {
            return;
        }
        let n = self.imgs.len();
        let f = self.selected_img_index;
        let d = self.nr_loaded_images;
        if self.preload_active && d < n - d - 1 {
            let leave = get_vec_index_subtracted_by(n, f, d);
            let enter = get_vec_index_sum_by(n, f, d + 1);
            proof {
                lemma_mod_range(f - d, n as int);
                lemma_mod_range(f + d + 1, n as int);
            }
            self.imgs[leave].unload(finished[leave]);
            self.imgs[enter].load(spawn);
        }
        proof {
            lemma_mod_range(f + 1, n as int);
        }
        if f == n - 1 {
            self.selected_img_index = 0;
        } else {
            self.selected_img_index = f + 1;
        }
    }

    /// Moves the focus to the previous entry (wrapping round), unloading the
    /// entry that leaves the window and requesting the one that enters it.
    pub fn previous_image<F: Fn(&String) -> H>(&mut self, finished: &Vec<bool>, spawn: &F)
        requires
            old(self).wf(),
            finished@.len() == old(self).entries().len(),
            forall|p: &String| spawn.requires((p,)),
        ensures
            final(self).wf(),
            final(self).same_settings(old(self)),
            final(self).preloading() == old(self).preloading(),
            final(self).entries().len() == old(self).entries().len(),
            old(self).entries().len() == 0 ==> final(self).entries() == old(self).entries()
                && final(self).focus() == old(self).focus(),
            old(self).entries().len() > 0 ==> ({
                let n = old(self).entries().len() as int;
                let f = old(self).focus();
                let d = old(self).depth();
                &&& final(self).focus() == (f - 1) % n
                &&& if old(self).preloading() && 2 * d + 1 < n {
                    let leave = (f + d) % n;
                    let enter = (f - 1 - d) % n;
                    &&& Entry::unloaded_from(
                        &old(self).entries()[leave],
                        &final(self).entries()[leave],
                        finished@[leave],
                    )
                    &&& Entry::loaded_from(&old(self).entries()[enter], &final(self).entries()[enter])
                    &&& forall|i: int|
                        0 <= i < n && i != leave && i != enter ==> #[trigger] final(self).entries()[i]
                            == old(self).entries()[i]
                } else {
                    final(self).entries() == old(self).entries()
                }
            }),
    {
        if self.imgs.len() == 0 {
            return;
        }
        let n = self.imgs.len();
        let f = self.selected_img_index;
        let d = self.nr_loaded_images;
        if self.preload_active && d < n - d - 1 {
            let leave = get_vec_index_sum_by(n, f, d);
            let enter = get_vec_index_subtracted_by(n, f, d + 1);
            proof {
                lemma_mod_range(f + d, n as int);
                lemma_mod_range(f - d - 1, n as int);
            }
            self.imgs[leave].unload(finished[leave]);
            self.imgs[enter].load(spawn);
        }
        proof {
            lemma_mod_range(f - 1, n as int);
        }
        if f == 0 {
            self.selected_img_index = n - 1;
        } else {
            self.selected_img_index = f - 1;
        }
    }

    /// Focuses the first entry named `img_name` (or the first entry) and
    /// applies the resident set around it.
    pub fn select_by_name<F: Fn(&String) -> H>(
        &mut self,
        img_name: &String,
        finished: &Vec<bool>,
        spawn: &F,
    )
        requires
            old(self).wf(),
            finished@.len() == old(self).entries().len(),
            forall|p: &String| spawn.requires((p,)),
        ensures
            Self::applied(old(self).entries(), final(self), finished@),
            final(self).same_settings(old(self)),
            final(self).preloading() == old(self).preloading(),
            forall|j: int|
                0 <= j < final(self).focus() ==> #[trigger] old(self).entries()[j].name_view()
                    != img_name@,
            (exists|i: int|
                0 <= i < old(self).entries().len() && old(self).entries()[i].name_view()
                    == img_name@) ==> old(self).entries()[final(self).focus()].name_view()
                == img_name@,
            (forall|i: int|
                0 <= i < old(self).entries().len() ==> old(self).entries()[i].name_view()
                    != img_name@) ==> final(self).focus() == 0,
    {
        self.selected_img_index = match self.position_of_name(img_name) {
            Some(k) => k,
            None => 0,
        };
        self.load(finished, spawn);
    }

    /// Removes the first entry whose path is `path`, returning its former
    /// position. A focus left past the end moves back onto the last entry;
    /// the resident set is then applied anew.
    pub fn pop<F: Fn(&String) -> H>(&mut self, path: &String, finished: &Vec<bool>, spawn: &F) -> (r:
        Option<usize>)
        requires
            old(self).wf(),
            finished@.len() == old(self).entries().len(),
            forall|p: &String| spawn.requires((p,)),
        ensures
            final(self).wf(),
            final(self).same_settings(old(self)),
            match r {
                None => {
                    &&& forall|j: int|
                        0 <= j < old(self).entries().len() ==> #[trigger] old(self).entries()[j].path_view() != path@
                    &&& final(self).entries() == old(self).entries()
                    &&& final(self).focus() == old(self).focus()
                },
                Some(k) => {
                    let n = old(self).entries().len() as int;
                    &&& k < n
                    &&& old(self).entries()[k as int].path_view() == path@
                    &&& forall|j: int|
                        0 <= j < k ==> #[trigger] old(self).entries()[j].path_view() != path@
                    &&& Self::applied(
                        old(self).entries().remove(k as int),
                        final(self),
                        finished@.remove(k as int),
                    )
                    &&& final(self).focus() == if old(self).focus() == n - 1 && n > 1 {
                        n - 2
                    } else if n == 1 {
                        0
                    } else {
                        old(self).focus()
                    }
                },
            },
    {
        match self.position_of_path(path) {
            None => None,
            Some(k) => {
                let mut fin = finished.clone();
                fin.remove(k);
                self.imgs.remove(k);
                self.preload_active = is_valid_for_preload(self.nr_loaded_images, self.imgs.len());
                if self.selected_img_index == self.imgs.len() {
                    if self.imgs.len() > 0 {
                        self.selected_img_index = self.imgs.len() - 1;
                    } else {
                        self.selected_img_index = 0;
                    }
                }
                proof {
                    assert forall|j: int| 0 <= j < self.entries().len() implies #[trigger] self.entries()[j].wf() by {
                        if j < k {
                            assert(self.entries()[j] == old(self).entries()[j]);
                        } else {
                            assert(self.entries()[j] == old(self).entries()[j + 1]);
                        }
                    }
                }
                self.load(&fin, spawn);
                Some(k)
            },
        }
    }

    /// Unloads and requests again the first entry whose path is `path`.
    pub fn reload_at<F: Fn(&String) -> H>(&mut self, path: &String, finished: &Vec<bool>, spawn: &F)
        requires
            old(self).wf(),
            finished@.len() == old(self).entries().len(),
            forall|p: &String| spawn.requires((p,)),
        ensures
            final(self).wf(),
            final(self).same_settings(old(self)),
            final(self).focus() == old(self).focus(),
            final(self).preloading() == old(self).preloading(),
            final(self).entries().len() == old(self).entries().len(),
            forall|j: int|
                0 <= j < old(self).entries().len() && old(self).entries()[j].path_view() != path@
                    ==> #[trigger] final(self).entries()[j] == old(self).entries()[j],
            forall|k: int|
                0 <= k < old(self).entries().len() && old(self).entries()[k].path_view() == path@
                    && (forall|j: int|
                    0 <= j < k ==> #[trigger] old(self).entries()[j].path_view() != path@) ==> {
                    let (o, e) = (old(self).entries()[k], final(self).entries()[k]);
                    &&& e.same_identity(&o)
                    &&& if o.job() is Some && !finished@[k] {
                        e.job() == o.job() && e.slot() == o.slot() && e.marked()
                    } else {
                        e.job() is Some && e.slot() is None && !e.marked()
                    }
                },
    {
        if let Some(k) = self.position_of_path(path) {
            self.imgs[k].unload(finished[k]);
            self.imgs[k].load(spawn);
        }
    }

    /// Polls the job of entry `i`; see `Entry::poll`.
    pub fn poll_at(&mut self, i: usize, finished: bool) -> (r: Option<H>)
        requires
            old(self).wf(),
            i < old(self).entries().len(),
        ensures
            final(self).wf(),
            final(self).same_settings(old(self)),
            final(self).focus() == old(self).focus(),
            final(self).preloading() == old(self).preloading(),
            final(self).entries().len() == old(self).entries().len(),
            Entry::polled_from(&old(self).entries()[i as int], &final(self).entries()[i as int], finished, r),
            forall|j: int|
                0 <= j < old(self).entries().len() && j != i ==> #[trigger] final(self).entries()[j]
                    == old(self).entries()[j],
    {
        self.imgs[i].poll(finished)
    }

    /// Stores the result of the joined job of entry `i`.
    pub fn complete_at(&mut self, i: usize, result: Option<I>)
        requires
            old(self).wf(),
            i < old(self).entries().len(),
        ensures
            final(self).wf(),
            final(self).same_settings(old(self)),
            final(self).focus() == old(self).focus(),
            final(self).preloading() == old(self).preloading(),
            final(self).entries().len() == old(self).entries().len(),
            final(self).entries()[i as int].same_identity(&old(self).entries()[i as int]),
            final(self).entries()[i as int].slot() == result,
            final(self).entries()[i as int].job() is None,
            !final(self).entries()[i as int].marked(),
            forall|j: int|
                0 <= j < old(self).entries().len() && j != i ==> #[trigger] final(self).entries()[j]
                    == old(self).entries()[j],
    {
        self.imgs[i].complete(result);
    }

    /// Replaces the collection with fresh entries over `image_paths`.
    pub fn set_images<F: Fn(&String) -> H>(
        &mut self,
        image_paths: &Vec<String>,
        selected_image_path: &Option<String>,
        spawn: &F,
    )
        requires
            forall|p: &String| spawn.requires((p,)),
        ensures
            final(self).wf(),
            final(self).same_settings(old(self)),
            final(self).entries().len() == image_paths@.len(),
            forall|i: int|
                0 <= i < image_paths@.len() ==> #[trigger] final(self).entries()[i].path_view()
                    == image_paths@[i]@,
            match selected_image_path {
                Some(p) => {
                    &&& (exists|i: int| 0 <= i < image_paths@.len() && image_paths@[i]@ == p@)
                        ==> image_paths@[final(self).focus()]@ == p@
                    &&& forall|j: int|
                        0 <= j < final(self).focus() ==> #[trigger] image_paths@[j]@ != p@
                    &&& (forall|i: int| 0 <= i < image_paths@.len() ==> image_paths@[i]@ != p@)
                        ==> final(self).focus() == 0
                },
                None => final(self).focus() == 0,
            },
            forall|i: int|
                0 <= i < image_paths@.len() ==> #[trigger] final(self).entries()[i].state()
                    == if final(self).resident(i) {
                    LoadState::Loading
                } else {
                    LoadState::Idle
                },
    {
        let mut imgs: Vec<Entry<I, H>> = Vec::new();
        let mut i: usize = 0;
        while i < image_paths.len()
            invariant
                i <= image_paths@.len(),
                imgs@.len() == i,
                forall|j: int| 0 <= j < i ==> #[trigger] imgs@[j].path_view() == image_paths@[j]@,
                forall|j: int|
                    #![trigger imgs@[j]]
                    0 <= j < i ==> imgs@[j].state() == LoadState::Idle && imgs@[j].wf(),
            decreases image_paths@.len() - i,
        {
            imgs.push(Entry::from_path(&image_paths[i]));
            i = i + 1;
        }
        self.imgs = imgs;
        self.selected_img_index = match selected_image_path {
            Some(p) => match self.position_of_path(p) {
                Some(k) => k,
                None => {
                    assert forall|i: int| 0 <= i < image_paths@.len() implies image_paths@[i]@
                        != p@ by {
                        assert(self.entries()[i].path_view() == image_paths@[i]@);
                    }
                    0
                },
            },
            None => 0,
        };
        self.preload_active = is_valid_for_preload(self.nr_loaded_images, self.imgs.len());
        let finished: Vec<bool> = vec![false; self.imgs.len()];
        assert(forall|j: int|
            #![trigger image_paths@[j]]
            0 <= j < image_paths@.len() ==> image_paths@[j]@ == self.entries()[j].path_view());
        self.load(&finished, spawn);
    }
}

/// After the resident set around the focus has been applied, the entries
/// that are loading or loaded are exactly those of the window, which holds
/// `min(n, 2d + 1)` entries, and every other entry is idle; this needs
/// that no load outside the window is still running, since such an entry
/// stays marked until its job finishes, and that no entry inside it is
/// marked, since a load request leaves a marked entry as it is.
pub proof fn lemma_focus_residency<I, H>(
    old: SingleGallery<I, H>,
    new: SingleGallery<I, H>,
    finished: Seq<bool>,
)
    requires
        old.wf(),
        old.preloading(),
        old.entries().len() > 0,
        finished.len() == old.entries().len(),
        SingleGallery::applied(old.entries(), &new, finished),
        new.same_settings(&old),
        new.focus() == old.focus(),
        new.preloading() == old.preloading(),
        forall|i: int|
            0 <= i < old.entries().len() && !old.resident(i) && (#[trigger] old.entries()[i]).job() is Some
                ==> finished[i],
        forall|i: int|
            0 <= i < old.entries().len() && old.resident(i) ==> (#[trigger] old.entries()[i]).state()
                != LoadState::ShouldUnload,
    ensures
        ({
            let n = old.entries().len() as int;
            let resident_set = Set::new(
                |i: int| 0 <= i < n && new.entries()[i].is_resident(),
            );
            &&& resident_set == window_set(n, old.focus(), old.depth())
            &&& resident_set.finite()
            &&& resident_set.len() == if n < 2 * old.depth() + 1 {
                n
            } else {
                2 * old.depth() + 1
            }
            &&& forall|i: int|
                0 <= i < n && !in_window(n, old.focus(), old.depth(), i) ==> (
                #[trigger] new.entries()[i]).state() == LoadState::Idle
        }),
{
    let n = old.entries().len() as int;
    let resident_set = Set::new(|i: int| 0 <= i < n && new.entries()[i].is_resident());
    assert forall|i: int| 0 <= i < n implies new.entries()[i].is_resident() == in_window(
        n,
        old.focus(),
        old.depth(),
        i,
    ) by {
        assert(old.entries()[i].wf());
    }
    assert(resident_set =~= window_set(n, old.focus(), old.depth()));
    lemma_window_size(n, old.focus(), old.depth());
}

/// Advancing keeps the resident entries equal to the window: where,
/// before the move, the entries loading or loaded were exactly those within
/// the depth of the focus and no other entry was marked, then afterwards
/// they are exactly those within the depth of the new focus, provided the
/// job of the entry that leaves (if any) has finished.
pub proof fn lemma_advance_keeps_window<I, H>(
    old: SingleGallery<I, H>,
    new: SingleGallery<I, H>,
    finished: Seq<bool>,
)
    requires
        old.wf(),
        old.preloading(),
        !old.advance_blocked(),
        2 * old.depth() + 1 < old.entries().len(),
        finished.len() == old.entries().len(),
        SingleGallery::advanced(&old, &new, finished),
        new.entries().len() == old.entries().len(),
        new.depth() == old.depth(),
        forall|i: int|
            0 <= i < old.entries().len() ==> ((#[trigger] old.entries()[i]).is_resident()
                <==> in_window(old.entries().len() as int, old.focus(), old.depth(), i)),
        forall|i: int|
            0 <= i < old.entries().len() ==> (#[trigger] old.entries()[i]).state()
                != LoadState::ShouldUnload,
        finished[(old.focus() - old.depth()) % (old.entries().len() as int)],
    ensures
        forall|i: int|
            0 <= i < new.entries().len() ==> ((#[trigger] new.entries()[i]).is_resident()
                <==> in_window(new.entries().len() as int, new.focus(), new.depth(), i)),
{
    let n = old.entries().len() as int;
    let f = old.focus();
    let d = old.depth();
    lemma_mod_range(f - d, n);
    lemma_mod_range(f + 1 + d, n);
    lemma_mod_range(f + 1, n);
    let leave = (f - d) % n;
    let enter = (f + 1 + d) % n;
    let g = new.focus();
    assert forall|i: int| 0 <= i < n implies ((#[trigger] new.entries()[i]).is_resident()
        <==> in_window(n, g, d, i)) by {
        lemma_mod_range(i - f, n);
        lemma_mod_range(f - i, n);
        lemma_mod_range(i - g, n);
        lemma_mod_range(g - i, n);
        assert(old.entries()[i].wf());
        if i == leave {
            assert(!in_window(n, g, d, i));
        } else if i == enter {
            assert(!in_window(n, f, d, i));
            assert(in_window(n, g, d, i));
        } else {
            assert(new.entries()[i] == old.entries()[i]);
            assert(in_window(n, g, d, i) == in_window(n, f, d, i));
        }
    }
}

/// Opening a collection (`new`, `set_images`) leaves exactly the window's
/// entries loading, `min(n, 2d + 1)` of them where `2d <= n`, and every
/// other entry idle.
pub proof fn lemma_opened_collection_residency<I, H>(g: SingleGallery<I, H>)
    requires
        g.wf(),
        g.preloading(),
        g.entries().len() > 0,
        forall|i: int|
            0 <= i < g.entries().len() ==> #[trigger] g.entries()[i].state() == if g.resident(i) {
                LoadState::Loading
            } else {
                LoadState::Idle
            },
    ensures
        ({
            let n = g.entries().len() as int;
            let resident_set = Set::new(|i: int| 0 <= i < n && g.entries()[i].is_resident());
            &&& resident_set == window_set(n, g.focus(), g.depth())
            &&& resident_set.finite()
            &&& resident_set.len() == if n < 2 * g.depth() + 1 {
                n
            } else {
                2 * g.depth() + 1
            }
        }),
{
    let n = g.entries().len() as int;
    let resident_set = Set::new(|i: int| 0 <= i < n && g.entries()[i].is_resident());
    assert forall|i: int| 0 <= i < n implies g.entries()[i].is_resident() == in_window(
        n,
        g.focus(),
        g.depth(),
        i,
    ) by {
        assert(g.entries()[i].state() == if g.resident(i) {
            LoadState::Loading
        } else {
            LoadState::Idle
        });
    }
    assert(resident_set =~= window_set(n, g.focus(), g.depth()));
    lemma_window_size(n, g.focus(), g.depth());
}

} // verus!
