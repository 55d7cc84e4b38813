//! One loadable unit of a collection: its path, its bitmap slot and at most
//! one background load in flight. The bitmap type `I` and the job handle
//! type `H` belong to the caller; whether a job has finished is observed by
//! the caller and handed in, since nothing here can wait on it.
use vstd::prelude::*;
use crate::paths::file_name_or_empty;
use crate::paths::file_name_string;
use crate::fields::FieldMap;
use crate::display_name::format_with;
use crate::metadata::Metadata;

verus! {

/// Where an entry stands in its load lifecycle.
#[derive(PartialEq, Eq, Structural, Clone, Copy, Debug)]
pub enum LoadState {
    Idle,
    Loading,
    Loaded,
    /// A load is in flight but its result is no longer wanted.
    ShouldUnload,
}

pub struct Entry<I, H> {
    path: String,
    name: String,
    display_name: Option<String>,
    image: Option<I>,
    handle: Option<H>,
    should_unload: bool,
}

impl<I, H> Entry<I, H> {
    pub closed spec fn path_view(&self) -> Seq<char> {
        self.path@
    }

    pub closed spec fn name_view(&self) -> Seq<char> {
        self.name@
    }

    pub closed spec fn display_name_view(&self) -> Option<Seq<char>> {
        match self.display_name {
            Some(d) => Some(d@),
            None => None,
        }
    }

    /// The bitmap slot.
    pub closed spec fn slot(&self) -> Option<I> {
        self.image
    }

    /// The handle of the load in flight, if any.
    pub closed spec fn job(&self) -> Option<H> {
        self.handle
    }

    /// Whether the result of the load in flight is to be discarded.
    pub closed spec fn marked(&self) -> bool {
        self.should_unload
    }

    pub open spec fn wf(&self) -> bool {
        self.marked() ==> self.job() is Some
    }

    pub open spec fn state(&self) -> LoadState {
        if self.job() is Some {
            if self.marked() {
                LoadState::ShouldUnload
            } else {
                LoadState::Loading
            }
        } else if self.slot() is Some {
            LoadState::Loaded
        } else {
            LoadState::Idle
        }
    }

    /// Whether the entry holds a bitmap or a load that is still wanted.
    pub open spec fn is_resident(&self) -> bool {
        self.state() == LoadState::Loading || self.state() == LoadState::Loaded
    }

    pub open spec fn same_identity(&self, other: &Self) -> bool {
        &&& self.path_view() == other.path_view()
        &&& self.name_view() == other.name_view()
        &&& self.display_name_view() == other.display_name_view()
    }

    /// `new` is `old` after a load request: an idle entry starts a job; a
    /// request on any other entry is refused and changes nothing.
    pub open spec fn loaded_from(old: &Self, new: &Self) -> bool {
        if old.state() == LoadState::Idle {
            &&& new.same_identity(old)
            &&& !new.marked()
            &&& new.job() is Some
            &&& new.slot() is None
        } else {
            *new == *old
        }
    }

    /// `new` is `old` after an unload request, with `finished` telling
    /// whether the job in flight (if any) has finished: a running job is
    /// only marked; otherwise the slot and the handle are cleared.
    pub open spec fn unloaded_from(old: &Self, new: &Self, finished: bool) -> bool {
        &&& new.same_identity(old)
        &&& if old.job() is Some && !finished {
            new.slot() == old.slot() && new.job() == old.job() && new.marked()
        } else {
            new.slot() is None && new.job() is None && !new.marked()
        }
    }

    /// `new` is `old` after a poll, `r` what the poll handed back.
    pub open spec fn polled_from(old: &Self, new: &Self, finished: bool, r: Option<H>) -> bool {
        &&& new.same_identity(old)
        &&& if old.job() is Some && finished {
            &&& new.job() is None
            &&& !new.marked()
            &&& if old.marked() {
                new.slot() is None && r is None
            } else {
                new.slot() == old.slot() && r == old.job()
            }
        } else {
            new.slot() == old.slot() && new.job() == old.job() && new.marked() == old.marked()
                && r is None
        }
    }

    /// An idle entry for `path`, named after its file name.
    pub fn from_path(path: &String) -> (r: Self)
        ensures
            r.wf(),
            r.path_view() == path@,
            r.name_view() == file_name_or_empty(path@),
            r.display_name_view() is None,
            r.state() == LoadState::Idle,
    {
        Entry {
            path: path.clone(),
            name: file_name_string(path.as_str()),
            display_name: None,
            image: None,
            handle: None,
            should_unload: false,
        }
    }

    pub fn path(&self) -> (r: &String)
        ensures
            r@ == self.path_view(),
    {
        &self.path
    }

    pub fn name(&self) -> (r: &String)
        ensures
            r@ == self.name_view(),
    {
        &self.name
    }

    pub fn load_state(&self) -> (r: LoadState)
        ensures
            r == self.state(),
    {
        match &self.handle {
            Some(_) => if self.should_unload {
                LoadState::ShouldUnload
            } else {
                LoadState::Loading
            },
            None => match &self.image {
                Some(_) => LoadState::Loaded,
                None => LoadState::Idle,
            },
        }
    }

    /// Whether a job is attached, finished or not.
    pub fn is_loading(&self) -> (r: bool)
        ensures
            r == self.job() is Some,
    {
        self.handle.is_some()
    }

    pub fn handle(&self) -> (r: Option<&H>)
        ensures
            match r {
                Some(h) => self.job() == Some(*h),
                None => self.job() is None,
            },
    {
        match &self.handle {
            Some(h) => Some(h),
            None => None,
        }
    }

    pub fn image(&self) -> (r: Option<&I>)
        ensures
            match r {
                Some(i) => self.slot() == Some(*i),
                None => self.slot() is None,
            },
    {
        match &self.image {
            Some(i) => Some(i),
            None => None,
        }
    }

    /// Requests the bitmap: an idle entry starts a job made by `spawn` from
    /// its path and returns true; for any other entry the request is
    /// refused and the entry left as it is.
    pub fn load<F: Fn(&String) -> H>(&mut self, spawn: &F) -> (started: bool)
        requires
            old(self).wf(),
            forall|p: &String| spawn.requires((p,)),
        ensures
            final(self).wf(),
            Self::loaded_from(old(self), final(self)),
            started == (old(self).state() == LoadState::Idle),
    {
        if self.handle.is_none() && self.image.is_none() {
            let h = spawn(&self.path);
            self.handle = Some(h);
            true
        } else {
            false
        }
    }

    /// Drops the bitmap; a job still running is marked so that its result
    /// is discarded when it finishes.
    pub fn unload(&mut self, finished: bool)
        requires
            old(self).wf(),
        ensures
            final(self).wf(),
            Self::unloaded_from(old(self), final(self), finished),
    {
        if self.handle.is_some() && !finished {
            self.should_unload = true;
        } else {
            self.image = None;
            self.handle = None;
            self.should_unload = false;
        }
    }

    /// Looks at the job once `finished` tells that it has finished: a marked
    /// entry is cleared and its result discarded; otherwise the handle is
    /// handed back so that the caller can join it and pass the result to
    /// `complete`.
    pub fn poll(&mut self, finished: bool) -> (r: Option<H>)
        requires
            old(self).wf(),
        ensures
            final(self).wf(),
            Self::polled_from(old(self), final(self), finished, r),
    {
        if self.handle.is_some() && finished {
            let h = self.handle.take();
            if self.should_unload {
                self.should_unload = false;
                self.image = None;
                None
            } else {
                h
            }
        } else {
            None
        }
    }

    /// The display name for `format`: the file name where the format is
    /// empty, else the format filled from `fields` (the loaded image's
    /// fields) once a bitmap is loaded; empty until then, when nothing is
    /// remembered.
    pub fn set_display_name(&mut self, format: &str, fields: &FieldMap) -> (r: String)
        ensures
            final(self).path_view() == old(self).path_view(),
            final(self).name_view() == old(self).name_view(),
            final(self).slot() == old(self).slot(),
            final(self).job() == old(self).job(),
            final(self).marked() == old(self).marked(),
            format@.len() == 0 ==> r@ == old(self).name_view() && final(self).display_name_view()
                == Some(r@),
            format@.len() > 0 && old(self).slot() is Some ==> r@ == format_with(
                format@,
                fields.view(),
            ) && final(self).display_name_view() == Some(r@),
            format@.len() > 0 && old(self).slot() is None ==> r@.len() == 0
                && final(self).display_name_view() == old(self).display_name_view(),
    {
        if format.is_empty() {
            self.display_name = Some(self.name.clone());
            return self.name.clone();
        }
        if self.image.is_some() {
            let d = Metadata::format_string_with_metadata(format, fields);
            self.display_name = Some(d.clone());
            d
        } else {
            String::new()
        }
    }

    /// The remembered display name, or a fresh one for `format`.
    pub fn get_display_name(&mut self, format: &str, fields: &FieldMap) -> (r: String)
        ensures
            final(self).path_view() == old(self).path_view(),
            final(self).name_view() == old(self).name_view(),
            final(self).slot() == old(self).slot(),
            final(self).job() == old(self).job(),
            final(self).marked() == old(self).marked(),
            old(self).display_name_view() is Some ==> r@ == old(self).display_name_view()->0
                && final(self).display_name_view() == old(self).display_name_view(),
            old(self).display_name_view() is None && format@.len() == 0 ==> r@
                == old(self).name_view(),
            old(self).display_name_view() is None && format@.len() > 0 && old(self).slot() is Some
                ==> r@ == format_with(format@, fields.view()),
    {
        match &self.display_name {
            Some(d) => d.clone(),
            None => self.set_display_name(format, fields),
        }
    }

    /// Stores the result of a joined job in the slot.
    pub fn complete(&mut self, result: Option<I>)
        requires
            old(self).wf(),
        ensures
            final(self).wf(),
            final(self).same_identity(old(self)),
            final(self).slot() == result,
            final(self).job() is None,
            !final(self).marked(),
    {
        self.image = result;
        self.handle = None;
        self.should_unload = false;
    }
}

/// An unload issued while an entry's job is still running keeps both the
/// bitmap slot and the handle (the entry is only marked), and a poll that
/// does not see the job finished leaves it so; once the job reports
/// finished, a second unload clears the slot and the handle.
pub proof fn lemma_unload_while_loading<I, H>(
    e0: Entry<I, H>,
    e1: Entry<I, H>,
    e1_polled: Entry<I, H>,
    polled: Option<H>,
    e2: Entry<I, H>,
)
    requires
        e0.wf(),
        e0.job() is Some,
        Entry::unloaded_from(&e0, &e1, false),
        Entry::polled_from(&e1, &e1_polled, false, polled),
        Entry::unloaded_from(&e1_polled, &e2, true),
    ensures
        e1.slot() == e0.slot(),
        e1.job() == e0.job(),
        e1.state() == LoadState::ShouldUnload,
        e1_polled.slot() == e0.slot(),
        e1_polled.job() == e0.job(),
        polled is None,
        e2.slot() is None,
        e2.job() is None,
        e2.state() == LoadState::Idle,
{
}

} // verus!
