//! The windows there are, and when they are asked for a frame.

use vstd::prelude::*;

use crate::events::actions_view;
use crate::events::asked;
use crate::events::countable;
use crate::events::remembered;
use crate::events::Action;
use crate::events::Memory;
use crate::events::WindowEvent;
use crate::events::WindowState;

verus! {

/// What the event loop is woken up for.
#[derive(Debug, Clone, Copy, PartialEq, Eq, Structural)]
pub enum UserEvent {
    /// Main-thread runnables are waiting.
    RunMainTasks,
}

/// An open window.
pub struct OpenWindow {
    pub id: u64,
    pub state: WindowState,
}

/// Every open window, in the order they were opened.
pub struct PlatformState {
    windows: Vec<OpenWindow>,
}

/// The windows whose identifier is not `id`.
pub open spec fn others(windows: Seq<(u64, Memory)>, id: u64) -> Seq<(u64, Memory)>
    decreases windows.len(),
{
    if windows.len() == 0 {
        Seq::empty()
    } else {
        let rest = others(windows.drop_last(), id);
        if windows.last().0 == id {
            rest
        } else {
            rest.push(windows.last())
        }
    }
}

/// The place of the first window with the identifier `id`, counting from `from`.
pub open spec fn place_of(windows: Seq<(u64, Memory)>, id: u64, from: int) -> Option<int>
    decreases windows.len() - from,
{
    if from < 0 || from >= windows.len() {
        None
    } else if windows[from].0 == id {
        Some(from)
    } else {
        place_of(windows, id, from + 1)
    }
}

/// Whether an event ends its window.
pub open spec fn ends(event: WindowEvent) -> bool {
    event is Destroyed || event == (WindowEvent::CloseAnswered { close: true })
}

/// The identifiers of the windows that can use another frame, in order.
pub open spec fn drawable(windows: Seq<(u64, Memory)>) -> Seq<u64>
    decreases windows.len(),
{
    if windows.len() == 0 {
        Seq::empty()
    } else {
        let rest = drawable(windows.drop_last());
        if windows.last().1.frames_suppressed {
            rest
        } else {
            rest.push(windows.last().0)
        }
    }
}

spec fn views(windows: Seq<OpenWindow>) -> Seq<(u64, Memory)> {
    windows.map_values(|window: OpenWindow| (window.id, window.state@))
}

impl View for PlatformState {
    type V = Seq<(u64, Memory)>;

    closed spec fn view(&self) -> Seq<(u64, Memory)> {
        views(self.windows@)
    }
}

impl PlatformState {
    /// No windows.
    pub fn new() -> (state: PlatformState)
        ensures
            state@ == Seq::<(u64, Memory)>::empty(),
    {
        let state = PlatformState { windows: Vec::new() };
        assert(state@ =~= Seq::<(u64, Memory)>::empty());
        state
    }

    /// Adds a window.
    pub fn open(&mut self, id: u64, state: WindowState)
        ensures
            final(self)@ == old(self)@.push((id, state@)),
    {
        self.windows.push(OpenWindow { id, state });
        assert(self@ =~= old(self)@.push((id, state@)));
    }

    /// Whether no window is open, which ends the application.
    pub fn is_empty(&self) -> (empty: bool)
        ensures
            empty == (self@.len() == 0),
    {
        self.windows.len() == 0
    }

    /// Drops every window.
    pub fn quit(&mut self)
        ensures
            final(self)@ == Seq::<(u64, Memory)>::empty(),
    {
        self.windows.clear();
        assert(self@ =~= Seq::<(u64, Memory)>::empty());
    }

    /// The place of the window with the identifier `id`.
    pub fn window_for(&self, id: u64) -> (place: Option<usize>)
        ensures
            place matches Some(at) ==> place_of(self@, id, 0) == Some(at as int) && at
                < self@.len(),
            place is None ==> place_of(self@, id, 0) is None,
    {
        let mut at: usize = 0;
        while at < self.windows.len()
            invariant
                at <= self.windows@.len(),
                place_of(self@, id, 0) == place_of(self@, id, at as int),
            decreases self.windows@.len() - at,
        {
            assert(self@[at as int].0 == self.windows@[at as int].id);
            if self.windows[at].id == id {
                return Some(at);
            }
            at = at + 1;
        }
        None
    }

    /// What is remembered of the window at `at`.
    pub fn window(&self, at: usize) -> (state: &WindowState)
        requires
            at < self@.len(),
        ensures
            state@ == self@[at as int].1,
    {
        &self.windows[at].state
    }

    /// Records what became of a frame of the window with the identifier `id`.
    pub fn drew(&mut self, id: u64, outcome: crate::outcome::FrameOutcome)
        ensures
            final(self)@ == (match place_of(old(self)@, id, 0) {
                Some(at) => old(self)@.update(
                    at,
                    (
                        old(self)@[at].0,
                        Memory {
                            frames_suppressed: outcome == crate::outcome::FrameOutcome::Skipped(
                                crate::outcome::SkipReason::Occluded,
                            ) || outcome == crate::outcome::FrameOutcome::Skipped(
                                crate::outcome::SkipReason::DeviceUnavailable,
                            ),
                            ..old(self)@[at].1
                        },
                    ),
                ),
                None => old(self)@,
            }),
    {
        match self.window_for(id) {
            Some(at) => {
                let window = &mut self.windows[at];
                window.state.drew(outcome);
                proof {
                    assert(self@ =~= old(self)@.update(at as int, self@[at as int]));
                }
            },
            None => {},
        }
    }

    /// Drops every window with the identifier `id`.
    fn forget(&mut self, id: u64)
        ensures
            final(self)@ == others(old(self)@, id),
    {
        let ghost before = self.windows@;
        let ghost mut seen: int = 0;
        let mut at: usize = 0;
        proof {
            assert(views(before.take(0)) =~= Seq::<(u64, Memory)>::empty());
            assert(before.take(0) + before.skip(0) =~= before);
            assert(self.windows@.take(0) =~= Seq::<OpenWindow>::empty());
        }
        while at < self.windows.len()
            invariant
                0 <= at <= self.windows@.len(),
                0 <= seen <= before.len(),
                self.windows@.len() - at == before.len() - seen,
                views(self.windows@.take(at as int)) == others(views(before.take(seen)), id),
                self.windows@.skip(at as int) == before.skip(seen),
            decreases self.windows@.len() - at,
        {
            let ghost here = self.windows@;
            proof {
                assert(here[at as int] == here.skip(at as int)[0]);
                assert(before.skip(seen)[0] == before[seen]);
                assert(views(before.take(seen + 1)).drop_last() =~= views(before.take(seen)));
                assert(views(before.take(seen + 1)).last() == (
                    before[seen].id,
                    before[seen].state@,
                ));
            }
            if self.windows[at].id == id {
                let _dropped = self.windows.remove(at);
                proof {
                    assert(self.windows@.take(at as int) =~= here.take(at as int));
                    assert(self.windows@.skip(at as int) =~= here.skip(at as int).drop_first());
                    assert(before.skip(seen + 1) =~= before.skip(seen).drop_first());
                }
            } else {
                at = at + 1;
                proof {
                    assert(views(here.take(at as int)) =~= views(here.take(at - 1)).push(
                        (before[seen].id, before[seen].state@),
                    ));
                    assert(here.skip(at as int) =~= here.skip(at - 1).drop_first());
                    assert(before.skip(seen + 1) =~= before.skip(seen).drop_first());
                }
            }
            proof {
                seen = seen + 1;
            }
        }
        proof {
            assert(self.windows@.take(at as int) =~= self.windows@);
            assert(before.take(seen) =~= before);
        }
    }

    /// Whether an event can be routed to its window: only a press whose click cannot be counted any
    /// more cannot.
    pub fn can_handle(&self, id: u64, event: &WindowEvent) -> (can: bool)
        ensures
            can == match place_of(self@, id, 0) {
                Some(at) => countable(self@[at].1, *event),
                None => true,
            },
    {
        match self.window_for(id) {
            Some(at) => self.window(at).can_handle(event),
            None => true,
        }
    }

    /// Routes an event to its window, and gives what is to be done, in order. An event for a
    /// window that is not open asks for nothing.
    pub fn handle(&mut self, id: u64, event: WindowEvent) -> (actions: Vec<Action<String>>)
        requires
            place_of(old(self)@, id, 0) matches Some(at) ==> countable(old(self)@[at].1, event),
        ensures
            match place_of(old(self)@, id, 0) {
                None => {
                    &&& final(self)@ == old(self)@
                    &&& actions@.len() == 0
                },
                Some(at) => {
                    let before = old(self)@[at].1;
                    let updated = old(self)@.update(at, (id, remembered(before, event)));
                    &&& actions_view(actions@) == asked(before, event)
                    &&& final(self)@ == if ends(event) {
                        others(updated, id)
                    } else {
                        updated
                    }
                },
            },
    {
        let at = match self.window_for(id) {
            Some(at) => at,
            None => {
                return Vec::new();
            },
        };
        proof {
            lemma_place(self@, id, 0);
        }
        let ends = match event {
            WindowEvent::Destroyed => true,
            WindowEvent::CloseAnswered { close } => close,
            _ => false,
        };
        let ghost before = self@[at as int].1;
        let window = &mut self.windows[at];
        let actions = window.state.handle(event);
        proof {
            assert(self@ =~= old(self)@.update(at as int, (id, remembered(before, event))));
        }
        if ends {
            self.forget(id);
        }
        actions
    }

    /// The windows to ask for a frame: every one that can still use one.
    pub fn request_redraw(&self) -> (ids: Vec<u64>)
        ensures
            ids@ == drawable(self@),
    {
        let mut ids: Vec<u64> = Vec::new();
        let mut at: usize = 0;
        proof {
            assert(self@.take(0) =~= Seq::<(u64, Memory)>::empty());
        }
        while at < self.windows.len()
            invariant
                at <= self.windows@.len(),
                self.windows@.len() == self@.len(),
                ids@ == drawable(self@.take(at as int)),
            decreases self.windows@.len() - at,
        {
            proof {
                assert(self@.take(at + 1).drop_last() =~= self@.take(at as int));
                assert(self@[at as int] == (
                    self.windows@[at as int].id,
                    self.windows@[at as int].state@,
                ));
            }
            if !self.windows[at].state.frames_suppressed() {
                ids.push(self.windows[at].id);
            }
            at = at + 1;
        }
        proof {
            assert(self@.take(at as int) =~= self@);
        }
        ids
    }
}

proof fn lemma_place(windows: Seq<(u64, Memory)>, id: u64, from: int)
    requires
        0 <= from,
    ensures
        place_of(windows, id, from) matches Some(at) ==> from <= at < windows.len()
            && windows[at].0 == id,
    decreases windows.len() - from,
{
    if from < windows.len() && windows[from].0 != id {
        lemma_place(windows, id, from + 1);
    }
}

/// What a window is opened with. Sizes are float bits, in logical pixels.
pub struct WindowParams {
    pub width: u32,
    pub height: u32,
    pub is_resizable: bool,
    pub show: bool,
    /// The title bar, where the window has one, and its title, where that has one.
    pub titlebar: Option<Option<String>>,
    pub min_size: Option<(u32, u32)>,
}

/// What the window system is asked for.
pub struct WindowAttributes {
    pub width: u32,
    pub height: u32,
    pub resizable: bool,
    pub visible: bool,
    pub title: Option<String>,
    pub min_size: Option<(u32, u32)>,
}

/// The title a window is given: that of its title bar, where it has one and that has one.
pub open spec fn title_of(titlebar: Option<Option<String>>) -> Option<String> {
    match titlebar {
        Some(title) => title,
        None => None,
    }
}

/// What the window system is asked for when a window is opened.
pub fn window_attributes(params: WindowParams) -> (attributes: WindowAttributes)
    ensures
        attributes.width == params.width,
        attributes.height == params.height,
        attributes.resizable == params.is_resizable,
        attributes.visible == params.show,
        attributes.title == title_of(params.titlebar),
        attributes.min_size == params.min_size,
{
    WindowAttributes {
        width: params.width,
        height: params.height,
        resizable: params.is_resizable,
        visible: params.show,
        title: match params.titlebar {
            Some(title) => title,
            None => None,
        },
        min_size: params.min_size,
    }
}

/// Whether something has happened that a frame might need to reflect.
#[derive(Clone, Copy, Debug, PartialEq, Eq, Structural)]
pub struct App {
    pub dirty: bool,
}

impl App {
    /// What is known after a window's event was handled, and tasks were run or not.
    pub open spec fn after_event(self, redrawn: bool, ran: bool) -> App {
        App { dirty: !redrawn || ran }
    }

    /// What is known after tasks were run or not.
    pub open spec fn after_tasks(self, ran: bool) -> App {
        App { dirty: self.dirty || ran }
    }

    /// An application that has not drawn yet.
    pub fn new() -> (app: App)
        ensures
            app.dirty,
    {
        App { dirty: true }
    }

    /// The windows that launching opened have never been drawn.
    pub fn launched(&mut self)
        ensures
            final(self).dirty,
    {
        self.dirty = true;
    }

    /// Main-thread tasks were run outside of any window's event; `ran` says whether any did.
    pub fn ran_tasks(&mut self, ran: bool)
        ensures
            *final(self) == old(self).after_tasks(ran),
    {
        self.dirty = self.dirty || ran;
    }

    /// A window's event was handled and tasks were run after it. Any event other than a redraw is
    /// a reason to ask for one; after a redraw, only a task that ran is.
    pub fn window_event(&mut self, redrawn: bool, ran: bool)
        ensures
            *final(self) == old(self).after_event(redrawn, ran),
    {
        self.dirty = if redrawn {
            ran
        } else {
            true
        };
    }

    /// Whether windows are to be asked for a frame before the loop waits, given whether a task ran
    /// just now: only where something has actually happened.
    pub fn about_to_wait(&mut self, ran: bool) -> (redraw: bool)
        ensures
            *final(self) == old(self).after_tasks(ran),
            redraw == final(self).dirty,
    {
        self.dirty = self.dirty || ran;
        self.dirty
    }
}

/// A frame that was drawn is no reason to draw another: after a redraw no frame is asked for
/// unless a task ran, and after any other event one is.
pub proof fn law_drawing_asks_for_no_frame(app: App, redrawn: bool, ran: bool, ran_later: bool)
    ensures
        app.after_event(redrawn, ran).after_tasks(ran_later).dirty <==> !redrawn || ran
            || ran_later,
{
}

/// A window that is dropped is not asked for frames and gets no events.
pub proof fn law_forgotten_window_is_gone(windows: Seq<(u64, Memory)>, id: u64)
    ensures
        place_of(others(windows, id), id, 0) is None,
        forall|i: int|
            0 <= i < others(windows, id).len() ==> (#[trigger] others(windows, id)[i]).0 != id,
    decreases windows.len(),
{
    lemma_others(windows, id);
    lemma_no_place(others(windows, id), id, 0);
}

proof fn lemma_others(windows: Seq<(u64, Memory)>, id: u64)
    ensures
        forall|i: int|
            0 <= i < others(windows, id).len() ==> (#[trigger] others(windows, id)[i]).0 != id,
    decreases windows.len(),
{
    if windows.len() > 0 {
        lemma_others(windows.drop_last(), id);
        let rest = others(windows.drop_last(), id);
        let all = others(windows, id);
        assert forall|i: int| 0 <= i < all.len() implies (#[trigger] all[i]).0 != id by {
            if i < rest.len() {
                assert(all[i] == rest[i]);
            }
        }
    }
}

proof fn lemma_no_place(windows: Seq<(u64, Memory)>, id: u64, from: int)
    requires
        0 <= from,
        forall|i: int| 0 <= i < windows.len() ==> (#[trigger] windows[i]).0 != id,
    ensures
        place_of(windows, id, from) is None,
    decreases windows.len() - from,
{
    if from < windows.len() {
        lemma_no_place(windows, id, from + 1);
    }
}

/// An event ends its window exactly where it asks for the window to be dropped, whatever the window
/// remembers: the window system's own end, and an answer that it may close.
pub proof fn law_ended_windows_are_dropped(before: Memory, event: WindowEvent)
    ensures
        ends(event) <==> asked(before, event).contains(Action::Forget),
        event is Destroyed ==> ends(event),
        event matches WindowEvent::CloseAnswered { close } ==> ends(event) == close,
        !(event is Destroyed || event is CloseAnswered) ==> !ends(event),
{
    let actions = asked(before, event);
    if event is Destroyed {
        assert(actions[0] is Forget);
    }
    if event is CloseAnswered && event->close {
        assert(actions[1] is Forget);
    }
    if actions.contains(Action::Forget) {
        let at = choose|at: int| 0 <= at < actions.len() && actions[at] == Action::<Seq<
            char,
        >>::Forget;
        assert(actions[at] is Forget);
    }
}

/// Dropping a window keeps every other one, as it was and in order.
pub proof fn law_other_windows_stay(windows: Seq<(u64, Memory)>, id: u64)
    ensures
        others(windows, id) == windows.filter(|window: (u64, Memory)| window.0 != id),
    decreases windows.len(),
{
    reveal(Seq::filter);
    if windows.len() > 0 {
        law_other_windows_stay(windows.drop_last(), id);
    }
}

/// The windows asked for a frame are those that can use one, each once and in order.
pub proof fn law_frames_are_asked_of_the_drawable(windows: Seq<(u64, Memory)>)
    ensures
        drawable(windows) == windows.filter(
            |window: (u64, Memory)| !window.1.frames_suppressed,
        ).map_values(|window: (u64, Memory)| window.0),
    decreases windows.len(),
{
    reveal(Seq::filter);
    let can = |window: (u64, Memory)| !window.1.frames_suppressed;
    let id = |window: (u64, Memory)| window.0;
    if windows.len() > 0 {
        let rest = windows.drop_last();
        law_frames_are_asked_of_the_drawable(rest);
        if can(windows.last()) {
            assert(rest.filter(can).push(windows.last()).map_values(id) =~= rest.filter(
                can,
            ).map_values(id).push(windows.last().0));
        }
        assert(drawable(windows) =~= windows.filter(can).map_values(id));
    } else {
        assert(drawable(windows) =~= windows.filter(can).map_values(id));
    }
}

/// An event goes to the first window with its identifier, and to none exactly where there is none.
pub proof fn law_events_go_to_their_window(windows: Seq<(u64, Memory)>, id: u64)
    ensures
        match place_of(windows, id, 0) {
            Some(at) => 0 <= at < windows.len() && windows[at].0 == id && forall|i: int|
                0 <= i < at ==> (#[trigger] windows[i]).0 != id,
            None => forall|i: int| 0 <= i < windows.len() ==> (#[trigger] windows[i]).0 != id,
        },
{
    lemma_first_place(windows, id, 0);
}

proof fn lemma_first_place(windows: Seq<(u64, Memory)>, id: u64, from: int)
    requires
        0 <= from <= windows.len(),
    ensures
        match place_of(windows, id, from) {
            Some(at) => from <= at < windows.len() && windows[at].0 == id && forall|i: int|
                from <= i < at ==> (#[trigger] windows[i]).0 != id,
            None => forall|i: int| from <= i < windows.len() ==> (#[trigger] windows[i]).0 != id,
        },
    decreases windows.len() - from,
{
    if from < windows.len() && windows[from].0 != id {
        lemma_first_place(windows, id, from + 1);
    }
}

/// A window has the title of its title bar, and one without a title bar has none.
pub proof fn law_titles_are_those_of_title_bars(title: Option<String>)
    ensures
        title_of(Some(title)) == title,
        title_of(None) is None,
{
}

/// Tasks that did not run change nothing, and once there is a reason for a frame tasks do not take
/// it away.
pub proof fn law_reasons_for_a_frame_last(app: App, ran: bool)
    ensures
        app.after_tasks(false) == app,
        app.dirty ==> app.after_tasks(ran).dirty,
        app.after_tasks(true).dirty,
        app.after_event(false, ran).dirty,
        app.after_event(true, ran).dirty == ran,
{
}

} // verus!
