//! The state of a layout session: its namespace, the tags that commands
//! apply to, and one slot of options for each tag and one shared.

use crate::commands::{parse, run};
use crate::options::LayoutOptions;
use crate::protocol::{Event, Failure, LayoutRequest, Request};
use crate::tags::{bit_index_or_shared, slot, SLOTS};
use crate::view::{self, rects, Rect};
use vstd::prelude::*;

verus! {

/// The state of a layout session.
pub struct State {
    /// The name under which the session is known to the compositor.
    pub namespace: String,
    /// The tag mask that commands apply to.
    pub current_tag: u32,
    /// The options of each tag, and in the last slot those shared by every
    /// mask that is not a single tag.
    pub options: [LayoutOptions; 33],
}

/// What a [`State`] holds, as mathematical values.
pub struct StateView {
    pub namespace: Seq<char>,
    pub current_tag: u32,
    pub options: Seq<LayoutOptions>,
}

impl StateView {
    /// There is a slot for each tag and the shared one, and the numbers in
    /// every slot lie within their bounds.
    pub open spec fn wf(self) -> bool {
        &&& self.options.len() == SLOTS
        &&& forall|i: int| 0 <= i < self.options.len() ==> (#[trigger] self.options[i]).wf()
    }

    /// The options that `tag_mask` selects.
    pub open spec fn active(self, tag_mask: u32) -> LayoutOptions {
        self.options[slot(tag_mask)]
    }

    /// The rectangles that answer `request`: the arrangement of the options
    /// that its tags select, for its number of windows and its usable area.
    pub open spec fn arrangement(self, request: LayoutRequest) -> Seq<Rect> {
        let options = self.active(request.tag_mask);
        options.layout.rects(
            options.primary_ratio,
            options.gap,
            request.view_count,
            request.usable_width,
            request.usable_height,
        )
    }

    /// Every position of the arrangement that answers `request` is one that
    /// a view can hold.
    pub open spec fn in_range(self, request: LayoutRequest) -> bool {
        let options = self.active(request.tag_mask);
        options.layout.fits(
            options.primary_ratio,
            options.gap,
            request.view_count,
            request.usable_width,
            request.usable_height,
        )
    }

    /// The state after `event`: a command is carried out, new command tags
    /// are taken over, and nothing else changes anything.
    pub open spec fn after(self, event: Event) -> StateView {
        match event {
            Event::UserCommand { command } => run(self, command@),
            Event::UserCommandTags { tags } => StateView { current_tag: tags, ..self },
            _ => self,
        }
    }

    /// The state after each of `events` in turn.
    pub open spec fn after_all(self, events: Seq<Event>) -> StateView
        decreases events.len(),
    {
        if events.len() == 0 {
            self
        } else {
            self.after_all(events.drop_last()).after(events.last())
        }
    }

    /// This state with `options` in the slot that `tag_mask` selects.
    pub open spec fn with_active(self, tag_mask: u32, options: LayoutOptions) -> StateView {
        StateView { options: self.options.update(slot(tag_mask), options), ..self }
    }
}

impl View for State {
    type V = StateView;

    open spec fn view(&self) -> StateView {
        StateView {
            namespace: self.namespace@,
            current_tag: self.current_tag,
            options: self.options@,
        }
    }
}

/// `requests` answer the demand `serial` with `arrangement`: they propose
/// each of its rectangles, in order, and then commit under `namespace`.
pub open spec fn answers(
    requests: Seq<Request>,
    namespace: Seq<char>,
    arrangement: Seq<Rect>,
    serial: u32,
) -> bool {
    &&& requests.len() == arrangement.len() + 1
    &&& forall|k: int|
        0 <= k < arrangement.len() ==> #[trigger] requests[k] == Request::push(
            arrangement[k],
            serial,
        )
    &&& requests.last() matches Request::Commit { layout_name, serial: committed }
    &&& layout_name@ == namespace
    &&& committed == serial
}

impl State {
    /// The numbers in every slot lie within their bounds.
    pub open spec fn wf(&self) -> bool {
        self@.wf()
    }

    /// A session named `namespace` in which no tag is selected and every slot
    /// holds `defaults`.
    pub fn new(namespace: String, defaults: LayoutOptions) -> (state: State)
        ensures
            state@.namespace == namespace@,
            state@.current_tag == 0,
            state@.options.len() == SLOTS,
            forall|i: int| 0 <= i < SLOTS ==> state@.options[i] == defaults,
            defaults.wf() ==> state.wf(),
    {
        State { namespace, current_tag: 0, options: [defaults;33] }
    }

    /// The options that `tag_mask` selects, for reading and for change: those
    /// of its tag where it holds exactly one, the shared ones otherwise.
    pub fn active(&mut self, tag_mask: u32) -> (options: &mut LayoutOptions)
        ensures
            *options == old(self)@.active(tag_mask),
            final(self)@ == old(self)@.with_active(tag_mask, *final(options)),
    {
        let index = bit_index_or_shared(tag_mask);
        &mut self.options[index]
    }

    /// The options that `tag_mask` selects.
    pub fn active_options(&self, tag_mask: u32) -> (options: LayoutOptions)
        ensures
            options == self@.active(tag_mask),
    {
        self.options[bit_index_or_shared(tag_mask)]
    }

    /// Answers a demand for a layout: the views of the arrangement that the
    /// demand's tags select, in order, and then the commit.
    ///
    /// It fails where the arrangement holds a position that no view can
    /// hold, and where it holds another number of windows than was demanded
    /// (the tiled and the stacked arrangement of no window hold one).
    pub fn demand(&self, request: LayoutRequest) -> (result: Result<Vec<Request>, Failure>)
        ensures
            match result {
                Ok(requests) => {
                    &&& self@.in_range(request)
                    &&& self@.arrangement(request).len() == request.view_count
                    &&& answers(
                        requests@,
                        self@.namespace,
                        self@.arrangement(request),
                        request.serial,
                    )
                },
                Err(failure) => {
                    &&& failure == Failure::OutOfRange <==> !self@.in_range(request)
                    &&& failure == Failure::WrongCount <==> self@.in_range(request)
                        && self@.arrangement(request).len() != request.view_count
                    &&& failure != Failure::NamespaceInUse
                },
            },
            result is Ok <==> self@.in_range(request) && self@.arrangement(request).len()
                == request.view_count,
    {
        let options = self.active_options(request.tag_mask);
        if !options.layout.can_arrange(
            options.primary_ratio,
            options.gap,
            request.view_count,
            request.usable_width,
            request.usable_height,
        ) {
            return Err(Failure::OutOfRange);
        }
        let mut views: Vec<view::View> = Vec::new();
        options.layout.arrange(
            &mut views,
            options.primary_ratio,
            options.gap,
            request.view_count,
            request.usable_width,
            request.usable_height,
        );
        assert(views@.skip(0) =~= views@);
        if views.len() != request.view_count as usize {
            return Err(Failure::WrongCount);
        }
        let ghost wanted = self@.arrangement(request);
        let mut requests: Vec<Request> = Vec::new();
        let mut i: usize = 0;
        while i < views.len()
            invariant
                i <= views.len(),
                requests@.len() == i,
                rects(views@) == wanted,
                forall|k: int|
                    0 <= k < i ==> #[trigger] requests@[k] == Request::push(
                        wanted[k],
                        request.serial,
                    ),
            decreases views.len() - i,
        {
            assert(rects(views@)[i as int] == views@[i as int].rect());
            requests.push(views[i].send(request.serial));
            i = i + 1;
        }
        requests.push(
            Request::Commit { layout_name: self.namespace.clone(), serial: request.serial },
        );
        Ok(requests)
    }

    /// Takes in one event of the session and says what is to be sent in
    /// return, in order.
    ///
    /// A demand for a layout is answered as [`State::demand`] says; a command
    /// is carried out as [`parse`] says; new command tags are taken over.
    /// Word that the namespace is in use ends the session.
    pub fn event(&mut self, event: Event) -> (result: Result<Vec<Request>, Failure>)
        ensures
            final(self)@ == old(self)@.after(event),
            old(self).wf() ==> final(self).wf(),
            match event {
                Event::NamespaceInUse => result == Err::<Vec<Request>, Failure>(
                    Failure::NamespaceInUse,
                ),
                Event::LayoutDemand(request) => match result {
                    Ok(requests) => {
                        &&& old(self)@.in_range(request)
                        &&& old(self)@.arrangement(request).len() == request.view_count
                        &&& answers(
                            requests@,
                            old(self)@.namespace,
                            old(self)@.arrangement(request),
                            request.serial,
                        )
                    },
                    Err(failure) => {
                        &&& failure == Failure::OutOfRange <==> !old(self)@.in_range(request)
                        &&& failure == Failure::WrongCount <==> old(self)@.in_range(request)
                            && old(self)@.arrangement(request).len() != request.view_count
                        &&& failure != Failure::NamespaceInUse
                    },
                },
                Event::UserCommand { .. } => result is Ok && result.unwrap()@.len() == 0,
                Event::UserCommandTags { .. } => result is Ok && result.unwrap()@.len() == 0,
            },
    {
        match event {
            Event::NamespaceInUse => Err(Failure::NamespaceInUse),
            Event::LayoutDemand(request) => self.demand(request),
            Event::UserCommand { command } => {
                parse(command, self);
                Ok(Vec::new())
            },
            Event::UserCommandTags { tags } => {
                self.current_tag = tags;
                Ok(Vec::new())
            },
        }
    }
}

/// Whatever events reach a state within bounds, it stays within bounds.
pub proof fn lemma_events_keep_bounds(state: StateView, events: Seq<Event>)
    requires
        state.wf(),
    ensures
        state.after_all(events).wf(),
    decreases events.len(),
{
    if events.len() > 0 {
        lemma_events_keep_bounds(state, events.drop_last());
        let before = state.after_all(events.drop_last());
        match events.last() {
            Event::UserCommand { command } => {
                crate::commands::lemma_run_keeps_bounds(before, command@);
            },
            _ => {},
        }
    }
}

} // verus!
