//! Choosing a screen through the desktop's screen-sharing portal.

use crate::failure::Failure;
use crate::settings::CaptureMode;
use vstd::prelude::*;

verus! {

/// A kind of thing that can be shared.
#[derive(Clone, Copy, Debug, PartialEq, Eq, Structural)]
pub enum SourceKind {
    Monitor,
    Window,
    Virtual,
}

/// A set of kinds of source.
#[derive(Clone, Copy, Debug, PartialEq, Eq, Structural)]
pub struct SourceTypes {
    pub monitor: bool,
    pub window: bool,
    pub virtual_monitor: bool,
}

/// A stream that the user agreed to share.
#[derive(Clone, Copy, Debug, PartialEq, Eq)]
pub struct SharedStream {
    pub node_id: u32,
    pub size: Option<(i32, i32)>,
    pub kind: Option<SourceKind>,
}

/// A chosen screen.
#[derive(Clone, Copy, Debug, PartialEq, Eq)]
pub struct ScreenCapture {
    pub node_id: u32,
    pub size: Option<(i32, i32)>,
    pub mode: CaptureMode,
}

/// The kinds of source to ask for: screens and windows to mirror, or a virtual monitor to extend
/// the desktop, as far as the desktop has them.
pub open spec fn sources_for(mode: CaptureMode, available: SourceTypes) -> Result<
    SourceTypes,
    Failure,
> {
    match mode {
        CaptureMode::Mirror => if available.monitor || available.window {
            Ok(
                SourceTypes {
                    monitor: available.monitor,
                    window: available.window,
                    virtual_monitor: false,
                },
            )
        } else {
            Err(Failure::NoSources)
        },
        CaptureMode::Extend => if available.virtual_monitor {
            Ok(SourceTypes { monitor: false, window: false, virtual_monitor: true })
        } else {
            Err(Failure::NoVirtualMonitors)
        },
    }
}

/// Exactly one stream is accepted, and to extend the desktop it has to be a virtual monitor.
pub open spec fn accepted(mode: CaptureMode, streams: Seq<SharedStream>) -> Result<
    ScreenCapture,
    Failure,
> {
    if streams.len() != 1 {
        Err(Failure::NotOneSource)
    } else if mode == CaptureMode::Extend && streams[0].kind != Some(SourceKind::Virtual) {
        Err(Failure::NotVirtual)
    } else {
        Ok(ScreenCapture { node_id: streams[0].node_id, size: streams[0].size, mode })
    }
}

/// Where a selection stands: what was asked of the portal last.
#[derive(Clone, Copy, Debug, PartialEq, Eq)]
pub enum PortalStage {
    Sources,
    Session(SourceTypes),
    Selection,
    Start,
    Remote(ScreenCapture),
    Done,
    Failed,
}

/// What the portal answered. Only what the stage reads matters.
pub struct PortalReply {
    pub available: SourceTypes,
    pub streams: Vec<SharedStream>,
}

/// What to do next.
#[derive(Clone, Copy, Debug, PartialEq, Eq)]
pub enum PortalStep {
    CreateSession,
    SelectSources(SourceTypes),
    Start,
    OpenRemote,
    Finished(ScreenCapture),
    /// Give up, and close the portal session where one was created.
    Stop { failure: Failure, close: bool },
}

/// A selection of a screen.
#[derive(Clone, Copy, Debug, PartialEq, Eq)]
pub struct Selection {
    pub mode: CaptureMode,
    pub stage: PortalStage,
}

impl Selection {
    /// A portal session has been created and not handed out.
    pub open spec fn holds_session(self) -> bool {
        match self.stage {
            PortalStage::Selection => true,
            PortalStage::Start => true,
            PortalStage::Remote(_) => true,
            _ => false,
        }
    }

    /// The selection after a reply, and what to do next.
    pub open spec fn after(
        self,
        available: SourceTypes,
        streams: Seq<SharedStream>,
    ) -> (Selection, PortalStep) {
        match self.stage {
            PortalStage::Sources => match sources_for(self.mode, available) {
                Err(failure) => (
                    Selection { stage: PortalStage::Failed, ..self },
                    PortalStep::Stop { failure, close: false },
                ),
                Ok(sources) => (
                    Selection { stage: PortalStage::Session(sources), ..self },
                    PortalStep::CreateSession,
                ),
            },
            PortalStage::Session(sources) => (
                Selection { stage: PortalStage::Selection, ..self },
                PortalStep::SelectSources(sources),
            ),
            PortalStage::Selection => (
                Selection { stage: PortalStage::Start, ..self },
                PortalStep::Start,
            ),
            PortalStage::Start => match accepted(self.mode, streams) {
                Err(failure) => (
                    Selection { stage: PortalStage::Failed, ..self },
                    PortalStep::Stop { failure, close: true },
                ),
                Ok(screen) => (
                    Selection { stage: PortalStage::Remote(screen), ..self },
                    PortalStep::OpenRemote,
                ),
            },
            PortalStage::Remote(screen) => (
                Selection { stage: PortalStage::Done, ..self },
                PortalStep::Finished(screen),
            ),
            _ => (self, PortalStep::Stop { failure: Failure::SelectionOver, close: false }),
        }
    }

    /// Takes in a reply and says what to do next.
    pub fn next(&mut self, reply: &PortalReply) -> (r: PortalStep)
        ensures
            (*final(self), r) == old(self).after(reply.available, reply.streams@),
    {
        match self.stage {
            PortalStage::Sources => match ScreenCapture::requested(self.mode, reply.available) {
                Err(failure) => {
                    self.stage = PortalStage::Failed;
                    PortalStep::Stop { failure, close: false }
                },
                Ok(sources) => {
                    self.stage = PortalStage::Session(sources);
                    PortalStep::CreateSession
                },
            },
            PortalStage::Session(sources) => {
                self.stage = PortalStage::Selection;
                PortalStep::SelectSources(sources)
            },
            PortalStage::Selection => {
                self.stage = PortalStage::Start;
                PortalStep::Start
            },
            PortalStage::Start => match ScreenCapture::accept(self.mode, &reply.streams) {
                Err(failure) => {
                    self.stage = PortalStage::Failed;
                    PortalStep::Stop { failure, close: true }
                },
                Ok(screen) => {
                    self.stage = PortalStage::Remote(screen);
                    PortalStep::OpenRemote
                },
            },
            PortalStage::Remote(screen) => {
                self.stage = PortalStage::Done;
                PortalStep::Finished(screen)
            },
            _ => PortalStep::Stop { failure: Failure::SelectionOver, close: false },
        }
    }

    /// The portal did not do what was asked. Says whether a session is left to be closed.
    pub fn abandon(&mut self) -> (r: bool)
        ensures
            r == old(self).holds_session(),
            *final(self) == (Selection { stage: PortalStage::Failed, ..*old(self) }),
    {
        let close = match self.stage {
            PortalStage::Selection => true,
            PortalStage::Start => true,
            PortalStage::Remote(_) => true,
            _ => false,
        };
        self.stage = PortalStage::Failed;
        close
    }
}

impl ScreenCapture {
    /// Begins to choose a screen to mirror.
    pub fn select() -> (r: Selection)
        ensures
            r == (Selection { mode: CaptureMode::Mirror, stage: PortalStage::Sources }),
    {
        Self::select_mode(CaptureMode::Mirror)
    }

    /// Begins to choose a screen.
    pub fn select_mode(mode: CaptureMode) -> (r: Selection)
        ensures
            r == (Selection { mode, stage: PortalStage::Sources }),
    {
        Selection { mode, stage: PortalStage::Sources }
    }

    /// Whether the desktop can be extended.
    pub fn supports_virtual(available: SourceTypes) -> (r: bool)
        ensures
            r == (sources_for(CaptureMode::Extend, available) is Ok),
    {
        available.virtual_monitor
    }

    /// The kinds of source to ask for.
    pub fn requested(mode: CaptureMode, available: SourceTypes) -> (r: Result<
        SourceTypes,
        Failure,
    >)
        ensures
            r == sources_for(mode, available),
    {
        match mode {
            CaptureMode::Mirror => if available.monitor || available.window {
                Ok(
                    SourceTypes {
                        monitor: available.monitor,
                        window: available.window,
                        virtual_monitor: false,
                    },
                )
            } else {
                Err(Failure::NoSources)
            },
            CaptureMode::Extend => if available.virtual_monitor {
                Ok(SourceTypes { monitor: false, window: false, virtual_monitor: true })
            } else {
                Err(Failure::NoVirtualMonitors)
            },
        }
    }

    /// Accepts what the user agreed to share.
    pub fn accept(mode: CaptureMode, streams: &Vec<SharedStream>) -> (r: Result<
        ScreenCapture,
        Failure,
    >)
        ensures
            r == accepted(mode, streams@),
    {
        if streams.len() != 1 {
            return Err(Failure::NotOneSource);
        }
        let stream = streams[0];
        let is_virtual = match stream.kind {
            Some(SourceKind::Virtual) => true,
            _ => false,
        };
        if mode == CaptureMode::Extend && !is_virtual {
            return Err(Failure::NotVirtual);
        }
        Ok(ScreenCapture { node_id: stream.node_id, size: stream.size, mode })
    }
}

/// Only kinds of source that the desktop has are asked for, and always at least one.
pub proof fn requested_sources_are_available(mode: CaptureMode, available: SourceTypes)
    ensures
        sources_for(mode, available) matches Ok(sources) ==> {
            &&& sources.monitor ==> available.monitor
            &&& sources.window ==> available.window
            &&& sources.virtual_monitor ==> available.virtual_monitor
            &&& sources.monitor || sources.window || sources.virtual_monitor
            &&& sources.virtual_monitor <==> mode == CaptureMode::Extend
        },
{
}

/// A portal session that was created is closed when the selection gives up, and only then: none
/// is left behind, and none that is handed out is closed.
pub proof fn abandoned_sessions_are_closed(
    selection: Selection,
    available: SourceTypes,
    streams: Seq<SharedStream>,
)
    ensures
        selection.after(available, streams).1 matches PortalStep::Stop { close, .. } ==> close
            == selection.holds_session(),
        selection.after(available, streams).1 matches PortalStep::Finished(_) ==> !selection.after(
            available,
            streams,
        ).0.holds_session(),
{
}

/// To mirror, every kind of screen and window that the desktop has is asked for; to extend, a
/// virtual monitor and nothing else. Only where there is none of these is the selection refused.
pub proof fn all_suitable_sources_are_offered(mode: CaptureMode, available: SourceTypes)
    ensures
        match (mode, sources_for(mode, available)) {
            (CaptureMode::Mirror, Ok(sources)) => {
                &&& sources.monitor == available.monitor
                &&& sources.window == available.window
                &&& available.monitor || available.window
            },
            (CaptureMode::Mirror, Err(failure)) => {
                &&& failure == Failure::NoSources
                &&& !available.monitor && !available.window
            },
            (CaptureMode::Extend, Ok(sources)) => {
                &&& available.virtual_monitor
                &&& !sources.monitor && !sources.window
            },
            (CaptureMode::Extend, Err(failure)) => {
                &&& failure == Failure::NoVirtualMonitors
                &&& !available.virtual_monitor
            },
        },
{
}

/// The selection where a number of replies has led it, and what it asked for last.
pub open spec fn after_replies(selection: Selection, replies: Seq<(SourceTypes, Seq<SharedStream>)>) -> (
    Selection,
    PortalStep,
)
    decreases replies.len(),
{
    let reply = replies.last();
    if replies.len() <= 1 {
        selection.after(reply.0, reply.1)
    } else {
        after_replies(selection, replies.drop_last()).0.after(reply.0, reply.1)
    }
}

/// A selection creates a session, offers the suitable sources, starts, opens the remote and hands
/// out the very stream that the user agreed to share, in the mode that was asked for.
pub proof fn the_shared_stream_is_handed_out(
    mode: CaptureMode,
    available: SourceTypes,
    replies: Seq<(SourceTypes, Seq<SharedStream>)>,
    stream: SharedStream,
)
    requires
        replies.len() == 5,
        replies[0].0 == available,
        sources_for(mode, available) is Ok,
        replies[3].1 == seq![stream],
        mode == CaptureMode::Extend ==> stream.kind == Some(SourceKind::Virtual),
    ensures
        ({
            let start = Selection { mode, stage: PortalStage::Sources };
            &&& after_replies(start, replies.take(1)).1 == PortalStep::CreateSession
            &&& after_replies(start, replies.take(2)).1 == PortalStep::SelectSources(
                sources_for(mode, available)->Ok_0,
            )
            &&& after_replies(start, replies.take(3)).1 == PortalStep::Start
            &&& after_replies(start, replies.take(4)).1 == PortalStep::OpenRemote
            &&& after_replies(start, replies).1 matches PortalStep::Finished(screen)
                && screen.node_id == stream.node_id && screen.size == stream.size && screen.mode
                == mode
        }),
{
    let start = Selection { mode, stage: PortalStage::Sources };
    reveal_with_fuel(after_replies, 6);
    assert(replies.take(2).drop_last() =~= replies.take(1));
    assert(replies.take(3).drop_last() =~= replies.take(2));
    assert(replies.take(4).drop_last() =~= replies.take(3));
    assert(replies.drop_last() =~= replies.take(4));
}

/// Where the user shares no source, several, or one of the wrong kind, nothing is handed out and
/// the session is closed.
pub proof fn unsuitable_choices_are_refused(
    mode: CaptureMode,
    available: SourceTypes,
    streams: Seq<SharedStream>,
)
    requires
        streams.len() != 1 || (mode == CaptureMode::Extend && streams[0].kind != Some(
            SourceKind::Virtual,
        )),
    ensures
        ({
            let (next, step) = Selection { mode, stage: PortalStage::Start }.after(
                available,
                streams,
            );
            &&& next.stage == PortalStage::Failed
            &&& step == (PortalStep::Stop {
                failure: if streams.len() != 1 {
                    Failure::NotOneSource
                } else {
                    Failure::NotVirtual
                },
                close: true,
            })
        }),
{
}

} // verus!
