//! What the mouse does: seeking on the timeline and setting the volume.

use vstd::prelude::*;

use crate::app;
use crate::app::{Action, ActionView, App, AppView, Step};
use crate::layout::HitTarget;
use crate::player::{CommandView, Output};
use crate::text;
use crate::time::Duration;
use crate::ui;

verus! {

/// What the left mouse button does: it is pressed, moved while pressed, or released.
#[derive(Clone, Copy, Debug, PartialEq, Eq, Structural)]
pub enum Gesture {
    Press,
    Drag,
    Release,
}

impl AppView {
    /// The bar that a gesture acts on. A drag stays with the bar that it began on, wherever the
    /// pointer drifts.
    pub open spec fn pointer_target(self, gesture: Gesture, hit: Option<HitTarget>) -> Option<
        HitTarget,
    > {
        match gesture {
            Gesture::Press => hit,
            Gesture::Drag => if self.drag is Some {
                self.drag
            } else {
                hit
            },
            Gesture::Release => self.drag,
        }
    }

    /// A gesture, where `place` and `volume` are what the pointer's column means on the bar that
    /// it acts on. On the timeline a place is chosen and gone to on release; the volume changes at
    /// once.
    pub open spec fn pointer(
        self,
        gesture: Gesture,
        hit: Option<HitTarget>,
        place: nat,
        volume: u8,
        reported: nat,
    ) -> Step {
        let target = self.pointer_target(gesture, hit);
        if gesture == Gesture::Release {
            let app = AppView { drag: None, preview: None, ..self };
            match (target, self.preview) {
                (Some(HitTarget::Timeline { .. }), Some(chosen)) => match self.player.seek(chosen) {
                    Some(command) => {
                        let step = app.seeking(Some(command), reported);
                        Step {
                            app: AppView {
                                status: "Seeked to "@ + ui::clock(chosen),
                                ..step.app
                            },
                            ..step
                        }
                    },
                    None => app.unchanged(),
                },
                _ => app.unchanged(),
            }
        } else {
            match target {
                Some(HitTarget::Timeline { .. }) => (AppView {
                    drag: target,
                    preview: if self.player.duration is Some {
                        Some(place)
                    } else {
                        None
                    },
                    ..self
                }).unchanged(),
                Some(HitTarget::Volume { .. }) => (AppView {
                    drag: target,
                    preview: None,
                    ..self
                }).volume_set(volume),
                None => (AppView { drag: None, preview: None, ..self }).unchanged(),
            }
        }
    }
}

impl App {
    /// The bar that a gesture acts on.
    pub fn pointer_target(&self, gesture: Gesture, hit: Option<HitTarget>) -> (target: Option<
        HitTarget,
    >)
        ensures
            target == self@.pointer_target(gesture, hit),
    {
        match gesture {
            Gesture::Press => hit,
            Gesture::Drag => if self.drag.is_some() {
                self.drag
            } else {
                hit
            },
            Gesture::Release => self.drag,
        }
    }

    /// What a gesture does.
    pub fn handle_mouse_event(
        &mut self,
        gesture: Gesture,
        hit: Option<HitTarget>,
        place: Duration,
        volume: u8,
        output: &Output,
    ) -> (actions: Vec<Action>)
        ensures
            old(self)@.pointer(gesture, hit, place@, volume, output.position@) == (Step {
                app: final(self)@,
                actions: app::action_views(actions@),
            }),
    {
        let target = self.pointer_target(gesture, hit);
        let chosen = self.preview;
        self.preview = None;
        if gesture == Gesture::Release {
            self.drag = None;
            if let (Some(HitTarget::Timeline { .. }), Some(place)) = (target, chosen) {
                let command = self.player.seek_to(place);
                if command.is_some() {
                    let actions = self.commit_seek(command, output);
                    self.status = text::concat2(
                        "Seeked to ",
                        ui::format_duration(place).as_str(),
                    );
                    return actions;
                }
            }
            return app::nothing();
        }
        self.drag = target;
        match target {
            Some(HitTarget::Timeline { .. }) => {
                if self.player.duration().is_some() {
                    self.preview = Some(place);
                }
                app::nothing()
            },
            Some(HitTarget::Volume { .. }) => self.set_volume(volume),
            None => app::nothing(),
        }
    }
}

/// While a drag lasts, it acts on the bar that it began on.
pub proof fn law_drag_stays_on_its_bar(
    app: AppView,
    hit: Option<HitTarget>,
    place: nat,
    volume: u8,
    reported: nat,
)
    requires
        app.drag is Some,
    ensures
        app.pointer(Gesture::Drag, hit, place, volume, reported).app.drag == app.drag,
        app.drag->0 is Timeline ==> app.pointer(
            Gesture::Drag,
            hit,
            place,
            volume,
            reported,
        ).app.player.volume == app.player.volume,
        app.drag->0 is Volume ==> app.pointer(
            Gesture::Drag,
            hit,
            place,
            volume,
            reported,
        ).app.preview is None,
{
}

/// Pressing and dragging on the timeline only chooses a place: nothing is asked of the sound
/// output until the button is released, and then it goes to the place chosen last.
pub proof fn law_timeline_seeks_on_release(
    app: AppView,
    gesture: Gesture,
    hit: Option<HitTarget>,
    place: nat,
    volume: u8,
    reported: nat,
    later: nat,
)
    requires
        gesture != Gesture::Release,
        app.pointer_target(gesture, hit) matches Some(HitTarget::Timeline { .. }),
        app.player.file is Some,
        app.player.duration matches Some(end) && place <= end,
    ensures
        ({
            let chosen = app.pointer(gesture, hit, place, volume, reported);
            let released = chosen.app.pointer(Gesture::Release, None, 0, 0, later);
            &&& chosen.actions == Seq::<ActionView>::empty()
            &&& chosen.app.preview == Some(place)
            &&& released.actions == seq![
                ActionView::Device(CommandView::Seek(place)),
                ActionView::PersistResume,
            ]
            &&& released.app.preview is None
            &&& released.app.drag is None
            &&& released.app.seek_undo == Some(later)
        }),
{
}

/// The mouse does not count as input for the idle time.
pub proof fn law_pointer_is_no_interaction(
    app: AppView,
    gesture: Gesture,
    hit: Option<HitTarget>,
    place: nat,
    volume: u8,
    reported: nat,
)
    ensures
        app.pointer(gesture, hit, place, volume, reported).app.last_interaction
            == app.last_interaction,
        app.pointer(gesture, hit, place, volume, reported).app.idle_paused == app.idle_paused,
{
}

}
