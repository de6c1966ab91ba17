//! What playing, pausing, seeking and the passing of time do to the application.

use vstd::prelude::*;

use crate::app;
use crate::app::{Action, ActionView, App, AppView, Step};
use crate::browse;
use crate::encoding;
use crate::library;
use crate::paths;
use crate::player;
use crate::player::{Command, CommandView, LoadOutcome, Output, PlayerView, Track, TrackView};
use crate::storage::{ConfigView, ResumeEntry, ResumeEntryView};
use crate::text;
use crate::time;
use crate::time::Duration;
use crate::ui;

verus! {

/// How far a step goes forward or back, in seconds.
pub const SEEK_STEP_SECONDS: u64 = 10;

/// How long playback goes on before its position is noted again, in seconds.
pub const RESUME_SAVE_SECONDS: u64 = 60;

/// How much louder or quieter a step makes playback.
pub const VOLUME_STEP: u8 = 5;

/// A number of seconds in nanoseconds.
pub open spec fn seconds(n: nat) -> nat {
    n * time::NANOS_PER_SEC as nat
}

/// The time that has passed since an earlier moment.
pub open spec fn passed(now: nat, since: nat) -> nat {
    if now >= since {
        (now - since) as nat
    } else {
        0
    }
}

/// A length of time in words: in minutes where it is whole minutes, else in seconds.
pub open spec fn in_words(secs: nat) -> Seq<char> {
    if secs % 60 == 0 {
        text::decimal(secs / 60) + (if secs / 60 == 1 {
            " minute"@
        } else {
            " minutes"@
        })
    } else {
        text::decimal(secs) + (if secs == 1 {
            " second"@
        } else {
            " seconds"@
        })
    }
}

/// A length of time in words.
pub fn words(secs: u64) -> (shown: String)
    ensures
        shown@ == in_words(secs as nat),
{
    let whole = secs % 60 == 0;
    let count: u64 = if whole {
        secs / 60
    } else {
        secs
    };
    let mut shown = text::decimal_text(count);
    if whole {
        shown.append(
            if count == 1 {
                " minute"
            } else {
                " minutes"
            },
        );
    } else {
        shown.append(
            if count == 1 {
                " second"
            } else {
                " seconds"
            },
        );
    }
    shown
}

impl AppView {
    /// The selected item is to be played, from where it was left.
    pub open spec fn play_selected(self) -> Step {
        match self.selected_item() {
            None => self.saying("No audiobook selected."@),
            Some(item) => Step {
                app: self,
                actions: seq![
                    ActionView::Load {
                        track: app::track_of(item),
                        title: item.title,
                        start_at: match self.resume_position(
                            browse::state_key(item, self.follow()),
                        ) {
                            Some(position) => position,
                            None => 0,
                        },
                    },
                ],
            },
        }
    }

    /// A file was handed to the sound output.
    pub open spec fn load_finished(
        self,
        track: TrackView,
        title: Seq<char>,
        outcome: LoadOutcome,
        now: nat,
    ) -> AppView {
        let fresh = AppView {
            drag: None,
            preview: None,
            seek_undo: None,
            chapters: seq![],
            ..self
        };
        match outcome {
            LoadOutcome::Loaded(duration) => AppView {
                player: PlayerView {
                    file: Some(track),
                    duration: player::optional_span(duration),
                    ..self.player
                },
                last_resume_save: now,
                status: "Playing "@ + title,
                ..fresh
            },
            LoadOutcome::Failed(failure) => AppView {
                player: self.player.stopped(),
                status: failure.text(track.path),
                ..fresh
            },
        }
    }

    /// It is noted how far a track has been heard.
    pub open spec fn noted(self, track: TrackView, position: nat, epoch: u64) -> AppView {
        AppView {
            resume: self.resume.insert(
                app::track_key(track, self.follow()),
                ResumeEntryView { position, updated_at_epoch_seconds: epoch },
            ),
            ..self
        }
    }

    /// It is noted how far the loaded file has been heard.
    pub open spec fn persist_resume(self, reported: nat, epoch: u64, now: nat) -> Step {
        match self.player.file {
            None => self.unchanged(),
            Some(track) => Step {
                app: AppView {
                    last_resume_save: now,
                    ..self.noted(track, self.player.position(reported), epoch)
                },
                actions: seq![ActionView::SaveResumeStore],
            },
        }
    }

    /// A file that has come to its end is no longer loaded, and will begin at its beginning.
    pub open spec fn end_of_file(self, empty: bool, epoch: u64) -> Step {
        match self.player.file {
            Some(track) => if empty {
                Step {
                    app: AppView {
                        player: self.player.stopped(),
                        status: "Finished "@ + encoding::lossy(track.path),
                        idle_paused: false,
                        drag: None,
                        preview: None,
                        seek_undo: None,
                        chapters: seq![],
                        ..self.noted(track, 0, epoch)
                    },
                    actions: seq![
                        ActionView::Device(CommandView::Stop),
                        ActionView::SaveResumeStore,
                    ],
                }
            } else {
                self.unchanged()
            },
            None => self.unchanged(),
        }
    }

    /// Something is loaded, not at its end, and not paused.
    pub open spec fn running(self, output: Output) -> bool {
        self.player.playing(output.empty) && !output.paused
    }

    /// Playback has gone on for too long without a key press.
    pub open spec fn idle_for_too_long(self, output: Output, now: nat) -> bool {
        self.running(output) && passed(now, self.last_interaction) >= self.config.idle_span()
    }

    /// Playback is paused where it has gone on for too long without a key press.
    pub open spec fn idle_check(self, output: Output, now: nat) -> Step {
        if self.idle_for_too_long(output, now) {
            Step {
                app: AppView {
                    idle_paused: true,
                    status: "Paused after "@ + in_words(
                        self.config.idle_span() / (time::NANOS_PER_SEC as nat),
                    ) + " without input."@,
                    ..self
                },
                actions: seq![
                    ActionView::Device(CommandView::Pause),
                    ActionView::PersistResume,
                ],
            }
        } else {
            self.unchanged()
        }
    }

    /// A key was pressed: the idle time begins again, and a pause that it caused ends.
    pub open spec fn woken(self, now: nat) -> Step {
        let app = AppView { last_interaction: now, ..self };
        if self.idle_paused {
            Step {
                app: AppView {
                    idle_paused: false,
                    status: "Playback resumed after idle timeout."@,
                    ..app
                },
                actions: seq![ActionView::Device(CommandView::Play)],
            }
        } else {
            app.unchanged()
        }
    }

    /// The position is noted again where that is due.
    pub open spec fn checkpoint(self, output: Output, now: nat) -> Step {
        if self.running(output) && passed(now, self.last_resume_save) >= seconds(
            RESUME_SAVE_SECONDS as nat,
        ) {
            Step { app: self, actions: seq![ActionView::PersistResume] }
        } else {
            self.unchanged()
        }
    }

    /// The sleep timer runs while playback does, and pauses it at its end.
    pub open spec fn sleep_check(self, output: Output, now: nat) -> Step {
        let ticked = AppView { last_tick: now, ..self };
        match self.sleep_left {
            Some(left) => if !self.running(output) {
                ticked.unchanged()
            } else if passed(now, self.last_tick) >= left {
                Step {
                    app: AppView { sleep_left: None, status: "Sleep timer ended."@, ..ticked },
                    actions: seq![
                        ActionView::Device(CommandView::Pause),
                        ActionView::PersistResume,
                    ],
                }
            } else {
                (AppView {
                    sleep_left: Some((left - passed(now, self.last_tick)) as nat),
                    ..ticked
                }).unchanged()
            },
            None => ticked.unchanged(),
        }
    }

    /// Playback goes to another place, and where it was can be gone back to.
    pub open spec fn seeking(self, command: Option<CommandView>, reported: nat) -> Step {
        match command {
            Some(c) => Step {
                app: AppView { seek_undo: Some(self.player.position(reported)), ..self },
                actions: seq![ActionView::Device(c), ActionView::PersistResume],
            },
            None => self.unchanged(),
        }
    }

    /// Playback goes one step forward or back.
    pub open spec fn seek_step(self, forward: bool, reported: nat) -> Step {
        self.seeking(
            self.player.seek_by(seconds(SEEK_STEP_SECONDS as nat), forward, reported),
            reported,
        )
    }

    /// Playback goes back to where it was before the last change of place.
    pub open spec fn undo_seek(self) -> Step {
        match self.seek_undo {
            Some(place) => match self.player.seek(place) {
                Some(command) => Step {
                    app: AppView {
                        seek_undo: None,
                        status: "Seeked back to "@ + ui::clock(place),
                        ..self
                    },
                    actions: seq![ActionView::Device(command), ActionView::PersistResume],
                },
                None => self.saying("No seek to undo."@),
            },
            None => self.saying("No seek to undo."@),
        }
    }

    /// The sound output refused to go to a place: there is nothing to go back from.
    pub open spec fn seek_refused(self) -> AppView {
        AppView { status: "failed to seek"@, seek_undo: None, ..self }
    }

    /// Playback is paused, or goes on where it was paused.
    pub open spec fn toggled(self, output: Output) -> Step {
        Step {
            app: self,
            actions: seq![
                ActionView::Device(
                    if output.paused {
                        CommandView::Play
                    } else {
                        CommandView::Pause
                    },
                ),
                ActionView::PersistResume,
            ],
        }
    }

    /// The volume is set, and will be the same at the next start.
    pub open spec fn volume_set(self, volume: u8) -> Step {
        let next = player::at_most_full(volume);
        Step {
            app: AppView {
                player: PlayerView { volume: next, ..self.player },
                config: ConfigView { default_volume: next, ..self.config },
                ..self
            },
            actions: seq![
                ActionView::Device(CommandView::SetVolume(next)),
                ActionView::SaveConfig,
            ],
        }
    }

    /// The volume after one step.
    pub open spec fn next_volume(self, louder: bool) -> u8 {
        if louder {
            if self.player.volume <= 95 {
                (self.player.volume + VOLUME_STEP) as u8
            } else {
                100
            }
        } else if self.player.volume >= VOLUME_STEP {
            (self.player.volume - VOLUME_STEP) as u8
        } else {
            0
        }
    }

    /// Playback becomes faster or slower.
    pub open spec fn speed_changed(self, faster: bool) -> Step {
        let next = player::next_speed(self.player.speed, faster);
        Step {
            app: AppView {
                player: PlayerView { speed: next, ..self.player },
                status: "Speed "@ + ui::speed_text(next as nat),
                ..self
            },
            actions: seq![ActionView::Device(CommandView::SetSpeed(next))],
        }
    }

    /// The program ends: the position and the selected item are kept, and playback stops.
    pub open spec fn shut_down(self, reported: nat, epoch: u64, now: nat) -> Step {
        let noted = self.persist_resume(reported, epoch, now);
        let app = noted.app.remembering();
        Step {
            app: AppView { player: app.player.stopped(), ..app },
            actions: noted.actions + seq![
                ActionView::SaveUiState,
                ActionView::Device(CommandView::Stop),
            ],
        }
    }
}

fn key_of_track(track: &Track, follow: bool) -> (key: String)
    ensures
        key@ == app::track_key(track@, follow),
{
    if follow {
        track.media_key.clone()
    } else {
        track.canonical_key.clone()
    }
}

impl App {
    /// Plays the selected item, from where it was left.
    pub fn play_selected(&mut self) -> (actions: Vec<Action>)
        ensures
            old(self)@.play_selected() == (Step {
                app: final(self)@,
                actions: app::action_views(actions@),
            }),
    {
        let follow = self.config.memory_on_move;
        match self.selected_item() {
            Some(item) => {
                let start_at = match self.resume_duration_for(
                    browse::key_of_item(item, follow).as_str(),
                ) {
                    Some(position) => position,
                    None => Duration::zero(),
                };
                let track = Track {
                    path: paths::copy_bytes(&item.path),
                    canonical_key: item.canonical_key.clone(),
                    media_key: item.media_key.clone(),
                };
                app::one(Action::Load { track, title: item.title.clone(), start_at })
            },
            None => {
                self.status = "No audiobook selected.".to_owned();
                app::nothing()
            },
        }
    }

    /// A file was handed to the sound output, with the given outcome.
    pub fn finish_load(
        &mut self,
        track: Track,
        title: &str,
        outcome: LoadOutcome,
        now: Duration,
    ) -> (actions: Vec<Action>)
        ensures
            old(self)@.load_finished(track@, title@, outcome, now@).load_step(
                track@.path,
                outcome is Loaded,
            ) == (Step { app: final(self)@, actions: app::action_views(actions@) }),
    {
        let actions = match outcome {
            LoadOutcome::Loaded(_) => if library::may_have_chapters(&track.path) {
                app::one(Action::ProbeChapters { path: paths::copy_bytes(&track.path) })
            } else {
                app::nothing()
            },
            LoadOutcome::Failed(_) => app::nothing(),
        };
        match outcome {
            LoadOutcome::Loaded(_) => {
                self.last_resume_save_at = now;
                self.status = text::concat2("Playing ", title);
            },
            LoadOutcome::Failed(failure) => {
                self.status = failure.message(&track.path);
            },
        }
        self.player.load(track, outcome);
        self.drag = None;
        self.preview = None;
        self.seek_undo = None;
        self.chapters = Vec::new();
        assert(self@.chapters =~= seq![]);
        actions
    }

    fn save_resume_for_track(&mut self, track: &Track, position: Duration, epoch: u64)
        ensures
            final(self)@ == old(self)@.noted(track@, position@, epoch),
    {
        let key = key_of_track(track, self.config.memory_on_move);
        self.resume_store.positions.insert(
            key,
            ResumeEntry { position, updated_at_epoch_seconds: epoch },
        );
    }

    /// Notes how far the loaded file has been heard.
    pub fn persist_current_resume(&mut self, output: &Output, epoch: u64, now: Duration) -> (actions:
        Vec<Action>)
        ensures
            old(self)@.persist_resume(output.position@, epoch, now@) == (Step {
                app: final(self)@,
                actions: app::action_views(actions@),
            }),
    {
        let track = match self.player.current_file() {
            Some(track) => track.clone(),
            None => {
                return app::nothing();
            },
        };
        let position = self.player.current_position(output);
        self.save_resume_for_track(&track, position, epoch);
        self.last_resume_save_at = now;
        app::one(Action::SaveResumeStore)
    }

    /// Notices that a file has come to its end.
    pub fn refresh_playback_state(&mut self, output: &Output, epoch: u64) -> (actions: Vec<Action>)
        ensures
            old(self)@.end_of_file(output.empty, epoch) == (Step {
                app: final(self)@,
                actions: app::action_views(actions@),
            }),
    {
        match self.player.tick(output.empty) {
            Some(track) => {
                self.save_resume_for_track(&track, Duration::zero(), epoch);
                self.status = text::concat2(
                    "Finished ",
                    encoding::lossy_text(&track.path).as_str(),
                );
                self.idle_paused = false;
                self.drag = None;
                self.preview = None;
                self.seek_undo = None;
                self.chapters = Vec::new();
                assert(self@.chapters =~= seq![]);
                app::two(Action::Device(Command::Stop), Action::SaveResumeStore)
            },
            None => app::nothing(),
        }
    }

    fn is_running(&self, output: &Output) -> (running: bool)
        ensures
            running == self@.running(*output),
    {
        self.player.is_playing(output) && !self.player.is_paused(output)
    }

    /// Pauses where playback has gone on for too long without a key press.
    pub fn handle_idle_timeout(&mut self, output: &Output, now: Duration) -> (actions: Vec<Action>)
        ensures
            old(self)@.idle_check(*output, now@) == (Step {
                app: final(self)@,
                actions: app::action_views(actions@),
            }),
    {
        let span = self.config.idle_span();
        if self.is_running(output) && now.saturating_sub(self.last_interaction_at).at_least(&span) {
            let pause = self.player.pause();
            self.idle_paused = true;
            self.status = text::concat3(
                "Paused after ",
                words(span.as_secs()).as_str(),
                " without input.",
            );
            return app::two(Action::Device(pause), Action::PersistResume);
        }
        app::nothing()
    }

    /// A key was pressed: the idle time begins again, and a pause that it caused ends.
    pub fn on_keypress(&mut self, now: Duration) -> (actions: Vec<Action>)
        ensures
            old(self)@.woken(now@) == (Step {
                app: final(self)@,
                actions: app::action_views(actions@),
            }),
    {
        self.last_interaction_at = now;
        if self.idle_paused {
            let resume = self.player.resume();
            self.idle_paused = false;
            self.status = "Playback resumed after idle timeout.".to_owned();
            return app::one(Action::Device(resume));
        }
        app::nothing()
    }

    /// Notes the position again where that is due.
    pub fn save_resume_checkpoint_if_needed(&self, output: &Output, now: Duration) -> (actions: Vec<
        Action,
    >)
        ensures
            self@.checkpoint(*output, now@) == (Step {
                app: self@,
                actions: app::action_views(actions@),
            }),
    {
        if self.is_running(output) && now.saturating_sub(self.last_resume_save_at).at_least(
            &Duration::from_secs(RESUME_SAVE_SECONDS),
        ) {
            return app::one(Action::PersistResume);
        }
        app::nothing()
    }

    /// Lets the sleep timer run, and pauses playback at its end.
    pub fn tick_sleep_timer(&mut self, output: &Output, now: Duration) -> (actions: Vec<Action>)
        ensures
            old(self)@.sleep_check(*output, now@) == (Step {
                app: final(self)@,
                actions: app::action_views(actions@),
            }),
    {
        let gone = now.saturating_sub(self.last_tick_at);
        self.last_tick_at = now;
        let left = match self.sleep_left {
            Some(left) => left,
            None => {
                return app::nothing();
            },
        };
        if !self.is_running(output) {
            return app::nothing();
        }
        if gone.at_least(&left) {
            self.sleep_left = None;
            self.status = "Sleep timer ended.".to_owned();
            return app::two(Action::Device(self.player.pause()), Action::PersistResume);
        }
        self.sleep_left = Some(left.saturating_sub(gone));
        app::nothing()
    }

    /// Goes to another place, and keeps where playback was.
    pub fn commit_seek(&mut self, command: Option<Command>, output: &Output) -> (actions: Vec<Action>)
        ensures
            old(self)@.seeking(player::optional_command(command), output.position@) == (Step {
                app: final(self)@,
                actions: app::action_views(actions@),
            }),
    {
        match command {
            Some(c) => {
                self.seek_undo = Some(self.player.current_position(output));
                app::two(Action::Device(c), Action::PersistResume)
            },
            None => app::nothing(),
        }
    }

    /// Goes one step forward or back.
    pub fn seek_step(&mut self, forward: bool, output: &Output) -> (actions: Vec<Action>)
        ensures
            old(self)@.seek_step(forward, output.position@) == (Step {
                app: final(self)@,
                actions: app::action_views(actions@),
            }),
    {
        let command = self.player.seek_relative(
            Duration::from_secs(SEEK_STEP_SECONDS),
            forward,
            output,
        );
        self.commit_seek(command, output)
    }

    /// Goes back to where playback was before the last change of place.
    pub fn undo_seek(&mut self) -> (actions: Vec<Action>)
        ensures
            old(self)@.undo_seek() == (Step {
                app: final(self)@,
                actions: app::action_views(actions@),
            }),
    {
        if let Some(place) = self.seek_undo {
            if let Some(command) = self.player.seek_to(place) {
                self.seek_undo = None;
                self.status = text::concat2("Seeked back to ", ui::format_duration(place).as_str());
                return app::two(Action::Device(command), Action::PersistResume);
            }
        }
        self.status = "No seek to undo.".to_owned();
        app::nothing()
    }

    /// The sound output could not go to a place.
    pub fn seek_failed(&mut self)
        ensures
            final(self)@ == old(self)@.seek_refused(),
    {
        self.status = "failed to seek".to_owned();
        self.seek_undo = None;
    }

    /// Pauses, or plays on where playback was paused.
    pub fn toggle_playback(&mut self, output: &Output) -> (actions: Vec<Action>)
        ensures
            old(self)@.toggled(*output) == (Step {
                app: final(self)@,
                actions: app::action_views(actions@),
            }),
    {
        app::two(Action::Device(self.player.play_pause(output)), Action::PersistResume)
    }

    /// Sets the volume.
    pub fn set_volume(&mut self, value: u8) -> (actions: Vec<Action>)
        ensures
            old(self)@.volume_set(value) == (Step {
                app: final(self)@,
                actions: app::action_views(actions@),
            }),
    {
        let command = self.player.restart_with_volume(value);
        self.config.default_volume = self.player.volume();
        app::two(Action::Device(command), Action::SaveConfig)
    }

    /// Makes playback one step louder or quieter.
    pub fn adjust_volume(&mut self, increase: bool) -> (actions: Vec<Action>)
        ensures
            old(self)@.volume_set(old(self)@.next_volume(increase)) == (Step {
                app: final(self)@,
                actions: app::action_views(actions@),
            }),
    {
        let current: u8 = self.player.volume();
        let next: u8 = if increase {
            if current <= 100 - VOLUME_STEP {
                current + VOLUME_STEP
            } else {
                100
            }
        } else if current >= VOLUME_STEP {
            current - VOLUME_STEP
        } else {
            0
        };
        self.set_volume(next)
    }

    /// Plays faster or slower.
    pub fn adjust_speed(&mut self, faster: bool) -> (actions: Vec<Action>)
        ensures
            old(self)@.speed_changed(faster) == (Step {
                app: final(self)@,
                actions: app::action_views(actions@),
            }),
    {
        let command = self.player.change_speed(faster);
        self.status = text::concat2("Speed ", ui::format_speed(self.player.speed()).as_str());
        app::one(Action::Device(command))
    }

    /// Ends the program: keeps the position and the selected item, and stops.
    pub fn shutdown(&mut self, output: &Output, epoch: u64, now: Duration) -> (actions: Vec<Action>)
        ensures
            old(self)@.shut_down(output.position@, epoch, now@) == (Step {
                app: final(self)@,
                actions: app::action_views(actions@),
            }),
    {
        let mut actions = self.persist_current_resume(output, epoch, now);
        let ghost noted = app::action_views(actions@);
        self.persist_ui_state();
        let stop = self.player.stop();
        actions.push(Action::SaveUiState);
        actions.push(Action::Device(stop));
        assert(app::action_views(actions@) =~= noted + seq![
            ActionView::SaveUiState,
            ActionView::Device(CommandView::Stop),
        ]);
        actions
    }
}

}
