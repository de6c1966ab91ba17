//! What is being played, and what the sound output is told to do.

use vstd::prelude::*;

use crate::encoding;
use crate::paths;
use crate::text;
use crate::time;
use crate::time::Duration;

verus! {

/// A file that is played, with the keys that its state is kept under.
#[derive(Debug)]
pub struct Track {
    pub path: Vec<u8>,
    pub canonical_key: String,
    pub media_key: String,
}

#[verifier::ext_equal]
pub struct TrackView {
    pub path: Seq<u8>,
    pub canonical_key: Seq<char>,
    pub media_key: Seq<char>,
}

impl View for Track {
    type V = TrackView;

    open spec fn view(&self) -> TrackView {
        TrackView {
            path: self.path@,
            canonical_key: self.canonical_key@,
            media_key: self.media_key@,
        }
    }
}

impl Clone for Track {
    fn clone(&self) -> (copy: Self)
        ensures
            copy@ == self@,
    {
        Track {
            path: paths::copy_bytes(&self.path),
            canonical_key: self.canonical_key.clone(),
            media_key: self.media_key.clone(),
        }
    }
}

/// What the sound output reports: whether it has nothing left to play, whether it is paused, and
/// how far it has come.
#[derive(Clone, Copy, Debug)]
pub struct Output {
    pub empty: bool,
    pub paused: bool,
    pub position: Duration,
}

/// What the sound output is told to do.
#[derive(Clone, Copy, Debug)]
pub enum Command {
    SetVolume(u8),
    SetSpeed(u16),
    Pause,
    Play,
    Stop,
    Seek(Duration),
}

#[verifier::ext_equal]
pub enum CommandView {
    SetVolume(u8),
    SetSpeed(u16),
    Pause,
    Play,
    Stop,
    Seek(nat),
}

impl View for Command {
    type V = CommandView;

    open spec fn view(&self) -> CommandView {
        match self {
            Command::SetVolume(volume) => CommandView::SetVolume(*volume),
            Command::SetSpeed(speed) => CommandView::SetSpeed(*speed),
            Command::Pause => CommandView::Pause,
            Command::Play => CommandView::Play,
            Command::Stop => CommandView::Stop,
            Command::Seek(target) => CommandView::Seek(target@),
        }
    }
}

/// The command that an optional one holds.
pub open spec fn optional_command(command: Option<Command>) -> Option<CommandView> {
    match command {
        Some(c) => Some(c@),
        None => None,
    }
}

/// The length of an optional span.
pub open spec fn optional_span(span: Option<Duration>) -> Option<nat> {
    match span {
        Some(d) => Some(d@),
        None => None,
    }
}

/// The track that an optional one holds.
pub open spec fn optional_track(track: Option<Track>) -> Option<TrackView> {
    match track {
        Some(t) => Some(t@),
        None => None,
    }
}

/// Playback at one moment.
#[derive(Clone, Copy, Debug)]
pub struct PlaybackSnapshot {
    pub position: Duration,
    pub duration: Option<Duration>,
    pub volume: u8,
    pub is_paused: bool,
}

#[verifier::ext_equal]
pub struct SnapshotView {
    pub position: nat,
    pub duration: Option<nat>,
    pub volume: u8,
    pub is_paused: bool,
}

impl View for PlaybackSnapshot {
    type V = SnapshotView;

    open spec fn view(&self) -> SnapshotView {
        SnapshotView {
            position: self.position@,
            duration: optional_span(self.duration),
            volume: self.volume,
            is_paused: self.is_paused,
        }
    }
}

/// Why a file could not be loaded.
#[derive(Clone, Copy, Debug, PartialEq, Eq, Structural)]
pub enum LoadFailure {
    Open,
    Decode,
    Seek,
}

impl LoadFailure {
    /// The message for a path.
    pub open spec fn text(self, path: Seq<u8>) -> Seq<char> {
        let what = match self {
            LoadFailure::Open => "failed to open "@,
            LoadFailure::Decode => "failed to decode "@,
            LoadFailure::Seek => "failed to seek "@,
        };
        what + encoding::lossy(path)
    }

    /// The message for a path.
    pub fn message(self, path: &Vec<u8>) -> (message: String)
        ensures
            message@ == self.text(path@),
    {
        let what = match self {
            LoadFailure::Open => "failed to open ",
            LoadFailure::Decode => "failed to decode ",
            LoadFailure::Seek => "failed to seek ",
        };
        text::concat2(what, encoding::lossy_text(path).as_str())
    }
}

/// What came of loading a file: how long it is, as far as that is known, or why it failed.
#[derive(Clone, Copy, Debug)]
pub enum LoadOutcome {
    Loaded(Option<Duration>),
    Failed(LoadFailure),
}

/// The file that is played, its length, the volume, and the speed in percent.
#[derive(Debug)]
pub struct Player {
    file: Option<Track>,
    duration: Option<Duration>,
    volume: u8,
    speed: u16,
}

#[verifier::ext_equal]
pub struct PlayerView {
    pub file: Option<TrackView>,
    pub duration: Option<nat>,
    pub volume: u8,
    pub speed: u16,
}

impl View for Player {
    type V = PlayerView;

    closed spec fn view(&self) -> PlayerView {
        PlayerView {
            file: optional_track(self.file),
            duration: optional_span(self.duration),
            volume: self.volume,
            speed: self.speed,
        }
    }
}

/// The usual speed, in percent.
pub const USUAL_SPEED: u16 = 100;

/// The slowest speed, in percent.
pub const SLOWEST: u16 = 50;

/// The fastest speed, in percent.
pub const FASTEST: u16 = 200;

/// How far the speeds that can be chosen lie apart, in percent.
pub const SPEED_STEP: u16 = 25;

/// A speed that can be chosen.
pub open spec fn is_preset(speed: u16) -> bool {
    SLOWEST <= speed <= FASTEST && speed % SPEED_STEP == 0
}

/// The next faster or slower speed; the fastest and the slowest one stay.
pub open spec fn next_speed(speed: u16, faster: bool) -> u16 {
    if faster {
        if speed + SPEED_STEP <= FASTEST {
            (speed + SPEED_STEP) as u16
        } else {
            FASTEST
        }
    } else if speed >= SLOWEST + SPEED_STEP {
        (speed - SPEED_STEP) as u16
    } else {
        SLOWEST
    }
}

/// A volume no greater than the full one.
pub open spec fn at_most_full(volume: u8) -> u8 {
    if volume <= 100 {
        volume
    } else {
        100
    }
}

/// A place no later than the end, where the end is known.
pub open spec fn up_to_end(target: nat, duration: Option<nat>) -> nat {
    match duration {
        Some(end) => if target <= end {
            target
        } else {
            end
        },
        None => target,
    }
}

impl PlayerView {
    /// Nothing is loaded.
    pub open spec fn stopped(self) -> PlayerView {
        PlayerView { file: None, duration: None, ..self }
    }

    /// How far playback has come; the beginning where nothing is loaded.
    pub open spec fn position(self, reported: nat) -> nat {
        if self.file is None {
            0
        } else {
            reported
        }
    }

    /// Going to a place: nowhere where nothing is loaded, and never beyond the end.
    pub open spec fn seek(self, target: nat) -> Option<CommandView> {
        if self.file is None {
            None
        } else {
            Some(CommandView::Seek(up_to_end(target, self.duration)))
        }
    }

    /// Going forward or back from where playback is.
    pub open spec fn seek_by(self, delta: nat, forward: bool, reported: nat) -> Option<CommandView> {
        let from = self.position(reported);
        let target = if forward {
            if from + delta <= time::MAX_NANOS {
                from + delta
            } else {
                time::MAX_NANOS as nat
            }
        } else if from >= delta {
            (from - delta) as nat
        } else {
            0
        };
        self.seek(target)
    }

    /// Something is loaded and not yet at its end.
    pub open spec fn playing(self, empty: bool) -> bool {
        self.file is Some && !empty
    }

    /// Playback at one moment.
    pub open spec fn snapshot(self, output: Output) -> SnapshotView {
        SnapshotView {
            position: self.position(output.position@),
            duration: self.duration,
            volume: self.volume,
            is_paused: output.paused,
        }
    }
}

impl Player {
    #[verifier::type_invariant]
    spec fn in_range(self) -> bool {
        self.volume <= 100 && is_preset(self.speed)
    }

    /// Nothing is loaded; the speed is the usual one, and the volume the given one, or full where
    /// that is greater.
    pub fn new(default_volume: u8) -> (player: Player)
        ensures
            player@ == (PlayerView {
                file: None,
                duration: None,
                volume: at_most_full(default_volume),
                speed: USUAL_SPEED,
            }),
    {
        Player {
            file: None,
            duration: None,
            volume: limit_volume(default_volume),
            speed: USUAL_SPEED,
        }
    }

    /// Playback at this moment.
    pub fn snapshot(&self, output: &Output) -> (snapshot: Option<PlaybackSnapshot>)
        ensures
            snapshot matches Some(s) && s@ == self@.snapshot(*output),
    {
        Some(
            PlaybackSnapshot {
                position: self.current_position(output),
                duration: self.duration,
                volume: self.volume,
                is_paused: self.is_paused(output),
            },
        )
    }

    /// What was asked to be loaded is loaded, or nothing is where that failed.
    pub fn load(&mut self, track: Track, outcome: LoadOutcome)
        ensures
            final(self)@ == (match outcome {
                LoadOutcome::Loaded(duration) => PlayerView {
                    file: Some(track@),
                    duration: optional_span(duration),
                    ..old(self)@
                },
                LoadOutcome::Failed(_) => old(self)@.stopped(),
            }),
    {
        proof {
            use_type_invariant(&*self);
        }
        match outcome {
            LoadOutcome::Loaded(duration) => {
                self.file = Some(track);
                self.duration = duration;
            },
            LoadOutcome::Failed(_) => {
                self.file = None;
                self.duration = None;
            },
        }
    }

    /// What the output is told once a file has been handed to it: the volume, the speed, and the
    /// place to begin at unless that is the beginning.
    pub fn load_commands(&self, start_at: Duration) -> (commands: (
        Command,
        Command,
        Option<Command>,
    ))
        ensures
            commands.0@ == CommandView::SetVolume(self@.volume),
            commands.1@ == CommandView::SetSpeed(self@.speed),
            optional_command(commands.2) == (if start_at@ == 0 {
                None
            } else {
                Some(CommandView::Seek(start_at@))
            }),
    {
        (
            Command::SetVolume(self.volume),
            Command::SetSpeed(self.speed),
            if start_at.is_zero() {
                None
            } else {
                Some(Command::Seek(start_at))
            },
        )
    }

    /// Plays on where the output is paused, and pauses it otherwise.
    pub fn play_pause(&self, output: &Output) -> (command: Command)
        ensures
            command@ == (if output.paused {
                CommandView::Play
            } else {
                CommandView::Pause
            }),
    {
        if self.is_paused(output) {
            self.resume()
        } else {
            self.pause()
        }
    }

    pub fn pause(&self) -> (command: Command)
        ensures
            command@ == CommandView::Pause,
    {
        Command::Pause
    }

    pub fn resume(&self) -> (command: Command)
        ensures
            command@ == CommandView::Play,
    {
        Command::Play
    }

    /// Nothing is loaded any more.
    pub fn stop(&mut self) -> (command: Command)
        ensures
            final(self)@ == old(self)@.stopped(),
            command@ == CommandView::Stop,
    {
        proof {
            use_type_invariant(&*self);
        }
        self.file = None;
        self.duration = None;
        Command::Stop
    }

    /// Goes forward or back from where playback is, but not beyond the beginning or the end.
    pub fn seek_relative(&self, delta: Duration, forward: bool, output: &Output) -> (command: Option<
        Command,
    >)
        ensures
            optional_command(command) == self@.seek_by(delta@, forward, output.position@),
    {
        let current = self.current_position(output);
        let mut target = if forward {
            current.saturating_add(delta)
        } else {
            current.saturating_sub(delta)
        };
        if let Some(end) = self.duration {
            target = target.shorter(end);
        }
        self.seek_to(target)
    }

    /// Sets the volume, to the full one where more is asked for.
    pub fn restart_with_volume(&mut self, volume: u8) -> (command: Command)
        ensures
            final(self)@ == (PlayerView { volume: at_most_full(volume), ..old(self)@ }),
            command@ == CommandView::SetVolume(at_most_full(volume)),
    {
        proof {
            use_type_invariant(&*self);
        }
        self.volume = limit_volume(volume);
        Command::SetVolume(self.volume)
    }

    /// Plays at the next faster or slower speed.
    pub fn change_speed(&mut self, faster: bool) -> (command: Command)
        ensures
            final(self)@ == (PlayerView {
                speed: next_speed(old(self)@.speed, faster),
                ..old(self)@
            }),
            command@ == CommandView::SetSpeed(next_speed(old(self)@.speed, faster)),
    {
        proof {
            use_type_invariant(&*self);
        }
        let next: u16 = if faster {
            if self.speed <= FASTEST - SPEED_STEP {
                self.speed + SPEED_STEP
            } else {
                FASTEST
            }
        } else if self.speed >= SLOWEST + SPEED_STEP {
            self.speed - SPEED_STEP
        } else {
            SLOWEST
        };
        self.speed = next;
        Command::SetSpeed(next)
    }

    /// The speed, which is one of those that can be chosen.
    pub fn speed(&self) -> (speed: u16)
        ensures
            speed == self@.speed,
            is_preset(speed),
    {
        proof {
            use_type_invariant(self);
        }
        self.speed
    }

    /// Goes to a place, but not beyond the end.
    pub fn seek_to(&self, target: Duration) -> (command: Option<Command>)
        ensures
            optional_command(command) == self@.seek(target@),
    {
        if self.file.is_none() {
            return None;
        }
        let clamped = match self.duration {
            Some(end) => target.shorter(end),
            None => target,
        };
        Some(Command::Seek(clamped))
    }

    /// Notices that a file has come to its end: it is no longer loaded then, and is handed back.
    pub fn tick(&mut self, empty: bool) -> (finished: Option<Track>)
        ensures
            empty && old(self)@.file is Some ==> final(self)@ == old(self)@.stopped()
                && optional_track(finished) == old(self)@.file,
            !(empty && old(self)@.file is Some) ==> final(self)@ == old(self)@ && finished is None,
    {
        proof {
            use_type_invariant(&*self);
        }
        if !empty {
            return None;
        }
        let mut finished: Option<Track> = None;
        std::mem::swap(&mut finished, &mut self.file);
        if finished.is_some() {
            self.duration = None;
        }
        finished
    }

    pub fn is_playing(&self, output: &Output) -> (playing: bool)
        ensures
            playing == self@.playing(output.empty),
    {
        self.file.is_some() && !output.empty
    }

    pub fn is_paused(&self, output: &Output) -> (paused: bool)
        ensures
            paused == output.paused,
    {
        output.paused
    }

    /// How far playback has come.
    pub fn current_position(&self, output: &Output) -> (position: Duration)
        ensures
            position@ == self@.position(output.position@),
    {
        if self.file.is_none() {
            Duration::zero()
        } else {
            output.position
        }
    }

    /// The length of what is loaded, where it is known.
    pub fn duration(&self) -> (duration: Option<Duration>)
        ensures
            optional_span(duration) == self@.duration,
    {
        self.duration
    }

    /// What is loaded.
    pub fn current_file(&self) -> (file: Option<&Track>)
        ensures
            match file {
                Some(track) => self@.file == Some(track@),
                None => self@.file is None,
            },
    {
        self.file.as_ref()
    }

    /// The volume, which is never greater than the full one.
    pub fn volume(&self) -> (volume: u8)
        ensures
            volume == self@.volume,
            volume <= 100,
    {
        proof {
            use_type_invariant(self);
        }
        self.volume
    }
}

fn limit_volume(volume: u8) -> (limited: u8)
    ensures
        limited == at_most_full(volume),
{
    if volume <= 100 {
        volume
    } else {
        100
    }
}

/// Faster and slower lead from one speed that can be chosen to another, and back, unless there is
/// none further on.
pub proof fn law_speed_steps(speed: u16, faster: bool)
    requires
        is_preset(speed),
    ensures
        is_preset(next_speed(speed, faster)),
        is_preset(USUAL_SPEED),
        next_speed(speed, faster) != speed ==> next_speed(next_speed(speed, faster), !faster)
            == speed,
        next_speed(speed, true) == speed <==> speed == FASTEST,
        next_speed(speed, false) == speed <==> speed == SLOWEST,
{
}

/// Seeking stays within what is loaded: never beyond a known end.
pub proof fn law_seek_within_track(player: PlayerView, target: nat)
    ensures
        player.file is None <==> player.seek(target) is None,
        player.seek(target) matches Some(CommandView::Seek(place)) ==> place <= target && (
        player.duration matches Some(end) ==> place <= end),
{
}

/// Going back as far as one went forward leads to where one was, unless an end was in the way.
pub proof fn law_seek_there_and_back(player: PlayerView, from: nat, delta: nat)
    requires
        player.file is Some,
        from + delta <= time::MAX_NANOS,
        player.duration matches Some(end) ==> from + delta <= end,
    ensures
        player.seek_by(delta, true, from) == Some(CommandView::Seek(from + delta)),
        player.seek_by(delta, false, from + delta) == Some(CommandView::Seek(from)),
{
}

}
