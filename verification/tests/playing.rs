use booktui::player::{Command, LoadFailure, LoadOutcome, Output, Player, Track};
use booktui::time::Duration;

fn track(name: &str) -> Track {
    Track {
        path: format!("/b/{name}").into_bytes(),
        canonical_key: format!("/b/{name}"),
        media_key: format!("{name}::1"),
    }
}

fn output(position: u64) -> Output {
    Output {
        empty: false,
        paused: false,
        position: Duration::from_secs(position),
    }
}

fn loaded(length: Option<u64>) -> Player {
    let mut player = Player::new(70);
    player.load(
        track("one.mp3"),
        LoadOutcome::Loaded(length.map(Duration::from_secs)),
    );
    player
}

fn place(command: Option<Command>) -> Option<u64> {
    match command {
        Some(Command::Seek(target)) => Some(target.as_secs()),
        Some(_) => panic!("not a seek"),
        None => None,
    }
}

#[test]
fn a_new_player_has_nothing_loaded() {
    let player = Player::new(130);
    assert_eq!(player.volume(), 100);
    assert!(player.current_file().is_none());
    assert_eq!(player.duration(), None);
    assert_eq!(player.current_position(&output(5)), Duration::zero());
    assert!(!player.is_playing(&output(5)));
    assert_eq!(place(player.seek_to(Duration::from_secs(3))), None);
    let snapshot = player.snapshot(&output(5)).unwrap();
    assert_eq!(snapshot.position, Duration::zero());
    assert_eq!(snapshot.volume, 100);
    assert!(!snapshot.is_paused);
}

#[test]
fn loading_keeps_file_and_length() {
    let player = loaded(Some(100));
    assert_eq!(player.current_file().unwrap().path, b"/b/one.mp3");
    assert_eq!(player.duration(), Some(Duration::from_secs(100)));
    assert!(player.is_playing(&output(5)));
    let snapshot = player.snapshot(&output(5)).unwrap();
    assert_eq!(snapshot.position, Duration::from_secs(5));
    assert_eq!(snapshot.duration, Some(Duration::from_secs(100)));
}

#[test]
fn failed_loads_leave_nothing_loaded() {
    let mut player = loaded(Some(100));
    player.load(track("two.mp3"), LoadOutcome::Failed(LoadFailure::Decode));
    assert!(player.current_file().is_none());
    assert_eq!(player.duration(), None);
    let path = b"/b/two.mp3".to_vec();
    assert_eq!(LoadFailure::Open.message(&path), "failed to open /b/two.mp3");
    assert_eq!(LoadFailure::Decode.message(&path), "failed to decode /b/two.mp3");
    assert_eq!(LoadFailure::Seek.message(&path), "failed to seek /b/two.mp3");
}

#[test]
fn seeking_stays_within_the_file() {
    let player = loaded(Some(100));
    assert_eq!(place(player.seek_to(Duration::from_secs(40))), Some(40));
    assert_eq!(place(player.seek_to(Duration::from_secs(140))), Some(100));
    let step = Duration::from_secs(10);
    assert_eq!(place(player.seek_relative(step, true, &output(50))), Some(60));
    assert_eq!(place(player.seek_relative(step, false, &output(60))), Some(50));
    assert_eq!(place(player.seek_relative(step, true, &output(95))), Some(100));
    assert_eq!(place(player.seek_relative(step, false, &output(5))), Some(0));
    let endless = loaded(None);
    assert_eq!(place(endless.seek_to(Duration::from_secs(140))), Some(140));
}

#[test]
fn pausing_and_playing_on() {
    let player = loaded(None);
    assert!(matches!(player.play_pause(&output(1)), Command::Pause));
    let paused = Output {
        paused: true,
        ..output(1)
    };
    assert!(matches!(player.play_pause(&paused), Command::Play));
    assert!(player.is_paused(&paused));
    assert!(matches!(player.pause(), Command::Pause));
    assert!(matches!(player.resume(), Command::Play));
}

#[test]
fn volume_is_limited() {
    let mut player = Player::new(50);
    assert!(matches!(player.restart_with_volume(200), Command::SetVolume(100)));
    assert_eq!(player.volume(), 100);
    assert!(matches!(player.restart_with_volume(0), Command::SetVolume(0)));
    assert_eq!(player.volume(), 0);
}

#[test]
fn loading_tells_volume_and_place() {
    let player = Player::new(30);
    let (volume, speed, seek) = player.load_commands(Duration::zero());
    assert!(matches!(volume, Command::SetVolume(30)));
    assert!(matches!(speed, Command::SetSpeed(100)));
    assert!(seek.is_none());
    let (_, _, seek) = player.load_commands(Duration::from_secs(9));
    assert_eq!(place(seek), Some(9));
}

#[test]
fn the_end_of_a_file_is_noticed_once() {
    let mut player = loaded(Some(100));
    assert!(player.tick(false).is_none());
    assert_eq!(player.tick(true).unwrap().canonical_key, "/b/one.mp3");
    assert!(player.tick(true).is_none());
    assert!(player.current_file().is_none());
    assert!(matches!(loaded(None).stop(), Command::Stop));
}

#[test]
fn speeds_are_presets() {
    let mut player = Player::new(50);
    let mut speeds = Vec::new();
    for faster in [true, true, true, true, true, false, false, false, false, false, false, false] {
        match player.change_speed(faster) {
            Command::SetSpeed(speed) => speeds.push(speed),
            other => panic!("{other:?}"),
        }
        assert_eq!(player.speed(), *speeds.last().unwrap());
    }
    assert_eq!(speeds, [125, 150, 175, 200, 200, 175, 150, 125, 100, 75, 50, 50]);
    assert!(matches!(player.load_commands(Duration::zero()).1, Command::SetSpeed(50)));
}
